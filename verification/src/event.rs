//! Events: a type tag, a level and a set of named string attributes.

use vstd::prelude::*;
use vstd::std_specs::cmp::PartialEqSpecImpl;

verus! {

/// The category of an event.
#[derive(Clone, Copy, Debug, PartialEq, Eq, Structural)]
pub enum EventType {
    /// A transaction was accepted into a block.
    Accepted,
    /// A transaction was applied to the ledger state.
    Applied,
    /// An inter-chain message was handled.
    Ibc,
    /// The outcome of a governance proposal.
    Proposal,
}

/// Whether an event belongs to a whole block or to one transaction.
#[derive(Clone, Copy, Debug, PartialEq, Eq, Structural)]
pub enum EventLevel {
    Block,
    Tx,
}

/// What an [`Event`] stands for: its tag, its level, and a map from
/// attribute names to values.
pub struct EventView {
    pub event_type: EventType,
    pub level: EventLevel,
    pub attributes: Map<Seq<char>, Seq<char>>,
}

/// One fact emitted while a block was finalized.
///
/// The attributes are kept as a list of pairs in which no name occurs twice.
#[derive(Debug)]
pub struct Event {
    event_type: EventType,
    level: EventLevel,
    attributes: Vec<(String, String)>,
}

spec fn has_key(pairs: Seq<(String, String)>, key: Seq<char>) -> bool {
    exists|i: int| 0 <= i < pairs.len() && (#[trigger] pairs[i]).0@ == key
}

spec fn key_index(pairs: Seq<(String, String)>, key: Seq<char>) -> int {
    choose|i: int| 0 <= i < pairs.len() && (#[trigger] pairs[i]).0@ == key
}

spec fn distinct_keys(pairs: Seq<(String, String)>) -> bool {
    forall|i: int, j: int|
        0 <= i < j < pairs.len() ==> (#[trigger] pairs[i]).0@ != (#[trigger] pairs[j]).0@
}

spec fn attribute_map(pairs: Seq<(String, String)>) -> Map<Seq<char>, Seq<char>> {
    Map::new(|k: Seq<char>| has_key(pairs, k), |k: Seq<char>| pairs[key_index(pairs, k)].1@)
}

/// In a list without repeated names, the map holds each pair of the list.
proof fn lemma_map_holds_pair(pairs: Seq<(String, String)>, i: int)
    requires
        distinct_keys(pairs),
        0 <= i < pairs.len(),
    ensures
        attribute_map(pairs).contains_key(pairs[i].0@),
        attribute_map(pairs)[pairs[i].0@] == pairs[i].1@,
{
    assert(has_key(pairs, pairs[i].0@));
}

impl View for Event {
    type V = EventView;

    closed spec fn view(&self) -> EventView {
        EventView {
            event_type: self.event_type,
            level: self.level,
            attributes: attribute_map(self.attributes@),
        }
    }
}

impl Event {
    #[verifier::type_invariant]
    spec fn names_are_distinct(self) -> bool {
        distinct_keys(self.attributes@)
    }

    /// An event without attributes.
    pub fn new(event_type: EventType, level: EventLevel) -> (event: Event)
        ensures
            event@ == (EventView { event_type, level, attributes: Map::empty() }),
    {
        let event = Event { event_type, level, attributes: Vec::new() };
        assert(attribute_map(event.attributes@) =~= Map::empty());
        event
    }

    pub fn event_type(&self) -> (event_type: EventType)
        ensures
            event_type == self@.event_type,
    {
        self.event_type
    }

    pub fn level(&self) -> (level: EventLevel)
        ensures
            level == self@.level,
    {
        self.level
    }

    /// The position of `key` among the attribute names, if it is one of them.
    fn position(&self, key: &String) -> (found: Option<usize>)
        ensures
            match found {
                Some(i) => i < self.attributes@.len() && self.attributes@[i as int].0@ == key@,
                None => !has_key(self.attributes@, key@),
            },
    {
        let mut i: usize = 0;
        while i < self.attributes.len()
            invariant
                i <= self.attributes@.len(),
                forall|j: int| 0 <= j < i ==> (#[trigger] self.attributes@[j]).0@ != key@,
            decreases self.attributes@.len() - i,
        {
            if self.attributes[i].0 == *key {
                return Some(i);
            }
            i += 1;
        }
        None
    }

    /// The value of the attribute called `key`.
    pub fn get(&self, key: &String) -> (value: Option<&String>)
        ensures
            match value {
                Some(v) => self@.attributes.contains_key(key@) && self@.attributes[key@] == v@,
                None => !self@.attributes.contains_key(key@),
            },
    {
        proof {
            use_type_invariant(self);
        }
        match self.position(key) {
            Some(i) => {
                proof {
                    lemma_map_holds_pair(self.attributes@, i as int);
                }
                Some(&self.attributes[i].1)
            },
            None => None,
        }
    }

    /// The same event with the attribute called `key` set to `value`,
    /// whether or not the event had an attribute of that name.
    pub fn with_attribute(self, key: String, value: String) -> (event: Event)
        ensures
            event@ == (EventView {
                attributes: self@.attributes.insert(key@, value@),
                ..self@
            }),
    {
        proof {
            use_type_invariant(&self);
        }
        let ghost before = self.attributes@;
        let ghost k = key@;
        let ghost v = value@;
        let found = self.position(&key);
        let ghost at = match found {
            Some(i) => i as int,
            None => before.len() as int,
        };
        let Event { event_type, level, mut attributes } = self;
        match found {
            Some(i) => {
                attributes.set(i, (key, value));
            },
            None => {
                attributes.push((key, value));
            },
        }
        proof {
            let after = attributes@;
            assert forall|name: Seq<char>|
                attribute_map(after).contains_key(name) <==> attribute_map(before).insert(
                    k,
                    v,
                ).contains_key(name) by {
                if has_key(before, name) {
                    let j = key_index(before, name);
                    assert(after[j].0@ == name);
                }
                if name == k {
                    assert(after[at].0@ == k);
                }
            }
            assert forall|name: Seq<char>| attribute_map(after).contains_key(name) implies
                attribute_map(after)[name] == attribute_map(before).insert(k, v)[name] by {
                let j = key_index(after, name);
                lemma_map_holds_pair(after, j);
                if name != k {
                    lemma_map_holds_pair(before, j);
                }
            }
            assert(attribute_map(after) =~= attribute_map(before).insert(k, v));
        }
        Event { event_type, level, attributes }
    }
}

impl Event {
    /// Whether each attribute of `self` is an attribute of `other`, with
    /// the same value.
    fn within(&self, other: &Event) -> (all: bool)
        ensures
            all == (forall|name: Seq<char>| #[trigger]
                self@.attributes.contains_key(name) ==> other@.attributes.contains_key(name)
                    && other@.attributes[name] == self@.attributes[name]),
    {
        proof {
            use_type_invariant(self);
        }
        let mut i: usize = 0;
        while i < self.attributes.len()
            invariant
                i <= self.attributes@.len(),
                distinct_keys(self.attributes@),
                forall|j: int|
                    0 <= j < i ==> other@.attributes.contains_key(
                        (#[trigger] self.attributes@[j]).0@,
                    ) && other@.attributes[self.attributes@[j].0@] == self.attributes@[j].1@,
            decreases self.attributes@.len() - i,
        {
            let found = match other.get(&self.attributes[i].0) {
                Some(value) => *value == self.attributes[i].1,
                None => false,
            };
            if !found {
                proof {
                    let name = self.attributes@[i as int].0@;
                    lemma_map_holds_pair(self.attributes@, i as int);
                    assert(self@.attributes.contains_key(name));
                    assert(!(other@.attributes.contains_key(name) && other@.attributes[name]
                        == self@.attributes[name]));
                }
                return false;
            }
            i += 1;
        }
        proof {
            assert forall|name: Seq<char>| #[trigger]
                self@.attributes.contains_key(name) implies other@.attributes.contains_key(name)
                && other@.attributes[name] == self@.attributes[name] by {
                let j = key_index(self.attributes@, name);
                lemma_map_holds_pair(self.attributes@, j);
            }
        }
        true
    }
}

impl Clone for Event {
    fn clone(&self) -> (event: Event)
        ensures
            event@ == self@,
    {
        proof {
            use_type_invariant(self);
        }
        let mut attributes: Vec<(String, String)> = Vec::new();
        let mut i: usize = 0;
        while i < self.attributes.len()
            invariant
                i <= self.attributes@.len(),
                attributes@ == self.attributes@.take(i as int),
            decreases self.attributes@.len() - i,
        {
            attributes.push((self.attributes[i].0.clone(), self.attributes[i].1.clone()));
            i += 1;
        }
        assert(attributes@ == self.attributes@);
        Event { event_type: self.event_type, level: self.level, attributes }
    }
}

impl PartialEq for Event {
    /// Two events are equal when they have the same tag, the same level
    /// and the same attributes, in whatever order these were set.
    fn eq(&self, other: &Event) -> (equal: bool) {
        let equal = self.event_type == other.event_type && self.level == other.level
            && self.within(other) && other.within(self);
        proof {
            if equal {
                assert(self@.attributes =~= other@.attributes);
            }
        }
        equal
    }
}

impl PartialEqSpecImpl for Event {
    open spec fn obeys_eq_spec() -> bool {
        true
    }

    open spec fn eq_spec(&self, other: &Event) -> bool {
        self@ == other@
    }
}

} // verus!
