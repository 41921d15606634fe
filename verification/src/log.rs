//! The entries of the log, the chain of shared nodes that holds them, and
//! the state that the log keeps about that chain.

use crate::dumb_queries::{parsed, QueryMatcher};
use crate::event::{Event, EventView};
use crate::model::{
    accepts, added, all_events, is_first_selected, lemma_none_selected,
    lemma_pruned_is_longest_prefix, lemma_selected_from_first, lemma_total_events_of_prefix,
    none_selected, oldest_height, pruned, read, read_with, selected, steps_to, total_events,
    well_formed, within_limits, EntryView, IterError, IterView, LogLimits,
};
use crate::outside::share;
use std::sync::Arc;
use vstd::prelude::*;
use vstd::std_specs::convert::FromSpecImpl;

verus! {

/// The height of a block in the chain.
#[derive(Clone, Copy, Debug, PartialEq, Eq, Structural)]
pub struct BlockHeight(pub u64);

impl From<u64> for BlockHeight {
    fn from(height: u64) -> (block_height: BlockHeight) {
        BlockHeight(height)
    }
}

impl FromSpecImpl<u64> for BlockHeight {
    open spec fn obeys_from_spec() -> bool {
        true
    }

    open spec fn from_spec(height: u64) -> BlockHeight {
        BlockHeight(height)
    }
}

/// What the views of a list of events are.
pub open spec fn event_views(events: Seq<Event>) -> Seq<EventView> {
    Seq::new(events.len(), |i: int| events[i]@)
}

/// The events that one block emitted when it was finalized.
#[derive(Debug)]
pub struct LogEntry {
    /// The height of the block.
    pub block_height: BlockHeight,
    /// The events of the block, in the order in which it emitted them.
    pub events: Vec<Event>,
}

impl View for LogEntry {
    type V = EntryView;

    open spec fn view(&self) -> EntryView {
        EntryView { block_height: self.block_height.0, events: event_views(self.events@) }
    }
}

/// A node of the chain: one entry and the node of the next older entry.
/// A node never changes once it is made, and several chains may share it.
#[derive(Debug)]
struct LogNode {
    entry: Arc<LogEntry>,
    next: Option<Arc<LogNode>>,
}

/// The entries that are reached from `head`, newest first.
closed spec fn chain(head: Option<Arc<LogNode>>) -> Seq<EntryView>
    decreases head,
{
    match head {
        None => Seq::empty(),
        Some(node) => seq![node.entry@] + chain(node.next),
    }
}

/// A view of the log as it was at one moment: later changes to the log do
/// not reach it, and it keeps alive the nodes that it leads to.
#[derive(Debug)]
pub struct EventLogSnapshot {
    oldest_height: BlockHeight,
    num_events: usize,
    head: Arc<LogNode>,
}

impl View for EventLogSnapshot {
    type V = Seq<EntryView>;

    closed spec fn view(&self) -> Seq<EntryView> {
        chain(Some(self.head))
    }
}

impl EventLogSnapshot {
    #[verifier::type_invariant]
    spec fn consistent(self) -> bool {
        &&& well_formed(self@)
        &&& self.num_events == total_events(self@)
        &&& self.oldest_height.0 == oldest_height(self@)
    }

    /// The number of events in all entries of the snapshot.
    pub fn num_events(&self) -> (count: usize)
        ensures
            count == total_events(self@),
    {
        proof {
            use_type_invariant(self);
        }
        self.num_events
    }

    /// The height of the oldest entry of the snapshot.
    pub fn oldest_height(&self) -> (height: BlockHeight)
        ensures
            height.0 == oldest_height(self@),
    {
        proof {
            use_type_invariant(self);
        }
        self.oldest_height
    }
}

/// The state of the log that a lock protects: the newest node of the
/// chain, the number of events in the chain, and the height of its oldest
/// entry.
#[derive(Debug)]
pub struct EventLogInnerMux {
    num_events: usize,
    oldest_height: BlockHeight,
    head: Option<Arc<LogNode>>,
}

impl View for EventLogInnerMux {
    type V = Seq<EntryView>;

    closed spec fn view(&self) -> Seq<EntryView> {
        chain(self.head)
    }
}

impl EventLogInnerMux {
    #[verifier::type_invariant]
    spec fn consistent(self) -> bool {
        &&& well_formed(self@)
        &&& self.num_events == total_events(self@)
        &&& self.oldest_height.0 == oldest_height(self@)
    }

    /// A log without entries.
    pub fn new() -> (log: EventLogInnerMux)
        ensures
            log@ == Seq::<EntryView>::empty(),
    {
        EventLogInnerMux { num_events: 0, oldest_height: BlockHeight(0), head: None }
    }

    /// The number of events in all entries.
    pub fn num_events(&self) -> (count: usize)
        ensures
            count == total_events(self@),
    {
        proof {
            use_type_invariant(self);
        }
        self.num_events
    }

    /// The height of the oldest entry, or 0 where the log is empty.
    pub fn oldest_height(&self) -> (height: BlockHeight)
        ensures
            height.0 == oldest_height(self@),
    {
        proof {
            use_type_invariant(self);
        }
        self.oldest_height
    }

    /// Whether `entry` may be added: it has no events, or it is above the
    /// newest entry and the count of events still fits.
    pub fn accepts(&self, entry: &LogEntry) -> (accepted: bool)
        ensures
            accepted == (entry@.events.len() == 0 || accepts(self@, entry@)),
    {
        proof {
            use_type_invariant(self);
        }
        if entry.events.len() == 0 {
            return true;
        }
        let above = match &self.head {
            None => true,
            Some(node) => node.entry.block_height.0 < entry.block_height.0,
        };
        above && entry.events.len() <= usize::MAX - self.num_events
    }

    /// Adds an entry on top of the log. An entry without events is not
    /// stored, and leaves the log as it was.
    pub fn add(&mut self, entry: LogEntry)
        requires
            entry@.events.len() > 0 ==> accepts(old(self)@, entry@),
        ensures
            final(self)@ == added(old(self)@, entry@),
            entry@.events.len() == 0 ==> *final(self) == *old(self),
            well_formed(final(self)@),
    {
        proof {
            use_type_invariant(&*self);
            crate::model::lemma_added_is_well_formed(self@, entry@);
        }
        if entry.events.len() == 0 {
            return ;
        }
        let num_events = self.num_events + entry.events.len();
        let (oldest_height, next) = match &self.head {
            None => (entry.block_height, None),
            Some(node) => (self.oldest_height, Some(share(node))),
        };
        let head = Arc::new(LogNode { entry: Arc::new(entry), next });
        *self = EventLogInnerMux { num_events, oldest_height, head: Some(head) };
    }

    /// Evicts the oldest entries until the log is within both limits.
    ///
    /// The nodes that leave the log are not changed: a snapshot or an
    /// iterator that leads to them still does.
    pub fn prune(&mut self, limits: LogLimits)
        ensures
            final(self)@ == pruned(old(self)@, limits),
            within_limits(final(self)@, limits),
            well_formed(final(self)@),
    {
        proof {
            use_type_invariant(&*self);
            crate::model::lemma_pruned_is_prefix(self@, limits);
        }
        let newest = match &self.head {
            None => {
                return ;
            },
            Some(node) => node.entry.block_height.0,
        };
        let ghost log = self@;
        if self.num_events <= limits.max_events && newest - self.oldest_height.0
            <= limits.max_height_diff {
            return ;
        }
        let mut kept: Vec<Arc<LogEntry>> = Vec::new();
        let mut count: usize = 0;
        let mut cursor: &Option<Arc<LogNode>> = &self.head;
        let ghost mut k: int = 0;
        loop
            invariant
                well_formed(log),
                log.len() > 0,
                newest == log[0].block_height,
                0 <= k <= log.len(),
                chain(*cursor) == log.skip(k),
                kept@.len() == k,
                forall|i: int| 0 <= i < k ==> (#[trigger] kept@[i])@ == log[i],
                count == total_events(log.take(k)),
                within_limits(log.take(k), limits),
            ensures
                well_formed(log),
                0 <= k <= log.len(),
                kept@.len() == k,
                forall|i: int| 0 <= i < k ==> (#[trigger] kept@[i])@ == log[i],
                count == total_events(log.take(k)),
                within_limits(log.take(k), limits),
                k < log.len() ==> !within_limits(log.take(k + 1), limits),
            decreases log.len() - k,
        {
            match cursor {
                None => {
                    break ;
                },
                Some(node) => {
                    proof {
                        assert(log.skip(k)[0] == node.entry@);
                        assert(chain(node.next) =~= log.skip(k + 1)) by {
                            assert((seq![node.entry@] + chain(node.next)).drop_first() =~= chain(
                                node.next,
                            ));
                        }
                        lemma_total_events_of_prefix(log, k);
                    }
                    let len = node.entry.events.len();
                    let height = node.entry.block_height.0;
                    if len > limits.max_events - count || newest - height
                        > limits.max_height_diff {
                        break ;
                    }
                    kept.push(share(&node.entry));
                    count += len;
                    cursor = &node.next;
                    proof {
                        k = k + 1;
                    }
                },
            }
        }
        let ghost retained = log.take(k);
        proof {
            lemma_pruned_is_longest_prefix(log, limits, k);
        }
        let oldest_height = if kept.len() == 0 {
            BlockHeight(0)
        } else {
            kept[kept.len() - 1].block_height
        };
        let mut head: Option<Arc<LogNode>> = None;
        let mut i: usize = kept.len();
        while i > 0
            invariant
                i <= kept@.len(),
                kept@.len() == k == retained.len(),
                forall|j: int| 0 <= j < k ==> (#[trigger] kept@[j])@ == retained[j],
                chain(head) == retained.skip(i as int),
            decreases i,
        {
            i -= 1;
            let node = LogNode { entry: share(&kept[i]), next: head };
            proof {
                assert(seq![retained[i as int]] + retained.skip(i + 1) =~= retained.skip(
                    i as int,
                ));
            }
            head = Some(Arc::new(node));
        }
        proof {
            assert(retained.skip(0) =~= retained);
        }
        *self = EventLogInnerMux { num_events: count, oldest_height, head };
    }

    /// The log as it is now, or `None` where it has no entries.
    pub fn snapshot(&self) -> (snapshot: Option<EventLogSnapshot>)
        ensures
            match snapshot {
                Some(s) => s@ == self@ && self@.len() > 0,
                None => self@.len() == 0,
            },
            well_formed(self@),
    {
        proof {
            use_type_invariant(self);
        }
        match &self.head {
            None => None,
            Some(node) => Some(
                EventLogSnapshot {
                    oldest_height: self.oldest_height,
                    num_events: self.num_events,
                    head: share(node),
                },
            ),
        }
    }

    /// Makes the log what `snapshot` holds.
    pub fn install_snapshot(&mut self, snapshot: EventLogSnapshot)
        ensures
            final(self)@ == snapshot@,
            well_formed(final(self)@),
    {
        proof {
            use_type_invariant(&snapshot);
        }
        *self = EventLogInnerMux {
            num_events: snapshot.num_events,
            oldest_height: snapshot.oldest_height,
            head: Some(snapshot.head),
        };
    }
}

/// A pass over the events of a snapshot, newest entry first, that yields
/// the events which a query selects. It leads to the nodes of the snapshot
/// by itself, so that what is added to the log or evicted from it while
/// the pass goes on does not change what it yields.
#[derive(Debug)]
pub struct EventLogIterator {
    /// The position in the events of `node` of the next event to look at.
    index: usize,
    /// The query that selects the events.
    query: QueryMatcher,
    /// The node whose events are looked at, `None` once the pass is over.
    node: Option<Arc<LogNode>>,
}

/// The events that a pass at position `index` of `node` has before it.
closed spec fn events_from(node: Option<Arc<LogNode>>, index: int) -> Seq<EventView> {
    match node {
        None => Seq::empty(),
        Some(n) => (if 0 <= index <= n.entry@.events.len() {
            n.entry@.events.skip(index)
        } else {
            Seq::empty()
        }) + all_events(chain(n.next)),
    }
}

/// A bound on the steps that a pass at position `index` of `node` has before it.
closed spec fn steps_from(node: Option<Arc<LogNode>>, index: int) -> nat {
    match node {
        None => 0,
        Some(n) => (1 + (if 0 <= index <= n.entry@.events.len() {
            n.entry@.events.len() - index
        } else {
            0
        }) + chain(n.next).len() + total_events(chain(n.next))) as nat,
    }
}

impl View for EventLogIterator {
    type V = IterView;

    closed spec fn view(&self) -> IterView {
        IterView { remaining: events_from(self.node, self.index as int), query: self.query@ }
    }
}

impl EventLogIterator {
    /// The next event that the query selects, if there is one. The events
    /// before it are passed over.
    pub fn next(&mut self) -> (event: Option<Event>)
        ensures
            steps_to(old(self)@, yielded(event), final(self)@),
    {
        let ghost start = self@.remaining;
        let ghost query = self@.query;
        let ghost mut passed: int = 0;
        loop
            invariant
                start == old(self)@.remaining,
                query == old(self)@.query,
                self@.query == query,
                0 <= passed <= start.len(),
                self@.remaining == start.skip(passed),
                forall|j: int| 0 <= j < passed ==> !crate::dumb_queries::query_matches(
                    query,
                    #[trigger] start[j],
                ),
            decreases steps_from(self.node, self.index as int),
        {
            let node = match &self.node {
                None => {
                    return None;
                },
                Some(node) => node,
            };
            let ghost events = node.entry@.events;
            if self.index < node.entry.events.len() {
                let event = &node.entry.events[self.index];
                proof {
                    assert(start.skip(passed)[0] == event@);
                    assert(events.skip(self.index as int + 1) + all_events(chain(node.next))
                        =~= (events.skip(self.index as int) + all_events(chain(node.next))).skip(
                        1,
                    ));
                    assert(start.skip(passed).skip(1) =~= start.skip(passed + 1));
                }
                self.index += 1;
                if self.query.matches(event) {
                    proof {
                        assert(is_first_selected(start, query, passed));
                    }
                    return Some(event.clone());
                }
                proof {
                    passed = passed + 1;
                }
            } else {
                proof {
                    assert(events.skip(events.len() as int) =~= Seq::<EventView>::empty());
                    match &node.next {
                        None => {},
                        Some(next) => {
                            assert(chain(node.next).drop_first() =~= chain(next.next));
                        },
                    }
                }
                let next = match &node.next {
                    None => None,
                    Some(next) => Some(share(next)),
                };
                self.index = 0;
                self.node = next;
            }
        }
    }

    /// All events that the query selects among those that the pass has
    /// before it, in their order.
    pub fn collect(self) -> (events: Vec<Event>)
        ensures
            event_views(events@) == selected(self@.remaining, self@.query),
    {
        let ghost query = self@.query;
        let ghost start = self@.remaining;
        let mut pass = self;
        let mut events: Vec<Event> = Vec::new();
        loop
            invariant
                pass@.query == query,
                event_views(events@) + selected(pass@.remaining, query) == selected(start, query),
            ensures
                event_views(events@) == selected(start, query),
            decreases pass@.remaining.len(),
        {
            let ghost before = pass@.remaining;
            let ghost found = event_views(events@);
            match pass.next() {
                None => {
                    proof {
                        lemma_none_selected(before, query);
                    }
                    break ;
                },
                Some(event) => {
                    proof {
                        let i = choose|i: int|
                            #![trigger is_first_selected(before, query, i)]
                            is_first_selected(before, query, i) && event@ == before[i]
                                && pass@.remaining == before.skip(i + 1);
                        lemma_selected_from_first(before, query, i);
                        assert(found + (seq![before[i]] + selected(before.skip(i + 1), query))
                            =~= (found + seq![event@]) + selected(pass@.remaining, query));
                    }
                    events.push(event);
                },
            }
        }
        events
    }
}

impl EventLogSnapshot {
    /// A pass over the events of the snapshot, with a compiled query.
    pub fn iter(self, matcher: QueryMatcher) -> (pass: EventLogIterator)
        ensures
            pass@ == (IterView { remaining: all_events(self@), query: matcher@ }),
    {
        let ghost entries = self@;
        let pass = EventLogIterator { index: 0, query: matcher, node: Some(self.head) };
        proof {
            match &pass.node {
                None => {},
                Some(node) => {
                    assert(node.entry@.events.skip(0) =~= node.entry@.events);
                    assert(entries.drop_first() =~= chain(node.next));
                },
            }
        }
        pass
    }
}

impl EventLogInnerMux {
    /// A pass over the log as it is now, with a compiled query.
    pub fn try_iter_with_matcher(&self, matcher: QueryMatcher) -> (pass: Result<
        EventLogIterator,
        IterError,
    >)
        ensures
            outcome(pass) == read_with(self@, matcher@),
            well_formed(self@),
    {
        proof {
            use_type_invariant(self);
        }
        match self.snapshot() {
            None => Err(IterError::EmptyLog),
            Some(snapshot) => Ok(snapshot.iter(matcher)),
        }
    }

    /// A pass over the log as it is now, with the text of a query.
    pub fn try_iter(&self, query: &str) -> (pass: Result<EventLogIterator, IterError>)
        ensures
            outcome(pass) == read(self@, query@),
            well_formed(self@),
    {
        proof {
            use_type_invariant(self);
        }
        match compile_query(query) {
            Err(error) => Err(error),
            Ok(matcher) => self.try_iter_with_matcher(matcher),
        }
    }
}

/// Compiles the text of a query for a read of the log. Fails with
/// `InvalidQuery` where the text is no query.
pub fn compile_query(query: &str) -> (compiled: Result<QueryMatcher, IterError>)
    ensures
        match compiled {
            Ok(matcher) => parsed(query@) == Some(matcher@),
            Err(error) => parsed(query@) is None && error == IterError::InvalidQuery,
        },
{
    QueryMatcher::parse(query).ok_or(IterError::InvalidQuery)
}

/// What the result of a step stands for.
pub open spec fn yielded(event: Option<Event>) -> Option<EventView> {
    match event {
        Some(e) => Some(e@),
        None => None,
    }
}

/// What the result of a read stands for.
pub open spec fn outcome(pass: Result<EventLogIterator, IterError>) -> Result<IterView, IterError> {
    match pass {
        Ok(iterator) => Ok(iterator@),
        Err(error) => Err(error),
    }
}

} // verus!
