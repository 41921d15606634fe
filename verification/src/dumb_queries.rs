//! A small query language over events.
//!
//! A query is the fixed head `tm.event='NewBlock'` followed by one or more
//! terms of the form ` AND <kind>.<name>='<value>'`, where `<kind>` is
//! `accepted` or `applied`, `<name>` is made of letters, digits and `_`,
//! and `<value>` holds no quote. An event matches a query when it matches
//! every term: it has the term's kind, and an attribute of that name with
//! that value.

use crate::event::{Event, EventType, EventView};
use vstd::prelude::*;

verus! {

/// One condition of a query.
pub struct TermView {
    pub event_type: EventType,
    pub key: Seq<char>,
    pub value: Seq<char>,
}

pub open spec fn query_head() -> Seq<char> {
    "tm.event='NewBlock'"@
}

pub open spec fn conjunction() -> Seq<char> {
    " AND "@
}

pub open spec fn accepted_prefix() -> Seq<char> {
    "accepted."@
}

pub open spec fn applied_prefix() -> Seq<char> {
    "applied."@
}

pub open spec fn value_opening() -> Seq<char> {
    "='"@
}

pub open spec fn value_closing() -> Seq<char> {
    "'"@
}

pub open spec fn is_name_char(c: char) -> bool {
    ('a' <= c && c <= 'z') || ('A' <= c && c <= 'Z') || ('0' <= c && c <= '9') || c == '_'
}

pub open spec fn is_value_char(c: char) -> bool {
    c != '\''
}

/// Whether `word` stands in `s` at position `pos`.
pub open spec fn has_word_at(s: Seq<char>, pos: int, word: Seq<char>) -> bool {
    0 <= pos && pos + word.len() <= s.len() && s.subrange(pos, pos + word.len()) == word
}

/// Where the run of name characters that starts at `pos` ends.
pub open spec fn name_end(s: Seq<char>, pos: int) -> int
    decreases s.len() - pos,
{
    if 0 <= pos < s.len() && is_name_char(s[pos]) {
        name_end(s, pos + 1)
    } else {
        pos
    }
}

/// Where the run of value characters that starts at `pos` ends.
pub open spec fn value_end(s: Seq<char>, pos: int) -> int
    decreases s.len() - pos,
{
    if 0 <= pos < s.len() && is_value_char(s[pos]) {
        value_end(s, pos + 1)
    } else {
        pos
    }
}

/// The kind that is named at `pos`, and where its name ends.
pub open spec fn kind_at(s: Seq<char>, pos: int) -> Option<(EventType, int)> {
    if has_word_at(s, pos, accepted_prefix()) {
        Some((EventType::Accepted, pos + accepted_prefix().len()))
    } else if has_word_at(s, pos, applied_prefix()) {
        Some((EventType::Applied, pos + applied_prefix().len()))
    } else {
        None
    }
}

/// The term that starts at `pos`, and where it ends.
pub open spec fn term_at(s: Seq<char>, pos: int) -> Option<(TermView, int)> {
    if !has_word_at(s, pos, conjunction()) {
        None
    } else {
        match kind_at(s, pos + conjunction().len()) {
            None => None,
            Some((event_type, key_from)) => {
                let key_to = name_end(s, key_from);
                let value_from = key_to + value_opening().len();
                let value_to = value_end(s, value_from);
                if key_to == key_from || !has_word_at(s, key_to, value_opening()) || value_to
                    == value_from || !has_word_at(s, value_to, value_closing()) {
                    None
                } else {
                    Some(
                        (
                            TermView {
                                event_type,
                                key: s.subrange(key_from, key_to),
                                value: s.subrange(value_from, value_to),
                            },
                            value_to + value_closing().len(),
                        ),
                    )
                }
            },
        }
    }
}

/// The terms that `s` holds from `pos` to its end, if it holds nothing else.
pub open spec fn terms_from(s: Seq<char>, pos: int) -> Option<Seq<TermView>>
    decreases s.len() - pos,
{
    if pos >= s.len() {
        Some(Seq::empty())
    } else {
        match term_at(s, pos) {
            None => None,
            Some((term, next)) => if next <= pos {
                None
            } else {
                match terms_from(s, next) {
                    None => None,
                    Some(rest) => Some(seq![term] + rest),
                }
            },
        }
    }
}

/// The terms of a query, or `None` where the text is no query.
pub open spec fn parsed(query: Seq<char>) -> Option<Seq<TermView>> {
    if !has_word_at(query, 0, query_head()) {
        None
    } else {
        match terms_from(query, query_head().len() as int) {
            None => None,
            Some(terms) => if terms.len() == 0 {
                None
            } else {
                Some(terms)
            },
        }
    }
}

/// Whether the text is a query.
pub open spec fn is_query(query: Seq<char>) -> bool {
    parsed(query) is Some
}

pub open spec fn term_matches(term: TermView, event: EventView) -> bool {
    &&& event.event_type == term.event_type
    &&& event.attributes.contains_key(term.key)
    &&& event.attributes[term.key] == term.value
}

/// Whether an event meets every term.
pub open spec fn query_matches(terms: Seq<TermView>, event: EventView) -> bool {
    forall|i: int| 0 <= i < terms.len() ==> term_matches(#[trigger] terms[i], event)
}

#[derive(Debug)]
struct Term {
    event_type: EventType,
    key: String,
    value: String,
}

impl View for Term {
    type V = TermView;

    closed spec fn view(&self) -> TermView {
        TermView { event_type: self.event_type, key: self.key@, value: self.value@ }
    }
}

/// A compiled query: decides of one event whether the query selects it.
#[derive(Debug)]
pub struct QueryMatcher {
    terms: Vec<Term>,
}

impl View for QueryMatcher {
    type V = Seq<TermView>;

    closed spec fn view(&self) -> Seq<TermView> {
        Seq::new(self.terms@.len(), |i: int| self.terms@[i]@)
    }
}

fn to_chars(s: &str) -> (chars: Vec<char>)
    ensures
        chars@ == s@,
{
    broadcast use vstd::string::group_string_axioms;

    let mut chars: Vec<char> = Vec::new();
    for c in it: s.chars()
        invariant
            it.seq() == s@,
            chars@ == it.seq().take(it.index() as int),
    {
        chars.push(c);
    }
    chars
}

/// Where `word` ends, if it stands in `chars` at position `pos`.
fn word_at(chars: &Vec<char>, pos: usize, word: &str) -> (end: Option<usize>)
    ensures
        match end {
            Some(e) => has_word_at(chars@, pos as int, word@) && e == pos + word@.len(),
            None => !has_word_at(chars@, pos as int, word@),
        },
{
    let n = word.unicode_len();
    if pos > chars.len() || n > chars.len() - pos {
        return None;
    }
    let mut j: usize = 0;
    while j < n
        invariant
            j <= n,
            n == word@.len(),
            pos + n <= chars@.len() <= usize::MAX,
            forall|k: int| 0 <= k < j ==> chars@[pos + k] == word@[k],
        decreases n - j,
    {
        if chars[pos + j] != word.get_char(j) {
            return None;
        }
        j += 1;
    }
    assert(chars@.subrange(pos as int, pos + n) =~= word@);
    Some(pos + n)
}

fn name_char(c: char) -> (yes: bool)
    ensures
        yes == is_name_char(c),
{
    ('a' <= c && c <= 'z') || ('A' <= c && c <= 'Z') || ('0' <= c && c <= '9') || c == '_'
}

fn scan_name(chars: &Vec<char>, from: usize) -> (to: usize)
    requires
        from <= chars@.len(),
    ensures
        to == name_end(chars@, from as int),
        from <= to <= chars@.len(),
{
    let mut to = from;
    while to < chars.len() && name_char(chars[to])
        invariant
            from <= to <= chars@.len(),
            name_end(chars@, from as int) == name_end(chars@, to as int),
        decreases chars@.len() - to,
    {
        to += 1;
    }
    to
}

fn scan_value(chars: &Vec<char>, from: usize) -> (to: usize)
    requires
        from <= chars@.len(),
    ensures
        to == value_end(chars@, from as int),
        from <= to <= chars@.len(),
{
    let mut to = from;
    while to < chars.len() && chars[to] != '\''
        invariant
            from <= to <= chars@.len(),
            value_end(chars@, from as int) == value_end(chars@, to as int),
        decreases chars@.len() - to,
    {
        to += 1;
    }
    to
}

fn scan_kind(chars: &Vec<char>, pos: usize) -> (kind: Option<(EventType, usize)>)
    ensures
        match kind {
            Some((event_type, next)) => kind_at(chars@, pos as int) == Some(
                (event_type, next as int),
            ) && next <= chars@.len(),
            None => kind_at(chars@, pos as int) is None,
        },
{
    if let Some(next) = word_at(chars, pos, "accepted.") {
        Some((EventType::Accepted, next))
    } else if let Some(next) = word_at(chars, pos, "applied.") {
        Some((EventType::Applied, next))
    } else {
        None
    }
}

fn scan_term(query: &str, chars: &Vec<char>, pos: usize) -> (term: Option<(Term, usize)>)
    requires
        chars@ == query@,
    ensures
        match term {
            Some((t, next)) => term_at(query@, pos as int) == Some((t@, next as int)) && next
                <= query@.len(),
            None => term_at(query@, pos as int) is None,
        },
{
    let kind_from = match word_at(chars, pos, " AND ") {
        Some(end) => end,
        None => {
            return None;
        },
    };
    let (event_type, key_from) = match scan_kind(chars, kind_from) {
        Some(kind) => kind,
        None => {
            return None;
        },
    };
    let key_to = scan_name(chars, key_from);
    let value_from = match word_at(chars, key_to, "='") {
        Some(end) => end,
        None => {
            return None;
        },
    };
    let value_to = scan_value(chars, value_from);
    let next = match word_at(chars, value_to, "'") {
        Some(end) => end,
        None => {
            return None;
        },
    };
    if key_to == key_from || value_to == value_from {
        return None;
    }
    let key = query.substring_char(key_from, key_to).to_owned();
    let value = query.substring_char(value_from, value_to).to_owned();
    Some((Term { event_type, key, value }, next))
}

impl Clone for QueryMatcher {
    fn clone(&self) -> (matcher: QueryMatcher)
        ensures
            matcher@ == self@,
    {
        let mut terms: Vec<Term> = Vec::new();
        let mut i: usize = 0;
        while i < self.terms.len()
            invariant
                i <= self.terms@.len(),
                terms@.len() == i,
                forall|j: int| 0 <= j < i ==> (#[trigger] terms@[j])@ == self.terms@[j]@,
            decreases self.terms@.len() - i,
        {
            let term = &self.terms[i];
            terms.push(
                Term {
                    event_type: term.event_type,
                    key: term.key.clone(),
                    value: term.value.clone(),
                },
            );
            i += 1;
        }
        QueryMatcher { terms }
    }
}

impl QueryMatcher {
    /// Compiles a query, or returns `None` where the text is no query.
    pub fn parse(query: &str) -> (matcher: Option<QueryMatcher>)
        ensures
            match matcher {
                Some(m) => parsed(query@) == Some(m@),
                None => parsed(query@) is None,
            },
    {
        let chars = to_chars(query);
        let start = match word_at(&chars, 0, "tm.event='NewBlock'") {
            Some(end) => end,
            None => {
                return None;
            },
        };
        let mut terms: Vec<Term> = Vec::new();
        let mut pos = start;
        while pos < chars.len()
            invariant
                chars@ == query@,
                has_word_at(query@, 0, query_head()),
                start == query_head().len(),
                start <= pos,
                terms_from(query@, start as int) == match terms_from(query@, pos as int) {
                    Some(rest) => Some(Seq::new(terms@.len(), |i: int| terms@[i]@) + rest),
                    None => None,
                },
            decreases chars@.len() - pos,
        {
            match scan_term(query, &chars, pos) {
                None => {
                    return None;
                },
                Some((term, next)) => {
                    if next <= pos {
                        return None;
                    }
                    terms.push(term);
                    pos = next;
                },
            }
        }
        if terms.len() == 0 {
            return None;
        }
        Some(QueryMatcher { terms })
    }

    /// Whether the query selects `event`.
    pub fn matches(&self, event: &Event) -> (selected: bool)
        ensures
            selected == query_matches(self@, event@),
    {
        let mut i: usize = 0;
        while i < self.terms.len()
            invariant
                i <= self.terms@.len(),
                forall|j: int| 0 <= j < i ==> term_matches(#[trigger] self@[j], event@),
            decreases self.terms@.len() - i,
        {
            let term = &self.terms[i];
            let met = event.event_type() == term.event_type && match event.get(&term.key) {
                Some(value) => *value == term.value,
                None => false,
            };
            if !met {
                assert(!term_matches(self@[i as int], event@));
                return false;
            }
            i += 1;
        }
        true
    }
}

/// Whether `s` can be the name of an attribute in a query.
pub open spec fn is_name(s: Seq<char>) -> bool {
    s.len() > 0 && forall|i: int| 0 <= i < s.len() ==> is_name_char(#[trigger] s[i])
}

/// Whether `s` can be the value of an attribute in a query.
pub open spec fn is_value(s: Seq<char>) -> bool {
    s.len() > 0 && forall|i: int| 0 <= i < s.len() ==> is_value_char(#[trigger] s[i])
}

/// Whether a query can hold the term.
pub open spec fn is_term(term: TermView) -> bool {
    &&& term.event_type == EventType::Accepted || term.event_type == EventType::Applied
    &&& is_name(term.key)
    &&& is_value(term.value)
}

pub open spec fn are_terms(terms: Seq<TermView>) -> bool {
    forall|i: int| 0 <= i < terms.len() ==> is_term(#[trigger] terms[i])
}

/// How a query names the kind of a term.
pub open spec fn kind_text(event_type: EventType) -> Seq<char> {
    if event_type == EventType::Accepted {
        accepted_prefix()
    } else {
        applied_prefix()
    }
}

/// How a query writes one term.
pub open spec fn term_text(term: TermView) -> Seq<char> {
    conjunction() + (kind_text(term.event_type) + (term.key + (value_opening() + (term.value
        + value_closing()))))
}

/// How a query writes its terms, one after the other.
pub open spec fn terms_text(terms: Seq<TermView>) -> Seq<char>
    decreases terms.len(),
{
    if terms.len() == 0 {
        Seq::empty()
    } else {
        term_text(terms[0]) + terms_text(terms.drop_first())
    }
}

/// The query that holds the given terms.
pub open spec fn query_text(terms: Seq<TermView>) -> Seq<char> {
    query_head() + terms_text(terms)
}

proof fn lemma_name_end(s: Seq<char>, pos: int)
    requires
        0 <= pos <= s.len(),
    ensures
        pos <= name_end(s, pos) <= s.len(),
        forall|i: int| pos <= i < name_end(s, pos) ==> is_name_char(#[trigger] s[i]),
    decreases s.len() - pos,
{
    if pos < s.len() && is_name_char(s[pos]) {
        lemma_name_end(s, pos + 1);
    }
}

proof fn lemma_value_end(s: Seq<char>, pos: int)
    requires
        0 <= pos <= s.len(),
    ensures
        pos <= value_end(s, pos) <= s.len(),
        forall|i: int| pos <= i < value_end(s, pos) ==> is_value_char(#[trigger] s[i]),
    decreases s.len() - pos,
{
    if pos < s.len() && is_value_char(s[pos]) {
        lemma_value_end(s, pos + 1);
    }
}

proof fn lemma_name_ends_at(s: Seq<char>, pos: int, end: int)
    requires
        0 <= pos <= end <= s.len(),
        forall|i: int| pos <= i < end ==> is_name_char(#[trigger] s[i]),
        end < s.len() ==> !is_name_char(s[end]),
    ensures
        name_end(s, pos) == end,
    decreases end - pos,
{
    if pos < end {
        lemma_name_ends_at(s, pos + 1, end);
    }
}

proof fn lemma_value_ends_at(s: Seq<char>, pos: int, end: int)
    requires
        0 <= pos <= end <= s.len(),
        forall|i: int| pos <= i < end ==> is_value_char(#[trigger] s[i]),
        end < s.len() ==> !is_value_char(s[end]),
    ensures
        value_end(s, pos) == end,
    decreases end - pos,
{
    if pos < end {
        lemma_value_ends_at(s, pos + 1, end);
    }
}

/// Where a text goes on with `word` and then with `rest`, it has `word`
/// at that place and `rest` behind it.
proof fn lemma_word_then_rest(s: Seq<char>, pos: int, word: Seq<char>, rest: Seq<char>)
    requires
        0 <= pos <= s.len(),
        s.skip(pos) == word + rest,
    ensures
        has_word_at(s, pos, word),
        s.skip(pos + word.len()) == rest,
{
    let tail = s.skip(pos);
    assert(tail.len() == word.len() + rest.len());
    assert(s.subrange(pos, pos + word.len()) =~= word) by {
        assert forall|i: int| 0 <= i < word.len() implies s.subrange(pos, pos + word.len())[i]
            == word[i] by {
            assert(tail[i] == s[pos + i]);
        }
    }
    assert(s.skip(pos + word.len()) =~= rest) by {
        assert forall|i: int| 0 <= i < rest.len() implies s.skip(pos + word.len())[i]
            == rest[i] by {
            assert(tail[word.len() + i] == s[pos + word.len() + i]);
        }
    }
}

proof fn lemma_text_of_one_more(term: TermView, rest: Seq<TermView>)
    ensures
        terms_text(seq![term] + rest) == term_text(term) + terms_text(rest),
{
    let all = seq![term] + rest;
    assert(all.drop_first() =~= rest);
    assert(all[0] == term);
}

/// The terms that are read from a place on are terms that a query can
/// hold, and the text from that place on is how a query writes them.
proof fn lemma_terms_read_are_written(s: Seq<char>, pos: int)
    requires
        0 <= pos <= s.len(),
        terms_from(s, pos) is Some,
    ensures
        are_terms(terms_from(s, pos)->0),
        s.skip(pos) == terms_text(terms_from(s, pos)->0),
    decreases s.len() - pos,
{
    if pos >= s.len() {
        assert(s.skip(pos) =~= Seq::<char>::empty());
    } else {
        let (term, next) = term_at(s, pos)->0;
        let rest = terms_from(s, next)->0;
        let (event_type, key_from) = kind_at(s, pos + conjunction().len())->0;
        let key_to = name_end(s, key_from);
        let value_from = key_to + value_opening().len();
        let value_to = value_end(s, value_from);
        lemma_name_end(s, key_from);
        lemma_value_end(s, value_from);
        lemma_terms_read_are_written(s, next);
        assert(is_term(term)) by {
            assert forall|i: int| 0 <= i < term.key.len() implies is_name_char(
                #[trigger] term.key[i],
            ) by {
                assert(term.key[i] == s[key_from + i]);
            }
            assert forall|i: int| 0 <= i < term.value.len() implies is_value_char(
                #[trigger] term.value[i],
            ) by {
                assert(term.value[i] == s[value_from + i]);
            }
        }
        assert(s.subrange(pos, next) =~= term_text(term)) by {
            assert(s.subrange(pos, pos + conjunction().len()) == conjunction());
            assert(s.subrange(pos + conjunction().len(), key_from) == kind_text(event_type));
            assert(s.subrange(key_to, value_from) == value_opening());
            assert(s.subrange(value_to, next) == value_closing());
            assert(s.subrange(pos, next) =~= s.subrange(pos, pos + conjunction().len()) + (
            s.subrange(pos + conjunction().len(), key_from) + (s.subrange(key_from, key_to) + (
            s.subrange(key_to, value_from) + (s.subrange(value_from, value_to) + s.subrange(
                value_to,
                next,
            ))))));
        }
        assert(s.skip(pos) =~= s.subrange(pos, next) + s.skip(next));
        lemma_text_of_one_more(term, rest);
        let terms = seq![term] + rest;
        assert forall|i: int| 0 <= i < terms.len() implies is_term(#[trigger] terms[i]) by {
            if i > 0 {
                assert(terms[i] == rest[i - 1]);
            }
        }
    }
}

/// The text by which a query writes terms is read as those terms.
proof fn lemma_terms_written_are_read(s: Seq<char>, pos: int, terms: Seq<TermView>)
    requires
        0 <= pos <= s.len(),
        are_terms(terms),
        s.skip(pos) == terms_text(terms),
    ensures
        terms_from(s, pos) == Some(terms),
    decreases terms.len(),
{
    reveal_strlit(" AND ");
    reveal_strlit("accepted.");
    reveal_strlit("applied.");
    reveal_strlit("='");
    reveal_strlit("'");
    if terms.len() == 0 {
        assert(s.skip(pos).len() == 0);
    } else {
        let term = terms[0];
        let rest = terms.drop_first();
        assert(is_term(term));
        assert forall|i: int| 0 <= i < rest.len() implies is_term(#[trigger] rest[i]) by {
            assert(rest[i] == terms[i + 1]);
        }
        let after_value = value_closing() + terms_text(rest);
        let after_opening = term.value + after_value;
        let after_key = value_opening() + after_opening;
        let after_kind = term.key + after_key;
        let after_conjunction = kind_text(term.event_type) + after_kind;
        assert(term_text(term) + terms_text(rest) =~= conjunction() + after_conjunction);
        let kind_from = pos + conjunction().len();
        let key_from = kind_from + kind_text(term.event_type).len();
        let key_to = key_from + term.key.len();
        let value_from = key_to + value_opening().len();
        let value_to = value_from + term.value.len();
        let next = value_to + value_closing().len();
        lemma_word_then_rest(s, pos, conjunction(), after_conjunction);
        lemma_word_then_rest(s, kind_from, kind_text(term.event_type), after_kind);
        lemma_word_then_rest(s, key_from, term.key, after_key);
        lemma_word_then_rest(s, key_to, value_opening(), after_opening);
        lemma_word_then_rest(s, value_from, term.value, after_value);
        lemma_word_then_rest(s, value_to, value_closing(), terms_text(rest));
        assert(kind_at(s, kind_from) == Some((term.event_type, key_from))) by {
            if term.event_type == EventType::Applied {
                assert(s.subrange(kind_from, key_from)[1] == 'p');
                assert(s[kind_from + 1] == 'p');
                if has_word_at(s, kind_from, accepted_prefix()) {
                    assert(s.subrange(kind_from, kind_from + accepted_prefix().len())[1] == 'c');
                }
            }
        }
        assert(name_end(s, key_from) == key_to) by {
            assert forall|i: int| key_from <= i < key_to implies is_name_char(#[trigger] s[i]) by {
                assert(s.subrange(key_from, key_to)[i - key_from] == s[i]);
            }
            assert(s.subrange(key_to, value_from)[0] == '=');
            assert(s[key_to] == '=');
            lemma_name_ends_at(s, key_from, key_to);
        }
        assert(value_end(s, value_from) == value_to) by {
            assert forall|i: int| value_from <= i < value_to implies is_value_char(
                #[trigger] s[i],
            ) by {
                assert(s.subrange(value_from, value_to)[i - value_from] == s[i]);
            }
            assert(s.subrange(value_to, next)[0] == '\'');
            assert(s[value_to] == '\'');
            lemma_value_ends_at(s, value_from, value_to);
        }
        assert(term_at(s, pos) == Some((term, next)));
        lemma_terms_written_are_read(s, next, rest);
        assert(seq![term] + rest =~= terms);
    }
}

/// What a query is read as can be written as a query, and the terms are
/// then written as the text of the query has them: the head, and after it
/// each term as ` AND `, the word for its kind, its name, `='`, its
/// value and `'`.
pub proof fn lemma_query_is_the_text_of_its_terms(query: Seq<char>)
    requires
        is_query(query),
    ensures
        parsed(query)->0.len() > 0,
        are_terms(parsed(query)->0),
        query_text(parsed(query)->0) == query,
{
    let start = query_head().len() as int;
    lemma_terms_read_are_written(query, start);
    assert(query =~= query.subrange(0, start) + query.skip(start));
}

/// The text of one or more terms that a query can hold is a query, and
/// is read as those terms.
pub proof fn lemma_text_of_terms_is_a_query(terms: Seq<TermView>)
    requires
        terms.len() > 0,
        are_terms(terms),
    ensures
        parsed(query_text(terms)) == Some(terms),
{
    let query = query_text(terms);
    assert(query.skip(0) =~= query);
    lemma_word_then_rest(query, 0, query_head(), terms_text(terms));
    lemma_terms_written_are_read(query, query_head().len() as int, terms);
}

} // verus!
