//! The log as a mathematical value: the sequence of the entries that it
//! retains, newest first, and what adding, pruning and reading mean on it.

use crate::dumb_queries::{parsed, query_matches, TermView};
use crate::event::EventView;
use vstd::prelude::*;

verus! {

/// What one entry stands for: a block height and the events of that block.
pub struct EntryView {
    pub block_height: u64,
    pub events: Seq<EventView>,
}

/// The two soft limits on what the log retains.
#[derive(Clone, Copy, Debug, PartialEq, Eq, Structural)]
pub struct LogLimits {
    /// The most events that the log retains.
    pub max_events: usize,
    /// The largest difference between the heights of the newest and of the
    /// oldest entry that the log retains.
    pub max_height_diff: u64,
}

/// The number of events in all entries together.
pub open spec fn total_events(log: Seq<EntryView>) -> nat
    decreases log.len(),
{
    if log.len() == 0 {
        0
    } else {
        log[0].events.len() + total_events(log.drop_first())
    }
}

/// The height of the newest entry, or 0 for an empty log.
pub open spec fn newest_height(log: Seq<EntryView>) -> u64 {
    if log.len() == 0 {
        0
    } else {
        log[0].block_height
    }
}

/// The height of the oldest entry, or 0 for an empty log.
pub open spec fn oldest_height(log: Seq<EntryView>) -> u64 {
    if log.len() == 0 {
        0
    } else {
        log.last().block_height
    }
}

/// How far the newest entry is above the oldest.
pub open spec fn height_span(log: Seq<EntryView>) -> int {
    newest_height(log) - oldest_height(log)
}

/// No entry is without events, and the heights fall strictly from the
/// newest entry to the oldest.
pub open spec fn well_formed(log: Seq<EntryView>) -> bool {
    &&& forall|i: int| 0 <= i < log.len() ==> (#[trigger] log[i]).events.len() > 0
    &&& forall|i: int, j: int|
        0 <= i < j < log.len() ==> (#[trigger] log[i]).block_height > (
        #[trigger] log[j]).block_height
}

pub open spec fn within_limits(log: Seq<EntryView>, limits: LogLimits) -> bool {
    &&& total_events(log) <= limits.max_events
    &&& height_span(log) <= limits.max_height_diff
}

/// The log after its oldest entries were evicted, one by one, until it was
/// within both limits.
pub open spec fn pruned(log: Seq<EntryView>, limits: LogLimits) -> Seq<EntryView>
    decreases log.len(),
{
    if log.len() == 0 || within_limits(log, limits) {
        log
    } else {
        pruned(log.drop_last(), limits)
    }
}

/// Whether an entry with events may be put on top of the log: it is above
/// the newest entry, and the count of events still fits its counter.
pub open spec fn accepts(log: Seq<EntryView>, entry: EntryView) -> bool {
    &&& log.len() > 0 ==> log[0].block_height < entry.block_height
    &&& total_events(log) + entry.events.len() <= usize::MAX
}

/// The log after `entry` was added: unchanged where the entry has no
/// events, else with the entry on top.
pub open spec fn added(log: Seq<EntryView>, entry: EntryView) -> Seq<EntryView> {
    if entry.events.len() == 0 {
        log
    } else {
        seq![entry] + log
    }
}

/// The log after the writer handed it `entry`: an entry that the log
/// accepts is added and the log then pruned; any other entry is dropped.
pub open spec fn logged(log: Seq<EntryView>, entry: EntryView, limits: LogLimits) -> Seq<
    EntryView,
> {
    if entry.events.len() > 0 && accepts(log, entry) {
        pruned(added(log, entry), limits)
    } else {
        log
    }
}

/// The log after each of `entries` was added in turn, the first of them first.
pub open spec fn added_all(log: Seq<EntryView>, entries: Seq<EntryView>) -> Seq<EntryView>
    decreases entries.len(),
{
    if entries.len() == 0 {
        log
    } else {
        added(added_all(log, entries.drop_last()), entries.last())
    }
}

/// The log after the writer handed it each of `entries` in turn.
pub open spec fn logged_all(
    log: Seq<EntryView>,
    entries: Seq<EntryView>,
    limits: LogLimits,
) -> Seq<EntryView>
    decreases entries.len(),
{
    if entries.len() == 0 {
        log
    } else {
        logged(logged_all(log, entries.drop_last(), limits), entries.last(), limits)
    }
}

/// The events of all entries, those of the newest entry first, each batch
/// in its own order.
pub open spec fn all_events(log: Seq<EntryView>) -> Seq<EventView>
    decreases log.len(),
{
    if log.len() == 0 {
        Seq::empty()
    } else {
        log[0].events + all_events(log.drop_first())
    }
}

/// Whether position `i` holds the first event that the query selects.
pub open spec fn is_first_selected(events: Seq<EventView>, query: Seq<TermView>, i: int) -> bool {
    &&& 0 <= i < events.len()
    &&& query_matches(query, events[i])
    &&& forall|j: int| 0 <= j < i ==> !query_matches(query, #[trigger] events[j])
}

pub open spec fn none_selected(events: Seq<EventView>, query: Seq<TermView>) -> bool {
    forall|j: int| 0 <= j < events.len() ==> !query_matches(query, #[trigger] events[j])
}

/// The events that the query selects, in their order.
pub open spec fn selected(events: Seq<EventView>, query: Seq<TermView>) -> Seq<EventView> {
    events.filter(|event: EventView| query_matches(query, event))
}

/// An iterator as a value: the events that it has yet to look at, and the
/// query by which it selects.
pub struct IterView {
    pub remaining: Seq<EventView>,
    pub query: Seq<TermView>,
}

/// Whether one step takes the iterator `before` to the iterator `after`
/// and yields `event`: the step yields the first event that the query
/// selects and leaves the events after it, or, where the query selects
/// none, yields nothing and leaves nothing.
pub open spec fn steps_to(before: IterView, event: Option<EventView>, after: IterView) -> bool {
    &&& after.query == before.query
    &&& match event {
        Some(e) => exists|i: int|
            #![trigger is_first_selected(before.remaining, before.query, i)]
            is_first_selected(before.remaining, before.query, i) && e == before.remaining[i]
                && after.remaining == before.remaining.skip(i + 1),
        None => none_selected(before.remaining, before.query) && after.remaining.len() == 0,
    }
}

/// Why a read of the log yields no iterator.
#[derive(Clone, Copy, Debug, PartialEq, Eq, Structural)]
pub enum IterError {
    /// The text given is no query.
    InvalidQuery,
    /// The log has no entries.
    EmptyLog,
    /// Waiting for entries ran out of time.
    Timeout,
}

/// What reading `log` with a compiled query yields.
pub open spec fn read_with(log: Seq<EntryView>, query: Seq<TermView>) -> Result<
    IterView,
    IterError,
> {
    if log.len() == 0 {
        Err(IterError::EmptyLog)
    } else {
        Ok(IterView { remaining: all_events(log), query })
    }
}

/// What reading `log` with the text of a query yields.
pub open spec fn read(log: Seq<EntryView>, query: Seq<char>) -> Result<IterView, IterError> {
    match parsed(query) {
        None => Err(IterError::InvalidQuery),
        Some(terms) => read_with(log, terms),
    }
}

/// What ended a wait for entries.
#[derive(Clone, Copy, Debug, PartialEq, Eq, Structural)]
pub enum WakeUp {
    /// The log woke its listeners.
    Notified,
    /// The deadline of the wait passed.
    DeadlineElapsed,
}

/// What a reader that waited for entries does once its wait has ended and
/// it has tried to read the log: `None` where it waits again, else what
/// it returns.
///
/// After a wake-up by the log it returns what the read gave, unless the
/// log was empty: then it waits again. After the deadline it returns
/// what the read gave, whatever that is.
pub open spec fn after_wake_up(wake: WakeUp, attempt: Result<IterView, IterError>) -> Option<
    Result<IterView, IterError>,
> {
    if wake == WakeUp::Notified && attempt == Err::<IterView, IterError>(IterError::EmptyLog) {
        None
    } else {
        Some(attempt)
    }
}

pub proof fn lemma_total_events_of_prefix(log: Seq<EntryView>, k: int)
    requires
        0 <= k < log.len(),
    ensures
        total_events(log.take(k + 1)) == total_events(log.take(k)) + log[k].events.len(),
    decreases k,
{
    if k == 0 {
        assert(log.take(1).drop_first() =~= log.take(0));
    } else {
        let rest = log.drop_first();
        lemma_total_events_of_prefix(rest, k - 1);
        assert(log.take(k + 1).drop_first() =~= rest.take(k));
        assert(log.take(k).drop_first() =~= rest.take(k - 1));
    }
}

pub proof fn lemma_total_events_grows(log: Seq<EntryView>, i: int, j: int)
    requires
        0 <= i <= j <= log.len(),
    ensures
        total_events(log.take(i)) <= total_events(log.take(j)),
    decreases j - i,
{
    if i < j {
        lemma_total_events_grows(log, i, j - 1);
        lemma_total_events_of_prefix(log, j - 1);
    }
}

/// Of a well-formed log, a shorter prefix is within the limits whenever a
/// longer one is.
pub proof fn lemma_prefix_within_limits(log: Seq<EntryView>, limits: LogLimits, i: int, j: int)
    requires
        well_formed(log),
        0 <= i <= j <= log.len(),
        within_limits(log.take(j), limits),
    ensures
        within_limits(log.take(i), limits),
{
    lemma_total_events_grows(log, i, j);
}

/// Pruning keeps the longest prefix that is within the limits.
pub proof fn lemma_pruned_is_longest_prefix(log: Seq<EntryView>, limits: LogLimits, k: int)
    requires
        well_formed(log),
        0 <= k <= log.len(),
        within_limits(log.take(k), limits),
        k < log.len() ==> !within_limits(log.take(k + 1), limits),
    ensures
        pruned(log, limits) == log.take(k),
    decreases log.len(),
{
    if k == log.len() {
        assert(log.take(k) =~= log);
    } else {
        assert(log.take(log.len() as int) =~= log);
        if within_limits(log, limits) {
            lemma_prefix_within_limits(log, limits, k + 1, log.len() as int);
        }
        let shorter = log.drop_last();
        assert(shorter.take(k) =~= log.take(k));
        if k < shorter.len() {
            assert(shorter.take(k + 1) =~= log.take(k + 1));
        }
        lemma_pruned_is_longest_prefix(shorter, limits, k);
    }
}

/// Pruning takes entries away from the old end only, and leaves a log that
/// is within the limits.
pub proof fn lemma_pruned_is_prefix(log: Seq<EntryView>, limits: LogLimits)
    ensures
        pruned(log, limits).len() <= log.len(),
        pruned(log, limits) == log.take(pruned(log, limits).len() as int),
        within_limits(pruned(log, limits), limits),
        well_formed(log) ==> well_formed(pruned(log, limits)),
    decreases log.len(),
{
    if log.len() > 0 && !within_limits(log, limits) {
        lemma_pruned_is_prefix(log.drop_last(), limits);
    }
}

pub proof fn lemma_added_is_well_formed(log: Seq<EntryView>, entry: EntryView)
    requires
        well_formed(log),
        entry.events.len() > 0 ==> accepts(log, entry),
    ensures
        well_formed(added(log, entry)),
        total_events(added(log, entry)) == total_events(log) + entry.events.len(),
{
    if entry.events.len() > 0 {
        let after = added(log, entry);
        assert(after.drop_first() =~= log);
    }
}

/// A query that selects none of the events selects nothing.
pub proof fn lemma_none_selected(events: Seq<EventView>, query: Seq<TermView>)
    requires
        none_selected(events, query),
    ensures
        selected(events, query) == Seq::<EventView>::empty(),
    decreases events.len(),
{
    reveal(Seq::filter);
    if events.len() > 0 {
        lemma_none_selected(events.drop_last(), query);
    }
}

/// What a query selects is the first event that it selects, followed by
/// what it selects of the events after that one.
pub proof fn lemma_selected_from_first(events: Seq<EventView>, query: Seq<TermView>, i: int)
    requires
        is_first_selected(events, query, i),
    ensures
        selected(events, query) == seq![events[i]] + selected(events.skip(i + 1), query),
{
    let pred = |event: EventView| query_matches(query, event);
    let before = events.take(i);
    let one = seq![events[i]];
    let after = events.skip(i + 1);
    assert(events =~= before + one + after);
    Seq::filter_distributes_over_add(before + one, after, pred);
    Seq::filter_distributes_over_add(before, one, pred);
    lemma_none_selected(before, query);
    assert(one.filter(pred) =~= one) by {
        reveal_with_fuel(Seq::filter, 2);
    }
}

} // verus!
