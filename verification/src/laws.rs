//! What holds of the log whatever it is handed, stated over its model.

use crate::dumb_queries::is_query;
use crate::model::{
    accepts, added, added_all, height_span, logged, logged_all, pruned, read, selected,
    total_events, well_formed, within_limits, EntryView, IterError, IterView, LogLimits,
};
use vstd::prelude::*;

verus! {

/// Whether each of `entries` has events.
pub open spec fn all_have_events(entries: Seq<EntryView>) -> bool {
    forall|i: int| 0 <= i < entries.len() ==> (#[trigger] entries[i]).events.len() > 0
}

/// Whether none of `entries` has events.
pub open spec fn none_has_events(entries: Seq<EntryView>) -> bool {
    forall|i: int| 0 <= i < entries.len() ==> (#[trigger] entries[i]).events.len() == 0
}

/// Whether the heights of `entries` rise strictly from each to the next.
pub open spec fn heights_rise(entries: Seq<EntryView>) -> bool {
    forall|i: int, j: int|
        0 <= i < j < entries.len() ==> (#[trigger] entries[i]).block_height < (
        #[trigger] entries[j]).block_height
}

/// Entries with events that are added one after the other are all in the
/// log afterwards, the last one added first, on top of what the log held.
pub proof fn lemma_added_entries_stack(log: Seq<EntryView>, entries: Seq<EntryView>)
    requires
        all_have_events(entries),
    ensures
        added_all(log, entries) == entries.reverse() + log,
    decreases entries.len(),
{
    if entries.len() > 0 {
        assert(all_have_events(entries.drop_last()));
        lemma_added_entries_stack(log, entries.drop_last());
    }
}

/// A well-formed log that is within the limits stays so without its
/// newest entry.
proof fn lemma_older_part_within_limits(log: Seq<EntryView>, limits: LogLimits)
    requires
        well_formed(log),
        within_limits(log, limits),
        log.len() > 0,
    ensures
        within_limits(log.drop_first(), limits),
        well_formed(log.drop_first()),
{
    assert(well_formed(log.drop_first()));
}

/// Entries with events and rising heights that the writer hands to an
/// empty log one after the other are all in the log afterwards, the last
/// one first, provided that together they are within the limits of the
/// log: beyond the limits the oldest of them are evicted.
pub proof fn lemma_logged_entries_are_retained(entries: Seq<EntryView>, limits: LogLimits)
    requires
        all_have_events(entries),
        heights_rise(entries),
        within_limits(entries.reverse(), limits),
    ensures
        logged_all(Seq::empty(), entries, limits) == entries.reverse(),
        well_formed(entries.reverse()),
    decreases entries.len(),
{
    let whole = entries.reverse();
    assert(well_formed(whole));
    if entries.len() > 0 {
        let earlier = entries.drop_last();
        assert(earlier.reverse() =~= whole.drop_first());
        lemma_older_part_within_limits(whole, limits);
        assert(all_have_events(earlier));
        assert(heights_rise(earlier));
        lemma_logged_entries_are_retained(earlier, limits);
        assert(seq![entries.last()] + earlier.reverse() =~= whole);
        if earlier.len() > 0 {
            assert(entries[entries.len() - 2].block_height < entries[entries.len()
                - 1].block_height);
        }
    }
}

/// An entry without events changes nothing, whether it is added to the
/// log or handed to it by the writer.
pub proof fn lemma_entry_without_events_changes_nothing(
    log: Seq<EntryView>,
    entry: EntryView,
    limits: LogLimits,
)
    requires
        entry.events.len() == 0,
    ensures
        added(log, entry) == log,
        logged(log, entry, limits) == log,
{
}

/// A log that was handed entries without events only has no entries.
pub proof fn lemma_never_filled_log_is_empty(entries: Seq<EntryView>, limits: LogLimits)
    requires
        none_has_events(entries),
    ensures
        added_all(Seq::empty(), entries) == Seq::<EntryView>::empty(),
        logged_all(Seq::empty(), entries, limits) == Seq::<EntryView>::empty(),
    decreases entries.len(),
{
    if entries.len() > 0 {
        assert(none_has_events(entries.drop_last()));
        lemma_never_filled_log_is_empty(entries.drop_last(), limits);
    }
}

/// A read with a query of a log that was handed entries without events
/// only fails with `EmptyLog`.
pub proof fn lemma_never_filled_log_reads_empty(
    entries: Seq<EntryView>,
    limits: LogLimits,
    query: Seq<char>,
)
    requires
        none_has_events(entries),
        is_query(query),
    ensures
        read(added_all(Seq::empty(), entries), query) == Err::<IterView, IterError>(
            IterError::EmptyLog,
        ),
        read(logged_all(Seq::empty(), entries, limits), query) == Err::<IterView, IterError>(
            IterError::EmptyLog,
        ),
{
    lemma_never_filled_log_is_empty(entries, limits);
}

/// A read with a text that is no query fails with `InvalidQuery`,
/// whatever the log holds.
pub proof fn lemma_invalid_query_is_refused(log: Seq<EntryView>, query: Seq<char>)
    requires
        !is_query(query),
    ensures
        read(log, query) == Err::<IterView, IterError>(IterError::InvalidQuery),
{
}

/// Two reads of the same log with the same query end alike, and where
/// they give iterators, these yield the same events.
pub proof fn lemma_reads_agree(
    log: Seq<EntryView>,
    query: Seq<char>,
    first: Result<IterView, IterError>,
    second: Result<IterView, IterError>,
)
    requires
        first == read(log, query),
        second == read(log, query),
    ensures
        first == second,
        first matches Ok(one) ==> second matches Ok(other) && selected(one.remaining, one.query)
            == selected(other.remaining, other.query),
{
}

/// Whatever the writer hands to a log that is well-formed, the log is
/// well-formed and within its limits afterwards, if it was within them
/// before.
pub proof fn lemma_logged_stays_within_limits(
    log: Seq<EntryView>,
    entry: EntryView,
    limits: LogLimits,
)
    requires
        well_formed(log),
        within_limits(log, limits),
    ensures
        well_formed(logged(log, entry, limits)),
        within_limits(logged(log, entry, limits), limits),
{
    if entry.events.len() > 0 && accepts(log, entry) {
        crate::model::lemma_added_is_well_formed(log, entry);
        crate::model::lemma_pruned_is_prefix(added(log, entry), limits);
    }
}

/// Pruning leaves the newest entries of the log, as many as fit the
/// limits: it leaves a log within the limits, and one entry more would
/// be beyond them.
pub proof fn lemma_pruned_keeps_the_most(log: Seq<EntryView>, limits: LogLimits)
    requires
        well_formed(log),
    ensures
        pruned(log, limits) == log.take(pruned(log, limits).len() as int),
        within_limits(pruned(log, limits), limits),
        pruned(log, limits).len() < log.len() ==> !within_limits(
            log.take(pruned(log, limits).len() as int + 1),
            limits,
        ),
    decreases log.len(),
{
    crate::model::lemma_pruned_is_prefix(log, limits);
    if log.len() > 0 && !within_limits(log, limits) {
        let shorter = log.drop_last();
        assert(well_formed(shorter));
        lemma_pruned_keeps_the_most(shorter, limits);
        crate::model::lemma_pruned_is_prefix(shorter, limits);
        let n = pruned(shorter, limits).len() as int;
        if n < shorter.len() {
            assert(shorter.take(n + 1) =~= log.take(n + 1));
        } else {
            assert(log.take(n + 1) =~= log);
        }
    }
}

} // verus!
