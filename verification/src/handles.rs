//! The handles through which a node uses the log: the log itself, which
//! readers share by clone; the logger, which is its one writer; and the
//! sender, which producers use to reach the logger.
//!
//! The logger holds the state of the log and works on it alone. After
//! each change it puts the new state where the readers find it, under a
//! lock that is held for that exchange only, and wakes the readers that
//! wait. A reader holds the lock only while it copies the state.

use crate::dumb_queries::QueryMatcher;
use crate::log::{
    compile_query, outcome, BlockHeight, EventLogInnerMux, EventLogIterator, EventLogSnapshot,
    LogEntry,
};
use crate::model::{
    after_wake_up, logged, oldest_height, read, read_with, total_events, well_formed,
    within_limits, EntryView, IterError, IterView, LogLimits, WakeUp,
};
use crate::outside::{new_notifier, share};
use event_listener::Event as Notifier;
use event_listener::EventListener as Listener;
use std::sync::Arc;
use tokio::sync::mpsc::{unbounded_channel, UnboundedReceiver, UnboundedSender};
use vstd::prelude::*;
use vstd::rwlock::{RwLock, RwLockPredicate};

verus! {

/// The most events that a log made by [`new`] retains.
pub const MAX_LOG_EVENTS: usize = 50000;

/// The largest difference between the heights of the newest and of the
/// oldest entry that a log made by [`new`] retains.
pub const LOG_BLOCK_HEIGHT_DIFF: u64 = 1000;

/// Whether a log with these limits may be in the state `log` when a
/// reader looks at it: the state is well-formed and within the limits.
pub open spec fn may_hold(limits: LogLimits, log: Seq<EntryView>) -> bool {
    well_formed(log) && within_limits(log, limits)
}

/// What the lock of a log admits: the states that the log may hold.
pub struct WithinLimits {
    pub limits: LogLimits,
}

impl RwLockPredicate<EventLogInnerMux> for WithinLimits {
    open spec fn inv(self, state: EventLogInnerMux) -> bool {
        may_hold(self.limits, state@)
    }
}

struct EventLogInner {
    /// Wakes the readers that wait for entries.
    notifier: Notifier,
    /// The state of the log as the logger last made it.
    lock: RwLock<EventLogInnerMux, WithinLimits>,
    /// The limits that the state is held to.
    limits: LogLimits,
}

/// A log of the events of finalized blocks, as its readers have it. Each
/// reader holds a clone. What a reader finds is what the [`Logger`] of the
/// log last made of it: a well-formed log within the limits.
pub struct EventLog {
    inner: Arc<EventLogInner>,
}

impl Clone for EventLog {
    fn clone(&self) -> (log: EventLog)
        ensures
            log == *self,
    {
        proof {
            use_type_invariant(self);
        }
        EventLog { inner: share(&self.inner) }
    }
}

impl EventLog {
    #[verifier::type_invariant]
    spec fn guarded(self) -> bool {
        self.inner.lock.pred() == (WithinLimits { limits: self.inner.limits })
    }

    /// The limits that the log is held to.
    pub closed spec fn limits(&self) -> LogLimits {
        self.inner.limits
    }

    /// An empty log with the given limits.
    fn new(limits: LogLimits) -> (log: EventLog)
        ensures
            log.limits() == limits,
    {
        let state = EventLogInnerMux::new();
        let lock = RwLock::new(state, Ghost(WithinLimits { limits }));
        EventLog { inner: Arc::new(EventLogInner { notifier: new_notifier(), lock, limits }) }
    }

    /// Makes `snapshot` what the readers find, an empty log where it is
    /// `None`, and wakes those who wait for entries. The lock is held
    /// while the state is exchanged, and released before the wake-up.
    fn publish(&self, snapshot: Option<EventLogSnapshot>)
        requires
            snapshot matches Some(s) ==> may_hold(self.limits(), s@),
    {
        proof {
            use_type_invariant(self);
        }
        let (mut state, guard) = self.inner.lock.acquire_write();
        match snapshot {
            Some(snapshot) => {
                state.install_snapshot(snapshot);
            },
            None => {
                state = EventLogInnerMux::new();
            },
        }
        guard.release_write(state);
        self.inner.notifier.notify(usize::MAX);
    }

    /// The log as it is now, or `None` where it has no entries.
    pub fn snapshot(&self) -> (snapshot: Option<EventLogSnapshot>)
        ensures
            exists|log: Seq<EntryView>| #[trigger]
                may_hold(self.limits(), log) && match snapshot {
                    Some(s) => s@ == log && log.len() > 0,
                    None => log.len() == 0,
                },
    {
        proof {
            use_type_invariant(self);
        }
        let guard = self.inner.lock.acquire_read();
        let snapshot = guard.borrow().snapshot();
        assert(may_hold(self.limits(), guard.view()@));
        guard.release_read();
        snapshot
    }

    /// A pass over the log as it is now, with the text of a query.
    ///
    /// Fails with `InvalidQuery` where the text is no query, whatever the
    /// log holds, and else with `EmptyLog` where the log has no entries.
    pub fn try_iter(&self, query: &str) -> (pass: Result<EventLogIterator, IterError>)
        ensures
            exists|log: Seq<EntryView>| #[trigger]
                may_hold(self.limits(), log) && outcome(pass) == read(log, query@),
    {
        proof {
            use_type_invariant(self);
        }
        match compile_query(query) {
            Err(error) => {
                assert(may_hold(self.limits(), Seq::<EntryView>::empty()));
                Err(error)
            },
            Ok(matcher) => self.try_iter_with_matcher(matcher),
        }
    }

    /// A pass over the log as it is now, with a compiled query.
    pub fn try_iter_with_matcher(&self, matcher: QueryMatcher) -> (pass: Result<
        EventLogIterator,
        IterError,
    >)
        ensures
            exists|log: Seq<EntryView>| #[trigger]
                may_hold(self.limits(), log) && outcome(pass) == read_with(log, matcher@),
    {
        proof {
            use_type_invariant(self);
        }
        let guard = self.inner.lock.acquire_read();
        let pass = guard.borrow().try_iter_with_matcher(matcher);
        assert(may_hold(self.limits(), guard.view()@));
        guard.release_read();
        pass
    }

    /// The number of events that the log holds now.
    pub fn num_events(&self) -> (count: usize)
        ensures
            exists|log: Seq<EntryView>| #[trigger]
                may_hold(self.limits(), log) && count == total_events(log),
            count <= self.limits().max_events,
    {
        proof {
            use_type_invariant(self);
        }
        let guard = self.inner.lock.acquire_read();
        let count = guard.borrow().num_events();
        guard.release_read();
        count
    }

    /// The height of the oldest entry that the log holds now, or 0 where
    /// it holds none.
    pub fn oldest_height(&self) -> (height: BlockHeight)
        ensures
            exists|log: Seq<EntryView>| #[trigger]
                may_hold(self.limits(), log) && height.0 == oldest_height(log),
    {
        proof {
            use_type_invariant(self);
        }
        let guard = self.inner.lock.acquire_read();
        let height = guard.borrow().oldest_height();
        assert(may_hold(self.limits(), guard.view()@));
        guard.release_read();
        height
    }

    /// Registers for the next wake-up of the log. What is added before
    /// this call wakes no listener that it returns.
    pub fn listen(&self) -> (listener: Listener) {
        self.inner.notifier.listen()
    }
}

/// What a reader that waits for entries does next.
#[derive(Debug)]
pub enum WaitStep {
    /// It stops waiting and returns this.
    Done(Result<EventLogIterator, IterError>),
    /// It waits for the next wake-up.
    WaitAgain,
}

impl WaitStep {
    /// `None` where the reader waits again, else what it returns.
    pub open spec fn view(self) -> Option<Result<IterView, IterError>> {
        match self {
            WaitStep::Done(pass) => Some(outcome(pass)),
            WaitStep::WaitAgain => None,
        }
    }

    /// What the reader does when its wait ended by `wake` and its read of
    /// the log then gave `attempt`.
    pub fn after(wake: WakeUp, attempt: Result<EventLogIterator, IterError>) -> (step: WaitStep)
        ensures
            step@ == after_wake_up(wake, outcome(attempt)),
    {
        match wake {
            WakeUp::DeadlineElapsed => WaitStep::Done(attempt),
            WakeUp::Notified => match attempt {
                Err(IterError::EmptyLog) => WaitStep::WaitAgain,
                attempt => WaitStep::Done(attempt),
            },
        }
    }
}

impl EventLog {
    /// One step of a wait for entries: reads the log after the wait ended
    /// by `wake`, and says whether the reader returns or waits again.
    ///
    /// The reader compiles its query once, with [`compile_query`], and
    /// returns at once where that fails. It then registers with
    /// [`EventLog::listen`] and waits for the listener or for its
    /// deadline, whichever comes first, and hands what came to this
    /// function, again and again until the answer is `Done`. After the
    /// deadline the answer is always `Done`.
    pub fn wait_iter(&self, wake: WakeUp, matcher: &QueryMatcher) -> (step: WaitStep)
        ensures
            exists|log: Seq<EntryView>| #[trigger]
                may_hold(self.limits(), log) && step@ == after_wake_up(
                    wake,
                    read_with(log, matcher@),
                ),
            wake == WakeUp::DeadlineElapsed ==> step is Done,
    {
        WaitStep::after(wake, self.try_iter_with_matcher(matcher.clone()))
    }
}

/// The writer of a log: it takes the entries that come out of the queue
/// and adds them to the log. There is one logger for each log, and nothing
/// else changes the log.
pub struct Logger {
    /// Where the readers find the log.
    log: EventLog,
    /// The log as it is after the last entry.
    state: EventLogInnerMux,
    /// The end of the queue at which the entries arrive. The task that
    /// drives the logger waits on it.
    pub receiver: UnboundedReceiver<LogEntry>,
}

impl View for Logger {
    type V = Seq<EntryView>;

    /// What the log holds.
    closed spec fn view(&self) -> Seq<EntryView> {
        self.state@
    }
}

impl Logger {
    /// The log that the logger writes, as its readers have it.
    pub closed spec fn log(&self) -> EventLog {
        self.log
    }

    /// The limits that the log is held to.
    pub open spec fn limits(&self) -> LogLimits {
        self.log().limits()
    }

    /// Adds to the log what the queue handed out, evicts what is then
    /// beyond the limits, lets the readers find the new state and wakes
    /// those who wait.
    ///
    /// An entry without events is not stored. Neither is an entry that is
    /// not above the newest entry of the log. `None` from the queue means
    /// that it is closed for good: `None` is then returned, and only then.
    pub fn log_new_entry(&mut self, received: Option<LogEntry>) -> (done: Option<()>)
        ensures
            done is Some <==> received is Some,
            final(self).log() == old(self).log(),
            final(self)@ == match received {
                Some(entry) => logged(old(self)@, entry@, old(self).limits()),
                None => old(self)@,
            },
    {
        match received {
            None => None,
            Some(entry) => {
                if entry.events.len() > 0 && self.state.accepts(&entry) {
                    self.state.add(entry);
                    self.state.prune(self.log.inner.limits);
                    self.log.publish(self.state.snapshot());
                }
                Some(())
            },
        }
    }

    /// The number of events that the log holds.
    pub fn num_events(&self) -> (count: usize)
        ensures
            count == total_events(self@),
    {
        self.state.num_events()
    }

    /// The height of the oldest entry that the log holds, or 0 where it
    /// holds none.
    pub fn oldest_height(&self) -> (height: BlockHeight)
        ensures
            height.0 == oldest_height(self@),
    {
        self.state.oldest_height()
    }
}

/// The handle by which producers hand entries to the [`Logger`].
pub struct LogEntrySender {
    sender: UnboundedSender<LogEntry>,
}

impl Clone for LogEntrySender {
    fn clone(&self) -> (sender: LogEntrySender) {
        LogEntrySender { sender: self.sender.clone() }
    }
}

impl LogEntrySender {
    /// Puts an entry in the queue, without waiting. Returns `None` where
    /// the logger is gone: the entry is then lost, and so will be any
    /// other.
    pub fn send_new_entry(&self, entry: LogEntry) -> (sent: Option<()>) {
        LogEntrySender::answer(self.sender.send(entry))
    }

    /// What the producer is told when the queue gave `outcome` for an
    /// entry: `Some` where the queue took the entry, `None` where it
    /// refused it because the logger is gone.
    pub fn answer(
        outcome: Result<(), tokio::sync::mpsc::error::SendError<LogEntry>>,
    ) -> (sent: Option<()>)
        ensures
            sent is Some <==> outcome is Ok,
    {
        outcome.ok()
    }
}

/// The limits of a log made by [`new`].
pub open spec fn standard_limits() -> LogLimits {
    LogLimits { max_events: MAX_LOG_EVENTS, max_height_diff: LOG_BLOCK_HEIGHT_DIFF }
}

/// An empty log with the given limits, its logger and a sender.
pub fn with_limits(limits: LogLimits) -> (handles: (EventLog, Logger, LogEntrySender))
    ensures
        handles.0.limits() == limits,
        handles.1.log() == handles.0,
        handles.1@ == Seq::<EntryView>::empty(),
{
    let (sender, receiver) = unbounded_channel();
    let log = EventLog::new(limits);
    let logger = Logger { log: log.clone(), state: EventLogInnerMux::new(), receiver };
    (log, logger, LogEntrySender { sender })
}

/// An empty log with the standard limits, its logger and a sender.
///
/// One task drives the logger; producers send entries with the sender,
/// or with clones of it; any number of tasks read the log, each through a
/// clone of it.
pub fn new() -> (handles: (EventLog, Logger, LogEntrySender))
    ensures
        handles.0.limits() == standard_limits(),
        handles.1.log() == handles.0,
        handles.1@ == Seq::<EntryView>::empty(),
{
    with_limits(LogLimits { max_events: MAX_LOG_EVENTS, max_height_diff: LOG_BLOCK_HEIGHT_DIFF })
}

} // verus!
