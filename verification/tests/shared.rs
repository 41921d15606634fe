use event_log::{
    compile_query, with_limits, BlockHeight, Event, EventLevel, EventLog, EventLogInnerMux,
    EventType, IterError, LogEntry, LogEntrySender, LogLimits, QueryMatcher, WaitStep, WakeUp,
    LOG_BLOCK_HEIGHT_DIFF, MAX_LOG_EVENTS,
};
use tokio::sync::mpsc::error::SendError;

const QUERY: &str = "tm.event='NewBlock' AND accepted.hash='DEADBEEF'";

fn accepted(serial: u64) -> Event {
    Event::new(EventType::Accepted, EventLevel::Block)
        .with_attribute("hash".to_string(), "DEADBEEF".to_string())
        .with_attribute("serial".to_string(), serial.to_string())
}

fn entry(height: u64, events: Vec<Event>) -> LogEntry {
    LogEntry { block_height: BlockHeight(height), events }
}

fn serials(events: &[Event]) -> Vec<String> {
    events.iter().map(|e| e.get(&"serial".to_string()).unwrap().clone()).collect()
}

fn read(log: &EventLog) -> Vec<String> {
    serials(&log.try_iter(QUERY).unwrap().collect())
}

fn limits(max_events: usize, max_height_diff: u64) -> LogLimits {
    LogLimits { max_events, max_height_diff }
}

#[test]
fn the_standard_limits() {
    assert_eq!(MAX_LOG_EVENTS, 50000);
    assert_eq!(LOG_BLOCK_HEIGHT_DIFF, 1000);
    let (log, mut logger, _sender) = event_log::new();
    for height in 0..1002 {
        logger.log_new_entry(Some(entry(height, vec![accepted(height)]))).unwrap();
    }
    assert_eq!(log.num_events(), 1001);
    assert_eq!(log.oldest_height(), BlockHeight(1));
}

#[test]
fn the_count_of_events_is_held_to_its_limit() {
    let (log, mut logger, _sender) = with_limits(limits(10, 1000));
    let mut early = None;
    for height in 0..20 {
        logger.log_new_entry(Some(entry(height, vec![accepted(height)]))).unwrap();
        assert!(log.num_events() <= 10);
        if height == 9 {
            early = Some(log.snapshot().unwrap());
        }
    }
    assert_eq!(log.num_events(), 10);
    assert_eq!(log.oldest_height(), BlockHeight(10));
    assert_eq!(read(&log), vec!["19", "18", "17", "16", "15", "14", "13", "12", "11", "10"]);

    // the snapshot from before the evictions leads to what it led to
    let early = early.unwrap();
    assert_eq!(early.num_events(), 10);
    assert_eq!(early.oldest_height(), BlockHeight(0));
    let matcher = QueryMatcher::parse(QUERY).unwrap();
    assert_eq!(
        serials(&early.iter(matcher).collect()),
        vec!["9", "8", "7", "6", "5", "4", "3", "2", "1", "0"]
    );
}

#[test]
fn the_height_span_is_held_to_its_limit() {
    let (log, mut logger, _sender) = with_limits(limits(1000, 5));
    for height in [0, 3, 5] {
        logger.log_new_entry(Some(entry(height, vec![accepted(height)]))).unwrap();
    }
    assert_eq!(read(&log), vec!["5", "3", "0"]);
    assert_eq!(log.oldest_height(), BlockHeight(0));
    logger.log_new_entry(Some(entry(6, vec![accepted(6)]))).unwrap();
    assert_eq!(read(&log), vec!["6", "5", "3"]);
    assert_eq!(log.oldest_height(), BlockHeight(3));
    logger.log_new_entry(Some(entry(20, vec![accepted(20)]))).unwrap();
    assert_eq!(read(&log), vec!["20"]);
    assert_eq!(log.num_events(), 1);
    assert_eq!(log.oldest_height(), BlockHeight(20));
}

#[test]
fn a_batch_beyond_the_limit_is_not_retained() {
    let (log, mut logger, _sender) = with_limits(limits(2, 1000));
    logger.log_new_entry(Some(entry(1, vec![accepted(0)]))).unwrap();
    logger.log_new_entry(Some(entry(2, vec![accepted(1), accepted(2), accepted(3)]))).unwrap();
    assert_eq!(log.num_events(), 0);
    assert!(log.snapshot().is_none());
    assert_eq!(log.try_iter(QUERY).err(), Some(IterError::EmptyLog));
    logger.log_new_entry(Some(entry(3, vec![accepted(4), accepted(5)]))).unwrap();
    assert_eq!(read(&log), vec!["4", "5"]);
}

#[test]
fn an_entry_that_is_not_above_the_newest_is_dropped() {
    let (log, mut logger, _sender) = with_limits(limits(10, 1000));
    logger.log_new_entry(Some(entry(5, vec![accepted(0)]))).unwrap();
    logger.log_new_entry(Some(entry(5, vec![accepted(1)]))).unwrap();
    logger.log_new_entry(Some(entry(2, vec![accepted(2)]))).unwrap();
    assert_eq!(read(&log), vec!["0"]);
    logger.log_new_entry(Some(entry(6, vec![accepted(3)]))).unwrap();
    assert_eq!(read(&log), vec!["3", "0"]);
    assert_eq!(log.num_events(), 2);
    assert_eq!(log.oldest_height(), BlockHeight(5));
}

#[test]
fn clones_share_one_log() {
    let (log, mut logger, _sender) = with_limits(limits(10, 1000));
    let other = log.clone();
    logger.log_new_entry(Some(entry(1, vec![accepted(0)]))).unwrap();
    assert_eq!(read(&other), vec!["0"]);
    assert_eq!(read(&log), vec!["0"]);
    logger.log_new_entry(Some(entry(2, vec![accepted(1)]))).unwrap();
    assert_eq!(read(&other.clone()), vec!["1", "0"]);
    assert_eq!(other.num_events(), 2);
}

#[test]
fn the_logger_knows_what_the_log_holds() {
    let (log, mut logger, _sender) = with_limits(limits(3, 1000));
    assert_eq!(logger.num_events(), 0);
    assert_eq!(logger.oldest_height(), BlockHeight(0));
    for height in 4..9 {
        logger.log_new_entry(Some(entry(height, vec![accepted(height)]))).unwrap();
        assert_eq!(logger.num_events(), log.num_events());
        assert_eq!(logger.oldest_height(), log.oldest_height());
    }
    assert_eq!(logger.num_events(), 3);
    assert_eq!(logger.oldest_height(), BlockHeight(6));
}

#[test]
fn an_empty_log_gives_no_iterator() {
    let (log, mut logger, _sender) = with_limits(limits(10, 1000));
    assert_eq!(log.try_iter(QUERY).err(), Some(IterError::EmptyLog));
    logger.log_new_entry(Some(entry(0, vec![]))).unwrap();
    logger.log_new_entry(Some(entry(1, vec![]))).unwrap();
    assert_eq!(log.try_iter(QUERY).err(), Some(IterError::EmptyLog));
    let matcher = QueryMatcher::parse(QUERY).unwrap();
    assert_eq!(log.try_iter_with_matcher(matcher).err(), Some(IterError::EmptyLog));
    assert!(log.snapshot().is_none());
}

#[test]
fn text_that_is_no_query_is_refused_whatever_the_log_holds() {
    let (log, mut logger, _sender) = with_limits(limits(10, 1000));
    assert_eq!(log.try_iter("tm.event='NewBlock' AND").err(), Some(IterError::InvalidQuery));
    logger.log_new_entry(Some(entry(1, vec![accepted(0)]))).unwrap();
    assert_eq!(log.try_iter("tm.event='NewBlock' AND").err(), Some(IterError::InvalidQuery));
    assert_eq!(log.try_iter("").err(), Some(IterError::InvalidQuery));
}

#[test]
fn the_logger_stops_when_the_queue_is_closed() {
    let (log, mut logger, sender) = with_limits(limits(10, 1000));
    assert_eq!(sender.send_new_entry(entry(1, vec![accepted(0)])), Some(()));
    let second = sender.clone();
    assert_eq!(second.send_new_entry(entry(2, vec![accepted(1)])), Some(()));
    drop(sender);
    drop(second);
    let first = logger.receiver.try_recv().ok();
    assert_eq!(logger.log_new_entry(first), Some(()));
    let next = logger.receiver.try_recv().ok();
    assert_eq!(logger.log_new_entry(next), Some(()));
    let closed = logger.receiver.try_recv().ok();
    assert!(closed.is_none());
    assert_eq!(logger.log_new_entry(closed), None);
    assert_eq!(read(&log), vec!["1", "0"]);
}

#[test]
fn sending_fails_once_the_logger_is_gone() {
    let (_log, logger, sender) = with_limits(limits(10, 1000));
    drop(logger);
    assert_eq!(sender.send_new_entry(entry(1, vec![accepted(0)])), None);
    assert_eq!(sender.clone().send_new_entry(entry(2, vec![accepted(1)])), None);
}

#[test]
fn a_producer_is_told_whether_the_queue_took_its_entry() {
    assert_eq!(LogEntrySender::answer(Ok(())), Some(()));
    let refused = SendError(entry(1, vec![accepted(0)]));
    assert_eq!(LogEntrySender::answer(Err(refused)), None);
}

#[test]
fn a_reader_woken_before_the_first_entry_waits_again() {
    let (log, mut logger, _sender) = with_limits(limits(10, 1000));
    let matcher = compile_query(QUERY).unwrap();
    assert!(matches!(log.wait_iter(WakeUp::Notified, &matcher), WaitStep::WaitAgain));
    logger.log_new_entry(Some(entry(1, vec![accepted(0)]))).unwrap();
    match log.wait_iter(WakeUp::Notified, &matcher) {
        WaitStep::Done(Ok(pass)) => assert_eq!(serials(&pass.collect()), vec!["0"]),
        _ => panic!("the reader should have got an iterator"),
    }
}

#[test]
fn a_reader_gets_what_is_there_at_its_deadline() {
    let (log, mut logger, _sender) = with_limits(limits(10, 1000));
    let matcher = compile_query(QUERY).unwrap();
    assert!(matches!(
        log.wait_iter(WakeUp::DeadlineElapsed, &matcher),
        WaitStep::Done(Err(IterError::EmptyLog))
    ));
    logger.log_new_entry(Some(entry(1, vec![accepted(0)]))).unwrap();
    match log.wait_iter(WakeUp::DeadlineElapsed, &matcher) {
        WaitStep::Done(Ok(pass)) => assert_eq!(serials(&pass.collect()), vec!["0"]),
        _ => panic!("the reader should have got an iterator"),
    }
}

#[test]
fn the_step_after_a_wait_goes_by_the_wake_up_and_the_read() {
    let mut state = EventLogInnerMux::new();
    let empty = || EventLogInnerMux::new().try_iter(QUERY);
    assert!(matches!(WaitStep::after(WakeUp::Notified, empty()), WaitStep::WaitAgain));
    assert!(matches!(
        WaitStep::after(WakeUp::DeadlineElapsed, empty()),
        WaitStep::Done(Err(IterError::EmptyLog))
    ));
    for wake in [WakeUp::Notified, WakeUp::DeadlineElapsed] {
        assert!(matches!(
            WaitStep::after(wake, Err(IterError::InvalidQuery)),
            WaitStep::Done(Err(IterError::InvalidQuery))
        ));
        assert!(matches!(
            WaitStep::after(wake, Err(IterError::Timeout)),
            WaitStep::Done(Err(IterError::Timeout))
        ));
    }
    state.add(entry(1, vec![accepted(0)]));
    for wake in [WakeUp::Notified, WakeUp::DeadlineElapsed] {
        match WaitStep::after(wake, state.try_iter(QUERY)) {
            WaitStep::Done(Ok(pass)) => assert_eq!(serials(&pass.collect()), vec!["0"]),
            _ => panic!("the reader should have got an iterator"),
        }
    }
}

#[test]
fn adding_wakes_a_listener() {
    let (log, mut logger, _sender) = with_limits(limits(10, 1000));
    let listener = log.listen();
    let idle = log.listen();
    assert!(!idle.wait_timeout(std::time::Duration::from_millis(20)));
    logger.log_new_entry(Some(entry(1, vec![accepted(0)]))).unwrap();
    assert!(listener.wait_timeout(std::time::Duration::from_secs(5)));
    // an entry that is not stored wakes nobody
    let listener = log.listen();
    logger.log_new_entry(Some(entry(2, vec![]))).unwrap();
    logger.log_new_entry(Some(entry(1, vec![accepted(1)]))).unwrap();
    assert!(!listener.wait_timeout(std::time::Duration::from_millis(20)));
}

#[test]
fn readers_in_parallel_see_the_writer_s_entries_in_order() {
    let (log, mut logger, sender) = with_limits(limits(100_000, 1_000_000));
    let rt = tokio::runtime::Builder::new_multi_thread().worker_threads(4).build().unwrap();
    let mut readers = vec![];
    for _ in 0..4 {
        let log = log.clone();
        readers.push(rt.spawn_blocking(move || {
            let mut seen = 0;
            for _ in 0..200 {
                if let Ok(pass) = log.try_iter(QUERY) {
                    let found = serials(&pass.collect());
                    // no entry is seen in part, none is lost, and they come newest first
                    assert!(found.len() >= seen);
                    seen = found.len();
                    for (i, serial) in found.iter().enumerate() {
                        assert_eq!(serial, &(found.len() - 1 - i).to_string());
                    }
                }
            }
        }));
    }
    for height in 0..300 {
        sender.send_new_entry(entry(height, vec![accepted(height)])).unwrap();
    }
    rt.block_on(async {
        for _ in 0..300 {
            let received = logger.receiver.recv().await;
            logger.log_new_entry(received).unwrap();
        }
    });
    for reader in readers {
        rt.block_on(reader).unwrap();
    }
    assert_eq!(log.num_events(), 300);
}
