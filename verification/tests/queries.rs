use event_log::{Event, EventLevel, EventType, QueryMatcher};

fn event(event_type: EventType, pairs: &[(&str, &str)]) -> Event {
    let mut event = Event::new(event_type, EventLevel::Tx);
    for (key, value) in pairs {
        event = event.with_attribute(key.to_string(), value.to_string());
    }
    event
}

#[test]
fn parses_one_term() {
    let matcher = QueryMatcher::parse("tm.event='NewBlock' AND accepted.hash='DEADBEEF'");
    assert!(matcher.is_some());
}

#[test]
fn parses_several_terms() {
    let matcher =
        QueryMatcher::parse("tm.event='NewBlock' AND applied.hash='AB' AND applied.code='0'");
    assert!(matcher.is_some());
}

#[test]
fn refuses_text_that_is_no_query() {
    let refused = [
        "",
        "tm.event='NewBlock'",
        "tm.event='NewBlock' ",
        "tm.event='NewBlock' AND ",
        "tm.event='NewBlock' AND accepted.hash",
        "tm.event='NewBlock' AND accepted.hash=''",
        "tm.event='NewBlock' AND accepted.hash='DEADBEEF",
        "tm.event='NewBlock' AND accepted.hash='DEADBEEF' ",
        "tm.event='NewBlock' AND accepted.='DEADBEEF'",
        "tm.event='NewBlock' AND accepted.ha-sh='DEADBEEF'",
        "tm.event='NewBlock' AND rejected.hash='DEADBEEF'",
        "tm.event='NewBlock' and accepted.hash='DEADBEEF'",
        "tm.event='NewBlock'AND accepted.hash='DEADBEEF'",
        "tm.event='Tx' AND accepted.hash='DEADBEEF'",
        " tm.event='NewBlock' AND accepted.hash='DEADBEEF'",
        "tm.event='NewBlock' AND accepted.hash='DEAD'BEEF'",
        "tm.event='NewBlock' AND accepted.hash='A' OR accepted.hash='B'",
        "accepted.hash='DEADBEEF'",
    ];
    for text in refused {
        assert!(QueryMatcher::parse(text).is_none(), "accepted {:?}", text);
    }
}

#[test]
fn a_value_may_hold_anything_but_a_quote() {
    let matcher = QueryMatcher::parse("tm.event='NewBlock' AND accepted.memo='a b=c AND é.'");
    let matcher = matcher.unwrap();
    assert!(matcher.matches(&event(EventType::Accepted, &[("memo", "a b=c AND é.")])));
    assert!(!matcher.matches(&event(EventType::Accepted, &[("memo", "a b=c AND e.")])));
}

#[test]
fn a_name_is_made_of_letters_digits_and_underscores() {
    let matcher = QueryMatcher::parse("tm.event='NewBlock' AND applied.Tx_9='x'").unwrap();
    assert!(matcher.matches(&event(EventType::Applied, &[("Tx_9", "x")])));
    assert!(QueryMatcher::parse("tm.event='NewBlock' AND applied.tx.id='x'").is_none());
    assert!(QueryMatcher::parse("tm.event='NewBlock' AND applied.tx id='x'").is_none());
}

#[test]
fn matches_kind_and_attribute() {
    let matcher =
        QueryMatcher::parse("tm.event='NewBlock' AND accepted.hash='DEADBEEF'").unwrap();
    assert!(matcher.matches(&event(EventType::Accepted, &[("hash", "DEADBEEF")])));
    assert!(matcher.matches(&event(
        EventType::Accepted,
        &[("height", "3"), ("hash", "DEADBEEF"), ("code", "0")]
    )));
    // another kind
    assert!(!matcher.matches(&event(EventType::Applied, &[("hash", "DEADBEEF")])));
    assert!(!matcher.matches(&event(EventType::Ibc, &[("hash", "DEADBEEF")])));
    assert!(!matcher.matches(&event(EventType::Proposal, &[("hash", "DEADBEEF")])));
    // another value
    assert!(!matcher.matches(&event(EventType::Accepted, &[("hash", "DEADBEE")])));
    assert!(!matcher.matches(&event(EventType::Accepted, &[("hash", "deadbeef")])));
    // no such attribute
    assert!(!matcher.matches(&event(EventType::Accepted, &[("hsah", "DEADBEEF")])));
    assert!(!matcher.matches(&event(EventType::Accepted, &[])));
}

#[test]
fn every_term_must_match() {
    let matcher =
        QueryMatcher::parse("tm.event='NewBlock' AND applied.hash='AB' AND applied.code='0'")
            .unwrap();
    assert!(matcher.matches(&event(EventType::Applied, &[("hash", "AB"), ("code", "0")])));
    assert!(matcher.matches(&event(EventType::Applied, &[("code", "0"), ("hash", "AB")])));
    assert!(!matcher.matches(&event(EventType::Applied, &[("hash", "AB"), ("code", "1")])));
    assert!(!matcher.matches(&event(EventType::Applied, &[("hash", "AB")])));
    assert!(!matcher.matches(&event(EventType::Applied, &[("code", "0")])));
}

#[test]
fn terms_of_two_kinds_match_nothing() {
    let matcher =
        QueryMatcher::parse("tm.event='NewBlock' AND accepted.hash='AB' AND applied.hash='AB'")
            .unwrap();
    assert!(!matcher.matches(&event(EventType::Accepted, &[("hash", "AB")])));
    assert!(!matcher.matches(&event(EventType::Applied, &[("hash", "AB")])));
}

#[test]
fn a_clone_of_a_matcher_matches_alike() {
    let matcher =
        QueryMatcher::parse("tm.event='NewBlock' AND accepted.hash='DEADBEEF'").unwrap();
    let other = matcher.clone();
    let yes = event(EventType::Accepted, &[("hash", "DEADBEEF")]);
    let no = event(EventType::Applied, &[("hash", "DEADBEEF")]);
    assert_eq!(matcher.matches(&yes), other.matches(&yes));
    assert_eq!(matcher.matches(&no), other.matches(&no));
    assert!(other.matches(&yes));
}
