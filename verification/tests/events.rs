use event_log::{Event, EventLevel, EventType};

#[test]
fn a_new_event_has_no_attributes() {
    let event = Event::new(EventType::Proposal, EventLevel::Block);
    assert_eq!(event.event_type(), EventType::Proposal);
    assert_eq!(event.level(), EventLevel::Block);
    assert_eq!(event.get(&"hash".to_string()), None);
}

#[test]
fn an_attribute_is_found_by_its_name() {
    let event = Event::new(EventType::Accepted, EventLevel::Tx)
        .with_attribute("hash".to_string(), "DEADBEEF".to_string())
        .with_attribute("height".to_string(), "7".to_string());
    assert_eq!(event.get(&"hash".to_string()), Some(&"DEADBEEF".to_string()));
    assert_eq!(event.get(&"height".to_string()), Some(&"7".to_string()));
    assert_eq!(event.get(&"Hash".to_string()), None);
    assert_eq!(event.event_type(), EventType::Accepted);
    assert_eq!(event.level(), EventLevel::Tx);
}

#[test]
fn setting_an_attribute_again_replaces_its_value() {
    let event = Event::new(EventType::Accepted, EventLevel::Tx)
        .with_attribute("hash".to_string(), "A".to_string())
        .with_attribute("code".to_string(), "0".to_string())
        .with_attribute("hash".to_string(), "B".to_string());
    assert_eq!(event.get(&"hash".to_string()), Some(&"B".to_string()));
    assert_eq!(event.get(&"code".to_string()), Some(&"0".to_string()));
    let once = Event::new(EventType::Accepted, EventLevel::Tx)
        .with_attribute("hash".to_string(), "B".to_string())
        .with_attribute("code".to_string(), "0".to_string());
    assert_eq!(event, once);
}

#[test]
fn events_are_equal_by_value() {
    let one = Event::new(EventType::Applied, EventLevel::Block)
        .with_attribute("hash".to_string(), "A".to_string())
        .with_attribute("code".to_string(), "0".to_string());
    let same = Event::new(EventType::Applied, EventLevel::Block)
        .with_attribute("code".to_string(), "0".to_string())
        .with_attribute("hash".to_string(), "A".to_string());
    assert_eq!(one, same);
    assert_eq!(one, one.clone());

    let other_type = Event::new(EventType::Accepted, EventLevel::Block)
        .with_attribute("hash".to_string(), "A".to_string())
        .with_attribute("code".to_string(), "0".to_string());
    assert_ne!(one, other_type);

    let other_level = Event::new(EventType::Applied, EventLevel::Tx)
        .with_attribute("hash".to_string(), "A".to_string())
        .with_attribute("code".to_string(), "0".to_string());
    assert_ne!(one, other_level);

    let other_value = Event::new(EventType::Applied, EventLevel::Block)
        .with_attribute("hash".to_string(), "A".to_string())
        .with_attribute("code".to_string(), "1".to_string());
    assert_ne!(one, other_value);

    let fewer = Event::new(EventType::Applied, EventLevel::Block)
        .with_attribute("hash".to_string(), "A".to_string());
    assert_ne!(one, fewer);
    assert_ne!(fewer, one);
}
