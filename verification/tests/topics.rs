use botox::bus::{Bus, BusError, PublishError};
use botox::com::RecvError;

#[test]
fn a_lookup_for_another_type_is_a_mismatch_and_removes_the_topic() {
    let mut bus: Bus<Vec<u8>> = Bus::new(4);
    let lane = bus.subscribe("X", "A");
    assert_eq!(bus.get("X", "A"), Ok(lane));
    assert_eq!(
        bus.get("X", "B"),
        Err(BusError::TypeMismatch { expected: String::from("A"), supplied: String::from("B") })
    );
    assert_eq!(bus.get("X", "A"), Err(BusError::NoSuchTopic));
    assert_eq!(bus.get("X", "B"), Err(BusError::NoSuchTopic));
}

#[test]
fn a_topic_that_was_never_bound_is_no_such_topic() {
    let mut bus: Bus<u8> = Bus::new(1);
    assert_eq!(bus.get("nothing", "A"), Err(BusError::NoSuchTopic));
    assert_eq!(bus.lane_count(), 0);
}

#[test]
fn the_last_subscriber_of_a_topic_gets_what_is_published() {
    let mut bus: Bus<&str> = Bus::new(4);
    let first = bus.subscribe("TTS_PLAYER", "Audio");
    assert!(bus.publish("TTS_PLAYER", "Audio", "one").is_ok());
    let second = bus.subscribe("TTS_PLAYER", "Audio");
    assert_ne!(first, second);
    assert!(bus.publish("TTS_PLAYER", "Audio", "two").is_ok());
    assert_eq!(bus.receive(first), Ok("one"));
    assert_eq!(bus.receive(first), Err(RecvError::Empty));
    assert_eq!(bus.receive(second), Ok("two"));
    assert_eq!(bus.receive(second), Err(RecvError::Empty));
}

#[test]
fn publishing_as_another_type_fails_and_hands_the_value_back() {
    let mut bus: Bus<u32> = Bus::new(4);
    let lane = bus.subscribe("X", "A");
    match bus.publish("X", "B", 7) {
        Err(PublishError::Lookup(BusError::TypeMismatch { expected, supplied }, value)) => {
            assert_eq!(expected, "A");
            assert_eq!(supplied, "B");
            assert_eq!(value, 7);
        }
        _ => panic!("a mismatch was expected"),
    }
    match bus.publish("X", "A", 7) {
        Err(PublishError::Lookup(BusError::NoSuchTopic, value)) => assert_eq!(value, 7),
        _ => panic!("no such topic was expected"),
    }
    assert_eq!(bus.receive(lane), Err(RecvError::Empty));
}

#[test]
fn a_full_topic_hands_the_value_back() {
    let mut bus: Bus<u32> = Bus::new(1);
    let lane = bus.subscribe("X", "A");
    assert!(bus.publish("X", "A", 1).is_ok());
    match bus.publish("X", "A", 2) {
        Err(PublishError::Full(value)) => assert_eq!(value, 2),
        _ => panic!("a full lane was expected"),
    }
    assert_eq!(bus.receive(lane), Ok(1));
    assert!(bus.publish("X", "A", 2).is_ok());
    assert_eq!(bus.receive(lane), Ok(2));
}

#[test]
fn register_binds_a_topic_to_a_lane_and_tells_of_a_change_of_type() {
    let mut bus: Bus<u32> = Bus::new(2);
    let lane = bus.subscribe("X", "A");
    assert_eq!(bus.register("Y", "A", lane), Ok(None));
    assert_eq!(bus.get("Y", "A"), Ok(lane));
    assert_eq!(bus.register("Y", "A", lane), Ok(None));
    assert_eq!(bus.register("Y", "B", lane), Ok(Some(String::from("A"))));
    assert_eq!(bus.get("Y", "B"), Ok(lane));
    assert_eq!(bus.register("Z", "A", lane + 1), Err(BusError::NoSuchLane));
    assert_eq!(bus.get("Z", "A"), Err(BusError::NoSuchTopic));
}

#[test]
fn a_lane_that_does_not_exist_is_closed() {
    let mut bus: Bus<u32> = Bus::new(2);
    assert_eq!(bus.receive(0), Err(RecvError::Closed));
    assert!(bus.send(0, 1).is_err());
}

#[test]
fn a_closed_lane_takes_no_further_value_but_hands_out_what_it_holds() {
    let mut bus: Bus<u32> = Bus::new(2);
    let lane = bus.subscribe("X", "A");
    assert!(bus.publish("X", "A", 1).is_ok());
    bus.close_lane(lane);
    bus.close_lane(lane + 5);
    match bus.publish("X", "A", 2) {
        Err(PublishError::Closed(value)) => assert_eq!(value, 2),
        _ => panic!("a closed lane was expected"),
    }
    assert_eq!(bus.receive(lane), Ok(1));
    assert_eq!(bus.receive(lane), Err(RecvError::Closed));
    let again = bus.subscribe("X", "A");
    assert!(bus.publish("X", "A", 3).is_ok());
    assert_eq!(bus.receive(again), Ok(3));
}
