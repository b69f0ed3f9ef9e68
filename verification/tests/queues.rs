use botox::com::{BroadcastError, Lane, MSGQueue, MsgChannel, RecvError, SendError};

#[test]
fn the_mailbox_hands_out_in_the_order_of_the_pushes() {
    let mut queue: MSGQueue<u32> = MSGQueue::new();
    for v in [3, 1, 4, 1, 5, 9, 2, 6] {
        queue.push_back(v);
    }
    assert_eq!(queue.len(), 8);
    let mut taken = Vec::new();
    while let Some(v) = queue.next() {
        taken.push(v);
    }
    assert_eq!(taken, vec![3, 1, 4, 1, 5, 9, 2, 6]);
    assert_eq!(queue.len(), 0);
}

#[test]
fn the_mailbox_keeps_its_order_when_pushes_and_takes_alternate() {
    let mut queue: MSGQueue<&str> = MSGQueue::default();
    queue.push_back("a");
    queue.push_back("b");
    assert_eq!(queue.next(), Some("a"));
    queue.push_back("c");
    assert_eq!(queue.next(), Some("b"));
    assert_eq!(queue.next(), Some("c"));
    assert_eq!(queue.next(), None);
    assert_eq!(queue.next_error(), Err(RecvError::Empty));
    queue.push_back("d");
    assert_eq!(queue.next_error(), Ok("d"));
}

#[test]
fn the_mailbox_has_no_bound() {
    let mut queue: MSGQueue<usize> = MSGQueue::new();
    for v in 0..100_000 {
        queue.push_back(v);
    }
    assert_eq!(queue.len(), 100_000);
    assert_eq!(queue.next(), Some(0));
}

#[test]
fn a_full_lane_hands_the_value_back_until_a_receive_makes_room() {
    let capacity = 3;
    let mut lane: Lane<u32> = Lane::new(capacity);
    for v in 0..3 {
        assert!(lane.send(v).is_ok());
    }
    assert_eq!(lane.len(), 3);
    assert_eq!(lane.capacity(), 3);
    match lane.send(99) {
        Err(SendError::Full(v)) => assert_eq!(v, 99),
        other => panic!("{:?}", other),
    }
    assert_eq!(lane.len(), 3);
    assert_eq!(lane.recv(), Ok(0));
    assert!(lane.send(99).is_ok());
    assert_eq!(lane.recv(), Ok(1));
    assert_eq!(lane.recv(), Ok(2));
    assert_eq!(lane.recv(), Ok(99));
    assert_eq!(lane.recv(), Err(RecvError::Empty));
}

#[test]
fn after_as_many_receives_as_the_lane_holds_a_send_is_accepted() {
    let mut lane: Lane<u8> = Lane::new(2);
    assert!(lane.send(1).is_ok());
    assert!(lane.send(2).is_ok());
    assert!(lane.send(3).is_err());
    assert_eq!(lane.recv(), Ok(1));
    assert_eq!(lane.recv(), Ok(2));
    assert!(lane.send(3).is_ok());
    assert_eq!(lane.len(), 1);
}

#[test]
fn a_closed_lane_is_drained_and_then_says_closed() {
    let mut lane: Lane<u8> = Lane::new(2);
    assert!(lane.send(1).is_ok());
    assert!(!lane.is_closed());
    lane.close();
    assert!(lane.is_closed());
    match lane.send(2) {
        Err(SendError::Closed(v)) => assert_eq!(v, 2),
        other => panic!("{:?}", other),
    }
    assert_eq!(lane.recv(), Ok(1));
    assert_eq!(lane.recv(), Err(RecvError::Closed));
    assert_eq!(lane.recv(), Err(RecvError::Closed));
}

#[test]
fn a_publish_without_receivers_is_dropped_without_error() {
    let mut channel: MsgChannel<String, u8> = MsgChannel::new("TwitchMsg", 100);
    assert_eq!(channel.name(), "TwitchMsg");
    assert_eq!(channel.receiver_count(), 0);
    assert_eq!(channel.send_broadcast(String::from("lost")), Ok(0));
    let late = channel.subscribe_broadcast();
    assert_eq!(channel.recv_broadcast(late), Err(RecvError::Empty));
}

#[test]
fn every_receiver_gets_every_value_published_after_it_subscribed() {
    let mut channel: MsgChannel<String, u8> = MsgChannel::new("c", 1);
    let first = channel.subscribe_broadcast();
    assert_eq!(channel.send_broadcast(String::from("one")), Ok(1));
    let second = channel.subscribe_broadcast();
    assert_eq!(channel.receiver_count(), 2);
    assert_eq!(channel.send_broadcast(String::from("two")), Ok(2));
    assert_eq!(channel.recv_broadcast(first), Ok(String::from("one")));
    assert_eq!(channel.recv_broadcast(first), Ok(String::from("two")));
    assert_eq!(channel.recv_broadcast(first), Err(RecvError::Empty));
    assert_eq!(channel.recv_broadcast(second), Ok(String::from("two")));
    assert_eq!(channel.recv_broadcast(second), Err(RecvError::Empty));
}

#[test]
fn a_dropped_receiver_is_reported_once_and_the_others_still_get_the_value() {
    let mut channel: MsgChannel<u32, u8> = MsgChannel::new("c", 1);
    let first = channel.subscribe_broadcast();
    let second = channel.subscribe_broadcast();
    assert_eq!(channel.send_broadcast(1), Ok(2));
    channel.unsubscribe(first);
    assert_eq!(channel.receiver_count(), 1);
    assert_eq!(channel.recv_broadcast(first), Err(RecvError::Closed));
    assert_eq!(channel.send_broadcast(2), Err(BroadcastError { delivered: 1, dropped: 1 }));
    assert_eq!(channel.send_broadcast(3), Ok(1));
    assert_eq!(channel.recv_broadcast(second), Ok(1));
    assert_eq!(channel.recv_broadcast(second), Ok(2));
    assert_eq!(channel.recv_broadcast(second), Ok(3));
    channel.unsubscribe(second);
    assert_eq!(channel.send_broadcast(4), Err(BroadcastError { delivered: 0, dropped: 1 }));
    assert_eq!(channel.send_broadcast(5), Ok(0));
}

#[test]
fn a_receiver_that_never_was_is_closed() {
    let mut channel: MsgChannel<u32, u8> = MsgChannel::new("c", 1);
    assert_eq!(channel.recv_broadcast(7), Err(RecvError::Closed));
    channel.unsubscribe(7);
    assert_eq!(channel.send_broadcast(1), Ok(0));
}

#[test]
fn the_point_to_point_lane_of_a_channel_is_bounded() {
    let mut channel: MsgChannel<u32, String> = MsgChannel::new("c", 1);
    assert!(channel.send(String::from("a")).is_ok());
    match channel.send(String::from("b")) {
        Err(SendError::Full(v)) => assert_eq!(v, "b"),
        other => panic!("{:?}", other),
    }
    assert_eq!(channel.recv(), Ok(String::from("a")));
    assert_eq!(channel.recv(), Err(RecvError::Empty));
    assert!(channel.send(String::from("b")).is_ok());
    channel.close();
    assert_eq!(channel.recv(), Ok(String::from("b")));
    assert_eq!(channel.recv(), Err(RecvError::Closed));
}
