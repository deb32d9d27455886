use bytes::Bytes;
use lightyear_shared::channel::senders::reliable::ReliableSender;
use lightyear_shared::packet::message::{
    ChannelError, FragmentData, MessageAck, MessageId, SingleData,
};
use mock_instant::thread_local::{Instant, MockClock};
use std::time::Duration;

/// A sender whose resend delay comes from a round trip of 100 ms and a
/// resend factor of 1.5.
fn sender_with_rtt_100() -> ReliableSender {
    let rtt_resend_factor: f32 = 1.5;
    let current_rtt_millis: f32 = 100.0;
    let mut sender = ReliableSender::new();
    sender.set_resend_delay_millis((rtt_resend_factor * current_rtt_millis) as u64);
    sender
}

fn whole(id: u16) -> MessageAck {
    MessageAck { message_id: MessageId(id), fragment_id: None }
}

fn part(id: u16, fragment: u8) -> MessageAck {
    MessageAck { message_id: MessageId(id), fragment_id: Some(fragment) }
}

#[test]
fn test_reliable_sender_internals() {
    MockClock::set_time(Duration::ZERO);
    let mut sender = sender_with_rtt_100();
    let mut current_time = Instant::now();

    // Buffer a new message
    let message1 = Bytes::from("hello");
    assert_eq!(sender.buffer_send(message1.clone()), Ok(()));
    assert_eq!(sender.num_unacked(), 1);
    assert_eq!(sender.next_send_message_id(), MessageId(1));
    // Collect the messages to be sent
    sender.collect_messages_to_send();
    assert_eq!(sender.num_singles_to_send(), 1);

    // Advance by a time that is below the resend threshold
    MockClock::advance(Duration::from_millis(100));
    sender.update(Instant::now().duration_since(current_time));
    current_time = Instant::now();
    sender.collect_messages_to_send();
    assert_eq!(sender.num_singles_to_send(), 1);

    // Advance by a time that is above the resend threshold: nothing was
    // handed out in between, so the message is now queued a second time
    MockClock::advance(Duration::from_millis(200));
    sender.update(Instant::now().duration_since(current_time));
    current_time = Instant::now();
    sender.collect_messages_to_send();
    assert_eq!(sender.num_singles_to_send(), 2);
    assert_eq!(
        sender.single_to_send(0).unwrap(),
        SingleData::new(Some(MessageId(0)), message1.clone())
    );
    assert_eq!(
        sender.single_to_send(1).unwrap(),
        SingleData::new(Some(MessageId(0)), message1.clone())
    );

    // Ack the first message
    sender.process_message_ack(MessageId(0));
    assert_eq!(sender.num_unacked(), 0);

    // Advance by a time that is above the resend threshold
    MockClock::advance(Duration::from_millis(200));
    sender.update(Instant::now().duration_since(current_time));
    // this time there are no new messages to send
    assert_eq!(sender.num_singles_to_send(), 2);
}

#[test]
fn first_collect_queues_the_message() {
    let mut sender = sender_with_rtt_100();
    assert!(!sender.has_messages_to_send());
    assert_eq!(sender.buffer_send(Bytes::from("hello")), Ok(()));
    assert!(!sender.has_messages_to_send());
    sender.collect_messages_to_send();
    assert_eq!(sender.num_singles_to_send(), 1);
    assert_eq!(sender.num_fragments_to_send(), 0);
    assert!(sender.has_messages_to_send());
}

#[test]
fn collect_before_the_resend_delay_queues_nothing_more() {
    let mut sender = sender_with_rtt_100();
    assert_eq!(sender.buffer_send(Bytes::from("hello")), Ok(()));
    sender.collect_messages_to_send();
    sender.update(Duration::from_millis(100));
    sender.collect_messages_to_send();
    assert_eq!(sender.num_singles_to_send(), 1);
    // exactly at the delay is not yet past it
    sender.update(Duration::from_millis(50));
    sender.collect_messages_to_send();
    assert_eq!(sender.num_singles_to_send(), 1);
    sender.update(Duration::from_nanos(1));
    sender.collect_messages_to_send();
    assert_eq!(sender.num_singles_to_send(), 2);
}

#[test]
fn collect_after_the_resend_delay_queues_the_message_again() {
    // not drained in between: the message is queued twice
    let mut sender = sender_with_rtt_100();
    assert_eq!(sender.buffer_send(Bytes::from("hello")), Ok(()));
    sender.collect_messages_to_send();
    sender.update(Duration::from_millis(100));
    sender.collect_messages_to_send();
    sender.update(Duration::from_millis(100));
    sender.collect_messages_to_send();
    assert_eq!(sender.num_singles_to_send(), 2);

    // drained in between: it is queued once
    let mut sender = sender_with_rtt_100();
    assert_eq!(sender.buffer_send(Bytes::from("hello")), Ok(()));
    sender.collect_messages_to_send();
    let (singles, fragments) = sender.send_packet();
    assert_eq!(singles.len(), 1);
    assert_eq!(fragments.len(), 0);
    assert!(!sender.has_messages_to_send());
    sender.update(Duration::from_millis(100));
    sender.collect_messages_to_send();
    assert_eq!(sender.num_singles_to_send(), 0);
    sender.update(Duration::from_millis(100));
    sender.collect_messages_to_send();
    assert_eq!(sender.num_singles_to_send(), 1);
    let (singles, _) = sender.send_packet();
    assert_eq!(
        singles.front(),
        Some(&SingleData::new(Some(MessageId(0)), Bytes::from("hello")))
    );
    assert_eq!(sender.num_unacked(), 1);
}

#[test]
fn delivery_of_a_single_message_empties_the_unacked() {
    let mut sender = sender_with_rtt_100();
    assert_eq!(sender.buffer_send(Bytes::from("hello")), Ok(()));
    sender.collect_messages_to_send();
    assert_eq!(sender.notify_message_delivered(&whole(0)), Ok(()));
    assert_eq!(sender.num_unacked(), 0);
    // a second notification is absorbed
    assert_eq!(sender.notify_message_delivered(&whole(0)), Ok(()));
    assert_eq!(sender.notify_message_delivered(&part(0, 1)), Ok(()));
}

#[test]
fn collect_with_nothing_unacked_queues_nothing() {
    let mut sender = sender_with_rtt_100();
    assert_eq!(sender.buffer_send(Bytes::from("hello")), Ok(()));
    sender.collect_messages_to_send();
    let _ = sender.send_packet();
    assert_eq!(sender.notify_message_delivered(&whole(0)), Ok(()));
    sender.update(Duration::from_millis(400));
    sender.collect_messages_to_send();
    assert_eq!(sender.num_singles_to_send(), 0);
    assert_eq!(sender.num_fragments_to_send(), 0);
    assert!(!sender.has_messages_to_send());
}

#[test]
fn ids_are_given_in_order_and_wrap() {
    let mut sender = ReliableSender::new();
    assert_eq!(sender.next_send_message_id(), MessageId(0));
    for expected in 0..3u16 {
        assert_eq!(sender.next_send_message_id(), MessageId(expected));
        assert_eq!(sender.buffer_send(Bytes::from("m")), Ok(()));
    }
    sender.collect_messages_to_send();
    let (singles, _) = sender.send_packet();
    let ids: Vec<Option<MessageId>> = singles.iter().map(|s| s.id).collect();
    assert_eq!(
        ids,
        vec![Some(MessageId(0)), Some(MessageId(1)), Some(MessageId(2))]
    );
}

#[test]
fn id_that_comes_round_again_replaces_the_old_message() {
    let mut sender = ReliableSender::new();
    assert_eq!(sender.buffer_send(Bytes::from("first")), Ok(()));
    for _ in 1..65536u32 {
        assert_eq!(sender.buffer_send(Bytes::from("m")), Ok(()));
        let last = sender.next_send_message_id().wrapping_add(65535);
        sender.process_message_ack(last);
    }
    assert_eq!(sender.next_send_message_id(), MessageId(0));
    assert_eq!(sender.num_unacked(), 1);
    assert_eq!(sender.buffer_send(Bytes::from("second")), Ok(()));
    assert_eq!(sender.num_unacked(), 1);
    sender.collect_messages_to_send();
    assert_eq!(
        sender.single_to_send(0),
        Some(SingleData::new(Some(MessageId(0)), Bytes::from("second")))
    );
    assert_eq!(sender.single_to_send(1), None);
}

fn fragment(id: u16, index: u8, count: u8, bytes: &'static str) -> FragmentData {
    FragmentData {
        message_id: MessageId(id),
        fragment_id: index,
        num_fragments: count,
        bytes: Bytes::from(bytes),
    }
}

#[test]
fn large_message_is_sent_and_acked_fragment_by_fragment() {
    let mut sender = ReliableSender::with_fragment_size(4);
    sender.set_resend_delay_millis(150);
    assert_eq!(sender.buffer_send(Bytes::from("hello world")), Ok(()));
    assert_eq!(sender.buffer_send(Bytes::from("hi")), Ok(()));
    assert_eq!(sender.num_unacked(), 2);
    sender.collect_messages_to_send();
    let (singles, fragments) = sender.send_packet();
    assert_eq!(
        Vec::from(singles),
        vec![SingleData::new(Some(MessageId(1)), Bytes::from("hi"))]
    );
    assert_eq!(
        Vec::from(fragments),
        vec![
            fragment(0, 0, 3, "hell"),
            fragment(0, 1, 3, "o wo"),
            fragment(0, 2, 3, "rld"),
        ]
    );

    assert_eq!(sender.notify_message_delivered(&part(0, 1)), Ok(()));
    assert_eq!(sender.num_unacked(), 2);
    // idempotent on a fragment already acked
    assert_eq!(sender.notify_message_delivered(&part(0, 1)), Ok(()));
    assert_eq!(sender.num_unacked(), 2);

    // only what is unconfirmed is sent again
    sender.update(Duration::from_millis(151));
    sender.collect_messages_to_send();
    let (singles, fragments) = sender.send_packet();
    assert_eq!(singles.len(), 1);
    assert_eq!(
        Vec::from(fragments),
        vec![fragment(0, 0, 3, "hell"), fragment(0, 2, 3, "rld")]
    );

    assert_eq!(sender.notify_message_delivered(&part(0, 0)), Ok(()));
    assert_eq!(sender.num_unacked(), 2);
    assert_eq!(sender.notify_message_delivered(&part(0, 2)), Ok(()));
    assert_eq!(sender.num_unacked(), 1);
    assert_eq!(sender.notify_message_delivered(&whole(1)), Ok(()));
    assert_eq!(sender.num_unacked(), 0);
}

#[test]
fn notification_of_the_wrong_shape_is_refused() {
    let mut sender = ReliableSender::with_fragment_size(4);
    assert_eq!(sender.buffer_send(Bytes::from("hello world")), Ok(()));
    assert_eq!(sender.buffer_send(Bytes::from("hi")), Ok(()));
    assert_eq!(
        sender.notify_message_delivered(&whole(0)),
        Err(ChannelError::AckMismatch)
    );
    assert_eq!(
        sender.notify_message_delivered(&part(1, 0)),
        Err(ChannelError::AckMismatch)
    );
    assert_eq!(
        sender.notify_message_delivered(&part(0, 3)),
        Err(ChannelError::InvalidFragment)
    );
    assert_eq!(sender.num_unacked(), 2);
    // a message that is not remembered is no error
    assert_eq!(sender.notify_message_delivered(&whole(9)), Ok(()));
    assert_eq!(sender.num_unacked(), 2);
}

#[test]
fn message_of_more_than_255_fragments_is_refused() {
    let mut sender = ReliableSender::with_fragment_size(2);
    assert_eq!(sender.buffer_send(Bytes::from(vec![1u8; 510])), Ok(()));
    assert_eq!(sender.next_send_message_id(), MessageId(1));
    assert_eq!(
        sender.buffer_send(Bytes::from(vec![1u8; 511])),
        Err(ChannelError::MessageTooLarge)
    );
    assert_eq!(sender.next_send_message_id(), MessageId(1));
    assert_eq!(sender.num_unacked(), 1);
    sender.collect_messages_to_send();
    assert_eq!(sender.num_fragments_to_send(), 255);
}

#[test]
fn message_of_exactly_one_fragment_size_is_not_fragmented() {
    let mut sender = ReliableSender::with_fragment_size(4);
    assert_eq!(sender.buffer_send(Bytes::from("abcd")), Ok(()));
    assert_eq!(sender.buffer_send(Bytes::from("abcde")), Ok(()));
    sender.collect_messages_to_send();
    assert_eq!(sender.num_singles_to_send(), 1);
    assert_eq!(sender.num_fragments_to_send(), 2);
}

#[test]
fn with_no_resend_delay_everything_unacked_is_due_once_time_passes() {
    let mut sender = ReliableSender::new();
    assert_eq!(sender.buffer_send(Bytes::from("a")), Ok(()));
    sender.collect_messages_to_send();
    sender.collect_messages_to_send();
    assert_eq!(sender.num_singles_to_send(), 1);
    sender.update(Duration::from_nanos(1));
    sender.collect_messages_to_send();
    assert_eq!(sender.num_singles_to_send(), 2);
}
