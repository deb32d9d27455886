use bytes::Bytes;
use lightyear_shared::channel::receivers::ordered_reliable::OrderedReliableReceiver;
use lightyear_shared::channel::receivers::sequenced_unreliable::SequencedUnreliableReceiver;
use lightyear_shared::channel::receivers::unordered_reliable::UnorderedReliableReceiver;
use lightyear_shared::channel::senders::fragment_sender::FragmentSender;
use lightyear_shared::packet::message::{ChannelError, MessageContainer, MessageId, SingleData};
use std::time::Duration;

fn message(id: u16) -> MessageContainer {
    MessageContainer::Single(SingleData::new(
        Some(MessageId(id)),
        Bytes::from(id.to_be_bytes().to_vec()),
    ))
}

fn read_ids_ordered(receiver: &mut OrderedReliableReceiver) -> Vec<u16> {
    let mut ids = Vec::new();
    while let Some(m) = receiver.read_message() {
        assert_eq!(m.bytes, Bytes::from(m.id.unwrap().0.to_be_bytes().to_vec()));
        ids.push(m.id.unwrap().0);
    }
    ids
}

#[test]
fn ordered_receiver_delivers_in_id_order() {
    let mut receiver = OrderedReliableReceiver::new();
    assert_eq!(receiver.buffer_recv(message(2)), Ok(()));
    assert_eq!(receiver.num_buffered(), 0);
    assert_eq!(receiver.num_waiting(), 1);
    assert_eq!(receiver.buffer_recv(message(0)), Ok(()));
    assert_eq!(receiver.num_buffered(), 1);
    assert_eq!(receiver.buffer_recv(message(1)), Ok(()));
    assert_eq!(receiver.num_buffered(), 3);
    assert_eq!(receiver.num_waiting(), 0);
    assert_eq!(receiver.buffer_recv(message(3)), Ok(()));
    assert_eq!(read_ids_ordered(&mut receiver), vec![0, 1, 2, 3]);
    assert_eq!(receiver.read_message(), None);
}

#[test]
fn ordered_receiver_drops_duplicates() {
    let mut receiver = OrderedReliableReceiver::new();
    assert_eq!(receiver.buffer_recv(message(0)), Ok(()));
    assert_eq!(receiver.buffer_recv(message(0)), Ok(()));
    assert_eq!(receiver.buffer_recv(message(2)), Ok(()));
    assert_eq!(receiver.buffer_recv(message(2)), Ok(()));
    assert_eq!(receiver.num_waiting(), 1);
    assert_eq!(receiver.buffer_recv(message(65535)), Ok(()));
    assert_eq!(receiver.num_waiting(), 1);
    assert_eq!(receiver.buffer_recv(message(1)), Ok(()));
    assert_eq!(receiver.buffer_recv(message(1)), Ok(()));
    assert_eq!(read_ids_ordered(&mut receiver), vec![0, 1, 2]);
}

#[test]
fn ordered_receiver_goes_round_the_circle() {
    let mut receiver = OrderedReliableReceiver::new();
    let mut read = 0u32;
    for id in 0..=65535u16 {
        assert_eq!(receiver.buffer_recv(message(id)), Ok(()));
        assert_eq!(receiver.read_message().unwrap().id, Some(MessageId(id)));
        read += 1;
    }
    assert_eq!(read, 65536);
    assert_eq!(receiver.buffer_recv(message(1)), Ok(()));
    assert_eq!(receiver.buffer_recv(message(0)), Ok(()));
    assert_eq!(read_ids_ordered(&mut receiver), vec![0, 1]);
}

#[test]
fn ordered_receiver_refuses_a_message_without_id() {
    let mut receiver = OrderedReliableReceiver::new();
    let anonymous = MessageContainer::Single(SingleData::new(None, Bytes::from("x")));
    assert_eq!(receiver.buffer_recv(anonymous), Err(ChannelError::MissingId));
    assert_eq!(receiver.num_buffered(), 0);
}

#[test]
fn ordered_receiver_reassembles_before_it_orders() {
    let payload = Bytes::from("hello world");
    let fragments = FragmentSender::with_fragment_size(4)
        .build_fragments(MessageId(1), payload.clone())
        .unwrap();
    let mut receiver = OrderedReliableReceiver::new();
    receiver.update(Duration::from_millis(5));
    for f in fragments {
        assert_eq!(receiver.buffer_recv(f.into()), Ok(()));
    }
    assert_eq!(receiver.num_buffered(), 0);
    assert_eq!(receiver.num_waiting(), 1);
    assert_eq!(receiver.buffer_recv(message(0)), Ok(()));
    assert_eq!(receiver.read_message().unwrap().id, Some(MessageId(0)));
    assert_eq!(
        receiver.read_message(),
        Some(SingleData::new(Some(MessageId(1)), payload))
    );
}

#[test]
fn sequenced_receiver_drops_what_is_stale() {
    let mut receiver = SequencedUnreliableReceiver::new();
    for id in [5u16, 3, 6] {
        assert_eq!(receiver.buffer_recv(message(id)), Ok(()));
    }
    assert_eq!(receiver.num_buffered(), 2);
    assert_eq!(receiver.read_message().unwrap().id, Some(MessageId(5)));
    assert_eq!(receiver.read_message().unwrap().id, Some(MessageId(6)));
    assert_eq!(receiver.read_message(), None);
}

#[test]
fn sequenced_receiver_compares_ids_on_the_circle() {
    let mut receiver = SequencedUnreliableReceiver::new();
    assert_eq!(receiver.buffer_recv(message(65535)), Ok(()));
    assert_eq!(receiver.buffer_recv(message(65535)), Ok(()));
    assert_eq!(receiver.buffer_recv(message(1)), Ok(()));
    assert_eq!(receiver.buffer_recv(message(0)), Ok(()));
    assert_eq!(receiver.num_buffered(), 2);
    assert_eq!(receiver.read_message().unwrap().id, Some(MessageId(65535)));
    assert_eq!(receiver.read_message().unwrap().id, Some(MessageId(1)));
    receiver.update(Duration::from_secs(1));
    let anonymous = MessageContainer::Single(SingleData::new(None, Bytes::from("x")));
    assert_eq!(receiver.buffer_recv(anonymous), Err(ChannelError::MissingId));
}

#[test]
fn unordered_reliable_receiver_delivers_each_id_once() {
    let mut receiver = UnorderedReliableReceiver::new();
    for id in [2u16, 0, 2, 1, 0, 3] {
        assert_eq!(receiver.buffer_recv(message(id)), Ok(()));
    }
    assert_eq!(receiver.num_buffered(), 4);
    let mut ids = Vec::new();
    while let Some(m) = receiver.read_message() {
        ids.push(m.id.unwrap().0);
    }
    assert_eq!(ids, vec![2, 0, 1, 3]);
    // a duplicate that comes after the message was read is absorbed too
    assert_eq!(receiver.buffer_recv(message(1)), Ok(()));
    assert_eq!(receiver.read_message(), None);
    receiver.update(Duration::from_secs(1));
    let anonymous = MessageContainer::Single(SingleData::new(None, Bytes::from("x")));
    assert_eq!(receiver.buffer_recv(anonymous), Err(ChannelError::MissingId));
}
