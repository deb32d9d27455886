use bytes::Bytes;
use lightyear_shared::channel::receivers::unordered_unreliable::UnorderedUnreliableReceiver;
use lightyear_shared::channel::senders::fragment_sender::FragmentSender;
use lightyear_shared::packet::message::{
    ChannelError, FragmentData, MessageContainer, MessageId, SingleData,
};
use std::time::Duration;

#[test]
fn test_unordered_unreliable_receiver_internals() -> Result<(), ChannelError> {
    let mut receiver = UnorderedUnreliableReceiver::new();

    let mut single1 = SingleData::new(None, Bytes::from("hello"));
    let mut single2 = SingleData::new(None, Bytes::from("world"));

    // receive an old message
    single2.id = Some(MessageId(60000));
    receiver.buffer_recv(single2.clone().into())?;

    // it still gets read
    assert_eq!(receiver.num_buffered(), 1);
    assert_eq!(receiver.read_message(), Some(single2.clone()));

    // receive message in the wrong order
    single2.id = Some(MessageId(1));
    receiver.buffer_recv(single2.clone().into())?;

    // we process the message
    assert_eq!(receiver.num_buffered(), 1);
    assert_eq!(receiver.read_message(), Some(single2.clone()));

    // receive message 0
    single1.id = Some(MessageId(0));
    receiver.buffer_recv(single1.clone().into())?;

    // we process the message
    assert_eq!(receiver.num_buffered(), 1);
    assert_eq!(receiver.read_message(), Some(single1.clone()));
    Ok(())
}

#[test]
fn messages_are_read_in_arrival_order() {
    let mut receiver = UnorderedUnreliableReceiver::new();
    for id in [60000u16, 1, 0] {
        let data = SingleData::new(Some(MessageId(id)), Bytes::from("x"));
        assert_eq!(receiver.buffer_recv(MessageContainer::Single(data)), Ok(()));
    }
    assert_eq!(receiver.num_buffered(), 3);
    assert_eq!(receiver.read_message().unwrap().id, Some(MessageId(60000)));
    assert_eq!(receiver.read_message().unwrap().id, Some(MessageId(1)));
    assert_eq!(receiver.read_message().unwrap().id, Some(MessageId(0)));
    assert_eq!(receiver.read_message(), None);
}

#[test]
fn empty_receiver_has_nothing_to_read() {
    let mut receiver = UnorderedUnreliableReceiver::new();
    assert_eq!(receiver.num_buffered(), 0);
    assert_eq!(receiver.num_pending(), 0);
    assert_eq!(receiver.read_message(), None);
}

#[test]
fn fragments_are_reassembled_before_delivery() {
    let payload = Bytes::from("hello world");
    let fragments = FragmentSender::with_fragment_size(4)
        .build_fragments(MessageId(3), payload.clone())
        .unwrap();
    let mut receiver = UnorderedUnreliableReceiver::new();
    assert_eq!(receiver.buffer_recv(fragments[2].clone().into()), Ok(()));
    assert_eq!(receiver.buffer_recv(fragments[0].clone().into()), Ok(()));
    assert_eq!(receiver.num_buffered(), 0);
    assert_eq!(receiver.num_pending(), 1);
    assert_eq!(receiver.read_message(), None);
    assert_eq!(receiver.buffer_recv(fragments[1].clone().into()), Ok(()));
    assert_eq!(receiver.num_pending(), 0);
    assert_eq!(
        receiver.read_message(),
        Some(SingleData::new(Some(MessageId(3)), payload))
    );
}

#[test]
fn refused_fragment_is_reported() {
    let mut receiver = UnorderedUnreliableReceiver::new();
    let bad = FragmentData {
        message_id: MessageId(1),
        fragment_id: 2,
        num_fragments: 2,
        bytes: Bytes::from("x"),
    };
    assert_eq!(
        receiver.buffer_recv(MessageContainer::Fragment(bad)),
        Err(ChannelError::InvalidFragment)
    );
    assert_eq!(receiver.num_buffered(), 0);
}

fn part(index: u8) -> MessageContainer {
    MessageContainer::Fragment(FragmentData {
        message_id: MessageId(8),
        fragment_id: index,
        num_fragments: 3,
        bytes: Bytes::from(vec![index]),
    })
}

#[test]
fn abandoned_reassembly_is_discarded_after_three_seconds() {
    let mut receiver = UnorderedUnreliableReceiver::new();
    assert_eq!(receiver.buffer_recv(part(0)), Ok(()));
    assert_eq!(receiver.num_pending(), 1);

    receiver.update(Duration::from_secs(4));
    assert_eq!(receiver.num_pending(), 0);

    // the message starts afresh: fragments 1 and 2 alone do not complete it
    assert_eq!(receiver.buffer_recv(part(1)), Ok(()));
    assert_eq!(receiver.buffer_recv(part(2)), Ok(()));
    assert_eq!(receiver.read_message(), None);
    assert_eq!(receiver.num_pending(), 1);

    // until fragment 0 is sent again
    assert_eq!(receiver.buffer_recv(part(0)), Ok(()));
    assert_eq!(
        receiver.read_message(),
        Some(SingleData::new(Some(MessageId(8)), Bytes::from(vec![0u8, 1, 2])))
    );
}

#[test]
fn reassembly_is_kept_up_to_three_seconds() {
    let mut receiver = UnorderedUnreliableReceiver::new();
    receiver.update(Duration::from_secs(10));
    assert_eq!(receiver.buffer_recv(part(0)), Ok(()));
    receiver.update(Duration::from_secs(3));
    assert_eq!(receiver.num_pending(), 1);
    assert_eq!(receiver.buffer_recv(part(1)), Ok(()));
    receiver.update(Duration::from_millis(2999));
    assert_eq!(receiver.num_pending(), 1);
    receiver.update(Duration::from_millis(2));
    assert_eq!(receiver.num_pending(), 0);
}
