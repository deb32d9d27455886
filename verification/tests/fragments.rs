use bytes::Bytes;
use lightyear_shared::channel::receivers::fragment_receiver::{FragmentConstructor, FragmentReceiver};
use lightyear_shared::channel::senders::fragment_sender::{FragmentSender, FRAGMENT_SIZE};
use lightyear_shared::packet::message::{ChannelError, FragmentData, MessageId, SingleData};

fn fragment(id: u16, index: u8, count: u8, bytes: &'static str) -> FragmentData {
    FragmentData {
        message_id: MessageId(id),
        fragment_id: index,
        num_fragments: count,
        bytes: Bytes::from(bytes),
    }
}

#[test]
fn split_cuts_at_the_fragment_size() {
    let sender = FragmentSender::with_fragment_size(4);
    let fragments = sender
        .build_fragments(MessageId(7), Bytes::from("hello world"))
        .unwrap();
    assert_eq!(
        fragments,
        vec![
            fragment(7, 0, 3, "hell"),
            fragment(7, 1, 3, "o wo"),
            fragment(7, 2, 3, "rld"),
        ]
    );
}

#[test]
fn split_of_a_whole_multiple_has_no_short_fragment() {
    let sender = FragmentSender::with_fragment_size(4);
    let fragments = sender
        .build_fragments(MessageId(1), Bytes::from("abcdefgh"))
        .unwrap();
    assert_eq!(
        fragments,
        vec![fragment(1, 0, 2, "abcd"), fragment(1, 1, 2, "efgh")]
    );
}

#[test]
fn split_of_a_short_payload_is_one_fragment() {
    let sender = FragmentSender::with_fragment_size(4);
    let fragments = sender.build_fragments(MessageId(1), Bytes::from("abc")).unwrap();
    assert_eq!(fragments, vec![fragment(1, 0, 1, "abc")]);
    let none = sender.build_fragments(MessageId(1), Bytes::new()).unwrap();
    assert!(none.is_empty());
}

#[test]
fn split_accepts_255_fragments_and_refuses_more() {
    let sender = FragmentSender::with_fragment_size(2);
    let largest = Bytes::from(vec![9u8; 510]);
    let fragments = sender.build_fragments(MessageId(0), largest).unwrap();
    assert_eq!(fragments.len(), 255);
    assert_eq!(fragments[254].fragment_id, 254);
    assert_eq!(fragments[254].num_fragments, 255);
    assert_eq!(fragments[254].bytes.len(), 2);

    let too_large = Bytes::from(vec![9u8; 511]);
    assert_eq!(
        sender.build_fragments(MessageId(0), too_large),
        Err(ChannelError::MessageTooLarge)
    );
}

#[test]
fn default_fragment_size() {
    assert_eq!(FragmentSender::new().fragment_size, FRAGMENT_SIZE);
}

#[test]
fn joined_fragments_give_the_payload_back() {
    let payload = Bytes::from("the quick brown fox jumps over the lazy dog");
    let sender = FragmentSender::with_fragment_size(5);
    let fragments = sender.build_fragments(MessageId(3), payload.clone()).unwrap();
    let mut joined: Vec<u8> = Vec::new();
    for f in &fragments {
        joined.extend_from_slice(&f.bytes);
    }
    assert_eq!(Bytes::from(joined), payload);
}

#[test]
fn fragments_in_any_order_give_the_message_once() {
    let payload = Bytes::from("hello world");
    let sender = FragmentSender::with_fragment_size(4);
    let orders: [[usize; 3]; 6] = [
        [0, 1, 2],
        [0, 2, 1],
        [1, 0, 2],
        [1, 2, 0],
        [2, 0, 1],
        [2, 1, 0],
    ];
    for order in orders {
        let fragments = sender.build_fragments(MessageId(9), payload.clone()).unwrap();
        let mut receiver = FragmentReceiver::new();
        assert_eq!(
            receiver.receive_fragment(fragments[order[0]].clone(), Some(0)),
            Ok(None)
        );
        assert_eq!(
            receiver.receive_fragment(fragments[order[1]].clone(), Some(1)),
            Ok(None)
        );
        assert_eq!(receiver.num_pending(), 1);
        assert_eq!(
            receiver.receive_fragment(fragments[order[2]].clone(), Some(2)),
            Ok(Some(SingleData::new(Some(MessageId(9)), payload.clone())))
        );
        assert_eq!(receiver.num_pending(), 0);
    }
}

#[test]
fn duplicate_fragments_change_nothing() {
    let mut receiver = FragmentReceiver::new();
    assert_eq!(receiver.receive_fragment(fragment(4, 0, 2, "ab"), None), Ok(None));
    assert_eq!(receiver.receive_fragment(fragment(4, 0, 2, "xy"), None), Ok(None));
    assert_eq!(receiver.num_pending(), 1);
    assert_eq!(
        receiver.receive_fragment(fragment(4, 1, 2, "cd"), None),
        Ok(Some(SingleData::new(Some(MessageId(4)), Bytes::from("abcd"))))
    );
}

#[test]
fn messages_are_reassembled_side_by_side() {
    let mut receiver = FragmentReceiver::new();
    assert_eq!(receiver.receive_fragment(fragment(1, 0, 2, "a"), None), Ok(None));
    assert_eq!(receiver.receive_fragment(fragment(2, 1, 2, "d"), None), Ok(None));
    assert_eq!(receiver.num_pending(), 2);
    assert_eq!(
        receiver.receive_fragment(fragment(2, 0, 2, "c"), None),
        Ok(Some(SingleData::new(Some(MessageId(2)), Bytes::from("cd"))))
    );
    assert_eq!(
        receiver.receive_fragment(fragment(1, 1, 2, "b"), None),
        Ok(Some(SingleData::new(Some(MessageId(1)), Bytes::from("ab"))))
    );
    assert_eq!(receiver.num_pending(), 0);
}

#[test]
fn fragment_beyond_its_count_is_refused_and_drops_the_entry() {
    let mut receiver = FragmentReceiver::new();
    assert_eq!(receiver.receive_fragment(fragment(5, 0, 3, "a"), None), Ok(None));
    assert_eq!(
        receiver.receive_fragment(fragment(5, 3, 3, "b"), None),
        Err(ChannelError::InvalidFragment)
    );
    assert_eq!(receiver.num_pending(), 0);
    assert_eq!(
        receiver.receive_fragment(fragment(6, 0, 0, "b"), None),
        Err(ChannelError::InvalidFragment)
    );
}

#[test]
fn fragment_with_another_count_is_refused_and_drops_the_entry() {
    let mut receiver = FragmentReceiver::new();
    assert_eq!(receiver.receive_fragment(fragment(5, 0, 3, "a"), None), Ok(None));
    assert_eq!(
        receiver.receive_fragment(fragment(5, 1, 2, "b"), None),
        Err(ChannelError::InvalidFragment)
    );
    assert_eq!(receiver.num_pending(), 0);
}

#[test]
fn cleanup_evicts_what_was_last_updated_before() {
    let mut receiver = FragmentReceiver::new();
    assert_eq!(receiver.receive_fragment(fragment(1, 0, 2, "a"), Some(10)), Ok(None));
    assert_eq!(receiver.receive_fragment(fragment(2, 0, 2, "b"), Some(20)), Ok(None));
    assert_eq!(receiver.receive_fragment(fragment(3, 0, 2, "c"), None), Ok(None));
    receiver.cleanup(20);
    assert_eq!(receiver.num_pending(), 2);
    // message 1 starts afresh: its second fragment alone does not complete it
    assert_eq!(receiver.receive_fragment(fragment(1, 1, 2, "z"), Some(30)), Ok(None));
    // message 2 was kept
    assert_eq!(
        receiver.receive_fragment(fragment(2, 1, 2, "y"), Some(30)),
        Ok(Some(SingleData::new(Some(MessageId(2)), Bytes::from("by"))))
    );
    // message 3 was never stamped and is kept
    assert_eq!(
        receiver.receive_fragment(fragment(3, 1, 2, "x"), Some(30)),
        Ok(Some(SingleData::new(Some(MessageId(3)), Bytes::from("cx"))))
    );
}

#[test]
fn constructor_fills_slot_by_slot() {
    let mut constructor = FragmentConstructor::new(2);
    assert!(!constructor.is_complete());
    constructor.store(1, Bytes::from("cd"), Some(5));
    assert!(!constructor.is_complete());
    assert_eq!(constructor.assemble(), Bytes::from("cd"));
    constructor.store(0, Bytes::from("ab"), Some(6));
    assert!(constructor.is_complete());
    assert_eq!(constructor.assemble(), Bytes::from("abcd"));
    assert!(FragmentConstructor::new(0).is_complete());
}
