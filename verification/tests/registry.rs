use lightyear_shared::channel::settings::{
    ChannelDirection, ChannelMode, ChannelSettings, Endpoint,
};
use lightyear_shared::packet::message::ChannelError;
use lightyear_shared::registry::{ChannelEntry, ChannelKind, ChannelRegistry};

fn settings(mode: ChannelMode, direction: ChannelDirection) -> ChannelSettings {
    ChannelSettings { mode, direction }
}

#[test]
fn direction_says_who_may_send() {
    assert!(ChannelDirection::ClientToServer.may_send(Endpoint::Client));
    assert!(!ChannelDirection::ClientToServer.may_send(Endpoint::Server));
    assert!(!ChannelDirection::ServerToClient.may_send(Endpoint::Client));
    assert!(ChannelDirection::ServerToClient.may_send(Endpoint::Server));
    assert!(ChannelDirection::Bidirectional.may_send(Endpoint::Client));
    assert!(ChannelDirection::Bidirectional.may_send(Endpoint::Server));
}

#[test]
fn sending_against_the_direction_is_a_violation() {
    let up = settings(ChannelMode::OrderedReliable, ChannelDirection::ClientToServer);
    assert_eq!(up.check_send(Endpoint::Client), Ok(()));
    assert_eq!(
        up.check_send(Endpoint::Server),
        Err(ChannelError::DirectionViolation)
    );
    let down = settings(ChannelMode::UnorderedUnreliable, ChannelDirection::ServerToClient);
    assert_eq!(
        down.check_send(Endpoint::Client),
        Err(ChannelError::DirectionViolation)
    );
    assert_eq!(down.check_send(Endpoint::Server), Ok(()));
}

#[test]
fn modes_know_what_they_promise() {
    assert!(!ChannelMode::UnorderedUnreliable.is_reliable());
    assert!(!ChannelMode::SequencedUnreliable.is_reliable());
    assert!(ChannelMode::UnorderedReliable.is_reliable());
    assert!(ChannelMode::OrderedReliable.is_reliable());
    assert!(!ChannelMode::UnorderedUnreliable.has_message_ids());
    assert!(ChannelMode::SequencedUnreliable.has_message_ids());
    assert!(ChannelMode::UnorderedReliable.has_message_ids());
    assert!(ChannelMode::OrderedReliable.has_message_ids());
}

#[test]
fn channels_are_numbered_in_the_order_of_declaration() {
    let a = settings(ChannelMode::OrderedReliable, ChannelDirection::Bidirectional);
    let b = settings(ChannelMode::SequencedUnreliable, ChannelDirection::ServerToClient);
    let mut registry = ChannelRegistry::new();
    assert_eq!(registry.len(), 0);
    assert_eq!(registry.add(ChannelKind(70), a), Some(0));
    assert_eq!(registry.add(ChannelKind(3), b), Some(1));
    // a key is declared once
    assert_eq!(registry.add(ChannelKind(70), b), None);
    assert_eq!(registry.len(), 2);
    assert_eq!(registry.net_id(ChannelKind(70)), Some(0));
    assert_eq!(registry.net_id(ChannelKind(3)), Some(1));
    assert_eq!(registry.net_id(ChannelKind(4)), None);
    assert_eq!(
        registry.get(0),
        Some(ChannelEntry { kind: ChannelKind(70), settings: a })
    );
    assert_eq!(
        registry.get(1),
        Some(ChannelEntry { kind: ChannelKind(3), settings: b })
    );
    assert_eq!(registry.get(2), None);

    // the other end declares the same channels in the same order and agrees
    let mut peer = ChannelRegistry::new();
    assert_eq!(peer.add(ChannelKind(70), a), Some(0));
    assert_eq!(peer.add(ChannelKind(3), b), Some(1));
    assert_eq!(peer.get(1), registry.get(1));
}
