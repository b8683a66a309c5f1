use peer_engine::handshake::ConnectionState;
use peer_engine::handshake::HandshakeEvent;
use peer_engine::handshake::ProtocolViolation;
use peer_engine::handshake::handshake_step;

const FLOOR: i32 = 70015;

#[test]
fn greeting_is_answered_from_connecting_and_version_sent() {
    for state in [ConnectionState::Connecting, ConnectionState::VersionSent] {
        let outcome = handshake_step(
            state,
            HandshakeEvent::Greeting { protocol_version: FLOOR },
            FLOOR,
        );
        assert_eq!(outcome.next, ConnectionState::AwaitingVerack);
        assert!(outcome.send_ack);
        assert!(!outcome.became_ready);
        assert!(outcome.violation.is_none());
    }
}

#[test]
fn greeting_below_floor_is_a_violation() {
    let outcome = handshake_step(
        ConnectionState::VersionSent,
        HandshakeEvent::Greeting { protocol_version: FLOOR - 1 },
        FLOOR,
    );
    assert_eq!(outcome.next, ConnectionState::Failed);
    assert!(!outcome.send_ack);
    assert_eq!(
        outcome.violation,
        Some(ProtocolViolation::UnsupportedProtocolVersion)
    );
}

#[test]
fn ack_completes_only_from_awaiting_verack() {
    let outcome = handshake_step(ConnectionState::AwaitingVerack, HandshakeEvent::Ack, FLOOR);
    assert_eq!(outcome.next, ConnectionState::Ready);
    assert!(outcome.became_ready);
    assert!(outcome.violation.is_none());

    for state in [ConnectionState::Connecting, ConnectionState::VersionSent] {
        let outcome = handshake_step(state, HandshakeEvent::Ack, FLOOR);
        assert_eq!(outcome.next, ConnectionState::Failed);
        assert_eq!(outcome.violation, Some(ProtocolViolation::AckBeforeGreeting));
    }
}

#[test]
fn ready_ignores_further_handshake_events() {
    for event in [
        HandshakeEvent::Greeting { protocol_version: FLOOR },
        HandshakeEvent::Greeting { protocol_version: 0 },
        HandshakeEvent::Ack,
    ] {
        let outcome = handshake_step(ConnectionState::Ready, event, FLOOR);
        assert_eq!(outcome.next, ConnectionState::Ready);
        assert!(!outcome.send_ack);
        assert!(!outcome.became_ready);
        assert!(outcome.violation.is_none());
    }
}

#[test]
fn terminal_states_never_move() {
    for state in [ConnectionState::Failed, ConnectionState::Closed] {
        for event in [
            HandshakeEvent::Greeting { protocol_version: FLOOR },
            HandshakeEvent::Ack,
        ] {
            let outcome = handshake_step(state, event, FLOOR);
            assert_eq!(outcome.next, state);
            assert!(!outcome.send_ack);
            assert!(!outcome.became_ready);
            assert!(outcome.violation.is_none());
        }
    }
}
