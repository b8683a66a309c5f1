//! The handshake state machine.
//!
//! A connection must complete the mandatory greeting exchange before
//! any other traffic counts: each side sends its greeting, answers the
//! peer's greeting with an acknowledgement, and is ready once its own
//! greeting has been acknowledged.  The machine here consumes inbound
//! handshake events and says what to do about each; the supervisor
//! applies its verdicts.

use vstd::prelude::*;

verus! {

/// The lifecycle of one peer connection.  `Ready`, `Failed` and
/// `Closed` are terminal for the handshake: the machine never leaves
/// them on its own.
#[derive(Clone, Copy, Debug, PartialEq, Eq, Structural)]
pub enum ConnectionState {
    /// Established, local greeting not yet sent.
    Connecting,
    /// Local greeting sent, peer greeting not yet processed.
    VersionSent,
    /// Peer greeting answered, waiting for our greeting's acknowledgement.
    AwaitingVerack,
    /// Handshake complete; ordinary traffic may flow.
    Ready,
    /// A protocol violation or fatal frame ended the connection.
    Failed,
    /// The connection was shut down.
    Closed,
}

/// Why the handshake gave up on a peer.
#[derive(Clone, Copy, Debug, PartialEq, Eq, Structural)]
pub enum ProtocolViolation {
    /// The peer's protocol version is below the configured floor.
    UnsupportedProtocolVersion,
    /// An acknowledgement arrived before the peer's greeting was processed.
    AckBeforeGreeting,
    /// A second greeting arrived while the first was still being answered.
    DuplicateGreeting,
    /// A non-handshake message arrived before the handshake completed.
    MessageBeforeReady,
}

/// One inbound handshake event: the peer's greeting, carrying the only
/// field the machine judges, or the peer's acknowledgement.
#[derive(Clone, Copy, Debug, PartialEq, Eq, Structural)]
pub enum HandshakeEvent {
    /// The peer's greeting arrived with this protocol version.
    Greeting { protocol_version: i32 },
    /// The peer acknowledged our greeting.
    Ack,
}

/// The machine's verdict on one event: the state to move to, whether
/// to answer with an acknowledgement, whether the connection just
/// became usable, and the violation, if the event was one.
pub struct StepOutcome {
    /// The connection state after the event.
    pub next: ConnectionState,
    /// Send an acknowledgement for a greeting that was accepted.
    pub send_ack: bool,
    /// The handshake has just completed.
    pub became_ready: bool,
    /// The event broke the protocol; the connection must fail.
    pub violation: Option<ProtocolViolation>,
}

/// What the handshake machine does with `event` in `state`, with
/// `floor` the lowest acceptable peer protocol version.
///
/// A greeting is expected in `Connecting` or `VersionSent`; one whose
/// version reaches the floor is answered with an acknowledgement, one
/// below the floor fails the connection.  A repeated greeting before
/// completion fails the connection, after completion it is ignored.
/// An acknowledgement completes the handshake in `AwaitingVerack`,
/// fails the connection before that, and is ignored after `Ready`.
/// Terminal states never change.
pub open spec fn spec_handshake_step(
    state: ConnectionState,
    event: HandshakeEvent,
    floor: i32,
) -> StepOutcome {
    match state {
        ConnectionState::Connecting | ConnectionState::VersionSent => match event {
            HandshakeEvent::Greeting { protocol_version } => {
                if protocol_version < floor {
                    StepOutcome {
                        next: ConnectionState::Failed,
                        send_ack: false,
                        became_ready: false,
                        violation: Some(ProtocolViolation::UnsupportedProtocolVersion),
                    }
                } else {
                    StepOutcome {
                        next: ConnectionState::AwaitingVerack,
                        send_ack: true,
                        became_ready: false,
                        violation: None,
                    }
                }
            },
            HandshakeEvent::Ack => StepOutcome {
                next: ConnectionState::Failed,
                send_ack: false,
                became_ready: false,
                violation: Some(ProtocolViolation::AckBeforeGreeting),
            },
        },
        ConnectionState::AwaitingVerack => match event {
            HandshakeEvent::Greeting { protocol_version } => StepOutcome {
                next: ConnectionState::Failed,
                send_ack: false,
                became_ready: false,
                violation: Some(ProtocolViolation::DuplicateGreeting),
            },
            HandshakeEvent::Ack => StepOutcome {
                next: ConnectionState::Ready,
                send_ack: false,
                became_ready: true,
                violation: None,
            },
        },
        ConnectionState::Ready => StepOutcome {
            next: ConnectionState::Ready,
            send_ack: false,
            became_ready: false,
            violation: None,
        },
        ConnectionState::Failed | ConnectionState::Closed => StepOutcome {
            next: state,
            send_ack: false,
            became_ready: false,
            violation: None,
        },
    }
}

/// Runs one handshake event through the machine.
pub fn handshake_step(state: ConnectionState, event: HandshakeEvent, floor: i32) -> (r: StepOutcome)
    ensures
        r == spec_handshake_step(state, event, floor),
{
    match state {
        ConnectionState::Connecting | ConnectionState::VersionSent => match event {
            HandshakeEvent::Greeting { protocol_version } => {
                if protocol_version < floor {
                    StepOutcome {
                        next: ConnectionState::Failed,
                        send_ack: false,
                        became_ready: false,
                        violation: Some(ProtocolViolation::UnsupportedProtocolVersion),
                    }
                } else {
                    StepOutcome {
                        next: ConnectionState::AwaitingVerack,
                        send_ack: true,
                        became_ready: false,
                        violation: None,
                    }
                }
            },
            HandshakeEvent::Ack => StepOutcome {
                next: ConnectionState::Failed,
                send_ack: false,
                became_ready: false,
                violation: Some(ProtocolViolation::AckBeforeGreeting),
            },
        },
        ConnectionState::AwaitingVerack => match event {
            HandshakeEvent::Greeting { protocol_version: _ } => StepOutcome {
                next: ConnectionState::Failed,
                send_ack: false,
                became_ready: false,
                violation: Some(ProtocolViolation::DuplicateGreeting),
            },
            HandshakeEvent::Ack => StepOutcome {
                next: ConnectionState::Ready,
                send_ack: false,
                became_ready: true,
                violation: None,
            },
        },
        ConnectionState::Ready => StepOutcome {
            next: ConnectionState::Ready,
            send_ack: false,
            became_ready: false,
            violation: None,
        },
        ConnectionState::Failed | ConnectionState::Closed => StepOutcome {
            next: state,
            send_ack: false,
            became_ready: false,
            violation: None,
        },
    }
}

/// The state after feeding a whole sequence of inbound handshake
/// events through the machine, in order.
pub open spec fn spec_handshake_run(
    state: ConnectionState,
    events: Seq<HandshakeEvent>,
    floor: i32,
) -> ConnectionState
    decreases events.len(),
{
    if events.len() == 0 {
        state
    } else {
        spec_handshake_run(
            spec_handshake_step(state, events[0], floor).next,
            events.drop_first(),
            floor,
        )
    }
}

/// `Ready`, `Failed` and `Closed` absorb every further handshake event.
proof fn lemma_terminal_states_absorb(state: ConnectionState, events: Seq<HandshakeEvent>, floor: i32)
    requires
        state is Ready || state is Failed || state is Closed,
    ensures
        spec_handshake_run(state, events, floor) == state,
    decreases events.len(),
{
    if events.len() > 0 {
        lemma_terminal_states_absorb(state, events.drop_first(), floor);
    }
}

/// Completion law: starting from `VersionSent` — the local greeting is
/// out — the handshake reaches `Ready` if and only if the inbound
/// stream opens with the peer's greeting, at or above the version
/// floor, followed directly by the peer's acknowledgement of ours:
/// greeting, then acknowledgement, in each direction.  An inbound
/// stream that opens with an acknowledgement instead leaves the
/// connection `Failed`.
pub proof fn lemma_handshake_completion(events: Seq<HandshakeEvent>, floor: i32)
    ensures
        spec_handshake_run(ConnectionState::VersionSent, events, floor)
            == ConnectionState::Ready
        <==> (events.len() >= 2
            && (events[0] matches HandshakeEvent::Greeting { protocol_version }
                && protocol_version >= floor)
            && events[1] == HandshakeEvent::Ack),
        events.len() >= 1 && events[0] == HandshakeEvent::Ack
            ==> spec_handshake_run(ConnectionState::VersionSent, events, floor)
                == ConnectionState::Failed,
{
    if events.len() == 0 {
        assert(spec_handshake_run(ConnectionState::VersionSent, events, floor)
            == ConnectionState::VersionSent);
    } else {
        let first = spec_handshake_step(ConnectionState::VersionSent, events[0], floor);
        let rest = events.drop_first();
        assert(spec_handshake_run(ConnectionState::VersionSent, events, floor)
            == spec_handshake_run(first.next, rest, floor));
        if first.next is Failed {
            lemma_terminal_states_absorb(ConnectionState::Failed, rest, floor);
        } else {
            assert(first.next is AwaitingVerack);
            if rest.len() == 0 {
                assert(spec_handshake_run(ConnectionState::AwaitingVerack, rest, floor)
                    == ConnectionState::AwaitingVerack);
            } else {
                let second = spec_handshake_step(ConnectionState::AwaitingVerack, rest[0], floor);
                assert(spec_handshake_run(ConnectionState::AwaitingVerack, rest, floor)
                    == spec_handshake_run(second.next, rest.drop_first(), floor));
                lemma_terminal_states_absorb(second.next, rest.drop_first(), floor);
                assert(rest[0] == events[1]);
                assert(second.next is Ready <==> events[1] == HandshakeEvent::Ack);
            }
        }
    }
}

} // verus!
