//! The dispatch fabric: the per-connection node supervisor.
//!
//! The supervisor owns one connection's state, its subscription table
//! and its outbound queue.  Every decoded inbound frame first runs
//! through the handshake machine where it concerns the handshake, and
//! is then fanned out to the handlers subscribed to its message type,
//! in subscription order, with each handler's failure isolated from
//! its siblings.  Outbound requests are framed and queued first come,
//! first out; the transport drains the queue.

use vstd::prelude::*;
use crate::envelope::Config;
use crate::envelope::FrameError;
use crate::envelope::MessageEnvelope;
use crate::envelope::valid_command;
use crate::envelope::spec_frame;
use crate::envelope::encode;
use crate::envelope::bytes_eq;
use crate::envelope::command_is_valid;
use crate::greeting::HandshakeInfo;
use crate::greeting::MIN_HANDSHAKE_LEN;
use crate::greeting::decode_handshake_payload;
use crate::greeting::encode_handshake_payload;
use crate::greeting::spec_handshake_bytes;
use crate::greeting::handshake_payload_complete;
use crate::greeting::spec_i32_of_u32;
use vstd::bytes::spec_u32_from_le_bytes;
use crate::handshake::ConnectionState;
use crate::handshake::ProtocolViolation;
use crate::handshake::HandshakeEvent;
use crate::handshake::spec_handshake_step;
use crate::handshake::handshake_step;
use crate::handler::FeatureHandler;
use crate::handler::HandlerResponse;
use crate::handler::HandlerError;
use crate::handler::DomainEvent;
use crate::handler::OutboundRequest;

verus! {

/// The command identifier of the greeting message, the ASCII bytes of
/// the word `version`.
pub open spec fn spec_greeting_command() -> Seq<u8> {
    seq![118u8, 101u8, 114u8, 115u8, 105u8, 111u8, 110u8]
}

/// The command identifier of the acknowledgement message, the ASCII
/// bytes of the word `verack`.
pub open spec fn spec_ack_command() -> Seq<u8> {
    seq![118u8, 101u8, 114u8, 97u8, 99u8, 107u8]
}

/// Builds the greeting command identifier.
pub fn greeting_command() -> (c: Vec<u8>)
    ensures
        c@ == spec_greeting_command(),
        valid_command(c@),
{
    let mut c: Vec<u8> = Vec::new();
    c.push(118u8);
    c.push(101u8);
    c.push(114u8);
    c.push(115u8);
    c.push(105u8);
    c.push(111u8);
    c.push(110u8);
    proof {
        assert(c@ =~= spec_greeting_command());
    }
    c
}

/// Builds the acknowledgement command identifier.
pub fn ack_command() -> (c: Vec<u8>)
    ensures
        c@ == spec_ack_command(),
        valid_command(c@),
{
    let mut c: Vec<u8> = Vec::new();
    c.push(118u8);
    c.push(101u8);
    c.push(114u8);
    c.push(97u8);
    c.push(99u8);
    c.push(107u8);
    proof {
        assert(c@ =~= spec_ack_command());
    }
    c
}

/// The handler indices that `pairs` subscribes to `command`, in
/// subscription order.
pub open spec fn spec_subs_of(pairs: Seq<(Vec<u8>, usize)>, command: Seq<u8>) -> Seq<usize>
    decreases pairs.len(),
{
    if pairs.len() == 0 {
        Seq::empty()
    } else {
        let rest = spec_subs_of(pairs.drop_last(), command);
        if pairs.last().0@ == command {
            rest.push(pairs.last().1)
        } else {
            rest
        }
    }
}

/// A handler index is subscribed to a command exactly when some pair
/// records that subscription.
proof fn lemma_subs_of_contains(pairs: Seq<(Vec<u8>, usize)>, command: Seq<u8>, s: usize)
    ensures
        spec_subs_of(pairs, command).contains(s)
            <==> exists|k: int|
                0 <= k < pairs.len() && (#[trigger] pairs[k]).0@ == command && pairs[k].1 == s,
    decreases pairs.len(),
{
    if pairs.len() > 0 {
        lemma_subs_of_contains(pairs.drop_last(), command, s);
        let rest = spec_subs_of(pairs.drop_last(), command);
        if pairs.last().0@ == command && pairs.last().1 == s {
            assert(spec_subs_of(pairs, command).last() == s);
            assert(spec_subs_of(pairs, command).contains(s));
        }
        if spec_subs_of(pairs, command).contains(s) {
            if pairs.last().0@ == command {
                let full = rest.push(pairs.last().1);
                let j = choose|j: int| 0 <= j < full.len() && full[j] == s;
                if j < rest.len() {
                    assert(rest.contains(s));
                } else {
                    assert(pairs.last().1 == s);
                }
            }
        }
        if exists|k: int|
            0 <= k < pairs.len() && (#[trigger] pairs[k]).0@ == command && pairs[k].1 == s {
            let k = choose|k: int|
                0 <= k < pairs.len() && (#[trigger] pairs[k]).0@ == command && pairs[k].1 == s;
            if k < pairs.len() - 1 {
                assert(pairs.drop_last()[k] == pairs[k]);
                assert(rest.contains(s));
                if pairs.last().0@ == command {
                    let full = rest.push(pairs.last().1);
                    let j = choose|j: int| 0 <= j < rest.len() && rest[j] == s;
                    assert(full[j] == s);
                    assert(full.contains(s));
                }
            }
        }
    }
}

/// The per-connection subscription table: a mapping from message-type
/// identifier to the handler indices subscribed to it, in subscription
/// order, kept as the flat sequence of subscription acts.
pub struct SubscriptionTable {
    pairs: Vec<(Vec<u8>, usize)>,
}

impl SubscriptionTable {
    /// The handler indices subscribed to `command`, in subscription
    /// order.
    pub closed spec fn spec_subscribers(self, command: Seq<u8>) -> Seq<usize> {
        spec_subs_of(self.pairs@, command)
    }

    /// No subscription is recorded twice: subscribing is idempotent.
    pub closed spec fn wf(self) -> bool {
        forall|i: int, j: int|
            0 <= i < j < self.pairs@.len()
                ==> !((#[trigger] self.pairs@[i]).0@ == (#[trigger] self.pairs@[j]).0@
                    && self.pairs@[i].1 == self.pairs@[j].1)
    }

    /// Every subscribed handler index is below `n`.
    pub closed spec fn all_below(self, n: int) -> bool {
        forall|i: int| 0 <= i < self.pairs@.len() ==> (#[trigger] self.pairs@[i]).1 < n
    }

    /// An empty table: nothing is subscribed to anything.
    pub fn new() -> (t: SubscriptionTable)
        ensures
            t.wf(),
            t.all_below(0),
            forall|c: Seq<u8>| #[trigger] t.spec_subscribers(c) == Seq::<usize>::empty(),
    {
        let t = SubscriptionTable { pairs: Vec::new() };
        proof {
            assert(forall|c: Seq<u8>|
                #[trigger] t.spec_subscribers(c) == Seq::<usize>::empty());
        }
        t
    }

    /// Records that handler `subscriber` wants messages of type
    /// `command`.  A repeated subscription is a no-op, not an error;
    /// otherwise the handler joins the end of the type's list.  Other
    /// types are untouched.
    pub fn subscribe(&mut self, command: &Vec<u8>, subscriber: usize)
        requires
            old(self).wf(),
        ensures
            final(self).wf(),
            old(self).spec_subscribers(command@).contains(subscriber)
                ==> *final(self) == *old(self),
            !old(self).spec_subscribers(command@).contains(subscriber)
                ==> final(self).spec_subscribers(command@)
                    == old(self).spec_subscribers(command@).push(subscriber),
            forall|c: Seq<u8>| c != command@
                ==> #[trigger] final(self).spec_subscribers(c)
                    == old(self).spec_subscribers(c),
            forall|n: int| old(self).all_below(n) && subscriber < n
                ==> #[trigger] final(self).all_below(n),
    {
        let n = self.pairs.len();
        let mut i: usize = 0;
        while i < n
            invariant
                i <= n,
                n == self.pairs@.len(),
                *self == *old(self),
                old(self).wf(),
                forall|k: int|
                    0 <= k < i
                        ==> !((#[trigger] self.pairs@[k]).0@ == command@
                            && self.pairs@[k].1 == subscriber),
            decreases n - i,
        {
            let hit = bytes_eq(&self.pairs[i].0, command);
            if hit && self.pairs[i].1 == subscriber {
                proof {
                    lemma_subs_of_contains(self.pairs@, command@, subscriber);
                }
                return;
            }
            i = i + 1;
        }
        proof {
            lemma_subs_of_contains(self.pairs@, command@, subscriber);
            assert(!self.spec_subscribers(command@).contains(subscriber));
        }
        let ghost pairs0 = self.pairs@;
        let key = vstd::slice::slice_to_vec(command.as_slice());
        self.pairs.push((key, subscriber));
        proof {
            assert(self.pairs@.drop_last() =~= pairs0);
            assert(self.pairs@.last().0@ == command@);
            assert(self.spec_subscribers(command@)
                == spec_subs_of(pairs0, command@).push(subscriber));
            assert forall|c: Seq<u8>| c != command@
                implies #[trigger] spec_subs_of(self.pairs@, c) == spec_subs_of(pairs0, c) by {
                assert(self.pairs@.drop_last() =~= pairs0);
            }
        }
    }

    /// Drops every subscription.
    pub fn clear_all(&mut self)
        ensures
            final(self).wf(),
            final(self).all_below(0),
            forall|c: Seq<u8>|
                #[trigger] final(self).spec_subscribers(c) == Seq::<usize>::empty(),
    {
        self.pairs.clear();
    }
}

/// Why a connection was torn down: a fatal frame, or a handshake
/// protocol violation.
#[derive(Clone, Copy, Debug, PartialEq, Eq, Structural)]
pub enum ConnectionFault {
    /// A malformed, oversized or corrupted frame.
    Frame(FrameError),
    /// A handshake ordering or version violation.
    Protocol(ProtocolViolation),
}

/// One handler invocation made while dispatching a frame, in the
/// order the invocations were made.
#[derive(Clone, Copy, Debug, PartialEq, Eq, Structural)]
pub struct Delivery {
    /// The handler that was invoked.
    pub subscriber: usize,
    /// Whether the handler processed the message; a failure here is
    /// isolated and never stops later deliveries.
    pub accepted: bool,
}

/// What the supervisor did with one decoded inbound frame.
pub struct DispatchReport {
    /// False only when the connection was already failed or closed and
    /// the frame was ignored outright.
    pub handled: bool,
    /// The fatal fault this frame caused, if any; the connection is
    /// failed and shut when one is reported.
    pub fault: Option<ConnectionFault>,
    /// The handshake completed on this frame.
    pub became_ready: bool,
    /// The handler invocations made, in subscription order.
    pub deliveries: Vec<Delivery>,
    /// The domain events the invoked handlers produced, in delivery
    /// order.
    pub domain_events: Vec<DomainEvent>,
}

/// The supervisor's verdict on a frame: the state the connection
/// moves to, the fault if the frame was fatal, whether a greeting is
/// to be acknowledged, and whether the handshake just completed.
pub struct FrameVerdict {
    /// The connection state after the frame.
    pub next: ConnectionState,
    /// The fatal fault the frame caused, if any.
    pub fault: Option<ConnectionFault>,
    /// An acknowledgement is owed to the peer.
    pub send_ack: bool,
    /// The handshake completed on this frame.
    pub became_ready: bool,
}

/// How a live connection judges one decoded frame.
///
/// A greeting must parse; one that does runs through the handshake
/// machine under the configured version floor.  An acknowledgement
/// runs through the machine as it is.  Any other message type is
/// ordinary traffic: ignored noise before the handshake completes is
/// a protocol violation, afterwards it is dispatched — an unknown
/// command is not an error.
pub open spec fn spec_frame_verdict(
    cfg: Config,
    state: ConnectionState,
    command: Seq<u8>,
    payload: Seq<u8>,
) -> FrameVerdict {
    if command == spec_greeting_command() {
        if !handshake_payload_complete(payload) {
            FrameVerdict {
                next: ConnectionState::Failed,
                fault: Some(ConnectionFault::Frame(FrameError::TruncatedPayload)),
                send_ack: false,
                became_ready: false,
            }
        } else {
            let version = spec_i32_of_u32(spec_u32_from_le_bytes(payload.subrange(0, 4)));
            let step = spec_handshake_step(
                state,
                HandshakeEvent::Greeting { protocol_version: version },
                cfg.version_floor,
            );
            FrameVerdict {
                next: step.next,
                fault: match step.violation {
                    Some(v) => Some(ConnectionFault::Protocol(v)),
                    None => None,
                },
                send_ack: step.send_ack,
                became_ready: step.became_ready,
            }
        }
    } else if command == spec_ack_command() {
        let step = spec_handshake_step(state, HandshakeEvent::Ack, cfg.version_floor);
        FrameVerdict {
            next: step.next,
            fault: match step.violation {
                Some(v) => Some(ConnectionFault::Protocol(v)),
                None => None,
            },
            send_ack: step.send_ack,
            became_ready: step.became_ready,
        }
    } else {
        if state is Ready {
            FrameVerdict { next: state, fault: None, send_ack: false, became_ready: false }
        } else {
            FrameVerdict {
                next: ConnectionState::Failed,
                fault: Some(ConnectionFault::Protocol(ProtocolViolation::MessageBeforeReady)),
                send_ack: false,
                became_ready: false,
            }
        }
    }
}

/// The earlier queue is an untouched prefix of the later one: nothing
/// already queued is reordered or dropped.
pub open spec fn spec_queue_extended(q0: Seq<Seq<u8>>, q1: Seq<Seq<u8>>) -> bool {
    &&& q0.len() <= q1.len()
    &&& forall|i: int| 0 <= i < q0.len() ==> q1[i] == q0[i]
}

/// The node supervisor of one peer connection.  It owns the
/// connection's state, its subscription table, its feature handlers
/// and its outbound queue; inbound decoded frames run through it one
/// at a time.
pub struct Supervisor<H: FeatureHandler> {
    cfg: Config,
    state: ConnectionState,
    table: SubscriptionTable,
    handlers: Vec<H>,
    outbound: Vec<Vec<u8>>,
}

impl<H: FeatureHandler> Supervisor<H> {
    /// The connection's configuration.
    pub closed spec fn spec_config(self) -> Config {
        self.cfg
    }

    /// The connection's current state.
    pub closed spec fn spec_state(self) -> ConnectionState {
        self.state
    }

    /// The handler indices subscribed to `command`, in subscription
    /// order.
    pub closed spec fn spec_subscribers(self, command: Seq<u8>) -> Seq<usize> {
        self.table.spec_subscribers(command)
    }

    /// How many handlers are attached.
    pub closed spec fn spec_handler_count(self) -> nat {
        self.handlers@.len()
    }

    /// The queued outbound frames, oldest first.
    pub closed spec fn spec_outbound(self) -> Seq<Seq<u8>> {
        self.outbound@.map_values(|f: Vec<u8>| f@)
    }

    /// The supervisor invariant: the table holds no duplicate
    /// subscription and every subscribed index denotes an attached
    /// handler.
    pub closed spec fn wf(self) -> bool {
        &&& self.table.wf()
        &&& self.table.all_below(self.handlers@.len() as int)
    }

    /// A fresh supervisor for one connection: state `Connecting`, no
    /// handlers, no subscriptions, nothing queued.
    pub fn new(cfg: Config) -> (s: Supervisor<H>)
        ensures
            s.wf(),
            s.spec_config() == cfg,
            s.spec_state() == ConnectionState::Connecting,
            s.spec_handler_count() == 0,
            s.spec_outbound() == Seq::<Seq<u8>>::empty(),
            forall|c: Seq<u8>| #[trigger] s.spec_subscribers(c) == Seq::<usize>::empty(),
    {
        let s = Supervisor {
            cfg,
            state: ConnectionState::Connecting,
            table: SubscriptionTable::new(),
            handlers: Vec::new(),
            outbound: Vec::new(),
        };
        proof {
            assert(s.spec_outbound() =~= Seq::<Seq<u8>>::empty());
        }
        s
    }

    /// Reads the connection's current state.
    pub fn state(&self) -> (s: ConnectionState)
        ensures
            s == self.spec_state(),
    {
        self.state
    }

    /// Reads the connection's configuration.
    pub fn config(&self) -> (c: Config)
        ensures
            c == self.spec_config(),
    {
        self.cfg
    }

    /// How many handlers are attached.
    pub fn handler_count(&self) -> (n: usize)
        ensures
            n == self.spec_handler_count(),
    {
        self.handlers.len()
    }

    /// Attaches a feature handler and returns its index, by which it
    /// subscribes to message types.
    pub fn add_handler(&mut self, handler: H) -> (idx: usize)
        requires
            old(self).wf(),
        ensures
            final(self).wf(),
            idx == old(self).spec_handler_count(),
            final(self).spec_handler_count() == old(self).spec_handler_count() + 1,
            final(self).spec_config() == old(self).spec_config(),
            final(self).spec_state() == old(self).spec_state(),
            final(self).spec_outbound() == old(self).spec_outbound(),
            forall|c: Seq<u8>| #[trigger] final(self).spec_subscribers(c)
                == old(self).spec_subscribers(c),
    {
        let idx = self.handlers.len();
        self.handlers.push(handler);
        proof {
            assert(final(self).spec_outbound() =~= old(self).spec_outbound());
        }
        idx
    }

    /// Subscribes handler `subscriber` to messages of type `command`.
    /// Subscribing twice is a no-op; other types are untouched.  Once
    /// the connection is `Ready` the handler is eligible for every
    /// future dispatch of that type; messages already delivered are
    /// not replayed.
    pub fn subscribe(&mut self, command: &Vec<u8>, subscriber: usize)
        requires
            old(self).wf(),
            subscriber < old(self).spec_handler_count(),
        ensures
            final(self).wf(),
            final(self).spec_config() == old(self).spec_config(),
            final(self).spec_state() == old(self).spec_state(),
            final(self).spec_handler_count() == old(self).spec_handler_count(),
            final(self).spec_outbound() == old(self).spec_outbound(),
            old(self).spec_subscribers(command@).contains(subscriber)
                ==> final(self).spec_subscribers(command@)
                    == old(self).spec_subscribers(command@),
            !old(self).spec_subscribers(command@).contains(subscriber)
                ==> final(self).spec_subscribers(command@)
                    == old(self).spec_subscribers(command@).push(subscriber),
            forall|c: Seq<u8>| c != command@
                ==> #[trigger] final(self).spec_subscribers(c)
                    == old(self).spec_subscribers(c),
    {
        self.table.subscribe(command, subscriber);
    }

    /// Opens the handshake: queues our greeting for the peer and moves
    /// the connection from `Connecting` to `VersionSent`.
    pub fn start(&mut self, local: &HandshakeInfo)
        requires
            old(self).wf(),
            old(self).spec_state() == ConnectionState::Connecting,
            local.wf(),
            MIN_HANDSHAKE_LEN + local.agent@.len()
                <= old(self).spec_config().max_payload_len,
        ensures
            final(self).wf(),
            final(self).spec_config() == old(self).spec_config(),
            final(self).spec_state() == ConnectionState::VersionSent,
            final(self).spec_handler_count() == old(self).spec_handler_count(),
            forall|c: Seq<u8>| #[trigger] final(self).spec_subscribers(c)
                == old(self).spec_subscribers(c),
            final(self).spec_outbound() == old(self).spec_outbound().push(
                spec_frame(
                    old(self).spec_config(),
                    spec_greeting_command(),
                    spec_handshake_bytes(*local),
                )),
    {
        let payload = encode_handshake_payload(local);
        let command = greeting_command();
        let frame = encode(&self.cfg, &command, &payload);
        self.outbound.push(frame);
        self.state = ConnectionState::VersionSent;
        proof {
            assert(final(self).spec_outbound() =~= old(self).spec_outbound().push(
                spec_frame(
                    old(self).spec_config(),
                    spec_greeting_command(),
                    spec_handshake_bytes(*local),
                )));
        }
    }

    /// Queues one message for the peer.  A valid request joins the
    /// back of the outbound queue — or is discarded without effect on
    /// a failed or closed connection; an invalid command or an
    /// oversized payload is the error it names, and changes nothing.
    pub fn send(&mut self, command: &Vec<u8>, payload: &Vec<u8>) -> (r: Result<(), FrameError>)
        requires
            old(self).wf(),
        ensures
            final(self).wf(),
            final(self).spec_config() == old(self).spec_config(),
            final(self).spec_state() == old(self).spec_state(),
            final(self).spec_handler_count() == old(self).spec_handler_count(),
            forall|c: Seq<u8>| #[trigger] final(self).spec_subscribers(c)
                == old(self).spec_subscribers(c),
            match r {
                Ok(()) => {
                    &&& valid_command(command@)
                    &&& payload@.len() <= old(self).spec_config().max_payload_len
                    &&& if old(self).spec_state() is Failed
                        || old(self).spec_state() is Closed {
                        final(self).spec_outbound() == old(self).spec_outbound()
                    } else {
                        final(self).spec_outbound() == old(self).spec_outbound().push(
                            spec_frame(old(self).spec_config(), command@, payload@))
                    }
                },
                Err(e) => {
                    &&& final(self).spec_outbound() == old(self).spec_outbound()
                    &&& !valid_command(command@)
                        ==> e == FrameError::MalformedCommand
                    &&& valid_command(command@)
                        ==> (payload@.len() > old(self).spec_config().max_payload_len
                            && e == FrameError::OversizedMessage)
                },
            },
    {
        if !command_is_valid(command) {
            return Err(FrameError::MalformedCommand);
        }
        if payload.len() as u64 > self.cfg.max_payload_len as u64 {
            return Err(FrameError::OversizedMessage);
        }
        match self.state {
            ConnectionState::Failed | ConnectionState::Closed => Ok(()),
            _ => {
                let frame = encode(&self.cfg, command, payload);
                self.outbound.push(frame);
                proof {
                    assert(final(self).spec_outbound() =~= old(self).spec_outbound().push(
                        spec_frame(old(self).spec_config(), command@, payload@)));
                }
                Ok(())
            },
        }
    }

    /// Hands the queued outbound frames to the transport, oldest
    /// first, leaving the queue empty.
    pub fn take_outbound(&mut self) -> (frames: Vec<Vec<u8>>)
        requires
            old(self).wf(),
        ensures
            final(self).wf(),
            final(self).spec_config() == old(self).spec_config(),
            final(self).spec_state() == old(self).spec_state(),
            final(self).spec_handler_count() == old(self).spec_handler_count(),
            forall|c: Seq<u8>| #[trigger] final(self).spec_subscribers(c)
                == old(self).spec_subscribers(c),
            frames@.map_values(|f: Vec<u8>| f@) == old(self).spec_outbound(),
            final(self).spec_outbound() == Seq::<Seq<u8>>::empty(),
    {
        let mut frames: Vec<Vec<u8>> = Vec::new();
        core::mem::swap(&mut frames, &mut self.outbound);
        proof {
            assert(final(self).spec_outbound() =~= Seq::<Seq<u8>>::empty());
        }
        frames
    }

    /// Shuts the connection down: the state becomes `Closed`, the
    /// subscription table is dropped, and outbound frames not yet
    /// flushed are discarded.
    pub fn close(&mut self)
        requires
            old(self).wf(),
        ensures
            final(self).wf(),
            final(self).spec_config() == old(self).spec_config(),
            final(self).spec_state() == ConnectionState::Closed,
            final(self).spec_handler_count() == old(self).spec_handler_count(),
            final(self).spec_outbound() == Seq::<Seq<u8>>::empty(),
            forall|c: Seq<u8>|
                #[trigger] final(self).spec_subscribers(c) == Seq::<usize>::empty(),
    {
        self.state = ConnectionState::Closed;
        self.outbound = Vec::new();
        self.table.clear_all();
        proof {
            assert(final(self).spec_outbound() =~= Seq::<Seq<u8>>::empty());
        }
    }

    /// Fails the connection on a fatal fault: the state becomes
    /// `Failed`, the table is dropped and the queue discarded, and the
    /// fault is reported upward.  Nothing is dispatched.
    fn fail_connection(&mut self, fault: ConnectionFault) -> (report: DispatchReport)
        requires
            old(self).wf(),
        ensures
            final(self).wf(),
            final(self).cfg == old(self).cfg,
            final(self).handlers@.len() == old(self).handlers@.len(),
            final(self).state == ConnectionState::Failed,
            final(self).spec_outbound() == Seq::<Seq<u8>>::empty(),
            forall|c: Seq<u8>|
                #[trigger] final(self).table.spec_subscribers(c) == Seq::<usize>::empty(),
            report.handled,
            report.fault == Some(fault),
            !report.became_ready,
            report.deliveries@.len() == 0,
            report.domain_events@.len() == 0,
    {
        self.state = ConnectionState::Failed;
        self.outbound = Vec::new();
        self.table.clear_all();
        proof {
            assert(final(self).spec_outbound() =~= Seq::<Seq<u8>>::empty());
        }
        DispatchReport {
            handled: true,
            fault: Some(fault),
            became_ready: false,
            deliveries: Vec::new(),
            domain_events: Vec::new(),
        }
    }

    /// Invokes every handler subscribed to the frame's type, in
    /// subscription order, isolating failures: one handler's error
    /// never stops the deliveries after it.  A successful handler's
    /// outbound request is framed and queued behind everything already
    /// queued; its domain event is collected for the caller.
    fn dispatch_to_subscribers(&mut self, env: &MessageEnvelope) -> (r: (Vec<Delivery>, Vec<DomainEvent>))
        requires
            old(self).wf(),
        ensures
            final(self).wf(),
            final(self).cfg == old(self).cfg,
            final(self).state == old(self).state,
            final(self).table == old(self).table,
            final(self).handlers@.len() == old(self).handlers@.len(),
            spec_queue_extended(old(self).spec_outbound(), final(self).spec_outbound()),
            r.0@.len() == 0 ==> final(self).spec_outbound() == old(self).spec_outbound(),
            r.0@.len() == old(self).table.spec_subscribers(env.command@).len(),
            forall|i: int|
                0 <= i < r.0@.len()
                    ==> (#[trigger] r.0@[i]).subscriber
                        == old(self).table.spec_subscribers(env.command@)[i],
    {
        let mut deliveries: Vec<Delivery> = Vec::new();
        let mut events: Vec<DomainEvent> = Vec::new();
        let n = self.table.pairs.len();
        let mut i: usize = 0;
        while i < n
            invariant
                i <= n,
                old(self).wf(),
                self.wf(),
                self.cfg == old(self).cfg,
                self.state == old(self).state,
                self.table == old(self).table,
                n == self.table.pairs@.len(),
                self.handlers@.len() == old(self).handlers@.len(),
                spec_queue_extended(old(self).spec_outbound(), self.spec_outbound()),
                deliveries@.len() == 0 ==> self.spec_outbound() == old(self).spec_outbound(),
                deliveries@.len()
                    == spec_subs_of(self.table.pairs@.take(i as int), env.command@).len(),
                forall|j: int|
                    0 <= j < deliveries@.len()
                        ==> (#[trigger] deliveries@[j]).subscriber
                            == spec_subs_of(self.table.pairs@.take(i as int), env.command@)[j],
            decreases n - i,
        {
            let hit = bytes_eq(&self.table.pairs[i].0, &env.command);
            if hit {
                let idx = self.table.pairs[i].1;
                proof {
                    assert(self.table.all_below(self.handlers@.len() as int));
                    assert(idx < self.handlers@.len());
                }
                let mut handler = self.handlers.remove(idx);
                let outcome = handler.on_message(&env.command, &env.payload);
                self.handlers.insert(idx, handler);
                match outcome {
                    Ok(response) => {
                        let mut accepted = true;
                        match response.outbound {
                            Some(request) => {
                                let ghost out_before = self.spec_outbound();
                                if command_is_valid(&request.command)
                                    && request.payload.len() as u64
                                        <= self.cfg.max_payload_len as u64 {
                                    let frame = encode(
                                        &self.cfg,
                                        &request.command,
                                        &request.payload,
                                    );
                                    self.outbound.push(frame);
                                    proof {
                                        assert(self.spec_outbound()
                                            =~= out_before.push(frame@));
                                    }
                                } else {
                                    accepted = false;
                                }
                            },
                            None => {},
                        }
                        match response.event {
                            Some(event) => events.push(event),
                            None => {},
                        }
                        deliveries.push(Delivery { subscriber: idx, accepted });
                    },
                    Err(_failure) => {
                        deliveries.push(Delivery { subscriber: idx, accepted: false });
                    },
                }
            }
            proof {
                let t = self.table.pairs@;
                assert(t.take(i as int + 1).drop_last() =~= t.take(i as int));
                assert(t.take(i as int + 1).last() == t[i as int]);
            }
            i = i + 1;
        }
        proof {
            assert(self.table.pairs@.take(n as int) =~= self.table.pairs@);
        }
        (deliveries, events)
    }

    /// Feeds one decoded inbound frame through the connection.
    ///
    /// A failed or closed connection ignores the frame outright.  On a
    /// live connection the frame's verdict (`spec_frame_verdict`)
    /// settles the state transition, any fault and any owed
    /// acknowledgement.  A fatal frame fails and shuts the connection
    /// without dispatching or acknowledging anything.  Every other
    /// frame is dispatched to the handlers subscribed to its type, in
    /// subscription order and regardless of individual handler
    /// failures; with no subscribers the frame is silently dropped.
    /// An owed acknowledgement is queued before anything the handlers
    /// send, and nothing already queued moves.
    pub fn on_frame_decoded(&mut self, env: &MessageEnvelope) -> (report: DispatchReport)
        requires
            old(self).wf(),
        ensures
            final(self).wf(),
            final(self).spec_config() == old(self).spec_config(),
            final(self).spec_handler_count() == old(self).spec_handler_count(),
            (old(self).spec_state() is Failed || old(self).spec_state() is Closed) ==> {
                &&& !report.handled
                &&& report.fault is None
                &&& !report.became_ready
                &&& report.deliveries@.len() == 0
                &&& report.domain_events@.len() == 0
                &&& *final(self) == *old(self)
            },
            !(old(self).spec_state() is Failed || old(self).spec_state() is Closed) ==> {
                let verdict = spec_frame_verdict(
                    old(self).spec_config(),
                    old(self).spec_state(),
                    env.command@,
                    env.payload@,
                );
                &&& report.handled
                &&& final(self).spec_state() == verdict.next
                &&& report.fault == verdict.fault
                &&& report.became_ready == verdict.became_ready
                &&& (verdict.fault is Some ==> {
                    &&& final(self).spec_outbound() == Seq::<Seq<u8>>::empty()
                    &&& forall|c: Seq<u8>|
                        #[trigger] final(self).spec_subscribers(c)
                            == Seq::<usize>::empty()
                    &&& report.deliveries@.len() == 0
                    &&& report.domain_events@.len() == 0
                })
                &&& (verdict.fault is None ==> {
                    &&& forall|c: Seq<u8>|
                        #[trigger] final(self).spec_subscribers(c)
                            == old(self).spec_subscribers(c)
                    &&& report.deliveries@.len()
                        == old(self).spec_subscribers(env.command@).len()
                    &&& forall|i: int|
                        0 <= i < report.deliveries@.len()
                            ==> (#[trigger] report.deliveries@[i]).subscriber
                                == old(self).spec_subscribers(env.command@)[i]
                    &&& spec_queue_extended(
                        old(self).spec_outbound(),
                        final(self).spec_outbound(),
                    )
                    &&& (verdict.send_ack ==> {
                        &&& final(self).spec_outbound().len()
                            > old(self).spec_outbound().len()
                        &&& final(self).spec_outbound()[old(self).spec_outbound().len() as int]
                            == spec_frame(
                                old(self).spec_config(),
                                spec_ack_command(),
                                Seq::<u8>::empty(),
                            )
                    })
                    &&& (!verdict.send_ack && report.deliveries@.len() == 0
                        ==> final(self).spec_outbound() == old(self).spec_outbound())
                })
            },
    {
        match self.state {
            ConnectionState::Failed | ConnectionState::Closed => {
                return DispatchReport {
                    handled: false,
                    fault: None,
                    became_ready: false,
                    deliveries: Vec::new(),
                    domain_events: Vec::new(),
                };
            },
            _ => {},
        }
        let greeting = greeting_command();
        let ack = ack_command();
        let is_greeting = bytes_eq(&env.command, &greeting);
        let is_ack = bytes_eq(&env.command, &ack);
        if is_greeting {
            match decode_handshake_payload(&env.payload) {
                Err(e) => {
                    return self.fail_connection(ConnectionFault::Frame(e));
                },
                Ok(info) => {
                    let step = handshake_step(
                        self.state,
                        HandshakeEvent::Greeting { protocol_version: info.protocol_version },
                        self.cfg.version_floor,
                    );
                    match step.violation {
                        Some(violation) => {
                            return self.fail_connection(
                                ConnectionFault::Protocol(violation));
                        },
                        None => {
                            self.state = step.next;
                            if step.send_ack {
                                let ghost out_before = self.spec_outbound();
                                let empty_payload: Vec<u8> = Vec::new();
                                let frame = encode(&self.cfg, &ack, &empty_payload);
                                self.outbound.push(frame);
                                proof {
                                    assert(self.spec_outbound()
                                        =~= out_before.push(frame@));
                                }
                            }
                            let (deliveries, domain_events) =
                                self.dispatch_to_subscribers(env);
                            return DispatchReport {
                                handled: true,
                                fault: None,
                                became_ready: step.became_ready,
                                deliveries,
                                domain_events,
                            };
                        },
                    }
                },
            }
        } else if is_ack {
            let step = handshake_step(self.state, HandshakeEvent::Ack, self.cfg.version_floor);
            match step.violation {
                Some(violation) => {
                    return self.fail_connection(ConnectionFault::Protocol(violation));
                },
                None => {
                    self.state = step.next;
                    let (deliveries, domain_events) = self.dispatch_to_subscribers(env);
                    return DispatchReport {
                        handled: true,
                        fault: None,
                        became_ready: step.became_ready,
                        deliveries,
                        domain_events,
                    };
                },
            }
        } else {
            match self.state {
                ConnectionState::Ready => {
                    let (deliveries, domain_events) = self.dispatch_to_subscribers(env);
                    return DispatchReport {
                        handled: true,
                        fault: None,
                        became_ready: false,
                        deliveries,
                        domain_events,
                    };
                },
                _ => {
                    return self.fail_connection(
                        ConnectionFault::Protocol(ProtocolViolation::MessageBeforeReady));
                },
            }
        }
    }
}

} // verus!
