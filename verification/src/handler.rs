//! The feature-handler interface.
//!
//! A feature handler is one independent unit reacting to the message
//! types it subscribes to.  Handlers never touch the transport and
//! never call each other: each reacts to a decoded payload and may
//! hand back one outbound message request and one domain event.

use vstd::prelude::*;

verus! {

/// A decoded observation bound for the persistence or indexing
/// collaborator.  The engine never depends on its content.
pub struct DomainEvent {
    /// The observation, as the handler chose to represent it.
    pub data: Vec<u8>,
}

/// A message a handler asks the supervisor to send to the peer.
pub struct OutboundRequest {
    /// The command identifier of the requested message.
    pub command: Vec<u8>,
    /// The payload of the requested message.
    pub payload: Vec<u8>,
}

/// A handler's failure to process one message.  The failure is
/// reported and isolated: it never touches sibling handlers or the
/// connection.
#[derive(Clone, Copy, Debug, PartialEq, Eq, Structural)]
pub struct HandlerError {
    /// A handler-defined code describing the failure.
    pub code: u64,
}

/// What a handler produced for one message.
pub struct HandlerResponse {
    /// A message to send to the peer, if the handler wants one out.
    pub outbound: Option<OutboundRequest>,
    /// An observation for the persistence collaborator, if any.
    pub event: Option<DomainEvent>,
}

/// One independent feature unit on a connection.  Implementations are
/// supplied by the crate's users; the supervisor invokes subscribed
/// handlers in subscription order and isolates their failures.
pub trait FeatureHandler {
    /// Reacts to one decoded message of a subscribed type.
    fn on_message(
        &mut self,
        command: &Vec<u8>,
        payload: &Vec<u8>,
    ) -> Result<HandlerResponse, HandlerError>;
}

} // verus!
