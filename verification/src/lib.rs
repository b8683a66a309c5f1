//! A peer-connection protocol engine for a legacy gossip network.
//!
//! The crate provides the pieces that make one peer connection work:
//! a message codec that frames and validates wire envelopes, a handshake
//! state machine that drives the mandatory greeting exchange, and a
//! per-connection dispatch fabric that fans decoded messages out to
//! independent feature handlers.  All protocol logic is verified; the
//! byte stream itself (sockets, blocking reads) is left to the caller.

pub mod digest;
pub mod envelope;
pub mod greeting;
pub mod handshake;
pub mod handler;
pub mod dispatch;
pub mod reader;
