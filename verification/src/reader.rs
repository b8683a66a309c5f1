//! The inbound half of the connection transport.
//!
//! The transport owns one ordered, reliable byte stream.  Whatever
//! arrives — whole frames, fragments, several frames at once — is
//! pushed into this buffer; the codec is then applied repeatedly, one
//! complete frame at a time, leaving partial trailing bytes for the
//! next read.  The blocking read itself is the caller's: this type
//! only ever sees plain bytes.

use vstd::prelude::*;
use crate::envelope::Config;
use crate::envelope::FrameError;
use crate::envelope::MessageEnvelope;
use crate::envelope::spec_decode;
use crate::envelope::decode;
use crate::envelope::append_bytes;

verus! {

/// A stream-level failure of the byte stream a transport owns.  It is
/// fatal: the owning connection closes, the failure is reported to the
/// supervising layer, and nothing is retried at this level.
#[derive(Clone, Copy, Debug, PartialEq, Eq, Structural)]
pub enum TransportError {
    /// The peer's byte stream ended or broke.
    Disconnected,
}

/// Buffers raw inbound bytes and frames them.
pub struct FrameReader {
    cfg: Config,
    buffer: Vec<u8>,
}

impl FrameReader {
    /// The connection configuration the codec is applied under.
    pub closed spec fn spec_config(self) -> Config {
        self.cfg
    }

    /// The bytes received and not yet consumed as frames.
    pub closed spec fn spec_buffer(self) -> Seq<u8> {
        self.buffer@
    }

    /// A reader with an empty buffer.
    pub fn new(cfg: Config) -> (r: FrameReader)
        ensures
            r.spec_config() == cfg,
            r.spec_buffer() == Seq::<u8>::empty(),
    {
        let r = FrameReader { cfg, buffer: Vec::new() };
        proof {
            assert(r.spec_buffer() =~= Seq::<u8>::empty());
        }
        r
    }

    /// Appends one chunk of received bytes to the buffer.
    pub fn push_bytes(&mut self, chunk: &Vec<u8>)
        ensures
            final(self).spec_config() == old(self).spec_config(),
            final(self).spec_buffer() == old(self).spec_buffer() + chunk@,
    {
        append_bytes(&mut self.buffer, chunk);
    }

    /// Frames the front of the buffer.  A complete frame is decoded,
    /// consumed, and handed out; an incomplete one stays buffered
    /// untouched and yields `None`; a fatal framing error leaves the
    /// buffer as it was, for the connection is over anyway.
    pub fn try_next_frame(&mut self) -> (r: Result<Option<MessageEnvelope>, FrameError>)
        ensures
            final(self).spec_config() == old(self).spec_config(),
            match r {
                Ok(Some(env)) => {
                    &&& env.wf(old(self).spec_config())
                    &&& exists|consumed: int|
                        {
                            &&& spec_decode(old(self).spec_config(), old(self).spec_buffer())
                                == Ok::<Option<(Seq<u8>, Seq<u8>, int)>, FrameError>(
                                    Some((env.command@, env.payload@, consumed)))
                            &&& 0 <= consumed <= old(self).spec_buffer().len()
                            &&& #[trigger] final(self).spec_buffer()
                                == old(self).spec_buffer().skip(consumed)
                        }
                },
                Ok(None) => {
                    &&& spec_decode(old(self).spec_config(), old(self).spec_buffer())
                        == Ok::<Option<(Seq<u8>, Seq<u8>, int)>, FrameError>(None)
                    &&& final(self).spec_buffer() == old(self).spec_buffer()
                },
                Err(e) => {
                    &&& spec_decode(old(self).spec_config(), old(self).spec_buffer())
                        == Err::<Option<(Seq<u8>, Seq<u8>, int)>, FrameError>(e)
                    &&& final(self).spec_buffer() == old(self).spec_buffer()
                },
            },
    {
        match decode(&self.cfg, &self.buffer) {
            Err(e) => Err(e),
            Ok(None) => Ok(None),
            Ok(Some((env, consumed))) => {
                let rest = self.buffer.split_off(consumed);
                self.buffer = rest;
                Ok(Some(env))
            },
        }
    }
}

} // verus!
