//! The greeting payload of the handshake exchange.
//!
//! The greeting carries the peer's protocol version, service bits,
//! clock, both endpoint addresses, a connection nonce, an agent string
//! and the peer's chain height, in a fixed little-endian layout with
//! the agent string length-prefixed.  The acknowledgement that answers
//! it carries no payload at all.

use vstd::prelude::*;
use vstd::bytes::spec_u32_to_le_bytes;
use vstd::bytes::spec_u32_from_le_bytes;
use vstd::bytes::spec_u64_to_le_bytes;
use vstd::bytes::spec_u64_from_le_bytes;
use vstd::bytes::lemma_auto_spec_u32_to_from_le_bytes;
use vstd::bytes::lemma_auto_spec_u64_to_from_le_bytes;
use vstd::bytes::u32_to_le_bytes;
use vstd::bytes::u32_from_le_bytes;
use vstd::bytes::u64_to_le_bytes;
use vstd::bytes::u64_from_le_bytes;
use vstd::slice::slice_subrange;
use vstd::slice::slice_to_vec;
use crate::envelope::FrameError;
use crate::envelope::append_bytes;

verus! {

/// Width of one raw endpoint address on the wire: service bits, a
/// sixteen-byte address and a two-byte port, kept as opaque bytes.
pub const ADDR_LEN: usize = 26;

/// The agent string is prefixed by a single length byte, so it holds
/// at most this many bytes.
pub const MAX_AGENT_LEN: usize = 255;

/// Size of the fixed fields of a greeting payload: version, services,
/// timestamp, two addresses, nonce, the agent length byte and the
/// chain height.
pub const MIN_HANDSHAKE_LEN: usize = 85;

/// The greeting sent once per direction per connection.
pub struct HandshakeInfo {
    /// The sender's protocol version.
    pub protocol_version: i32,
    /// The sender's service bitmask.
    pub services: u64,
    /// The sender's clock, in unix seconds.
    pub timestamp: i64,
    /// The receiving endpoint's address, as raw wire bytes.
    pub receiver_address: Vec<u8>,
    /// The sending endpoint's address, as raw wire bytes.
    pub sender_address: Vec<u8>,
    /// A random nonce identifying the connection.
    pub nonce: u64,
    /// The sender's agent string, as raw bytes.
    pub agent: Vec<u8>,
    /// The height of the sender's chain.
    pub chain_height: i32,
}

impl HandshakeInfo {
    /// Both addresses have the fixed wire width and the agent string
    /// fits behind its one-byte length prefix.
    pub open spec fn wf(self) -> bool {
        &&& self.receiver_address@.len() == ADDR_LEN
        &&& self.sender_address@.len() == ADDR_LEN
        &&& self.agent@.len() <= MAX_AGENT_LEN
    }
}

/// The two's-complement image of a 32-bit signed value.
pub open spec fn spec_u32_of_i32(x: i32) -> u32 {
    if x >= 0 {
        x as u32
    } else {
        (x + 0x1_0000_0000) as u32
    }
}

/// The 32-bit signed value with the given two's-complement image.
pub open spec fn spec_i32_of_u32(u: u32) -> i32 {
    if u < 0x8000_0000 {
        u as i32
    } else {
        (u - 0x1_0000_0000) as i32
    }
}

/// The two's-complement image of a 64-bit signed value.
pub open spec fn spec_u64_of_i64(x: i64) -> u64 {
    if x >= 0 {
        x as u64
    } else {
        (x + 0x1_0000_0000_0000_0000) as u64
    }
}

/// The 64-bit signed value with the given two's-complement image.
pub open spec fn spec_i64_of_u64(u: u64) -> i64 {
    if u < 0x8000_0000_0000_0000 {
        u as i64
    } else {
        (u - 0x1_0000_0000_0000_0000) as i64
    }
}

/// Computes the two's-complement image of `x`.
pub fn i32_to_u32_wrap(x: i32) -> (r: u32)
    ensures
        r == spec_u32_of_i32(x),
{
    if x >= 0 {
        x as u32
    } else {
        ((x as i64) + 0x1_0000_0000i64) as u32
    }
}

/// Recovers the signed value behind a two's-complement image.
pub fn u32_to_i32_wrap(u: u32) -> (x: i32)
    ensures
        x == spec_i32_of_u32(u),
{
    if u < 0x8000_0000u32 {
        u as i32
    } else {
        ((u as i64) - 0x1_0000_0000i64) as i32
    }
}

/// Computes the two's-complement image of `x`.
pub fn i64_to_u64_wrap(x: i64) -> (r: u64)
    ensures
        r == spec_u64_of_i64(x),
{
    if x >= 0 {
        x as u64
    } else {
        ((x as i128) + 0x1_0000_0000_0000_0000i128) as u64
    }
}

/// Recovers the signed value behind a two's-complement image.
pub fn u64_to_i64_wrap(u: u64) -> (x: i64)
    ensures
        x == spec_i64_of_u64(u),
{
    if u < 0x8000_0000_0000_0000u64 {
        u as i64
    } else {
        ((u as i128) - 0x1_0000_0000_0000_0000i128) as i64
    }
}

/// A 32-bit signed value in little-endian wire order.
pub open spec fn spec_i32_le(x: i32) -> Seq<u8> {
    spec_u32_to_le_bytes(spec_u32_of_i32(x))
}

/// A 64-bit signed value in little-endian wire order.
pub open spec fn spec_i64_le(x: i64) -> Seq<u8> {
    spec_u64_to_le_bytes(spec_u64_of_i64(x))
}

/// The exact bytes of a greeting payload.
pub open spec fn spec_handshake_bytes(info: HandshakeInfo) -> Seq<u8>
    recommends
        info.wf(),
{
    spec_i32_le(info.protocol_version) + spec_u64_to_le_bytes(info.services)
        + spec_i64_le(info.timestamp) + info.receiver_address@ + info.sender_address@
        + spec_u64_to_le_bytes(info.nonce) + seq![info.agent@.len() as u8] + info.agent@
        + spec_i32_le(info.chain_height)
}

/// A payload is long enough to hold a complete greeting: all fixed
/// fields, and as many agent bytes as its length prefix declares.
pub open spec fn handshake_payload_complete(p: Seq<u8>) -> bool {
    &&& p.len() >= MIN_HANDSHAKE_LEN
    &&& p.len() >= MIN_HANDSHAKE_LEN + p[80]
}

/// Builds the wire payload of a greeting.
pub fn encode_handshake_payload(info: &HandshakeInfo) -> (out: Vec<u8>)
    requires
        info.wf(),
    ensures
        out@ == spec_handshake_bytes(*info),
        out@.len() == MIN_HANDSHAKE_LEN + info.agent@.len(),
{
    proof {
        lemma_auto_spec_u32_to_from_le_bytes();
        lemma_auto_spec_u64_to_from_le_bytes();
    }
    let mut out: Vec<u8> = Vec::new();
    let version_bytes = u32_to_le_bytes(i32_to_u32_wrap(info.protocol_version));
    append_bytes(&mut out, &version_bytes);
    let services_bytes = u64_to_le_bytes(info.services);
    append_bytes(&mut out, &services_bytes);
    let timestamp_bytes = u64_to_le_bytes(i64_to_u64_wrap(info.timestamp));
    append_bytes(&mut out, &timestamp_bytes);
    append_bytes(&mut out, &info.receiver_address);
    append_bytes(&mut out, &info.sender_address);
    let nonce_bytes = u64_to_le_bytes(info.nonce);
    append_bytes(&mut out, &nonce_bytes);
    out.push(info.agent.len() as u8);
    append_bytes(&mut out, &info.agent);
    let height_bytes = u32_to_le_bytes(i32_to_u32_wrap(info.chain_height));
    append_bytes(&mut out, &height_bytes);
    proof {
        assert(out@ =~= spec_handshake_bytes(*info));
    }
    out
}

/// Parses a greeting payload.  Fails with `TruncatedPayload` exactly
/// when the payload ends before its fixed fields or its declared agent
/// string do; bytes past the greeting are ignored.
pub fn decode_handshake_payload(payload: &Vec<u8>) -> (r: Result<HandshakeInfo, FrameError>)
    ensures
        match r {
            Ok(info) => {
                &&& handshake_payload_complete(payload@)
                &&& info.wf()
                &&& info.protocol_version
                    == spec_i32_of_u32(spec_u32_from_le_bytes(payload@.subrange(0, 4)))
                &&& info.services == spec_u64_from_le_bytes(payload@.subrange(4, 12))
                &&& info.timestamp
                    == spec_i64_of_u64(spec_u64_from_le_bytes(payload@.subrange(12, 20)))
                &&& info.receiver_address@ == payload@.subrange(20, 46)
                &&& info.sender_address@ == payload@.subrange(46, 72)
                &&& info.nonce == spec_u64_from_le_bytes(payload@.subrange(72, 80))
                &&& info.agent@.len() == payload@[80]
                &&& info.agent@ == payload@.subrange(81, 81 + payload@[80])
                &&& info.chain_height == spec_i32_of_u32(spec_u32_from_le_bytes(
                    payload@.subrange(81 + payload@[80], 85 + payload@[80])))
            },
            Err(e) => {
                &&& e == FrameError::TruncatedPayload
                &&& !handshake_payload_complete(payload@)
            },
        },
{
    if payload.len() < MIN_HANDSHAKE_LEN {
        return Err(FrameError::TruncatedPayload);
    }
    let agent_len: usize = payload[80] as usize;
    if payload.len() < MIN_HANDSHAKE_LEN + agent_len {
        return Err(FrameError::TruncatedPayload);
    }
    let protocol_version = u32_to_i32_wrap(
        u32_from_le_bytes(slice_subrange(payload.as_slice(), 0, 4)));
    let services = u64_from_le_bytes(slice_subrange(payload.as_slice(), 4, 12));
    let timestamp = u64_to_i64_wrap(
        u64_from_le_bytes(slice_subrange(payload.as_slice(), 12, 20)));
    let receiver_address = slice_to_vec(slice_subrange(payload.as_slice(), 20, 46));
    let sender_address = slice_to_vec(slice_subrange(payload.as_slice(), 46, 72));
    let nonce = u64_from_le_bytes(slice_subrange(payload.as_slice(), 72, 80));
    let agent = slice_to_vec(slice_subrange(payload.as_slice(), 81, 81 + agent_len));
    let chain_height = u32_to_i32_wrap(u32_from_le_bytes(
        slice_subrange(payload.as_slice(), 81 + agent_len, 85 + agent_len)));
    Ok(HandshakeInfo {
        protocol_version,
        services,
        timestamp,
        receiver_address,
        sender_address,
        nonce,
        agent,
        chain_height,
    })
}

/// Round trip law: the wire payload built from a well-formed greeting
/// is complete, and every field parses back to exactly the value it
/// was built from.
pub proof fn lemma_handshake_payload_round_trip(info: HandshakeInfo)
    requires
        info.wf(),
    ensures
        ({
            let p = spec_handshake_bytes(info);
            &&& p.len() == MIN_HANDSHAKE_LEN + info.agent@.len()
            &&& handshake_payload_complete(p)
            &&& spec_i32_of_u32(spec_u32_from_le_bytes(p.subrange(0, 4)))
                == info.protocol_version
            &&& spec_u64_from_le_bytes(p.subrange(4, 12)) == info.services
            &&& spec_i64_of_u64(spec_u64_from_le_bytes(p.subrange(12, 20)))
                == info.timestamp
            &&& p.subrange(20, 46) == info.receiver_address@
            &&& p.subrange(46, 72) == info.sender_address@
            &&& spec_u64_from_le_bytes(p.subrange(72, 80)) == info.nonce
            &&& p[80] == info.agent@.len() as u8
            &&& p.subrange(81, 81 + p[80]) == info.agent@
            &&& spec_i32_of_u32(spec_u32_from_le_bytes(
                p.subrange(81 + p[80], 85 + p[80]))) == info.chain_height
        }),
{
    lemma_auto_spec_u32_to_from_le_bytes();
    lemma_auto_spec_u64_to_from_le_bytes();
    let p = spec_handshake_bytes(info);
    let n = info.agent@.len() as int;
    assert(p.len() == MIN_HANDSHAKE_LEN + n);
    assert(p.subrange(0, 4) =~= spec_i32_le(info.protocol_version));
    assert(p.subrange(4, 12) =~= spec_u64_to_le_bytes(info.services));
    assert(p.subrange(12, 20) =~= spec_i64_le(info.timestamp));
    assert(p.subrange(20, 46) =~= info.receiver_address@);
    assert(p.subrange(46, 72) =~= info.sender_address@);
    assert(p.subrange(72, 80) =~= spec_u64_to_le_bytes(info.nonce));
    assert(p[80] == info.agent@.len() as u8);
    assert(p.subrange(81, 81 + n) =~= info.agent@);
    assert(p.subrange(81 + n, 85 + n) =~= spec_i32_le(info.chain_height));
    assert(spec_i32_of_u32(spec_u32_of_i32(info.protocol_version)) == info.protocol_version);
    assert(spec_i64_of_u64(spec_u64_of_i64(info.timestamp)) == info.timestamp);
    assert(spec_i32_of_u32(spec_u32_of_i32(info.chain_height)) == info.chain_height);
}

} // verus!
