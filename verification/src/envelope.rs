//! The wire envelope codec.
//!
//! Every message travels the wire as one envelope: a fixed magic marker,
//! a zero-padded command identifier, the payload length, a four-byte
//! checksum over the payload, and the payload itself.  Encoding and
//! decoding are pure transformations; decoding consumes exactly one
//! frame from the front of a buffer and leaves trailing bytes alone.

use vstd::prelude::*;
use vstd::bytes::spec_u32_to_le_bytes;
use vstd::bytes::spec_u32_from_le_bytes;
use vstd::bytes::lemma_auto_spec_u32_to_from_le_bytes;
use vstd::bytes::u32_to_le_bytes;
use vstd::bytes::u32_from_le_bytes;
use vstd::slice::slice_subrange;
use crate::digest::spec_checksum;
use crate::digest::checksum;

verus! {

/// Bytes of the magic marker that opens every frame.
pub const MAGIC_LEN: usize = 4;

/// Width of the zero-padded command identifier on the wire.
pub const COMMAND_LEN: usize = 12;

/// Width of the payload checksum on the wire.
pub const CHECKSUM_LEN: usize = 4;

/// Total size of a frame header: magic, command, length, checksum.
pub const HEADER_LEN: usize = 24;

/// Static configuration of a connection: the network's magic marker,
/// the lowest peer protocol version that is accepted, and the largest
/// payload the codec will frame or accept.
#[derive(Clone, Copy)]
pub struct Config {
    pub magic: [u8; 4],
    pub version_floor: i32,
    pub max_payload_len: u32,
}

/// Why a frame was rejected.  Every variant is fatal to the connection.
#[derive(Clone, Copy, Debug, PartialEq, Eq, Structural)]
pub enum FrameError {
    /// The first bytes do not match the configured magic marker.
    BadMagic,
    /// The command field is not a well-formed zero-padded identifier.
    MalformedCommand,
    /// The declared payload length exceeds the configured maximum.
    OversizedMessage,
    /// The embedded checksum does not match the payload's digest.
    ChecksumMismatch,
    /// A type-specific payload ends before its fixed fields do.
    TruncatedPayload,
}

/// A command identifier is one to twelve bytes, none of them zero;
/// the wire pads it with zero bytes to the fixed width.
pub open spec fn valid_command(c: Seq<u8>) -> bool {
    &&& 1 <= c.len() <= COMMAND_LEN
    &&& forall|i: int| 0 <= i < c.len() ==> c[i] != 0u8
}

/// The command field as it appears on the wire: the identifier followed
/// by zero padding up to the fixed width.
pub open spec fn spec_pad_command(c: Seq<u8>) -> Seq<u8>
    recommends
        c.len() <= COMMAND_LEN,
{
    c + Seq::new((COMMAND_LEN - c.len()) as nat, |i: int| 0u8)
}

/// Index of the first zero byte of `w` at or after `i`, or `w.len()`
/// if none follows.
pub open spec fn spec_first_zero_from(w: Seq<u8>, i: int) -> int
    decreases w.len() - i when 0 <= i <= w.len()
{
    if i >= w.len() {
        i
    } else if w[i] == 0u8 {
        i
    } else {
        spec_first_zero_from(w, i + 1)
    }
}

/// A wire command field is well formed when it holds at least one
/// non-zero byte and nothing but zero bytes after the first zero.
pub open spec fn wire_command_ok(w: Seq<u8>) -> bool
    recommends
        w.len() == COMMAND_LEN,
{
    let k = spec_first_zero_from(w, 0);
    &&& 1 <= k
    &&& forall|j: int| k <= j < w.len() ==> w[j] == 0u8
}

/// The command identifier carried by a well-formed wire command field:
/// its bytes up to the first zero.
pub open spec fn spec_unpad_command(w: Seq<u8>) -> Seq<u8>
    recommends
        w.len() == COMMAND_LEN,
{
    w.subrange(0, spec_first_zero_from(w, 0))
}

/// The complete frame that carries `payload` under `command`.
pub open spec fn spec_frame(cfg: Config, command: Seq<u8>, payload: Seq<u8>) -> Seq<u8>
    recommends
        valid_command(command),
        payload.len() <= cfg.max_payload_len,
{
    cfg.magic@ + spec_pad_command(command) + spec_u32_to_le_bytes(payload.len() as u32)
        + spec_checksum(payload) + payload
}

/// One decoded wire message.  Only the codec constructs these on the
/// inbound path, so a decoded envelope always satisfies its invariant.
pub struct MessageEnvelope {
    /// The command identifier, stripped of its zero padding.
    pub command: Vec<u8>,
    /// The opaque payload bytes.
    pub payload: Vec<u8>,
    /// The payload length as declared in the header.
    pub declared_length: u32,
    /// The four checksum bytes from the header.
    pub checksum: Vec<u8>,
}

impl MessageEnvelope {
    /// The envelope invariant: a valid command, a payload within the
    /// configured bound, a declared length that equals the payload
    /// length, and a checksum that is the payload's digest.
    pub open spec fn wf(self, cfg: Config) -> bool {
        &&& valid_command(self.command@)
        &&& self.payload@.len() <= cfg.max_payload_len
        &&& self.declared_length == self.payload@.len()
        &&& self.checksum@ == spec_checksum(self.payload@)
    }
}

/// Compares two byte vectors for equality of their contents.
pub fn bytes_eq(a: &Vec<u8>, b: &Vec<u8>) -> (r: bool)
    ensures
        r <==> a@ == b@,
{
    if a.len() != b.len() {
        return false;
    }
    let mut i: usize = 0;
    while i < a.len()
        invariant
            i <= a@.len(),
            a@.len() == b@.len(),
            forall|j: int| 0 <= j < i ==> a@[j] == b@[j],
        decreases a@.len() - i,
    {
        if a[i] != b[i] {
            return false;
        }
        i = i + 1;
    }
    proof {
        assert(a@ =~= b@);
    }
    true
}

/// Decides whether `c` is a valid command identifier.
pub fn command_is_valid(c: &Vec<u8>) -> (r: bool)
    ensures
        r <==> valid_command(c@),
{
    if c.len() < 1 || c.len() > COMMAND_LEN {
        return false;
    }
    let mut i: usize = 0;
    while i < c.len()
        invariant
            i <= c@.len(),
            1 <= c@.len() <= COMMAND_LEN,
            forall|j: int| 0 <= j < i ==> c@[j] != 0u8,
        decreases c@.len() - i,
    {
        if c[i] == 0 {
            return false;
        }
        i = i + 1;
    }
    true
}

/// Appends all of `src` to `dst`.
pub fn append_bytes(dst: &mut Vec<u8>, src: &Vec<u8>)
    ensures
        final(dst)@ == old(dst)@ + src@,
{
    let ghost dst0 = dst@;
    let mut i: usize = 0;
    while i < src.len()
        invariant
            i <= src@.len(),
            dst@ == dst0 + src@.take(i as int),
        decreases src@.len() - i,
    {
        dst.push(src[i]);
        proof {
            assert(dst0 + src@.take(i as int) + seq![src@[i as int]]
                =~= dst0 + src@.take(i as int + 1));
        }
        i = i + 1;
    }
    proof {
        assert(dst0 + src@.take(src@.len() as int) =~= dst0 + src@);
    }
}

/// Encodes one frame: magic, zero-padded command, payload length,
/// payload checksum, payload.
pub fn encode(cfg: &Config, command: &Vec<u8>, payload: &Vec<u8>) -> (out: Vec<u8>)
    requires
        valid_command(command@),
        payload@.len() <= cfg.max_payload_len,
    ensures
        out@ == spec_frame(*cfg, command@, payload@),
        out@.len() == HEADER_LEN + payload@.len(),
{
    proof {
        lemma_auto_spec_u32_to_from_le_bytes();
    }
    let mut out: Vec<u8> = Vec::new();
    out.push(cfg.magic[0]);
    out.push(cfg.magic[1]);
    out.push(cfg.magic[2]);
    out.push(cfg.magic[3]);
    proof {
        assert(out@ =~= cfg.magic@);
    }
    append_bytes(&mut out, command);
    let mut pad: usize = command.len();
    while pad < COMMAND_LEN
        invariant
            command@.len() <= pad <= COMMAND_LEN,
            out@ == cfg.magic@ + command@
                + Seq::new((pad - command@.len()) as nat, |i: int| 0u8),
        decreases COMMAND_LEN - pad,
    {
        out.push(0u8);
        proof {
            assert(out@ =~= cfg.magic@ + command@
                + Seq::new((pad + 1 - command@.len()) as nat, |i: int| 0u8));
        }
        pad = pad + 1;
    }
    proof {
        assert(out@ == cfg.magic@ + spec_pad_command(command@));
    }
    let length_bytes = u32_to_le_bytes(payload.len() as u32);
    append_bytes(&mut out, &length_bytes);
    let checksum_bytes = checksum(payload);
    append_bytes(&mut out, &checksum_bytes);
    append_bytes(&mut out, payload);
    proof {
        assert(out@ =~= spec_frame(*cfg, command@, payload@));
    }
    out
}

/// What decoding yields at the specification level: a command, a
/// payload, and the number of bytes consumed; `None` when the buffer
/// does not yet hold a complete frame.
pub type SpecDecoded = Result<Option<(Seq<u8>, Seq<u8>, int)>, FrameError>;

/// Decoding one frame from the front of `input`, as a mathematical
/// function.  Validation order: magic marker, command field, declared
/// length against the maximum, then the checksum; a buffer that ends
/// before the frame does is not an error.
pub open spec fn spec_decode(cfg: Config, input: Seq<u8>) -> SpecDecoded {
    if input.len() < HEADER_LEN {
        Ok(None)
    } else if input.subrange(0, MAGIC_LEN as int) != cfg.magic@ {
        Err(FrameError::BadMagic)
    } else if !wire_command_ok(input.subrange(MAGIC_LEN as int, 16)) {
        Err(FrameError::MalformedCommand)
    } else {
        let declared = spec_u32_from_le_bytes(input.subrange(16, 20));
        if declared > cfg.max_payload_len {
            Err(FrameError::OversizedMessage)
        } else if input.len() < HEADER_LEN + declared {
            Ok(None)
        } else {
            let payload = input.subrange(HEADER_LEN as int, HEADER_LEN + declared);
            if input.subrange(20, HEADER_LEN as int) != spec_checksum(payload) {
                Err(FrameError::ChecksumMismatch)
            } else {
                Ok(Some((
                    spec_unpad_command(input.subrange(MAGIC_LEN as int, 16)),
                    payload,
                    HEADER_LEN + declared,
                )))
            }
        }
    }
}

/// Pins down `spec_first_zero_from` from what a left-to-right scan
/// establishes: no zero before `k`, and a zero at `k` unless the field
/// is exhausted.
proof fn lemma_first_zero_pins(w: Seq<u8>, a: int, k: int)
    requires
        0 <= a <= k <= w.len(),
        forall|j: int| a <= j < k ==> w[j] != 0u8,
        k < w.len() ==> w[k] == 0u8,
    ensures
        spec_first_zero_from(w, a) == k,
    decreases k - a,
{
    if a < k {
        lemma_first_zero_pins(w, a + 1, k);
    }
}

/// Decodes exactly one frame from the front of `input`, returning the
/// envelope and the number of bytes consumed; trailing bytes are left
/// for the next call.  Returns `Ok(None)` while the buffer is shorter
/// than one complete frame.
pub fn decode(cfg: &Config, input: &Vec<u8>) -> (r: Result<Option<(MessageEnvelope, usize)>, FrameError>)
    ensures
        match r {
            Ok(Some((env, consumed))) => {
                &&& spec_decode(*cfg, input@)
                    == Ok::<Option<(Seq<u8>, Seq<u8>, int)>, FrameError>(
                        Some((env.command@, env.payload@, consumed as int)))
                &&& env.wf(*cfg)
                &&& HEADER_LEN <= consumed <= input@.len()
            },
            Ok(None) => spec_decode(*cfg, input@)
                == Ok::<Option<(Seq<u8>, Seq<u8>, int)>, FrameError>(None),
            Err(e) => spec_decode(*cfg, input@)
                == Err::<Option<(Seq<u8>, Seq<u8>, int)>, FrameError>(e),
        },
{
    if input.len() < HEADER_LEN {
        return Ok(None);
    }
    let magic_ok = input[0] == cfg.magic[0] && input[1] == cfg.magic[1]
        && input[2] == cfg.magic[2] && input[3] == cfg.magic[3];
    if !magic_ok {
        proof {
            assert(input@.subrange(0, MAGIC_LEN as int) != cfg.magic@) by {
                if input@.subrange(0, MAGIC_LEN as int) == cfg.magic@ {
                    assert(input@[0] == input@.subrange(0, MAGIC_LEN as int)[0]);
                    assert(input@[1] == input@.subrange(0, MAGIC_LEN as int)[1]);
                    assert(input@[2] == input@.subrange(0, MAGIC_LEN as int)[2]);
                    assert(input@[3] == input@.subrange(0, MAGIC_LEN as int)[3]);
                }
            }
        }
        return Err(FrameError::BadMagic);
    }
    proof {
        assert(input@.subrange(0, MAGIC_LEN as int) =~= cfg.magic@);
    }
    let ghost w = input@.subrange(MAGIC_LEN as int, 16);
    let mut cend: usize = 0;
    while cend < COMMAND_LEN && input[MAGIC_LEN + cend] != 0
        invariant
            input@.len() >= HEADER_LEN,
            cend <= COMMAND_LEN,
            forall|j: int| 0 <= j < cend ==> #[trigger] input@[MAGIC_LEN + j] != 0u8,
        decreases COMMAND_LEN - cend,
    {
        cend = cend + 1;
    }
    proof {
        assert(forall|j: int| 0 <= j < COMMAND_LEN ==> w[j] == input@[MAGIC_LEN + j]);
        lemma_first_zero_pins(w, 0, cend as int);
    }
    if cend == 0 {
        proof {
            assert(!wire_command_ok(w));
        }
        return Err(FrameError::MalformedCommand);
    }
    let mut pz: usize = cend;
    while pz < COMMAND_LEN
        invariant
            input@.len() >= HEADER_LEN,
            1 <= cend <= pz <= COMMAND_LEN,
            input@.subrange(0, MAGIC_LEN as int) == cfg.magic@,
            w == input@.subrange(MAGIC_LEN as int, 16),
            spec_first_zero_from(w, 0) == cend,
            forall|j: int| cend <= j < pz ==> #[trigger] input@[MAGIC_LEN + j] == 0u8,
        decreases COMMAND_LEN - pz,
    {
        if input[MAGIC_LEN + pz] != 0 {
            proof {
                assert(w[pz as int] != 0u8);
                assert(!wire_command_ok(w));
            }
            return Err(FrameError::MalformedCommand);
        }
        pz = pz + 1;
    }
    proof {
        assert(forall|j: int| cend <= j < COMMAND_LEN ==> w[j] == 0u8);
        assert(wire_command_ok(w));
    }
    let declared = u32_from_le_bytes(slice_subrange(input.as_slice(), 16, 20));
    if declared > cfg.max_payload_len {
        return Err(FrameError::OversizedMessage);
    }
    let total: u64 = HEADER_LEN as u64 + declared as u64;
    if (input.len() as u64) < total {
        return Ok(None);
    }
    let consumed: usize = total as usize;
    let mut payload: Vec<u8> = Vec::new();
    let mut m: usize = HEADER_LEN;
    while m < consumed
        invariant
            HEADER_LEN <= m <= consumed,
            consumed <= input@.len(),
            payload@ == input@.subrange(HEADER_LEN as int, m as int),
        decreases consumed - m,
    {
        payload.push(input[m]);
        proof {
            assert(input@.subrange(HEADER_LEN as int, m as int).push(input@[m as int])
                =~= input@.subrange(HEADER_LEN as int, m as int + 1));
        }
        m = m + 1;
    }
    let ghost spec_payload = input@.subrange(HEADER_LEN as int, HEADER_LEN + declared);
    proof {
        assert(payload@ == spec_payload);
    }
    let computed = checksum(&payload);
    let checksum_ok = input[20] == computed[0] && input[21] == computed[1]
        && input[22] == computed[2] && input[23] == computed[3];
    if !checksum_ok {
        proof {
            assert(input@.subrange(20, HEADER_LEN as int) != spec_checksum(spec_payload)) by {
                if input@.subrange(20, HEADER_LEN as int) == spec_checksum(spec_payload) {
                    assert(input@[20] == input@.subrange(20, HEADER_LEN as int)[0]);
                    assert(input@[21] == input@.subrange(20, HEADER_LEN as int)[1]);
                    assert(input@[22] == input@.subrange(20, HEADER_LEN as int)[2]);
                    assert(input@[23] == input@.subrange(20, HEADER_LEN as int)[3]);
                }
            }
        }
        return Err(FrameError::ChecksumMismatch);
    }
    proof {
        assert(input@.subrange(20, HEADER_LEN as int) =~= computed@);
    }
    let command = vstd::slice::slice_to_vec(
        slice_subrange(input.as_slice(), MAGIC_LEN, MAGIC_LEN + cend));
    let stored_checksum = vstd::slice::slice_to_vec(
        slice_subrange(input.as_slice(), 20, HEADER_LEN));
    proof {
        assert(command@ =~= w.subrange(0, cend as int));
        assert(valid_command(command@));
    }
    let env = MessageEnvelope {
        command,
        payload,
        declared_length: declared,
        checksum: stored_checksum,
    };
    proof {
        assert(spec_decode(*cfg, input@)
            == Ok::<Option<(Seq<u8>, Seq<u8>, int)>, FrameError>(
                Some((env.command@, env.payload@, consumed as int))));
    }
    Ok(Some((env, consumed)))
}

/// Round trip law: a buffer that begins with an encoded frame decodes
/// to exactly the command and payload that were encoded, consumes
/// exactly the frame, and leaves any trailing bytes for the next call.
pub proof fn lemma_encode_decode_round_trip(
    cfg: Config,
    command: Seq<u8>,
    payload: Seq<u8>,
    trailing: Seq<u8>,
)
    requires
        valid_command(command),
        payload.len() <= cfg.max_payload_len,
    ensures
        spec_decode(cfg, spec_frame(cfg, command, payload) + trailing)
            == Ok::<Option<(Seq<u8>, Seq<u8>, int)>, FrameError>(
                Some((command, payload, HEADER_LEN + payload.len()))),
{
    lemma_auto_spec_u32_to_from_le_bytes();
    let f = spec_frame(cfg, command, payload) + trailing;
    let k = command.len() as int;
    assert(spec_pad_command(command).len() == COMMAND_LEN);
    assert(f.len() == HEADER_LEN + payload.len() + trailing.len());
    assert(f.subrange(0, MAGIC_LEN as int) =~= cfg.magic@);
    let w = f.subrange(MAGIC_LEN as int, 16);
    assert(w =~= spec_pad_command(command));
    assert(forall|j: int| 0 <= j < k ==> w[j] == command[j]);
    lemma_first_zero_pins(w, 0, k);
    assert(wire_command_ok(w));
    assert(spec_unpad_command(w) =~= command);
    assert(f.subrange(16, 20) =~= spec_u32_to_le_bytes(payload.len() as u32));
    assert(spec_u32_from_le_bytes(f.subrange(16, 20)) == payload.len() as u32);
    assert(f.subrange(20, HEADER_LEN as int) =~= spec_checksum(payload));
    assert(f.subrange(HEADER_LEN as int, HEADER_LEN + payload.len()) =~= payload);
    assert(spec_decode(cfg, f)
        == Ok::<Option<(Seq<u8>, Seq<u8>, int)>, FrameError>(
            Some((command, payload, HEADER_LEN + payload.len()))));
}

/// Corruption law: flipping a single bit of the payload region of an
/// encoded frame makes decoding fail with a checksum mismatch — never a
/// silent success — whenever the corrupted payload's digest differs
/// from the original's (a four-byte digest cannot rule out collisions).
pub proof fn lemma_payload_bit_flip_rejected(
    cfg: Config,
    command: Seq<u8>,
    payload: Seq<u8>,
    i: int,
    bit: u8,
)
    requires
        valid_command(command),
        payload.len() <= cfg.max_payload_len,
        0 <= i < payload.len(),
        bit < 8,
        spec_checksum(payload.update(i, payload[i] ^ (1u8 << bit)))
            != spec_checksum(payload),
    ensures
        ({
            let frame = spec_frame(cfg, command, payload);
            let corrupted = frame.update(
                HEADER_LEN + i,
                frame[HEADER_LEN + i] ^ (1u8 << bit),
            );
            spec_decode(cfg, corrupted)
                == Err::<Option<(Seq<u8>, Seq<u8>, int)>, FrameError>(
                    FrameError::ChecksumMismatch)
        }),
{
    lemma_auto_spec_u32_to_from_le_bytes();
    let frame = spec_frame(cfg, command, payload);
    let k = command.len() as int;
    assert(spec_pad_command(command).len() == COMMAND_LEN);
    assert(frame.len() == HEADER_LEN + payload.len());
    assert(frame[HEADER_LEN + i] == payload[i]);
    let corrupted = frame.update(HEADER_LEN + i, frame[HEADER_LEN + i] ^ (1u8 << bit));
    let payload2 = payload.update(i, payload[i] ^ (1u8 << bit));
    assert(corrupted.len() == frame.len());
    assert(corrupted.subrange(0, MAGIC_LEN as int) =~= cfg.magic@);
    let w = corrupted.subrange(MAGIC_LEN as int, 16);
    assert(w =~= spec_pad_command(command));
    assert(forall|j: int| 0 <= j < k ==> w[j] == command[j]);
    lemma_first_zero_pins(w, 0, k);
    assert(wire_command_ok(w));
    assert(corrupted.subrange(16, 20) =~= spec_u32_to_le_bytes(payload.len() as u32));
    assert(spec_u32_from_le_bytes(corrupted.subrange(16, 20)) == payload.len() as u32);
    assert(corrupted.subrange(HEADER_LEN as int, HEADER_LEN + payload.len()) =~= payload2);
    assert(corrupted.subrange(20, HEADER_LEN as int) =~= spec_checksum(payload));
    assert(spec_checksum(corrupted.subrange(HEADER_LEN as int, HEADER_LEN + payload.len()))
        != spec_checksum(payload));
    assert(spec_decode(cfg, corrupted)
        == Err::<Option<(Seq<u8>, Seq<u8>, int)>, FrameError>(FrameError::ChecksumMismatch));
}

} // verus!
