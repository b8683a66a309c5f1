//! The double-hash digest used by the wire envelope checksum.
//!
//! The network checksums every payload with the first four bytes of a
//! double application of SHA-256.  The hash itself is computed by an
//! outside crate; its result is only named here, never restated.

use vstd::prelude::*;

verus! {

/// The SHA-256 digest of a byte sequence, as the outside hash crate
/// computes it.  The digest is a pure function of the input bytes; its
/// value is not stated here.
pub uninterp spec fn sha256_of(data: Seq<u8>) -> Seq<u8>;

/// Relies on sha2::Sha256::digest: a 32-byte digest that depends on the
/// input bytes alone.
#[verifier::external_body]
fn sha256(data: &Vec<u8>) -> (r: Vec<u8>)
    ensures
        r@ == sha256_of(data@),
        r@.len() == 32,
{
    <sha2::Sha256 as sha2::Digest>::digest(data.as_slice()).to_vec()
}

/// The envelope checksum of a payload: the first four bytes of the
/// double SHA-256 digest of the payload.
pub open spec fn spec_checksum(payload: Seq<u8>) -> Seq<u8> {
    let h = sha256_of(sha256_of(payload));
    seq![h[0], h[1], h[2], h[3]]
}

/// Computes the envelope checksum of `payload`.
pub fn checksum(payload: &Vec<u8>) -> (r: Vec<u8>)
    ensures
        r@ == spec_checksum(payload@),
        r@.len() == 4,
{
    let first = sha256(payload);
    let second = sha256(&first);
    let mut out: Vec<u8> = Vec::new();
    out.push(second[0]);
    out.push(second[1]);
    out.push(second[2]);
    out.push(second[3]);
    proof {
        assert(out@ =~= spec_checksum(payload@));
    }
    out
}

} // verus!
