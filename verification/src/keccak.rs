//! Keccak-256, computed by the `keccak-hash` crate.

use vstd::prelude::*;
use crate::bytes::be_nat;
use crate::uint::U256;

verus! {

/// The Keccak-256 digest of a byte string (the value `keccak_hash::keccak` returns).
pub uninterp spec fn keccak256(data: Seq<u8>) -> Seq<u8>;

/// Calls `keccak_hash::keccak` on `data` and returns the 32 digest bytes.
/// Trusted: the digest is taken to be `keccak256(data@)`, a function of the
/// input bytes alone; nothing else about the digest is stated.
#[verifier::external_body]
fn keccak(data: &[u8]) -> (r: [u8; 32])
    ensures
        r@ == keccak256(data@),
{
    keccak_hash::keccak(data).0
}

/// The digest of `data` read as a big-endian 256-bit number.
pub open spec fn hash_nat(data: Seq<u8>) -> nat {
    be_nat(keccak256(data))
}

/// Keccak-256 of `data`, as a 256-bit number.
pub fn keccak_u256(data: &[u8]) -> (r: U256)
    ensures
        r@ == hash_nat(data@),
{
    let h = keccak(data);
    U256::from_be_bytes(h.as_slice())
}

/// The first four bytes of the Keccak-256 digest of `data`.
pub fn keccak_prefix4(data: &[u8]) -> (r: [u8; 4])
    ensures
        r@ == keccak256(data@).subrange(0, 4),
{
    let h = keccak(data);
    let r = [h[0], h[1], h[2], h[3]];
    assert(r@ =~= keccak256(data@).subrange(0, 4));
    r
}

} // verus!
