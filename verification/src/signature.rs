//! The BN254 signature a signer gives when it registers: a BLS signature in
//! G1 over a point derived from the signer's address, checked against the
//! signer's G2 public key by `e(signature, G2 generator) == e(H, pkG2)`.
//!
//! `H` is found by try-and-increment: `x` starts at the Keccak-256 digest of
//! the 20 address bytes, reduced modulo the field modulus `p`; for each `x`,
//! `y = (x³ + 3)^((p + 1) / 4) mod p`, and `(x, y)` is taken once it is a curve
//! point, else `x + 1` is tried, at most `HASH_TRIES` times.

use vstd::prelude::*;
use vstd::arithmetic::power::pow;
use crate::abi::{G1Point, G2Point};
use crate::bn::{
    bn254_field_modulus, bn254_g2_valid, bn254_pairing_eq, fq_mul, fq_pow, g1_is_on_curve,
    g2_is_valid, on_curve, pairing_eq,
};
use crate::bytes::{be_bytes, be_nat};
use crate::keccak::{hash_nat, keccak_u256};
use crate::layout::u256_to_array;
use crate::uint::{lemma_u256_bound, Address, U256};

verus! {

/// How many candidates the search for the message point tries.
pub const HASH_TRIES: u64 = 256;

/// The exponent `(p + 1) / 4` that takes a square root in the base field.
pub open spec fn sqrt_exponent() -> nat {
    (bn254_field_modulus() + 1) / 4
}

/// `x³ + 3` in the base field, as two products and a sum.
pub open spec fn curve_rhs(x: nat) -> nat {
    let p = bn254_field_modulus();
    ((((x * x) % p) * x) % p + 3) % p
}

/// The candidate `y` for `x`.
pub open spec fn candidate_y(x: nat) -> nat {
    (pow(curve_rhs(x) as int, sqrt_exponent()) % (bn254_field_modulus() as int)) as nat
}

/// The first curve point `(x', candidate_y(x'))` for `x' = x, x + 1, …` (mod `p`), within `tries` candidates.
pub open spec fn hash_to_g1_from(x: nat, tries: nat) -> Option<(nat, nat)>
    decreases tries,
{
    if tries == 0 {
        None
    } else if on_curve(x, candidate_y(x)) {
        Some((x, candidate_y(x)))
    } else {
        hash_to_g1_from((x + 1) % bn254_field_modulus(), (tries - 1) as nat)
    }
}

/// The point that a signer's registration signature signs.
pub open spec fn message_point(signer: nat) -> Option<(nat, nat)> {
    hash_to_g1_from(hash_nat(be_bytes(signer, 20)) % bn254_field_modulus(), HASH_TRIES as nat)
}

/// The 32-byte encoding of a coordinate.
pub open spec fn coord(v: U256) -> Seq<u8> {
    be_bytes(v@, 32)
}

/// Whether `sig` is `signer`'s signature under the G2 key `pk`: every
/// coordinate is a field member, `sig` is a curve point, `pk` a G2 point, and
/// `e(sig, G2 generator) == e(message_point(signer), pk)`.
pub open spec fn signature_valid(signer: nat, sig: G1Point, pk: G2Point) -> bool {
    let p = bn254_field_modulus();
    &&& sig.0@ < p && sig.1@ < p
    &&& pk.0[0]@ < p && pk.0[1]@ < p && pk.1[0]@ < p && pk.1[1]@ < p
    &&& on_curve(sig.0@, sig.1@)
    &&& bn254_g2_valid(coord(pk.0[0]), coord(pk.0[1]), coord(pk.1[0]), coord(pk.1[1]))
    &&& message_point(signer) matches Some(h) && bn254_pairing_eq(
        coord(sig.0),
        coord(sig.1),
        be_bytes(h.0, 32),
        be_bytes(h.1, 32),
        coord(pk.0[0]),
        coord(pk.0[1]),
        coord(pk.1[0]),
        coord(pk.1[1]),
    )
}

/// The base-field modulus.
fn field_modulus() -> (r: U256)
    ensures
        r@ == bn254_field_modulus(),
{
    U256 { hi: 0x3064_4e72_e131_a029_b850_45b6_8181_585d, lo: 0x9781_6a91_6871_ca8d_3c20_8c16_d87c_fd47 }
}

/// The exponent `(p + 1) / 4`.
fn sqrt_exponent_value() -> (r: U256)
    ensures
        r@ == sqrt_exponent(),
{
    U256 { hi: 0x0c19_139c_b84c_680a_6e14_116d_a060_5617, lo: 0x65e0_5aa4_5a1c_72a3_4f08_2305_b61f_3f52 }
}

/// The 32 bytes of a field member, with what the field operations need of them.
fn field_coord(v: &U256) -> (r: Vec<u8>)
    requires
        v@ < bn254_field_modulus(),
    ensures
        r@ == be_bytes(v@, 32),
        r@.len() == 32,
        be_nat(r@) == v@,
{
    proof {
        crate::bytes::lemma_pow256_values();
        lemma_u256_bound(*v);
        crate::bytes::lemma_be_bytes_props(v@, 32);
    }
    u256_to_array(v)
}

/// `x³ + 3` in the base field.
fn curve_rhs_of(x: &U256) -> (r: U256)
    requires
        x@ < bn254_field_modulus(),
    ensures
        r@ == curve_rhs(x@),
        r@ < bn254_field_modulus(),
{
    let p = field_modulus();
    let xb = field_coord(x);
    let sq = fq_mul(xb.as_slice(), xb.as_slice());
    let cube = fq_mul(sq.as_slice(), xb.as_slice());
    let c = U256::from_be_bytes(cube.as_slice());
    let w = c.add(&U256::from_u64(3));
    proof {
        let m = bn254_field_modulus() as int;
        let v = c@ as int;
        assert(v < m);
        if w@ >= bn254_field_modulus() {
            vstd::arithmetic::div_mod::lemma_mod_sub_multiples_vanish(v + 3, m);
            vstd::arithmetic::div_mod::lemma_small_mod((v + 3 - m) as nat, m as nat);
        } else {
            vstd::arithmetic::div_mod::lemma_small_mod((v + 3) as nat, m as nat);
        }
    }
    if w.lt(&p) {
        w
    } else {
        w.sub(&p)
    }
}

/// A point the search finds is a curve point.
pub proof fn lemma_hash_to_g1_on_curve(x: nat, tries: nat)
    ensures
        hash_to_g1_from(x, tries) matches Some(h) ==> on_curve(h.0, h.1),
    decreases tries,
{
    if tries > 0 {
        lemma_hash_to_g1_on_curve((x + 1) % bn254_field_modulus(), (tries - 1) as nat);
    }
}

/// The candidate `y` for `x`, and whether `(x, y)` is a curve point.
fn candidate(x: &U256, eb: &Vec<u8>) -> (r: (U256, bool))
    requires
        x@ < bn254_field_modulus(),
        eb@.len() == 32,
        be_nat(eb@) == sqrt_exponent(),
    ensures
        r.0@ == candidate_y(x@),
        r.1 == on_curve(x@, candidate_y(x@)),
{
    let beta = curve_rhs_of(x);
    let bb = field_coord(&beta);
    let yb = fq_pow(bb.as_slice(), eb.as_slice());
    let y = U256::from_be_bytes(yb.as_slice());
    let xb = field_coord(x);
    let on = g1_is_on_curve(xb.as_slice(), yb.as_slice());
    (y, on)
}

/// `x + 1` modulo the field modulus.
fn next_x(x: &U256, p: &U256) -> (r: U256)
    requires
        p@ == bn254_field_modulus(),
        x@ < bn254_field_modulus(),
    ensures
        r@ == (x@ + 1) % bn254_field_modulus(),
        r@ < bn254_field_modulus(),
{
    let x1 = x.add_u64(1);
    if x1.lt(p) {
        proof {
            vstd::arithmetic::div_mod::lemma_small_mod(x1@, bn254_field_modulus());
        }
        x1
    } else {
        U256::zero()
    }
}

/// One step of the search.
proof fn lemma_hash_step(x: nat, tries: nat)
    requires
        tries > 0,
    ensures
        hash_to_g1_from(x, tries) == (if on_curve(x, candidate_y(x)) {
            Some((x, candidate_y(x)))
        } else {
            hash_to_g1_from((x + 1) % bn254_field_modulus(), (tries - 1) as nat)
        }),
{
}

/// The message point of `signer` (see the module's description); `None` when
/// no candidate within `HASH_TRIES` is a curve point.
pub fn hash_to_g1(signer: &Address) -> (r: Option<(U256, U256)>)
    ensures
        match message_point(signer@) {
            Some(h) => r matches Some(q) && q.0@ == h.0 && q.1@ == h.1,
            None => r is None,
        },
        r matches Some(q) ==> on_curve(q.0@, q.1@),
{
    let p = field_modulus();
    let e = sqrt_exponent_value();
    let eb = field_coord(&e);
    let bytes = signer.as_bytes();
    let d = keccak_u256(bytes.as_slice());
    let mut x = d;
    while !x.lt(&p)
        invariant
            p@ == bn254_field_modulus(),
            x@ % bn254_field_modulus() == d@ % bn254_field_modulus(),
        decreases x@,
    {
        proof {
            vstd::arithmetic::div_mod::lemma_mod_sub_multiples_vanish(x@ as int, p@ as int);
        }
        x = x.sub(&p);
    }
    proof {
        vstd::arithmetic::div_mod::lemma_small_mod(x@, p@);
        lemma_hash_to_g1_on_curve(x@, HASH_TRIES as nat);
    }
    let ghost x0 = x@;
    assert(x0 == d@ % bn254_field_modulus());
    assert(message_point(signer@) == hash_to_g1_from(x0, HASH_TRIES as nat));
    let mut tries: u64 = 0;
    while tries < HASH_TRIES
        invariant
            p@ == bn254_field_modulus(),
            eb@.len() == 32,
            be_nat(eb@) == sqrt_exponent(),
            x@ < bn254_field_modulus(),
            tries <= HASH_TRIES,
            hash_to_g1_from(x0, HASH_TRIES as nat) == hash_to_g1_from(x@, (HASH_TRIES - tries) as nat),
            message_point(signer@) == hash_to_g1_from(x0, HASH_TRIES as nat),
            hash_to_g1_from(x0, HASH_TRIES as nat) matches Some(h) ==> on_curve(h.0, h.1),
        decreases HASH_TRIES - tries,
    {
        let (y, on) = candidate(&x, &eb);
        proof {
            lemma_hash_step(x@, (HASH_TRIES - tries) as nat);
        }
        if on {
            assert(hash_to_g1_from(x@, (HASH_TRIES - tries) as nat) == Some((x@, y@)));
            return Some((x, y));
        }
        x = next_x(&x, &p);
        tries = tries + 1;
    }
    None
}

/// Whether `sig` is `signer`'s registration signature under the G2 key `pk`.
pub fn verify_signature(signer: &Address, sig: &G1Point, pk: &G2Point) -> (r: bool)
    ensures
        r == signature_valid(signer@, *sig, *pk),
{
    let p = field_modulus();
    if !(sig.0.lt(&p) && sig.1.lt(&p)) {
        return false;
    }
    if !(pk.0[0].lt(&p) && pk.0[1].lt(&p) && pk.1[0].lt(&p) && pk.1[1].lt(&p)) {
        return false;
    }
    let sx = field_coord(&sig.0);
    let sy = field_coord(&sig.1);
    let x0 = field_coord(&pk.0[0]);
    let x1 = field_coord(&pk.0[1]);
    let y0 = field_coord(&pk.1[0]);
    let y1 = field_coord(&pk.1[1]);
    if !g1_is_on_curve(sx.as_slice(), sy.as_slice()) {
        return false;
    }
    if !g2_is_valid(x0.as_slice(), x1.as_slice(), y0.as_slice(), y1.as_slice()) {
        return false;
    }
    let h = match hash_to_g1(signer) {
        Some(h) => h,
        None => {
            return false;
        },
    };
    let hx = field_coord(&h.0);
    let hy = field_coord(&h.1);
    pairing_eq(
        sx.as_slice(),
        sy.as_slice(),
        hx.as_slice(),
        hy.as_slice(),
        x0.as_slice(),
        x1.as_slice(),
        y0.as_slice(),
        y1.as_slice(),
    )
}

} // verus!
