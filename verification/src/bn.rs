//! BN254 arithmetic, computed by the `substrate-bn` crate.
//!
//! Points cross into the library as plain big-endian coordinates, 32 bytes
//! each; an affine G1 point `(x, y)` with `(0, 0)` standing for the point at
//! infinity, and a G2 point as `(x0 + x1·i, y0 + y1·i)`.

use vstd::prelude::*;
use vstd::arithmetic::power::pow;
use crate::bytes::be_nat;
use substrate_bn::{pairing, AffineG1, AffineG2, FieldError, Fq, Fq2, Group, G1, G2};

verus! {

#[verifier::external_type_specification]
#[verifier::external_body]
pub struct ExFq(Fq);

#[verifier::external_type_specification]
#[verifier::external_body]
pub struct ExFieldError(FieldError);

/// The modulus `p` of the BN254 base field.
pub open spec fn bn254_field_modulus() -> nat {
    0x3064_4e72_e131_a029_b850_45b6_8181_585d_9781_6a91_6871_ca8d_3c20_8c16_d87c_fd47nat
}

/// Whether `(x, y)` is a point of the curve `y² = x³ + 3` over the base field.
pub open spec fn on_curve(x: nat, y: nat) -> bool {
    &&& x < bn254_field_modulus()
    &&& y < bn254_field_modulus()
    &&& (y * y) % bn254_field_modulus() == (x * x * x + 3) % bn254_field_modulus()
}

/// Whether 32 bytes hold a base-field member.
pub open spec fn field_bytes(b: Seq<u8>) -> bool {
    b.len() == 32 && be_nat(b) < bn254_field_modulus()
}

/// The affine sum of two G1 points given by their coordinates (as `AffineG1::from_jacobian`
/// of `G1 + G1` gives it), `(0, 0)` for the point at infinity.
pub uninterp spec fn bn254_g1_add(ax: Seq<u8>, ay: Seq<u8>, bx: Seq<u8>, by: Seq<u8>) -> (Seq<u8>, Seq<u8>);

/// Whether the coordinates are a point of the G2 group (what `AffineG2::new` accepts).
pub uninterp spec fn bn254_g2_valid(x0: Seq<u8>, x1: Seq<u8>, y0: Seq<u8>, y1: Seq<u8>) -> bool;

/// Whether `e(S, G2 generator) == e(H, Q)` for the pairing `e` of BN254.
pub uninterp spec fn bn254_pairing_eq(
    sx: Seq<u8>,
    sy: Seq<u8>,
    hx: Seq<u8>,
    hy: Seq<u8>,
    x0: Seq<u8>,
    x1: Seq<u8>,
    y0: Seq<u8>,
    y1: Seq<u8>,
) -> bool;

/// Calls `Fq::from_slice`. Trusted: it succeeds exactly on 32 bytes whose
/// big-endian value is below the field modulus (the crate reads the bytes as
/// a 256-bit number and refuses values that are not field members). What the
/// field element is, is not stated.
#[verifier::external_body]
pub(crate) fn fq_from_slice(bytes: &[u8]) -> (r: Result<Fq, FieldError>)
    ensures
        r is Ok <==> (bytes@.len() == 32 && be_nat(bytes@) < bn254_field_modulus()),
{
    Fq::from_slice(bytes)
}

/// Calls `AffineG1::new` on two field members. Trusted: it accepts exactly
/// the points with `y² = x³ + 3` (the crate compares `y²` with `x³ + b`, `b = 3`,
/// and checks no subgroup for G1).
#[verifier::external_body]
pub(crate) fn g1_is_on_curve(x: &[u8], y: &[u8]) -> (r: bool)
    requires
        field_bytes(x@),
        field_bytes(y@),
    ensures
        r == on_curve(be_nat(x@), be_nat(y@)),
{
    AffineG1::new(Fq::from_slice(x).unwrap(), Fq::from_slice(y).unwrap()).is_ok()
}

/// Calls `G1 + G1` on two curve points and `AffineG1::from_jacobian` on the
/// sum, and returns its coordinates (`(0, 0)` where the sum is the point at
/// infinity). Trusted: the result is `bn254_g1_add` of the coordinates, a
/// function of them alone, and is a curve point or `(0, 0)`.
#[verifier::external_body]
pub(crate) fn g1_add(ax: &[u8], ay: &[u8], bx: &[u8], by: &[u8]) -> (r: ([u8; 32], [u8; 32]))
    requires
        field_bytes(ax@),
        field_bytes(ay@),
        field_bytes(bx@),
        field_bytes(by@),
        on_curve(be_nat(ax@), be_nat(ay@)),
        on_curve(be_nat(bx@), be_nat(by@)),
    ensures
        (r.0@, r.1@) == bn254_g1_add(ax@, ay@, bx@, by@),
        on_curve(be_nat(r.0@), be_nat(r.1@)) || (be_nat(r.0@) == 0 && be_nat(r.1@) == 0),
{
    let a = G1::new(Fq::from_slice(ax).unwrap(), Fq::from_slice(ay).unwrap(), Fq::one());
    let b = G1::new(Fq::from_slice(bx).unwrap(), Fq::from_slice(by).unwrap(), Fq::one());
    let mut x = [0u8; 32];
    let mut y = [0u8; 32];
    if let Some(s) = AffineG1::from_jacobian(a + b) {
        s.x().to_big_endian(&mut x).unwrap();
        s.y().to_big_endian(&mut y).unwrap();
    }
    (x, y)
}

/// Calls `Fq * Fq`. Trusted: the product modulo the field modulus.
#[verifier::external_body]
pub(crate) fn fq_mul(a: &[u8], b: &[u8]) -> (r: [u8; 32])
    requires
        field_bytes(a@),
        field_bytes(b@),
    ensures
        be_nat(r@) == (be_nat(a@) * be_nat(b@)) % bn254_field_modulus(),
{
    let mut r = [0u8; 32];
    (Fq::from_slice(a).unwrap() * Fq::from_slice(b).unwrap()).to_big_endian(&mut r).unwrap();
    r
}

/// Calls `Fq::pow`. Trusted: `a` to the power of the exponent's value, modulo
/// the field modulus (the crate squares and multiplies over the exponent's bits).
#[verifier::external_body]
pub(crate) fn fq_pow(a: &[u8], e: &[u8]) -> (r: [u8; 32])
    requires
        field_bytes(a@),
        field_bytes(e@),
    ensures
        be_nat(r@) == pow(be_nat(a@) as int, be_nat(e@)) % (bn254_field_modulus() as int),
{
    let mut r = [0u8; 32];
    Fq::from_slice(a).unwrap().pow(Fq::from_slice(e).unwrap()).to_big_endian(&mut r).unwrap();
    r
}

/// Calls `AffineG2::new` on `(x0 + x1·i, y0 + y1·i)`. Trusted: the answer is
/// `bn254_g2_valid` of the coordinates (the crate checks the twisted curve
/// equation and membership of the prime-order subgroup).
#[verifier::external_body]
pub(crate) fn g2_is_valid(x0: &[u8], x1: &[u8], y0: &[u8], y1: &[u8]) -> (r: bool)
    requires
        field_bytes(x0@),
        field_bytes(x1@),
        field_bytes(y0@),
        field_bytes(y1@),
    ensures
        r == bn254_g2_valid(x0@, x1@, y0@, y1@),
{
    let x = Fq2::new(Fq::from_slice(x0).unwrap(), Fq::from_slice(x1).unwrap());
    let y = Fq2::new(Fq::from_slice(y0).unwrap(), Fq::from_slice(y1).unwrap());
    AffineG2::new(x, y).is_ok()
}

/// Calls `pairing` twice and compares: `e(S, G2 generator) == e(H, Q)`.
/// Trusted: the answer is `bn254_pairing_eq` of the coordinates.
#[verifier::external_body]
pub(crate) fn pairing_eq(
    sx: &[u8],
    sy: &[u8],
    hx: &[u8],
    hy: &[u8],
    x0: &[u8],
    x1: &[u8],
    y0: &[u8],
    y1: &[u8],
) -> (r: bool)
    requires
        field_bytes(sx@),
        field_bytes(sy@),
        field_bytes(hx@),
        field_bytes(hy@),
        field_bytes(x0@),
        field_bytes(x1@),
        field_bytes(y0@),
        field_bytes(y1@),
        on_curve(be_nat(sx@), be_nat(sy@)),
        on_curve(be_nat(hx@), be_nat(hy@)),
        bn254_g2_valid(x0@, x1@, y0@, y1@),
    ensures
        r == bn254_pairing_eq(sx@, sy@, hx@, hy@, x0@, x1@, y0@, y1@),
{
    let s = G1::new(Fq::from_slice(sx).unwrap(), Fq::from_slice(sy).unwrap(), Fq::one());
    let h = G1::new(Fq::from_slice(hx).unwrap(), Fq::from_slice(hy).unwrap(), Fq::one());
    let x = Fq2::new(Fq::from_slice(x0).unwrap(), Fq::from_slice(x1).unwrap());
    let y = Fq2::new(Fq::from_slice(y0).unwrap(), Fq::from_slice(y1).unwrap());
    pairing(s, G2::one()) == pairing(h, G2::new(x, y, Fq2::one()))
}

} // verus!
