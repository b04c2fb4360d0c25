//! 256-bit unsigned integers and 160-bit account addresses.

use vstd::prelude::*;
use crate::bytes::{
    be_bytes, be_nat, lemma_be_bytes_of, lemma_be_bytes_props, lemma_be_nat_bound, lemma_be_nat_concat,
    lemma_pow256_values, u128_from_be, u128_push_be,
};

verus! {

pub open spec fn two128() -> nat {
    0x1_0000_0000_0000_0000_0000_0000_0000_0000nat
}

pub open spec fn two160() -> nat {
    0x1_0000_0000_0000_0000_0000_0000_0000_0000_0000_0000nat
}

pub open spec fn two256() -> nat {
    0x1_0000_0000_0000_0000_0000_0000_0000_0000_0000_0000_0000_0000_0000_0000_0000_0000nat
}

pub proof fn lemma_two_powers()
    ensures
        two256() == two128() * two128(),
        two160() == 0x1_0000_0000nat * two128(),
        two128() == 0x1_0000_0000_0000_0000nat * 0x1_0000_0000_0000_0000nat,
{
    assert(two256() == two128() * two128()) by (nonlinear_arith);
    assert(two160() == 0x1_0000_0000nat * two128()) by (nonlinear_arith);
    assert(two128() == 0x1_0000_0000_0000_0000nat * 0x1_0000_0000_0000_0000nat) by (nonlinear_arith);
}

/// A 256-bit unsigned integer, as two 128-bit halves.
#[derive(Clone, Copy, Debug, PartialEq, Eq, Structural)]
pub struct U256 {
    pub hi: u128,
    pub lo: u128,
}

impl View for U256 {
    type V = nat;

    open spec fn view(&self) -> nat {
        self.hi as nat * two128() + self.lo as nat
    }
}

pub proof fn lemma_u256_bound(x: U256)
    ensures
        x@ < two256(),
{
    let h = x.hi as nat;
    assert(h * two128() + x.lo < two256()) by (nonlinear_arith)
        requires
            h < two128(),
            x.lo < two128(),
    ;
}

/// Two values with the same number are the same value.
pub proof fn lemma_u256_view_injective(a: U256, b: U256)
    requires
        a@ == b@,
    ensures
        a == b,
{
    let (ah, al, bh, bl) = (a.hi as nat, a.lo as nat, b.hi as nat, b.lo as nat);
    assert(ah == bh && al == bl) by (nonlinear_arith)
        requires
            ah * two128() + al == bh * two128() + bl,
            al < two128(),
            bl < two128(),
    ;
}

impl U256 {
    pub fn zero() -> (r: U256)
        ensures
            r@ == 0,
    {
        U256 { hi: 0, lo: 0 }
    }

    pub fn one() -> (r: U256)
        ensures
            r@ == 1,
    {
        U256 { hi: 0, lo: 1 }
    }

    pub fn from_u64(v: u64) -> (r: U256)
        ensures
            r@ == v,
    {
        U256 { hi: 0, lo: v as u128 }
    }

    pub fn from_u128(v: u128) -> (r: U256)
        ensures
            r@ == v,
    {
        U256 { hi: 0, lo: v }
    }

    pub fn is_zero(&self) -> (r: bool)
        ensures
            r == (self@ == 0),
    {
        self.hi == 0 && self.lo == 0
    }

    /// `self == other` as numbers.
    pub fn eq(&self, other: &U256) -> (r: bool)
        ensures
            r == (self@ == other@),
    {
        proof {
            if self@ == other@ {
                lemma_u256_view_injective(*self, *other);
            }
        }
        self.hi == other.hi && self.lo == other.lo
    }

    /// `self < other` as numbers.
    pub fn lt(&self, other: &U256) -> (r: bool)
        ensures
            r == (self@ < other@),
    {
        proof {
            let (ah, al, bh, bl) = (self.hi as nat, self.lo as nat, other.hi as nat, other.lo as nat);
            assert((ah < bh || (ah == bh && al < bl)) == (ah * two128() + al < bh * two128() + bl))
                by (nonlinear_arith)
                requires
                    al < two128(),
                    bl < two128(),
            ;
        }
        self.hi < other.hi || (self.hi == other.hi && self.lo < other.lo)
    }

    /// Whether `self + other` stays below `2^256`.
    pub fn add_fits(&self, other: &U256) -> (r: bool)
        ensures
            r == (self@ + other@ < two256()),
    {
        let (lo, carry) = if self.lo <= u128::MAX - other.lo {
            (self.lo + other.lo, 0u128)
        } else {
            ((self.lo - (u128::MAX - other.lo)) - 1, 1u128)
        };
        let r = self.hi <= u128::MAX - other.hi && self.hi + other.hi <= u128::MAX - carry;
        proof {
            lemma_two_powers();
            let (ah, al, bh, bl) = (self.hi as nat, self.lo as nat, other.hi as nat, other.lo as nat);
            let c = carry as nat;
            assert(al + bl == lo as nat + c * two128());
            assert((ah + bh + c < two128()) == (ah * two128() + al + (bh * two128() + bl) < two256()))
                by (nonlinear_arith)
                requires
                    al + bl == lo as nat + c * two128(),
                    lo < two128(),
                    two256() == two128() * two128(),
            ;
        }
        r
    }

    /// `self + other`; the sum must stay below `2^256`.
    pub fn add(&self, other: &U256) -> (r: U256)
        requires
            self@ + other@ < two256(),
        ensures
            r@ == self@ + other@,
    {
        let (lo, carry) = if self.lo <= u128::MAX - other.lo {
            (self.lo + other.lo, 0u128)
        } else {
            ((self.lo - (u128::MAX - other.lo)) - 1, 1u128)
        };
        proof {
            lemma_two_powers();
            let (ah, al, bh, bl) = (self.hi as nat, self.lo as nat, other.hi as nat, other.lo as nat);
            let c = carry as nat;
            assert(al + bl == lo as nat + c * two128());
            assert(ah + bh + c < two128()) by (nonlinear_arith)
                requires
                    al + bl == lo as nat + c * two128(),
                    ah * two128() + al + (bh * two128() + bl) < two256(),
                    two256() == two128() * two128(),
            ;
        }
        U256 { hi: self.hi + other.hi + carry, lo }
    }

    /// `self - other`; `other` must not exceed `self`.
    pub fn sub(&self, other: &U256) -> (r: U256)
        requires
            other@ <= self@,
        ensures
            r@ == self@ - other@,
    {
        let (lo, borrow) = if self.lo >= other.lo {
            (self.lo - other.lo, 0u128)
        } else {
            (u128::MAX - (other.lo - self.lo) + 1, 1u128)
        };
        proof {
            let (ah, al, bh, bl) = (self.hi as nat, self.lo as nat, other.hi as nat, other.lo as nat);
            let c = borrow as nat;
            assert(al + c * two128() == lo as nat + bl);
            assert(ah >= bh + c && (ah - bh - c) * two128() + lo == ah * two128() + al - (bh
                * two128() + bl)) by (nonlinear_arith)
                requires
                    al + c * two128() == lo as nat + bl,
                    bh * two128() + bl <= ah * two128() + al,
                    al < two128(),
                    bl < two128(),
                    lo < two128(),
                    c == 0 || c == 1,
                    c == 1 ==> al < bl,
            ;
        }
        U256 { hi: self.hi - other.hi - borrow, lo }
    }

    /// `self + k` for a small `k`; the sum must stay below `2^256`.
    pub fn add_u64(&self, k: u64) -> (r: U256)
        requires
            self@ + k < two256(),
        ensures
            r@ == self@ + k,
    {
        self.add(&U256::from_u64(k))
    }

    /// The low 64 bits.
    pub fn low_u64(&self) -> (r: u64)
        ensures
            r as nat == self@ % 0x1_0000_0000_0000_0000,
    {
        let r = (self.lo % 0x1_0000_0000_0000_0000) as u64;
        proof {
            let h = self.hi as nat;
            let l = self.lo as nat;
            assert((h * two128() + l) % 0x1_0000_0000_0000_0000 == l % 0x1_0000_0000_0000_0000)
                by (nonlinear_arith)
                requires
                    two128() == 0x1_0000_0000_0000_0000nat * 0x1_0000_0000_0000_0000nat,
            {
                vstd::arithmetic::div_mod::lemma_mod_multiples_vanish(
                    (h * 0x1_0000_0000_0000_0000nat) as int,
                    l as int,
                    0x1_0000_0000_0000_0000int,
                );
            }
        }
        r
    }

    /// The value as a `usize`; it must fit.
    pub fn as_usize(&self) -> (r: usize)
        requires
            self@ <= usize::MAX,
        ensures
            r == self@,
    {
        self.lo as usize
    }

    /// The 32-byte big-endian encoding.
    pub fn to_be_bytes(&self) -> (r: Vec<u8>)
        ensures
            r@ == be_bytes(self@, 32),
    {
        let mut out: Vec<u8> = Vec::new();
        u128_push_be(self.hi, &mut out);
        u128_push_be(self.lo, &mut out);
        proof {
            lemma_pow256_values();
            lemma_be_bytes_props(self.hi as nat, 16);
            lemma_be_bytes_props(self.lo as nat, 16);
            let a = be_bytes(self.hi as nat, 16);
            let b = be_bytes(self.lo as nat, 16);
            assert(out@ =~= a + b);
            lemma_be_nat_concat(a, b);
            lemma_be_bytes_of(out@);
        }
        out
    }

    /// The number that 32 big-endian bytes denote.
    pub fn from_be_bytes(s: &[u8]) -> (r: U256)
        requires
            s@.len() == 32,
        ensures
            r@ == be_nat(s@),
    {
        let hi = u128_from_be(s, 0, 16);
        let lo = u128_from_be(s, 16, 16);
        proof {
            lemma_pow256_values();
            let a = s@.subrange(0, 16);
            let b = s@.subrange(16, 32);
            assert(s@ =~= a + b);
            lemma_be_nat_concat(a, b);
        }
        U256 { hi, lo }
    }
}

/// A 160-bit account address, as a 32-bit high part and a 128-bit low part.
#[derive(Clone, Copy, Debug, PartialEq, Eq, Structural)]
pub struct Address {
    pub hi: u32,
    pub lo: u128,
}

impl View for Address {
    type V = nat;

    open spec fn view(&self) -> nat {
        self.hi as nat * two128() + self.lo as nat
    }
}

pub proof fn lemma_address_bound(a: Address)
    ensures
        a@ < two160(),
{
    let h = a.hi as nat;
    assert(h * two128() + a.lo < two160()) by (nonlinear_arith)
        requires
            h < 0x1_0000_0000,
            a.lo < two128(),
            two160() == 0x1_0000_0000nat * two128(),
    ;
}

pub proof fn lemma_address_view_injective(a: Address, b: Address)
    requires
        a@ == b@,
    ensures
        a == b,
{
    let (ah, al, bh, bl) = (a.hi as nat, a.lo as nat, b.hi as nat, b.lo as nat);
    assert(ah == bh && al == bl) by (nonlinear_arith)
        requires
            ah * two128() + al == bh * two128() + bl,
            al < two128(),
            bl < two128(),
    ;
}

/// Copies `s[from..to]` into a new vector.
pub fn copy_range(s: &[u8], from: usize, to: usize) -> (r: Vec<u8>)
    requires
        from <= to <= s@.len(),
    ensures
        r@ == s@.subrange(from as int, to as int),
{
    let mut r: Vec<u8> = Vec::new();
    let mut i = from;
    while i < to
        invariant
            from <= i <= to <= s@.len(),
            r@ == s@.subrange(from as int, i as int),
        decreases to - i,
    {
        r.push(s[i]);
        i = i + 1;
        assert(r@ =~= s@.subrange(from as int, i as int));
    }
    r
}

impl Address {
    /// The zero address.
    pub fn zero() -> (r: Address)
        ensures
            r@ == 0,
    {
        Address { hi: 0, lo: 0 }
    }

    /// `self == other`.
    pub fn eq(&self, other: &Address) -> (r: bool)
        ensures
            r == (self@ == other@),
    {
        proof {
            if self@ == other@ {
                lemma_address_view_injective(*self, *other);
            }
        }
        self.hi == other.hi && self.lo == other.lo
    }

    /// The address as a 256-bit number.
    pub fn to_u256(&self) -> (r: U256)
        ensures
            r@ == self@,
    {
        U256 { hi: self.hi as u128, lo: self.lo }
    }

    /// The address made of the low 20 bytes of a 256-bit number.
    pub fn from_u256_low(v: &U256) -> (r: Address)
        ensures
            r@ == v@ % two160(),
    {
        let hi = (v.hi % 0x1_0000_0000) as u32;
        proof {
            let h = v.hi as nat;
            let l = v.lo as nat;
            let q = h / 0x1_0000_0000;
            let rr = h % 0x1_0000_0000;
            assert(h == q * 0x1_0000_0000 + rr);
            assert((h * two128() + l) % two160() == rr * two128() + l) by (nonlinear_arith)
                requires
                    h == q * 0x1_0000_0000 + rr,
                    rr < 0x1_0000_0000,
                    l < two128(),
                    two160() == 0x1_0000_0000nat * two128(),
            {
                assert(h * two128() + l == q * two160() + (rr * two128() + l));
                assert(rr * two128() + l < two160());
                vstd::arithmetic::div_mod::lemma_mod_multiples_vanish(
                    q as int,
                    (rr * two128() + l) as int,
                    two160() as int,
                );
                vstd::arithmetic::div_mod::lemma_small_mod(
                    (rr * two128() + l) as nat,
                    two160(),
                );
            }
        }
        Address { hi, lo: v.lo }
    }

    /// The address made of 20 big-endian bytes.
    pub fn from_slice(s: &[u8]) -> (r: Address)
        requires
            s@.len() == 20,
        ensures
            r@ == be_nat(s@),
    {
        let hi = u128_from_be(s, 0, 4);
        let lo = u128_from_be(s, 4, 16);
        proof {
            lemma_pow256_values();
            let a = s@.subrange(0, 4);
            let b = s@.subrange(4, 20);
            assert(s@ =~= a + b);
            lemma_be_nat_concat(a, b);
        }
        Address { hi: hi as u32, lo }
    }

    /// The 20-byte big-endian encoding.
    pub fn as_bytes(&self) -> (r: Vec<u8>)
        ensures
            r@ == be_bytes(self@, 20),
    {
        let full = self.to_u256().to_be_bytes();
        proof {
            lemma_address_bound(*self);
            lemma_pow256_values();
            lemma_be_bytes_props(self@, 32);
        }
        let r = copy_range(full.as_slice(), 12, 32);
        proof {
            let p = full@.subrange(0, 12);
            let q = full@.subrange(12, 32);
            assert(full@ =~= p + q);
            lemma_be_nat_concat(p, q);
            lemma_be_nat_bound(q);
            let (bp, bq) = (be_nat(p), be_nat(q));
            assert(bp == 0) by (nonlinear_arith)
                requires
                    bp * two160() + bq < two160(),
            ;
            lemma_be_bytes_of(q);
        }
        r
    }
}

} // verus!
