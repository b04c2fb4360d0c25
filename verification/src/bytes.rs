//! Big-endian byte encodings of natural numbers.

use vstd::prelude::*;

verus! {

/// `256^n`.
pub open spec fn pow256(n: nat) -> nat
    decreases n,
{
    if n == 0 {
        1
    } else {
        256 * pow256((n - 1) as nat)
    }
}

/// The natural number that a big-endian byte string denotes.
pub open spec fn be_nat(s: Seq<u8>) -> nat
    decreases s.len(),
{
    if s.len() == 0 {
        0
    } else {
        be_nat(s.drop_last()) * 256 + s.last() as nat
    }
}

/// The big-endian encoding of `n` on exactly `len` bytes.
pub open spec fn be_bytes(n: nat, len: nat) -> Seq<u8> {
    choose|s: Seq<u8>| s.len() == len && be_nat(s) == n
}

pub proof fn lemma_pow256_pos(n: nat)
    ensures
        pow256(n) > 0,
    decreases n,
{
    if n > 0 {
        lemma_pow256_pos((n - 1) as nat);
    }
}

pub proof fn lemma_pow256_add(a: nat, b: nat)
    ensures
        pow256(a + b) == pow256(a) * pow256(b),
    decreases b,
{
    if b == 0 {
        assert(pow256(0) == 1);
        assert(a + b == a);
    } else {
        let b1 = (b - 1) as nat;
        lemma_pow256_add(a, b1);
        assert(a + b == (a + b1) + 1);
        let pa = pow256(a);
        let pb = pow256(b1);
        assert(pow256(a + b) == 256 * pow256(a + b1));
        assert(pow256(b) == 256 * pb);
        assert(pow256(a + b1) == pa * pb);
        assert(256 * (pa * pb) == pa * (256 * pb)) by (nonlinear_arith);
    }
}

pub proof fn lemma_pow256_mono(a: nat, b: nat)
    requires
        a <= b,
    ensures
        pow256(a) <= pow256(b),
    decreases b,
{
    if a < b {
        lemma_pow256_mono(a, (b - 1) as nat);
    }
}

pub proof fn lemma_pow256_values()
    ensures
        pow256(4) == 0x1_0000_0000,
        pow256(8) == 0x1_0000_0000_0000_0000,
        pow256(15) == 0x100_0000_0000_0000_0000_0000_0000_0000,
        pow256(16) == 0x1_0000_0000_0000_0000_0000_0000_0000_0000,
        pow256(20) == 0x1_0000_0000_0000_0000_0000_0000_0000_0000_0000_0000,
        pow256(32) == 0x1_0000_0000_0000_0000_0000_0000_0000_0000_0000_0000_0000_0000_0000_0000_0000_0000,
{
    reveal_with_fuel(pow256, 5);
    assert(pow256(4) == 0x1_0000_0000);
    lemma_pow256_add(4, 4);
    assert(0x1_0000_0000nat * 0x1_0000_0000nat == 0x1_0000_0000_0000_0000nat) by (nonlinear_arith);
    lemma_pow256_add(8, 8);
    assert(0x1_0000_0000_0000_0000nat * 0x1_0000_0000_0000_0000nat == 0x1_0000_0000_0000_0000_0000_0000_0000_0000nat) by (nonlinear_arith);
    assert(pow256(16) == 256 * pow256(15));
    lemma_pow256_add(16, 4);
    assert(0x1_0000_0000_0000_0000_0000_0000_0000_0000nat * 0x1_0000_0000nat == 0x1_0000_0000_0000_0000_0000_0000_0000_0000_0000_0000nat) by (nonlinear_arith);
    lemma_pow256_add(16, 16);
    assert(0x1_0000_0000_0000_0000_0000_0000_0000_0000nat * 0x1_0000_0000_0000_0000_0000_0000_0000_0000nat == 0x1_0000_0000_0000_0000_0000_0000_0000_0000_0000_0000_0000_0000_0000_0000_0000_0000nat) by (nonlinear_arith);
}

pub proof fn lemma_be_nat_bound(s: Seq<u8>)
    ensures
        be_nat(s) < pow256(s.len()),
    decreases s.len(),
{
    if s.len() > 0 {
        lemma_be_nat_bound(s.drop_last());
        let x = be_nat(s.drop_last());
        let p = pow256((s.len() - 1) as nat);
        let l = s.last() as nat;
        assert(x * 256 + l < 256 * p) by (nonlinear_arith)
            requires
                x < p,
                l < 256,
        ;
    }
}

pub proof fn lemma_be_nat_concat(a: Seq<u8>, b: Seq<u8>)
    ensures
        be_nat(a + b) == be_nat(a) * pow256(b.len()) + be_nat(b),
    decreases b.len(),
{
    if b.len() == 0 {
        assert(a + b =~= a);
        assert(pow256(0) == 1);
    } else {
        let b1 = b.drop_last();
        let ab = a + b;
        assert(ab.drop_last() =~= a + b1);
        assert(ab.last() == b.last());
        lemma_be_nat_concat(a, b1);
        let x = be_nat(a);
        let p = pow256(b1.len());
        let y = be_nat(b1);
        let l = b.last() as nat;
        assert(be_nat(ab) == be_nat(a + b1) * 256 + l);
        assert(be_nat(b) == y * 256 + l);
        assert(pow256(b.len()) == 256 * p);
        assert((x * p + y) * 256 == x * (256 * p) + y * 256) by (nonlinear_arith);
    }
}

pub proof fn lemma_be_nat_div_mod(s: Seq<u8>)
    requires
        s.len() > 0,
    ensures
        be_nat(s) % 256 == s.last() as nat,
        be_nat(s) / 256 == be_nat(s.drop_last()),
{
    let x = be_nat(s.drop_last());
    let l = s.last() as nat;
    assert((x * 256 + l) % 256 == l && (x * 256 + l) / 256 == x) by (nonlinear_arith)
        requires
            l < 256,
    ;
}

pub proof fn lemma_be_nat_injective(a: Seq<u8>, b: Seq<u8>)
    requires
        a.len() == b.len(),
        be_nat(a) == be_nat(b),
    ensures
        a == b,
    decreases a.len(),
{
    if a.len() > 0 {
        lemma_be_nat_div_mod(a);
        lemma_be_nat_div_mod(b);
        lemma_be_nat_injective(a.drop_last(), b.drop_last());
        assert(a =~= a.drop_last().push(a.last()));
        assert(b =~= b.drop_last().push(b.last()));
    } else {
        assert(a =~= b);
    }
}

/// The encoding of a byte string's value on its own length is that string.
pub proof fn lemma_be_bytes_of(s: Seq<u8>)
    ensures
        be_bytes(be_nat(s), s.len()) == s,
{
    let t = be_bytes(be_nat(s), s.len());
    assert(exists|u: Seq<u8>| u.len() == s.len() && be_nat(u) == be_nat(s));
    lemma_be_nat_injective(t, s);
}

/// An encoding that exists is what `be_bytes` picks.
pub proof fn lemma_be_bytes_props(n: nat, len: nat)
    requires
        n < pow256(len),
    ensures
        be_bytes(n, len).len() == len,
        be_nat(be_bytes(n, len)) == n,
    decreases len,
{
    let w = witness_be(n, len);
    assert(w.len() == len && be_nat(w) == n);
}

/// A byte string of length `len` that encodes `n`.
pub proof fn witness_be(n: nat, len: nat) -> (s: Seq<u8>)
    requires
        n < pow256(len),
    ensures
        s.len() == len,
        be_nat(s) == n,
    decreases len,
{
    if len == 0 {
        Seq::empty()
    } else {
        let q = n / 256;
        let r = n % 256;
        let p = pow256((len - 1) as nat);
        assert(q < p) by (nonlinear_arith)
            requires
                n < 256 * p,
                q == n / 256,
        ;
        let t = witness_be(q, (len - 1) as nat);
        let s = t.push(r as u8);
        assert(s.drop_last() =~= t);
        s
    }
}

/// Value of the bytes `[off, off + len)` of `s`, read big-endian (`len <= 16`).
pub fn u128_from_be(s: &[u8], off: usize, len: usize) -> (r: u128)
    requires
        len <= 16,
        off + len <= s.len(),
    ensures
        r as nat == be_nat(s@.subrange(off as int, off + len)),
        (r as nat) < pow256(len as nat),
{
    let mut v: u128 = 0;
    let mut i: usize = 0;
    proof {
        assert(s@.subrange(off as int, off as int) =~= Seq::<u8>::empty());
        assert(pow256(0) == 1);
    }
    while i < len
        invariant
            i <= len <= 16,
            off + len <= s.len(),
            v as nat == be_nat(s@.subrange(off as int, off + i)),
            (v as nat) < pow256(i as nat),
        decreases len - i,
    {
        assert(off + i < s@.len());
        let b = s[off + i];
        proof {
            let t = s@.subrange(off as int, off + i + 1);
            assert(t.drop_last() =~= s@.subrange(off as int, off + i));
            assert(t.last() == b);
            lemma_pow256_mono((i + 1) as nat, 16);
            lemma_pow256_values();
            let p = pow256(i as nat);
            let vv = v as nat;
            assert(vv * 256 + b < 256 * p) by (nonlinear_arith)
                requires
                    vv < p,
                    b < 256,
            ;
        }
        v = v * 256 + b as u128;
        i = i + 1;
    }
    v
}

/// Appends the 16-byte big-endian encoding of `v` to `out`.
pub fn u128_push_be(v: u128, out: &mut Vec<u8>)
    ensures
        final(out)@ == old(out)@ + be_bytes(v as nat, 16),
{
    let ghost start = out@;
    let mut d: u128 = 0x100_0000_0000_0000_0000_0000_0000_0000;  // 256^15
    let mut j: usize = 0;
    proof {
        lemma_pow256_values();
        assert(out@.subrange(start.len() as int, out@.len() as int) =~= Seq::<u8>::empty());
        assert((v as nat) / pow256(16) == 0);
    }
    while j < 16
        invariant
            j <= 16,
            out@.len() == start.len() + j,
            out@.subrange(0, start.len() as int) == start,
            j < 16 ==> d as nat == pow256((15 - j) as nat),
            be_nat(out@.subrange(start.len() as int, out@.len() as int)) == (v as nat) / pow256(
                (16 - j) as nat,
            ),
        decreases 16 - j,
    {
        proof {
            lemma_pow256_pos((15 - j) as nat);
        }
        let b = ((v / d) % 256) as u8;
        let ghost old_out = out@;
        out.push(b);
        proof {
            let k = (15 - j) as nat;
            let t = out@.subrange(start.len() as int, out@.len() as int);
            assert(t.drop_last() =~= old_out.subrange(start.len() as int, old_out.len() as int));
            assert(t.last() == b);
            assert(pow256(k + 1) == 256 * pow256(k));
            let x = v as nat / pow256(k);
            let pk = pow256(k);
            lemma_pow256_pos(k);
            assert((v as nat) / (256 * pk) == x / 256) by (nonlinear_arith)
                requires
                    x == (v as nat) / pk,
                    pk > 0,
            {
                vstd::arithmetic::div_mod::lemma_div_denominator(v as int, pk as int, 256);
            }
            assert(x / 256 * 256 + x % 256 == x) by (nonlinear_arith);
            assert(out@.subrange(0, start.len() as int) =~= start);
        }
        if j < 15 {
            d = d / 256;
        }
        j = j + 1;
    }
    proof {
        let t = out@.subrange(start.len() as int, out@.len() as int);
        assert(pow256(0) == 1);
        assert((v as nat) / 1 == v as nat);
        assert(be_nat(t) == v as nat);
        assert(t.len() == 16);
        lemma_be_bytes_of(t);
        assert(out@ =~= start + t);
    }
}

} // verus!
