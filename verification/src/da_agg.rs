//! `getAggPkG1`: the aggregate G1 public key of the signers of a quorum whose
//! bits are set in a bitmap.

use vstd::prelude::*;
use crate::abi::G1Point;
use crate::bn::{
    bn254_field_modulus, bn254_g1_add, fq_from_slice, g1_add, g1_is_on_curve, on_curve,
};
use crate::bytes::{be_bytes, be_nat};
use crate::context::{InternalRefContext, VmError};
use crate::da_views::{addresses, get_quorum, quorum_fits, quorum_members};
use crate::layout::{base_fits, pubkey_key, signer_pk_g1_x_slot, signer_pk_g1_y_slot, u256_to_array};
use crate::storage::read;
use crate::uint::{two256, Address, U256};

verus! {

/// Whether bit `i` of `bitmap` is set: bit `i % 8` (least significant first) of byte `i / 8`.
pub open spec fn bit_set(bitmap: Seq<u8>, i: nat) -> bool {
    (bitmap[(i / 8) as int] & (1u8 << ((i % 8) as u8))) != 0
}

/// How many quorum positions the bitmap covers: it is read up to its end.
pub open spec fn scan_len(n: nat, bitmap_len: nat) -> nat {
    if n <= 8 * bitmap_len {
        n
    } else {
        8 * bitmap_len
    }
}

/// Number of set bits among positions `0..n`.
pub open spec fn hit_count(bitmap: Seq<u8>, n: nat) -> nat
    decreases n,
{
    if n == 0 {
        0
    } else {
        hit_count(bitmap, (n - 1) as nat) + if bit_set(bitmap, (n - 1) as nat) {
            1nat
        } else {
            0nat
        }
    }
}

/// The distinct members at set positions among `0..n`, in order of first occurrence.
pub open spec fn selected(members: Seq<nat>, bitmap: Seq<u8>, n: nat) -> Seq<nat>
    decreases n,
{
    if n == 0 {
        Seq::empty()
    } else {
        let prev = selected(members, bitmap, (n - 1) as nat);
        let m = members[(n - 1) as int];
        if bit_set(bitmap, (n - 1) as nat) && !prev.contains(m) {
            prev.push(m)
        } else {
            prev
        }
    }
}

/// Whether `a` occurs in `v`.
fn contains_address(v: &Vec<Address>, a: &Address) -> (r: bool)
    ensures
        r == addresses(v@).contains(a@),
{
    let mut i: usize = 0;
    while i < v.len()
        invariant
            i <= v@.len(),
            forall|j: int| 0 <= j < i ==> v@[j]@ != a@,
        decreases v@.len() - i,
    {
        if v[i].eq(a) {
            assert(addresses(v@)[i as int] == a@);
            return true;
        }
        i = i + 1;
    }
    proof {
        if addresses(v@).contains(a@) {
            let j = choose|j: int| 0 <= j < addresses(v@).len() && addresses(v@)[j] == a@;
            assert(v@[j]@ == a@);
        }
    }
    false
}

/// The distinct members at set bitmap positions, in order of first occurrence,
/// and the number of set positions; positions past the bitmap's end are not read.
pub fn select_signers(members: &Vec<Address>, bitmap: &Vec<u8>) -> (r: (Vec<Address>, u64))
    ensures
        addresses(r.0@) == selected(
            addresses(members@),
            bitmap@,
            scan_len(members@.len(), bitmap@.len()),
        ),
        r.1 == hit_count(bitmap@, scan_len(members@.len(), bitmap@.len())),
{
    let ghost ms = addresses(members@);
    let mut added: Vec<Address> = Vec::new();
    let mut hits: u64 = 0;
    let mut i: usize = 0;
    assert(addresses(added@) =~= Seq::<nat>::empty());
    while i < members.len() && i / 8 < bitmap.len()
        invariant
            ms == addresses(members@),
            i <= members@.len(),
            i <= 8 * bitmap@.len(),
            addresses(added@) == selected(ms, bitmap@, i as nat),
            hits as nat == hit_count(bitmap@, i as nat),
            hits <= i,
        decreases members@.len() - i,
    {
        let byte_index = i / 8;
        let bit_index = (i % 8) as u8;
        let is_set = (bitmap[byte_index] & (1u8 << bit_index)) != 0;
        assert(is_set == bit_set(bitmap@, i as nat));
        if is_set {
            hits = hits + 1;
            let signer = members[i];
            assert(ms[i as int] == signer@);
            if !contains_address(&added, &signer) {
                let ghost before = added@;
                added.push(signer);
                assert(addresses(added@) =~= addresses(before).push(signer@));
            }
        }
        i = i + 1;
    }
    assert(i as nat == scan_len(members@.len(), bitmap@.len()));
    (added, hits)
}

/// The stored G1 public-key coordinates of `signer`.
pub open spec fn g1_coords(s: Map<nat, nat>, signer: nat) -> (nat, nat) {
    (read(s, pubkey_key(signer)), read(s, pubkey_key(signer) + 1))
}

/// Whether the keys of `signers` can be read with every slot a 256-bit number.
pub open spec fn g1_keys_fit(signers: Seq<nat>) -> bool {
    forall|j: int| 0 <= j < signers.len() ==> {
        &&& base_fits(5)
        &&& pubkey_key(#[trigger] signers[j]) + 1 < two256()
    }
}

/// What is wrong with a stored key, if anything: a coordinate outside the
/// field, or a pair other than `(0, 0)` that is not a curve point.
pub open spec fn key_error(c: (nat, nat)) -> Option<VmError> {
    if c.0 >= bn254_field_modulus() {
        Some(VmError::InvalidG1X)
    } else if c.1 >= bn254_field_modulus() {
        Some(VmError::InvalidG1Y)
    } else if !(c.0 == 0 && c.1 == 0) && !on_curve(c.0, c.1) {
        Some(VmError::InvalidG1Point)
    } else {
        None
    }
}

/// The error of the first bad key among the first `n` signers.
pub open spec fn first_key_error(s: Map<nat, nat>, signers: Seq<nat>, n: nat) -> Option<VmError>
    decreases n,
{
    if n == 0 {
        None
    } else {
        match first_key_error(s, signers, (n - 1) as nat) {
            Some(e) => Some(e),
            None => key_error(g1_coords(s, signers[n - 1])),
        }
    }
}

/// The sum of two G1 points given by coordinates, `(0, 0)` being the point at infinity.
pub open spec fn g1_combine(a: (nat, nat), b: (nat, nat)) -> (nat, nat) {
    if a.0 == 0 && a.1 == 0 {
        b
    } else if b.0 == 0 && b.1 == 0 {
        a
    } else {
        let r = bn254_g1_add(be_bytes(a.0, 32), be_bytes(a.1, 32), be_bytes(b.0, 32), be_bytes(b.1, 32));
        (be_nat(r.0), be_nat(r.1))
    }
}

/// The sum of the keys of the first `n` signers, added in order.
pub open spec fn g1_sum(s: Map<nat, nat>, signers: Seq<nat>, n: nat) -> (nat, nat)
    decreases n,
{
    if n == 0 {
        (0, 0)
    } else {
        g1_combine(g1_sum(s, signers, (n - 1) as nat), g1_coords(s, signers[n - 1]))
    }
}

/// What an aggregation over `signers` returns: the error of the first bad key,
/// else the sum of all their keys.
pub open spec fn aggregation_outcome(
    s: Map<nat, nat>,
    signers: Seq<nat>,
    r: Result<(U256, U256), VmError>,
) -> bool {
    match first_key_error(s, signers, signers.len()) {
        Some(e) => r == Err::<(U256, U256), VmError>(e),
        None => r matches Ok(p) && (p.0@, p.1@) == g1_sum(s, signers, signers.len()),
    }
}

/// An error found among the first `k` signers stays the first error among more.
pub proof fn lemma_first_key_error_stays(s: Map<nat, nat>, signers: Seq<nat>, k: nat, m: nat)
    requires
        k <= m,
        first_key_error(s, signers, k) is Some,
    ensures
        first_key_error(s, signers, m) == first_key_error(s, signers, k),
    decreases m - k,
{
    if m > k {
        lemma_first_key_error_stays(s, signers, k, (m - 1) as nat);
    }
}

/// Reads `signer`'s stored G1 key and checks it: coordinates in the field,
/// and a curve point unless it is `(0, 0)`.
fn read_g1_key(context: &InternalRefContext, signer: &Address) -> (r: Result<(U256, U256), VmError>)
    requires
        context.wf(),
        base_fits(5),
        pubkey_key(signer@) + 1 < two256(),
    ensures
        match key_error(g1_coords(context.state@, signer@)) {
            Some(e) => r == Err::<(U256, U256), VmError>(e),
            None => r matches Ok(p) && (p.0@, p.1@) == g1_coords(context.state@, signer@),
        },
{
    let x = context.state.get_system_storage(&signer_pk_g1_x_slot(signer));
    let y = context.state.get_system_storage(&signer_pk_g1_y_slot(signer));
    let x_bytes = u256_to_array(&x);
    let y_bytes = u256_to_array(&y);
    proof {
        crate::bytes::lemma_pow256_values();
        crate::uint::lemma_u256_bound(x);
        crate::uint::lemma_u256_bound(y);
        crate::bytes::lemma_be_bytes_props(x@, 32);
        crate::bytes::lemma_be_bytes_props(y@, 32);
    }
    if fq_from_slice(x_bytes.as_slice()).is_err() {
        return Err(VmError::InvalidG1X);
    }
    if fq_from_slice(y_bytes.as_slice()).is_err() {
        return Err(VmError::InvalidG1Y);
    }
    if !(x.is_zero() && y.is_zero()) && !g1_is_on_curve(x_bytes.as_slice(), y_bytes.as_slice()) {
        return Err(VmError::InvalidG1Point);
    }
    Ok((x, y))
}

/// The sum of two points, each a curve point or `(0, 0)`.
fn combine_g1(a: (U256, U256), b: (U256, U256)) -> (r: (U256, U256))
    requires
        on_curve(a.0@, a.1@) || (a.0@ == 0 && a.1@ == 0),
        on_curve(b.0@, b.1@) || (b.0@ == 0 && b.1@ == 0),
    ensures
        (r.0@, r.1@) == g1_combine((a.0@, a.1@), (b.0@, b.1@)),
        on_curve(r.0@, r.1@) || (r.0@ == 0 && r.1@ == 0),
{
    if a.0.is_zero() && a.1.is_zero() {
        return b;
    }
    if b.0.is_zero() && b.1.is_zero() {
        return a;
    }
    let ax = u256_to_array(&a.0);
    let ay = u256_to_array(&a.1);
    let bx = u256_to_array(&b.0);
    let by = u256_to_array(&b.1);
    proof {
        crate::bytes::lemma_pow256_values();
        crate::uint::lemma_u256_bound(a.0);
        crate::uint::lemma_u256_bound(a.1);
        crate::uint::lemma_u256_bound(b.0);
        crate::uint::lemma_u256_bound(b.1);
        crate::bytes::lemma_be_bytes_props(a.0@, 32);
        crate::bytes::lemma_be_bytes_props(a.1@, 32);
        crate::bytes::lemma_be_bytes_props(b.0@, 32);
        crate::bytes::lemma_be_bytes_props(b.1@, 32);
    }
    let (rx, ry) = g1_add(ax.as_slice(), ay.as_slice(), bx.as_slice(), by.as_slice());
    (U256::from_be_bytes(rx.as_slice()), U256::from_be_bytes(ry.as_slice()))
}

/// Sums the G1 public keys of `signers` (a stored `(0, 0)` counting as the
/// point at infinity) and returns the sum's affine coordinates, `(0, 0)` for
/// the point at infinity.
fn aggregate_g1(context: &InternalRefContext, signers: &Vec<Address>) -> (r: Result<
    (U256, U256),
    VmError,
>)
    requires
        context.wf(),
        g1_keys_fit(addresses(signers@)),
    ensures
        aggregation_outcome(context.state@, addresses(signers@), r),
{
    let ghost s = context.state@;
    let ghost sig = addresses(signers@);
    let mut acc = (U256::zero(), U256::zero());
    let mut i: usize = 0;
    while i < signers.len()
        invariant
            context.wf(),
            context.state@ == s,
            sig == addresses(signers@),
            g1_keys_fit(sig),
            i <= signers@.len(),
            first_key_error(s, sig, i as nat) is None,
            (acc.0@, acc.1@) == g1_sum(s, sig, i as nat),
            on_curve(acc.0@, acc.1@) || (acc.0@ == 0 && acc.1@ == 0),
        decreases signers@.len() - i,
    {
        let signer = signers[i];
        assert(sig[i as int] == signer@);
        let key = match read_g1_key(context, &signer) {
            Ok(k) => k,
            Err(e) => {
                proof {
                    assert(first_key_error(s, sig, (i + 1) as nat) == Some(e));
                    lemma_first_key_error_stays(s, sig, (i + 1) as nat, sig.len());
                }
                return Err(e);
            },
        };
        acc = combine_g1(acc, key);
        i = i + 1;
    }
    Ok(acc)
}

/// Whether `getAggPkG1(epoch, quorumId, bitmap)` keeps every computation in range.
pub open spec fn get_agg_pk_g1_fits(s: Map<nat, nat>, epoch: nat, quorum_id: nat, bitmap: Seq<u8>) -> bool {
    let members = quorum_members(s, epoch, quorum_id);
    &&& quorum_fits(s, epoch, quorum_id)
    &&& g1_keys_fit(selected(members, bitmap, scan_len(members.len(), bitmap.len())))
}

/// What `getAggPkG1(epoch, quorum_id, bitmap)` may return from storage `s`.
pub open spec fn agg_pk_result(
    s: Map<nat, nat>,
    epoch: nat,
    quorum_id: nat,
    bitmap: Seq<u8>,
    r: Result<(G1Point, U256, U256), VmError>,
) -> bool {
    let members = quorum_members(s, epoch, quorum_id);
    let n = scan_len(members.len(), bitmap.len());
    let sel = selected(members, bitmap, n);
    if members.len() == 0 {
        r matches Ok(v) && v.0.0@ == 0 && v.0.1@ == 0 && v.1@ == 0 && v.2@ == 0
    } else {
        match first_key_error(s, sel, sel.len()) {
            Some(e) => r == Err::<(G1Point, U256, U256), VmError>(e),
            None => r matches Ok(v) && {
                &&& (v.0.0@, v.0.1@) == g1_sum(s, sel, sel.len())
                &&& v.1@ == members.len()
                &&& v.2@ == hit_count(bitmap, n)
            },
        }
    }
}

/// `getAggPkG1(uint epoch, uint quorumId, bytes quorumBitmap)`: the sum of the
/// G1 public keys of the distinct quorum members whose bits are set, the
/// quorum's size, and the number of set bits (repeated members counted each
/// time); all zero for an empty quorum.
pub fn get_agg_pk_g1(input: (U256, U256, Vec<u8>), context: &mut InternalRefContext) -> (r: Result<
    (G1Point, U256, U256),
    VmError,
>)
    requires
        old(context).wf(),
        get_agg_pk_g1_fits(old(context).state@, input.0@, input.1@, input.2@),
    ensures
        *final(context) == *old(context),
        agg_pk_result(old(context).state@, input.0@, input.1@, input.2@, r),
{
    let (epoch, quorum_id, quorum_bitmap) = input;
    let members = match get_quorum((epoch, quorum_id), context) {
        Ok(m) => m,
        Err(e) => {
            return Err(e);
        },
    };
    let total = members.len() as u64;
    if total == 0 {
        return Ok((G1Point(U256::zero(), U256::zero()), U256::zero(), U256::zero()));
    }
    let (signers, hit_count) = select_signers(&members, &quorum_bitmap);
    let (agg_x, agg_y) = match aggregate_g1(context, &signers) {
        Ok(p) => p,
        Err(e) => {
            return Err(e);
        },
    };
    Ok((G1Point(agg_x, agg_y), U256::from_u64(total), U256::from_u64(hit_count)))
}

} // verus!
