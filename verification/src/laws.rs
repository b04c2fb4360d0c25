//! Properties of the DA contract that span several operations.

use vstd::prelude::*;
use vstd::utf8::{decode_utf8, encode_utf8, encode_utf8_decode_utf8, encode_utf8_valid_utf8};
use crate::abi::{G1Point, G2Point};
use crate::context::{ActionParams, InternalRefContext, Space, VmError};
use crate::da_agg::{agg_pk_result, bit_set, hit_count, scan_len, selected};
use crate::da_epoch::{
    advanced_storage, all_signers, epoch_of_block, epoch_signers, finalize_epoch_outcome,
    registered_among, write_round_robin, NUM_SLICES,
};
use crate::da_views::{
    addr_of, flagged, quorum_exists, quorum_len, quorum_members, quorum_row_result,
    registered_details, stored_detail, stored_pubkeys,
};
use crate::da_writes::{
    register_next_epoch_outcome, registered_storage, store_pubkeys, store_signer_flag,
    update_socket_outcome,
};
use crate::layout::{
    all_signers_key, base_key, dynamic_key, epoch_blocks_key, is_signer_key, pubkey_key,
    quorum_count_key, quorum_list_key, registration_key, socket_key,
};
use crate::socket::{lemma_socket_roundtrip, store_socket, stored_socket, stored_socket_bytes};
use crate::storage::{read, read_account};
use crate::dispatch::{call_outcome, DaCall};
use crate::keccak::keccak256;
use crate::table::{selector_of, signature_of, table_functions, table_of, DaFunction};
use crate::uint::{two160, two256, Address, U256};

verus! {

/// Account storage gives back what was last written at a key, and a write
/// leaves every other key as it was.
pub proof fn law_account_storage_read_after_write(
    m: Map<(nat, Space, Seq<u8>), nat>,
    slot: (nat, Space, Seq<u8>),
    value: nat,
    other: (nat, Space, Seq<u8>),
)
    ensures
        read_account(m.insert(slot, value), slot) == value,
        other != slot ==> read_account(m.insert(slot, value), other) == read_account(m, other),
{
}

/// A socket written to its three slots reads back as the same text.
pub proof fn law_socket_read_after_write(s: Map<nat, nat>, k: nat, socket: Seq<char>)
    requires
        encode_utf8(socket).len() <= 64,
        k + 2 < two256(),
    ensures
        stored_socket(store_socket(s, k, encode_utf8(socket)), k) == socket,
{
    let b = encode_utf8(socket);
    let t = store_socket(s, k, b);
    assert(read(t, k + 2) == b.len());
    encode_utf8_decode_utf8(socket);
    encode_utf8_valid_utf8(socket);
    if b.len() == 0 {
        assert(b =~= Seq::<u8>::empty());
        assert(decode_utf8(Seq::<u8>::empty()) =~= Seq::<char>::empty());
    } else {
        lemma_socket_roundtrip(s, k, b);
        assert(stored_socket_bytes(t, k, b.len()) == b);
    }
}

/// The slots a registration writes do not overlap (no two slot computations
/// collide): the six public-key slots, the three socket slots, the signer flag,
/// and, for a new signer, the appended list entry and the list length.
pub open spec fn registration_slots_distinct(
    s: Map<nat, nat>,
    signer: nat,
    g1: G1Point,
    g2: G2Point,
    b: Seq<u8>,
) -> bool {
    let pk = pubkey_key(signer);
    let k = socket_key(signer);
    let f = is_signer_key(signer);
    let s2 = store_socket(store_pubkeys(s, signer, g1, g2), k, b);
    let count = read(s2.insert(f, 1), all_signers_key());
    let append = dynamic_key(all_signers_key()) + count;
    &&& disjoint(pk, 6, k, 3)
    &&& outside(f, pk, 6) && outside(append, pk, 6) && outside(all_signers_key(), pk, 6)
    &&& outside(f, k, 3) && outside(append, k, 3) && outside(all_signers_key(), k, 3)
    &&& f != append
    &&& f != all_signers_key()
}

/// `x` is not among `lo, .., lo + n - 1`.
pub open spec fn outside(x: nat, lo: nat, n: nat) -> bool {
    x < lo || x >= lo + n
}

/// The runs `a, .., a + n - 1` and `b, .., b + m - 1` do not meet.
pub open spec fn disjoint(a: nat, n: nat, b: nat, m: nat) -> bool {
    a + n <= b || b + m <= a
}

/// After a registration succeeds, the signer is flagged and its stored keys
/// and socket are the ones it registered (where no two of the written slots collide).
pub proof fn law_register_then_read(
    s: Map<nat, nat>,
    signer: nat,
    socket: Seq<char>,
    g1: G1Point,
    g2: G2Point,
)
    requires
        encode_utf8(socket).len() <= 64,
        socket_key(signer) + 2 < two256(),
        pubkey_key(signer) + 5 < two256(),
        registration_slots_distinct(s, signer, g1, g2, encode_utf8(socket)),
    ensures
        ({
            let t = registered_storage(s, signer, g1, g2, encode_utf8(socket));
            &&& flagged(t, signer)
            &&& stored_pubkeys(t, signer) == seq![g1.0@, g1.1@, g2.0[0]@, g2.0[1]@, g2.1[0]@, g2.1[1]@]
            &&& stored_socket(t, socket_key(signer)) == socket
        }),
{
    let b = encode_utf8(socket);
    let pk = pubkey_key(signer);
    let k = socket_key(signer);
    let f = is_signer_key(signer);
    let s1 = store_pubkeys(s, signer, g1, g2);
    let s2 = store_socket(s1, k, b);
    let t = registered_storage(s, signer, g1, g2, b);
    let count = read(s2.insert(f, 1), all_signers_key());
    let append = dynamic_key(all_signers_key()) + count;
    assert(read(t, f) == 1);
    assert(read(t, pk) == g1.0@);
    assert(read(t, pk + 1) == g1.1@);
    assert(read(t, pk + 2) == g2.0[0]@);
    assert(read(t, pk + 3) == g2.0[1]@);
    assert(read(t, pk + 4) == g2.1[0]@);
    assert(read(t, pk + 5) == g2.1[1]@);
    assert(stored_pubkeys(t, signer) =~= seq![g1.0@, g1.1@, g2.0[0]@, g2.0[1]@, g2.1[0]@, g2.1[1]@]);
    assert(read(t, k) == read(s2, k));
    assert(read(t, k + 1) == read(s2, k + 1));
    assert(read(t, k + 2) == read(s2, k + 2));
    assert(stored_socket(t, k) == stored_socket(s2, k));
    law_socket_read_after_write(s1, k, socket);
}

/// After `updateSocket` succeeds, the sender's stored socket is the new one.
pub proof fn law_update_socket_then_read(
    before: &InternalRefContext,
    after: &InternalRefContext,
    socket: Seq<char>,
    params: ActionParams,
)
    requires
        update_socket_outcome(before, after, socket, params, Ok(())),
        socket_key(params.sender@) + 2 < two256(),
    ensures
        stored_socket(after.state@, socket_key(params.sender@)) == socket,
{
    law_socket_read_after_write(before.state@, socket_key(params.sender@), socket);
}

/// After `registerNextEpoch` succeeds, the sender is registered for the epoch
/// after the current one.
pub proof fn law_register_next_epoch_then_registered(
    before: &InternalRefContext,
    after: &InternalRefContext,
    params: ActionParams,
)
    requires
        register_next_epoch_outcome(before, after, params, Ok(())),
    ensures
        read(after.state@, registration_key(params.sender@, read(before.state@, base_key()) + 1))
            != 0,
{
}

/// `registerNextEpoch` changes no other registration: every other
/// (signer, epoch) pair whose slot differs reads as before.
pub proof fn law_register_next_epoch_keeps_other_pairs(
    before: &InternalRefContext,
    after: &InternalRefContext,
    params: ActionParams,
    r: Result<(), VmError>,
    signer: nat,
    epoch: nat,
)
    requires
        register_next_epoch_outcome(before, after, params, r),
        registration_key(signer, epoch) != registration_key(
            params.sender@,
            read(before.state@, base_key()) + 1,
        ),
    ensures
        read(after.state@, registration_key(signer, epoch)) == read(
            before.state@,
            registration_key(signer, epoch),
        ),
{
}

/// A socket update leaves every signer's stored public keys as they were
/// (where the socket slots are apart from that signer's key slots).
pub proof fn law_update_socket_keeps_keys(
    before: &InternalRefContext,
    after: &InternalRefContext,
    socket: Seq<char>,
    params: ActionParams,
    r: Result<(), VmError>,
    signer: nat,
)
    requires
        update_socket_outcome(before, after, socket, params, r),
        disjoint(pubkey_key(signer), 6, socket_key(params.sender@), 3),
    ensures
        stored_pubkeys(after.state@, signer) == stored_pubkeys(before.state@, signer),
{
    let k = pubkey_key(signer);
    let t = after.state@;
    let s = before.state@;
    assert(read(t, k) == read(s, k));
    assert(read(t, k + 1) == read(s, k + 1));
    assert(read(t, k + 2) == read(s, k + 2));
    assert(read(t, k + 3) == read(s, k + 3));
    assert(read(t, k + 4) == read(s, k + 4));
    assert(read(t, k + 5) == read(s, k + 5));
}

/// Entry `i < n` of a round-robin list reads as `signers[i % |signers|]`.
pub proof fn lemma_round_robin_entry(s: Map<nat, nat>, d: nat, signers: Seq<nat>, n: nat, i: nat)
    requires
        signers.len() > 0,
        i < n,
    ensures
        read(write_round_robin(s, d, signers, n), d + i) == signers[(i % signers.len()) as int],
    decreases n,
{
    if i < n - 1 {
        lemma_round_robin_entry(s, d, signers, (n - 1) as nat, i);
    }
}

/// Slots outside a round-robin list keep their values.
pub proof fn lemma_round_robin_outside(s: Map<nat, nat>, d: nat, signers: Seq<nat>, n: nat, key: nat)
    requires
        outside(key, d, n),
    ensures
        read(write_round_robin(s, d, signers, n), key) == read(s, key),
    decreases n,
{
    if n > 0 {
        lemma_round_robin_outside(s, d, signers, (n - 1) as nat, key);
    }
}

/// Every signer registered among `candidates` is one of them.
pub proof fn lemma_registered_among_subset(s: Map<nat, nat>, candidates: Seq<nat>, epoch: nat, x: nat)
    requires
        registered_among(s, candidates, epoch).contains(x),
    ensures
        candidates.contains(x),
    decreases candidates.len(),
{
    if candidates.len() > 0 {
        let prev = registered_among(s, candidates.drop_last(), epoch);
        if prev.contains(x) {
            lemma_registered_among_subset(s, candidates.drop_last(), epoch, x);
            let j = choose|j: int| 0 <= j < candidates.drop_last().len() && candidates.drop_last()[j] == x;
            assert(candidates[j] == x);
        } else {
            assert(candidates[candidates.len() - 1] == x);
        }
    }
}

/// The slots that advancing to `epoch` writes do not overlap: the epoch slot,
/// the quorum count, and the quorum list with its entries.
pub open spec fn advance_slots_distinct(epoch: nat) -> bool {
    let list = quorum_list_key(epoch, 0);
    let d = dynamic_key(list);
    &&& base_key() != quorum_count_key(epoch)
    &&& base_key() != list
    &&& outside(base_key(), d, NUM_SLICES as nat)
    &&& quorum_count_key(epoch) != list
    &&& outside(quorum_count_key(epoch), d, NUM_SLICES as nat)
    &&& outside(list, d, NUM_SLICES as nat)
}

/// When the epoch advances, the new epoch becomes current, it gets one quorum
/// exactly when some signer registered for it, and that quorum lists the
/// registered signers round-robin over `NUM_SLICES` entries (where no two of
/// the written slots collide).
pub proof fn law_finalize_forms_quorum(before: &InternalRefContext, after: &InternalRefContext)
    requires
        finalize_epoch_outcome(before, after, Ok(())),
        epoch_of_block(before.block_number) == read(before.state@, base_key()) + 1,
        advance_slots_distinct(epoch_of_block(before.block_number)),
    ensures
        ({
            let s = before.state@;
            let t = after.state@;
            let e = epoch_of_block(before.block_number);
            let signers = epoch_signers(s, e);
            &&& read(t, base_key()) == e
            &&& read(t, quorum_count_key(e)) == if signers.len() > 0 {
                1nat
            } else {
                0nat
            }
            &&& signers.len() > 0 ==> quorum_members(t, e, 0) == Seq::new(
                NUM_SLICES as nat,
                |i: int| signers[i % signers.len() as int],
            )
        }),
{
    let s = before.state@;
    let t = after.state@;
    let e = epoch_of_block(before.block_number);
    let signers = epoch_signers(s, e);
    assert(t == advanced_storage(s, e));
    if signers.len() > 0 {
        let list = quorum_list_key(e, 0);
        let d = dynamic_key(list);
        let n = NUM_SLICES as nat;
        let w = write_round_robin(s.insert(list, n), d, signers, n);
        lemma_round_robin_outside(s.insert(list, n), d, signers, n, list);
        assert(read(t, list) == n);
        assert(quorum_len(t, e, 0) == n);
        assert(quorum_exists(t, e, 0));
        let expect = Seq::new(n, |i: int| signers[i % signers.len() as int]);
        let got = quorum_members(t, e, 0);
        assert forall|i: int| 0 <= i < n implies got[i] == expect[i] by {
            lemma_round_robin_entry(s.insert(list, n), d, signers, n, i as nat);
            assert(d + i != base_key() && d + i != quorum_count_key(e));
            let x = signers[i % signers.len() as int];
            assert(signers.contains(x));
            lemma_registered_among_subset(s, all_signers(s), e, x);
            let j = choose|j: int| 0 <= j < all_signers(s).len() && all_signers(s)[j] == x;
            assert(x == addr_of(read(s, (dynamic_key(all_signers_key()) + j) as nat)));
            assert(x < two160());
            assert(addr_of(x) == x) by {
                vstd::arithmetic::div_mod::lemma_small_mod(x, two160());
            }
        }
        assert(got =~= expect);
    }
}

/// Finalizing twice at the same height: the second call does nothing.
pub proof fn law_finalize_idempotent(
    c0: &InternalRefContext,
    c1: &InternalRefContext,
    c2: &InternalRefContext,
    r2: Result<(), VmError>,
)
    requires
        finalize_epoch_outcome(c0, c1, Ok(())),
        finalize_epoch_outcome(c1, c2, r2),
    ensures
        r2 == Ok::<(), VmError>(()),
        c2.state@ == c1.state@,
{
    let e = epoch_of_block(c0.block_number);
    if e != read(c0.state@, base_key()) {
        assert(c1.state@ == advanced_storage(c0.state@, e));
        assert(read(c1.state@, base_key()) == e);
    }
}

/// The signers whose keys `getAggPkG1` aggregates are distinct quorum
/// members at set bitmap positions; there are at most as many as set bits,
/// and at most as many set bits as positions.
pub proof fn law_selection(members: Seq<nat>, bitmap: Seq<u8>, n: nat)
    requires
        n <= members.len(),
        n <= 8 * bitmap.len(),
    ensures
        ({
            let sel = selected(members, bitmap, n);
            &&& sel.no_duplicates()
            &&& forall|x: nat| #[trigger] sel.contains(x) ==> exists|i: int|
                0 <= i < n && members[i] == x && bit_set(bitmap, i as nat)
            &&& sel.len() <= hit_count(bitmap, n)
            &&& hit_count(bitmap, n) <= n
        }),
    decreases n,
{
    if n > 0 {
        law_selection(members, bitmap, (n - 1) as nat);
        let prev = selected(members, bitmap, (n - 1) as nat);
        let m = members[n - 1];
        let sel = selected(members, bitmap, n);
        assert forall|x: nat| #[trigger] sel.contains(x) implies exists|i: int|
            0 <= i < n && members[i] == x && bit_set(bitmap, i as nat) by {
            if prev.contains(x) {
                let i = choose|i: int| 0 <= i < n - 1 && members[i] == x && bit_set(bitmap, i as nat);
                assert(0 <= i < n);
            } else {
                assert(x == m);
                assert(members[n - 1] == x && bit_set(bitmap, (n - 1) as nat));
            }
        }
        if bit_set(bitmap, (n - 1) as nat) && !prev.contains(m) {
            assert forall|i: int, j: int| 0 <= i < sel.len() && 0 <= j < sel.len() && i != j implies sel[i]
                != sel[j] by {
                if i < prev.len() && j < prev.len() {
                } else if i == prev.len() {
                    assert(prev.contains(sel[j]));
                } else {
                    assert(prev.contains(sel[i]));
                }
            }
        }
    }
}

/// `getQuorumRow` returns entry `row` of the list that `getQuorum` returns,
/// for every row of an existing quorum.
pub proof fn law_row_agrees_with_quorum(
    s: Map<nat, nat>,
    epoch: nat,
    quorum_id: nat,
    row: nat,
    r: Result<Address, VmError>,
)
    requires
        quorum_exists(s, epoch, quorum_id),
        row < quorum_len(s, epoch, quorum_id),
        quorum_row_result(s, epoch, quorum_id, row, r),
    ensures
        r matches Ok(a) && a@ == quorum_members(s, epoch, quorum_id)[row as int],
{
    let len = read(s, quorum_list_key(epoch, quorum_id));
    assert(len % 0x1_0000_0000_0000_0000 <= len) by {
        vstd::arithmetic::div_mod::lemma_mod_decreases(len, 0x1_0000_0000_0000_0000);
    }
}

/// Registering an already-flagged signer again leaves the list of all
/// signers as it was (where the flag slot is not the list's length slot nor
/// one of its entries).
pub proof fn law_reregistration_keeps_signer_list(s: Map<nat, nat>, signer: nat)
    requires
        flagged(s, signer),
        is_signer_key(signer) != all_signers_key(),
        outside(
            is_signer_key(signer),
            dynamic_key(all_signers_key()),
            crate::da_epoch::all_signers_len(s),
        ),
    ensures
        read(store_signer_flag(s, signer), all_signers_key()) == read(s, all_signers_key()),
        all_signers(store_signer_flag(s, signer)) == all_signers(s),
{
    let t = store_signer_flag(s, signer);
    assert(t == s.insert(is_signer_key(signer), 1));
    assert(all_signers(t) =~= all_signers(s));
}

/// In a table built from functions with distinct selectors, each function's
/// selector maps to it.
proof fn lemma_table_of(fs: Seq<DaFunction>, k: int)
    requires
        0 <= k < fs.len(),
        forall|i: int, j: int|
            0 <= i < j < fs.len() ==> selector_of(#[trigger] fs[i]) != selector_of(#[trigger] fs[j]),
    ensures
        table_of(fs).contains_key(selector_of(fs[k])),
        table_of(fs)[selector_of(fs[k])] == fs[k],
    decreases fs.len(),
{
    let init = fs.drop_last();
    if k < fs.len() - 1 {
        assert forall|i: int, j: int| 0 <= i < j < init.len() implies selector_of(#[trigger] init[i])
            != selector_of(#[trigger] init[j]) by {
            assert(init[i] == fs[i] && init[j] == fs[j]);
        }
        lemma_table_of(init, k);
        assert(init[k] == fs[k]);
        assert(selector_of(fs[k]) != selector_of(fs[fs.len() - 1]));
    }
}

/// Where the selectors of the contract's functions are distinct, the function
/// table maps each function's selector to that function.
pub proof fn law_table_maps_selectors(f: DaFunction)
    requires
        forall|i: int, j: int|
            0 <= i < j < table_functions().len() ==> selector_of(#[trigger] table_functions()[i])
                != selector_of(#[trigger] table_functions()[j]),
    ensures
        table_of(table_functions()).contains_key(selector_of(f)),
        table_of(table_functions())[selector_of(f)] == f,
{
    let fs = table_functions();
    let k: int = match f {
        DaFunction::EpochNumber => 0,
        DaFunction::GetAggPkG1 => 1,
        DaFunction::GetQuorum => 2,
        DaFunction::GetQuorumRow => 3,
        DaFunction::GetSigner => 4,
        DaFunction::IsSigner => 5,
        DaFunction::QuorumCount => 6,
        DaFunction::RegisteredEpoch => 7,
        DaFunction::RegisterNextEpoch => 8,
        DaFunction::RegisterSigner => 9,
        DaFunction::UpdateSocket => 10,
        DaFunction::FinalizeEpoch => 11,
        DaFunction::SetEpochBlocks => 12,
    };
    assert(fs[k] == f);
    lemma_table_of(fs, k);
}

/// Bit `i` of a bitmap, a byte past its end reading as zero.
pub open spec fn bit_of(bitmap: Seq<u8>, i: nat) -> bool {
    i / 8 < bitmap.len() && bit_set(bitmap, i)
}

/// `selected` over bits read by `bit_of`.
pub open spec fn selected_padded(members: Seq<nat>, bitmap: Seq<u8>, n: nat) -> Seq<nat>
    decreases n,
{
    if n == 0 {
        Seq::empty()
    } else {
        let prev = selected_padded(members, bitmap, (n - 1) as nat);
        let m = members[(n - 1) as int];
        if bit_of(bitmap, (n - 1) as nat) && !prev.contains(m) {
            prev.push(m)
        } else {
            prev
        }
    }
}

/// `hit_count` over bits read by `bit_of`.
pub open spec fn hit_count_padded(bitmap: Seq<u8>, n: nat) -> nat
    decreases n,
{
    if n == 0 {
        0
    } else {
        hit_count_padded(bitmap, (n - 1) as nat) + if bit_of(bitmap, (n - 1) as nat) {
            1nat
        } else {
            0nat
        }
    }
}

/// Within the bitmap, reading past its end as zero changes nothing.
proof fn lemma_padded_within(members: Seq<nat>, bitmap: Seq<u8>, k: nat)
    requires
        k <= 8 * bitmap.len(),
    ensures
        selected(members, bitmap, k) == selected_padded(members, bitmap, k),
        hit_count(bitmap, k) == hit_count_padded(bitmap, k),
    decreases k,
{
    if k > 0 {
        lemma_padded_within(members, bitmap, (k - 1) as nat);
        assert(((k - 1) as nat) / 8 < bitmap.len());
    }
}

/// Past the bitmap's end no member is selected and no bit counts.
proof fn lemma_padded_past_end(members: Seq<nat>, bitmap: Seq<u8>, k: nat)
    requires
        8 * bitmap.len() <= k,
    ensures
        selected_padded(members, bitmap, k) == selected_padded(members, bitmap, 8 * bitmap.len()),
        hit_count_padded(bitmap, k) == hit_count_padded(bitmap, 8 * bitmap.len()),
    decreases k,
{
    if k > 8 * bitmap.len() {
        lemma_padded_past_end(members, bitmap, (k - 1) as nat);
        assert(!bit_of(bitmap, (k - 1) as nat));
    }
}

/// Bitmaps that agree on the first `k` bits select the same members.
proof fn lemma_padded_agree(members: Seq<nat>, b1: Seq<u8>, b2: Seq<u8>, k: nat)
    requires
        forall|i: nat| i < k ==> bit_of(b1, i) == bit_of(b2, i),
    ensures
        selected_padded(members, b1, k) == selected_padded(members, b2, k),
        hit_count_padded(b1, k) == hit_count_padded(b2, k),
    decreases k,
{
    if k > 0 {
        lemma_padded_agree(members, b1, b2, (k - 1) as nat);
        assert(bit_of(b1, (k - 1) as nat) == bit_of(b2, (k - 1) as nat));
    }
}

/// What `getAggPkG1` reads of the bitmap, with a byte past its end read as zero.
proof fn lemma_scan_is_padded(members: Seq<nat>, bitmap: Seq<u8>)
    ensures
        selected(members, bitmap, scan_len(members.len(), bitmap.len())) == selected_padded(
            members,
            bitmap,
            members.len(),
        ),
        hit_count(bitmap, scan_len(members.len(), bitmap.len())) == hit_count_padded(
            bitmap,
            members.len(),
        ),
{
    let n = members.len();
    if n <= 8 * bitmap.len() {
        lemma_padded_within(members, bitmap, n);
    } else {
        lemma_padded_within(members, bitmap, 8 * bitmap.len());
        lemma_padded_past_end(members, bitmap, n);
    }
}

/// `getAggPkG1` reads only the first bits of the bitmap, one per quorum row
/// (least significant bit of each byte first, a byte past the end reading as
/// zero): two bitmaps that agree there give the same outcome.
pub proof fn law_agg_reads_only_quorum_bits(
    s: Map<nat, nat>,
    epoch: nat,
    quorum_id: nat,
    b1: Seq<u8>,
    b2: Seq<u8>,
    r: Result<(G1Point, U256, U256), VmError>,
)
    requires
        forall|i: nat|
            i < quorum_members(s, epoch, quorum_id).len() ==> bit_of(b1, i) == bit_of(b2, i),
    ensures
        agg_pk_result(s, epoch, quorum_id, b1, r) == agg_pk_result(s, epoch, quorum_id, b2, r),
{
    let members = quorum_members(s, epoch, quorum_id);
    lemma_scan_is_padded(members, b1);
    lemma_scan_is_padded(members, b2);
    lemma_padded_agree(members, b1, b2, members.len());
}

/// A registered candidate is among those registered.
pub proof fn lemma_registered_among_has(s: Map<nat, nat>, candidates: Seq<nat>, epoch: nat, x: nat)
    requires
        candidates.contains(x),
        read(s, registration_key(x, epoch)) != 0,
    ensures
        registered_among(s, candidates, epoch).contains(x),
    decreases candidates.len(),
{
    let prev = registered_among(s, candidates.drop_last(), epoch);
    if candidates.last() == x {
        assert(registered_among(s, candidates, epoch) == prev.push(x));
        assert(prev.push(x)[prev.len() as int] == x);
    } else {
        let j = choose|j: int| 0 <= j < candidates.len() && candidates[j] == x;
        assert(candidates.drop_last()[j] == x);
        lemma_registered_among_has(s, candidates.drop_last(), epoch, x);
        let k = choose|k: int| 0 <= k < prev.len() && prev[k] == x;
        let full = registered_among(s, candidates, epoch);
        assert(full[k] == x);
    }
}

/// A signer on the list of all signers that registered for the next epoch is
/// in that epoch's quorum once the epoch advances, provided no more signers
/// registered than the quorum has rows (and no two written slots collide).
pub proof fn law_registered_signer_joins_quorum(
    before: &InternalRefContext,
    after: &InternalRefContext,
    signer: nat,
)
    requires
        finalize_epoch_outcome(before, after, Ok(())),
        epoch_of_block(before.block_number) == read(before.state@, base_key()) + 1,
        advance_slots_distinct(epoch_of_block(before.block_number)),
        all_signers(before.state@).contains(signer),
        read(before.state@, registration_key(signer, epoch_of_block(before.block_number))) != 0,
        epoch_signers(before.state@, epoch_of_block(before.block_number)).len() <= NUM_SLICES,
    ensures
        ({
            let e = epoch_of_block(before.block_number);
            &&& read(after.state@, quorum_count_key(e)) == 1
            &&& quorum_members(after.state@, e, 0).len() == NUM_SLICES
            &&& quorum_members(after.state@, e, 0).contains(signer)
        }),
{
    let s = before.state@;
    let e = epoch_of_block(before.block_number);
    let signers = epoch_signers(s, e);
    lemma_registered_among_has(s, all_signers(s), e, signer);
    law_finalize_forms_quorum(before, after);
    let j = choose|j: int| 0 <= j < signers.len() && signers[j] == signer;
    let members = quorum_members(after.state@, e, 0);
    assert(members == Seq::new(NUM_SLICES as nat, |i: int| signers[i % signers.len() as int]));
    vstd::arithmetic::div_mod::lemma_small_mod(j as nat, signers.len());
    assert(members[j] == signer);
}

/// The list of all signers holds each signer once, and holds exactly the
/// flagged signers.
pub open spec fn signer_list_consistent(s: Map<nat, nat>) -> bool {
    &&& all_signers(s).no_duplicates()
    &&& forall|a: nat| a < two160() ==> (flagged(s, a) <==> #[trigger] all_signers(s).contains(a))
}

/// The slots that a registration of `signer` writes meet no slot they should
/// not: flag slots belong to one address each, and no flag slot, the list
/// length or a list entry (up to the next one) lies among the key and socket slots.
pub open spec fn signer_slots_apart(s: Map<nat, nat>, signer: nat) -> bool {
    let pk = pubkey_key(signer);
    let k = socket_key(signer);
    let l = all_signers_key();
    let d = dynamic_key(l);
    let n = read(s, l);
    &&& forall|a: nat, b: nat|
        a < two160() && b < two160() && #[trigger] is_signer_key(a) == #[trigger] is_signer_key(b)
            ==> a == b
    &&& forall|a: nat|
        a < two160() ==> {
            let x = #[trigger] is_signer_key(a);
            &&& outside(x, pk, 6)
            &&& outside(x, k, 3)
            &&& x != l
            &&& outside(x, d, n + 1)
        }
    &&& outside(l, pk, 6) && outside(l, k, 3) && outside(l, d, n + 1)
    &&& disjoint(d, n + 1, pk, 6) && disjoint(d, n + 1, k, 3)
}

/// Slots apart from the key and socket slots keep their values through those writes.
proof fn lemma_key_socket_writes_apart(
    s: Map<nat, nat>,
    signer: nat,
    g1: G1Point,
    g2: G2Point,
    b: Seq<u8>,
    x: nat,
)
    requires
        outside(x, pubkey_key(signer), 6),
        outside(x, socket_key(signer), 3),
    ensures
        read(store_socket(store_pubkeys(s, signer, g1, g2), socket_key(signer), b), x) == read(s, x),
{
}

/// A registration keeps the list of all signers consistent: each signer
/// once, and exactly the flagged signers (where no two written slots collide).
pub proof fn law_registration_keeps_signer_list(
    s: Map<nat, nat>,
    signer: nat,
    g1: G1Point,
    g2: G2Point,
    b: Seq<u8>,
)
    requires
        signer < two160(),
        signer_list_consistent(s),
        signer_slots_apart(s, signer),
        read(s, all_signers_key()) + 1 < 0x1_0000_0000_0000_0000,
    ensures
        signer_list_consistent(registered_storage(s, signer, g1, g2, b)),
{
    let pk = pubkey_key(signer);
    let k = socket_key(signer);
    let f = is_signer_key(signer);
    let l = all_signers_key();
    let d = dynamic_key(l);
    let n = read(s, l);
    let s2 = store_socket(store_pubkeys(s, signer, g1, g2), k, b);
    let s3 = s2.insert(f, 1);
    let t = registered_storage(s, signer, g1, g2, b);
    let list = all_signers(s);
    assert(is_signer_key(signer) == f);
    lemma_key_socket_writes_apart(s, signer, g1, g2, b, f);
    lemma_key_socket_writes_apart(s, signer, g1, g2, b, l);
    vstd::arithmetic::div_mod::lemma_small_mod(n, 0x1_0000_0000_0000_0000);
    assert(list.len() == n);
    // flags after the writes
    assert forall|a: nat| a < two160() implies flagged(t, a) == (a == signer || flagged(s, a)) by {
        let x = is_signer_key(a);
        lemma_key_socket_writes_apart(s, signer, g1, g2, b, x);
        if a != signer {
            assert(x != f);
        }
    }
    // list entries below `n` keep their values
    assert forall|i: nat| i < n implies #[trigger] read(t, d + i) == read(s, d + i) by {
        lemma_key_socket_writes_apart(s, signer, g1, g2, b, d + i);
        assert(d + i != f);
        assert(d + i != l);
    }
    if read(s2, f) == 0 {
        assert(!flagged(s, signer));
        assert(!list.contains(signer));
        assert(read(s3, l) == n);
        assert(t == s3.insert(d + n, signer).insert(l, n + 1));
        assert(read(t, l) == n + 1);
        vstd::arithmetic::div_mod::lemma_small_mod(n + 1, 0x1_0000_0000_0000_0000);
        let lt = all_signers(t);
        assert(lt.len() == n + 1);
        vstd::arithmetic::div_mod::lemma_small_mod(signer, two160());
        assert(lt[n as int] == signer);
        assert forall|i: int| 0 <= i < n implies lt[i] == list[i] by {
            assert(read(t, d + i as nat) == read(s, d + i as nat));
        }
        assert(lt =~= list.push(signer));
        assert forall|a: nat| a < two160() implies (flagged(t, a) <==> #[trigger] lt.contains(a)) by {
            if lt.contains(a) && a != signer {
                let j = choose|j: int| 0 <= j < lt.len() && lt[j] == a;
                assert(list[j] == a);
            }
            if list.contains(a) {
                let j = choose|j: int| 0 <= j < list.len() && list[j] == a;
                assert(lt[j] == a);
            }
        }
    } else {
        assert(t == s3);
        assert(read(t, l) == n);
        let lt = all_signers(t);
        assert(lt.len() == n);
        assert forall|i: int| 0 <= i < n implies lt[i] == list[i] by {
            assert(read(t, d + i as nat) == read(s, d + i as nat));
        }
        assert(lt =~= list);
        assert(flagged(s, signer));
    }
}

/// Whether `key` lies apart from every slot that `call` writes, other than
/// registration slots (which are only ever set to 1).
pub open spec fn apart_from_call(s: Map<nat, nat>, block: u64, params: ActionParams, call: DaCall, key: nat) -> bool {
    match call {
        DaCall::RegisterSigner(d, _) => {
            let signer = d.0@;
            let s2 = store_socket(store_pubkeys(s, signer, d.2, d.3), socket_key(signer), encode_utf8(d.1@));
            &&& outside(key, pubkey_key(signer), 6)
            &&& outside(key, socket_key(signer), 3)
            &&& key != is_signer_key(signer)
            &&& key != all_signers_key()
            &&& key != dynamic_key(all_signers_key()) + read(s2.insert(is_signer_key(signer), 1), all_signers_key())
        },
        DaCall::UpdateSocket(_) => outside(key, socket_key(params.sender@), 3),
        DaCall::FinalizeEpoch => {
            let e = epoch_of_block(block);
            &&& key != base_key()
            &&& key != quorum_count_key(e)
            &&& key != quorum_list_key(e, 0)
            &&& outside(key, dynamic_key(quorum_list_key(e, 0)), NUM_SLICES as nat)
        },
        DaCall::SetEpochBlocks(_) => key != epoch_blocks_key(),
        _ => true,
    }
}

/// A registration for an epoch is never revoked: no call of the contract,
/// whatever it returns, clears a set registration slot (where the call's
/// other writes do not land on it).
pub proof fn law_registration_never_revoked(
    before: &InternalRefContext,
    after: &InternalRefContext,
    params: ActionParams,
    call: DaCall,
    res: Result<crate::dispatch::DaOutput, VmError>,
    signer: nat,
    epoch: nat,
)
    requires
        call_outcome(before, after, params, call, res),
        apart_from_call(before.state@, before.block_number, params, call, registration_key(signer, epoch)),
        read(before.state@, registration_key(signer, epoch)) != 0,
    ensures
        read(after.state@, registration_key(signer, epoch)) != 0,
{
    let key = registration_key(signer, epoch);
    let s = before.state@;
    match call {
        DaCall::RegisterSigner(d, _) => {
            let sg = d.0@;
            lemma_key_socket_writes_apart(s, sg, d.2, d.3, encode_utf8(d.1@), key);
            assert(read(store_pubkeys(s, sg, d.2, d.3), key) == read(s, key));
        },
        DaCall::FinalizeEpoch => {
            let e = epoch_of_block(before.block_number);
            if e != read(s, base_key()) && e == read(s, base_key()) + 1 {
                let signers = epoch_signers(s, e);
                if signers.len() > 0 {
                    let list = quorum_list_key(e, 0);
                    lemma_round_robin_outside(
                        s.insert(list, NUM_SLICES as nat),
                        dynamic_key(list),
                        signers,
                        NUM_SLICES as nat,
                        key,
                    );
                }
            }
        },
        _ => {},
    }
}

/// Every quorum count stays 0 or 1: finalizing writes 0 or 1 into the count
/// of the epoch it forms, and no other call writes a quorum count (where the
/// call's writes do not land on it).
pub proof fn law_quorum_count_at_most_one(
    before: &InternalRefContext,
    after: &InternalRefContext,
    params: ActionParams,
    call: DaCall,
    res: Result<crate::dispatch::DaOutput, VmError>,
    epoch: nat,
)
    requires
        call_outcome(before, after, params, call, res),
        read(before.state@, quorum_count_key(epoch)) <= 1,
        ({
            let key = quorum_count_key(epoch);
            let e = epoch_of_block(before.block_number);
            if call is FinalizeEpoch && epoch == e {
                advance_slots_distinct(e)
            } else {
                &&& apart_from_call(before.state@, before.block_number, params, call, key)
                &&& call is RegisterNextEpoch ==> key != registration_key(
                    params.sender@,
                    read(before.state@, base_key()) + 1,
                )
            }
        }),
    ensures
        read(after.state@, quorum_count_key(epoch)) <= 1,
{
    let key = quorum_count_key(epoch);
    let s = before.state@;
    match call {
        DaCall::RegisterSigner(d, _) => {
            let sg = d.0@;
            lemma_key_socket_writes_apart(s, sg, d.2, d.3, encode_utf8(d.1@), key);
            assert(read(store_pubkeys(s, sg, d.2, d.3), key) == read(s, key));
        },
        DaCall::FinalizeEpoch => {
            let e = epoch_of_block(before.block_number);
            if e != read(s, base_key()) && e == read(s, base_key()) + 1 {
                let signers = epoch_signers(s, e);
                if signers.len() > 0 && epoch != e {
                    let list = quorum_list_key(e, 0);
                    lemma_round_robin_outside(
                        s.insert(list, NUM_SLICES as nat),
                        dynamic_key(list),
                        signers,
                        NUM_SLICES as nat,
                        key,
                    );
                }
            }
        },
        _ => {},
    }
}

/// Everyone a search of `candidates` finds registered for `epoch` has that
/// epoch's registration slot set.
pub proof fn lemma_registered_among_registered(
    s: Map<nat, nat>,
    candidates: Seq<nat>,
    epoch: nat,
    x: nat,
)
    requires
        registered_among(s, candidates, epoch).contains(x),
    ensures
        read(s, registration_key(x, epoch)) != 0,
    decreases candidates.len(),
{
    if candidates.len() > 0 {
        let prev = registered_among(s, candidates.drop_last(), epoch);
        if prev.contains(x) {
            lemma_registered_among_registered(s, candidates.drop_last(), epoch, x);
        } else {
            let full = registered_among(s, candidates, epoch);
            let j = choose|j: int| 0 <= j < full.len() && full[j] == x;
            if read(s, registration_key(candidates.last(), epoch)) != 0 {
                if j < prev.len() {
                    assert(prev[j] == x);
                }
            } else {
                assert(prev[j] == x);
            }
        }
    }
}

/// The quorum formed for a new epoch holds exactly the listed signers whose
/// registration slot for that epoch is set: nobody registered only for another
/// epoch gets a row, and everyone registered gets one (when no more signers
/// registered than the quorum has rows, and no two written slots collide).
pub proof fn law_quorum_is_the_registered_signers(
    before: &InternalRefContext,
    after: &InternalRefContext,
    x: nat,
)
    requires
        finalize_epoch_outcome(before, after, Ok(())),
        epoch_of_block(before.block_number) == read(before.state@, base_key()) + 1,
        advance_slots_distinct(epoch_of_block(before.block_number)),
    ensures
        ({
            let s = before.state@;
            let e = epoch_of_block(before.block_number);
            let members = quorum_members(after.state@, e, 0);
            &&& members.contains(x) ==> all_signers(s).contains(x) && read(s, registration_key(x, e)) != 0
            &&& all_signers(s).contains(x) && read(s, registration_key(x, e)) != 0
                && epoch_signers(s, e).len() <= NUM_SLICES ==> members.contains(x)
        }),
{
    let s = before.state@;
    let e = epoch_of_block(before.block_number);
    let signers = epoch_signers(s, e);
    let members = quorum_members(after.state@, e, 0);
    law_finalize_forms_quorum(before, after);
    if members.contains(x) {
        let i = choose|i: int| 0 <= i < members.len() && members[i] == x;
        if signers.len() > 0 {
            assert(members == Seq::new(NUM_SLICES as nat, |k: int| signers[k % signers.len() as int]));
            let j = i % signers.len() as int;
            assert(signers[j] == x);
            assert(signers.contains(x));
            lemma_registered_among_registered(s, all_signers(s), e, x);
            lemma_registered_among_subset(s, all_signers(s), e, x);
        } else {
            assert(read(after.state@, quorum_count_key(e)) == 0);
            assert(!quorum_exists(after.state@, e, 0));
        }
    }
    if all_signers(s).contains(x) && read(s, registration_key(x, e)) != 0 && signers.len() <= NUM_SLICES {
        law_registered_signer_joins_quorum(before, after, x);
    }
}

/// `getSigner` answers with the details of the flagged accounts among those
/// asked for, one each, in the order they were asked for.
pub proof fn law_signer_details_in_request_order(s: Map<nat, nat>, accounts: Seq<nat>)
    ensures
        registered_details(s, accounts) == accounts.filter(|a: nat| flagged(s, a)).map_values(
            |a: nat| stored_detail(s, a),
        ),
    decreases accounts.len(),
{
    reveal(Seq::filter);
    if accounts.len() > 0 {
        law_signer_details_in_request_order(s, accounts.drop_last());
        let f = |a: nat| flagged(s, a);
        let g = |a: nat| stored_detail(s, a);
        let sub = accounts.drop_last().filter(f);
        assert(accounts.filter(f) == if f(accounts.last()) {
            sub.push(accounts.last())
        } else {
            sub
        });
        if f(accounts.last()) {
            assert(sub.push(accounts.last()).map_values(g) =~= sub.map_values(g).push(
                g(accounts.last()),
            ));
        }
    }
}

/// Whether a quorum exists depends only on the epoch's quorum count, and an
/// existing quorum is the list stored for it: the current epoch is not consulted.
pub proof fn law_quorum_read_from_its_count(s: Map<nat, nat>, epoch: nat, quorum_id: nat)
    ensures
        quorum_id < read(s, quorum_count_key(epoch)) ==> quorum_members(s, epoch, quorum_id)
            == Seq::new(
            read(s, quorum_list_key(epoch, quorum_id)) % 0x1_0000_0000_0000_0000,
            |i: int|
                read(s, (dynamic_key(quorum_list_key(epoch, quorum_id)) + i) as nat) % two160(),
        ),
        quorum_id >= read(s, quorum_count_key(epoch)) ==> quorum_members(s, epoch, quorum_id)
            == Seq::<nat>::empty(),
{
    if quorum_id < read(s, quorum_count_key(epoch)) {
        assert(quorum_members(s, epoch, quorum_id) =~= Seq::new(
            read(s, quorum_list_key(epoch, quorum_id)) % 0x1_0000_0000_0000_0000,
            |i: int|
                read(s, (dynamic_key(quorum_list_key(epoch, quorum_id)) + i) as nat) % two160(),
        ));
    }
}

/// Advancing the epoch leaves the quorums of every other epoch as they were
/// (where the slots it writes are apart from theirs): a past epoch's quorum
/// stays readable.
pub proof fn law_finalize_keeps_other_quorums(
    before: &InternalRefContext,
    after: &InternalRefContext,
    r: Result<(), VmError>,
    epoch: nat,
    quorum_id: nat,
)
    requires
        finalize_epoch_outcome(before, after, r),
        ({
            let s = before.state@;
            let e = epoch_of_block(before.block_number);
            let nl = quorum_list_key(e, 0);
            let ol = quorum_list_key(epoch, quorum_id);
            let written = |x: nat| x == base_key() || x == quorum_count_key(e) || x == nl
                || !outside(x, dynamic_key(nl), NUM_SLICES as nat);
            &&& epoch != e
            &&& !written(quorum_count_key(epoch))
            &&& !written(ol)
            &&& forall|i: nat| i < 0x1_0000_0000_0000_0000 ==> !written(#[trigger] (dynamic_key(ol) + i))
        }),
    ensures
        quorum_members(after.state@, epoch, quorum_id) == quorum_members(before.state@, epoch, quorum_id),
{
    let s = before.state@;
    let t = after.state@;
    let e = epoch_of_block(before.block_number);
    let nl = quorum_list_key(e, 0);
    let ol = quorum_list_key(epoch, quorum_id);
    let cur = read(s, base_key());
    if e != cur && e == cur + 1 {
        let signers = epoch_signers(s, e);
        assert forall|x: nat|
            x != base_key() && x != quorum_count_key(e) && x != nl && outside(x, dynamic_key(nl), NUM_SLICES as nat)
            implies #[trigger] read(t, x) == read(s, x) by {
            if signers.len() > 0 {
                lemma_round_robin_outside(s.insert(nl, NUM_SLICES as nat), dynamic_key(nl), signers, NUM_SLICES as nat, x);
            }
        }
        assert(read(t, quorum_count_key(epoch)) == read(s, quorum_count_key(epoch)));
        assert(read(t, ol) == read(s, ol));
        let n = quorum_len(s, epoch, quorum_id);
        assert forall|i: int| 0 <= i < n implies #[trigger] read(t, (dynamic_key(ol) + i) as nat)
            == read(s, (dynamic_key(ol) + i) as nat) by {
            let ii = i as nat;
            assert(ii < 0x1_0000_0000_0000_0000);
            assert(dynamic_key(ol) + ii == (dynamic_key(ol) + i) as nat);
        }
        assert(quorum_members(t, epoch, quorum_id) =~= quorum_members(s, epoch, quorum_id));
    }
}

/// `updateSocket` by a registered signer with a socket of at most 64 bytes,
/// outside a static or reentrant call, succeeds and stores that socket.
pub proof fn law_update_socket_accepts_up_to_64_bytes(
    before: &InternalRefContext,
    after: &InternalRefContext,
    socket: Seq<char>,
    params: ActionParams,
    r: Result<(), VmError>,
)
    requires
        update_socket_outcome(before, after, socket, params, r),
        read(before.state@, is_signer_key(params.sender@)) != 0,
        encode_utf8(socket).len() <= 64,
        !before.static_flag,
        !before.in_reentrancy,
        socket_key(params.sender@) + 2 < two256(),
    ensures
        r is Ok,
        stored_socket(after.state@, socket_key(params.sender@)) == socket,
{
    law_socket_read_after_write(before.state@, socket_key(params.sender@), socket);
}

/// Each function's selector is the Keccak-256 prefix of its Solidity signature,
/// as the contract declares it.
pub proof fn law_function_signatures()
    ensures
        signature_of(DaFunction::EpochNumber) == "epochNumber()"@,
        signature_of(DaFunction::GetAggPkG1) == "getAggPkG1(uint256,uint256,bytes)"@,
        signature_of(DaFunction::GetQuorum) == "getQuorum(uint256,uint256)"@,
        signature_of(DaFunction::GetQuorumRow) == "getQuorumRow(uint256,uint256,uint32)"@,
        signature_of(DaFunction::GetSigner) == "getSigner(address[])"@,
        signature_of(DaFunction::IsSigner) == "isSigner(address)"@,
        signature_of(DaFunction::QuorumCount) == "quorumCount(uint256)"@,
        signature_of(DaFunction::RegisteredEpoch) == "registeredEpoch(address,uint256)"@,
        signature_of(DaFunction::RegisterNextEpoch) == "registerNextEpoch((uint256,uint256))"@,
        signature_of(DaFunction::RegisterSigner)
            == "registerSigner((address,string,(uint256,uint256),(uint256[2],uint256[2])),(uint256,uint256))"@,
        signature_of(DaFunction::UpdateSocket) == "updateSocket(string)"@,
        signature_of(DaFunction::FinalizeEpoch) == "finalizeEpoch()"@,
        signature_of(DaFunction::SetEpochBlocks) == "setEpochBlocks(uint256)"@,
        forall|f: DaFunction| #[trigger] selector_of(f) == keccak256(encode_utf8(signature_of(f))).subrange(0, 4),
{
}

/// A successful finalization leaves the current epoch at the block's epoch
/// (block number divided by the epoch length), which is the old epoch or the next.
pub proof fn law_finalize_sets_epoch_from_block(before: &InternalRefContext, after: &InternalRefContext)
    requires
        finalize_epoch_outcome(before, after, Ok(())),
    ensures
        read(after.state@, base_key()) == before.block_number / 100,
        read(after.state@, base_key()) == read(before.state@, base_key())
            || read(after.state@, base_key()) == read(before.state@, base_key()) + 1,
{
}

/// Every set bit among the scanned positions counts once per position,
/// repeated members included: all bits set give as many hits as positions,
/// no bit set gives none.
pub proof fn law_hits_count_positions(bitmap: Seq<u8>, n: nat)
    ensures
        (forall|i: nat| i < n ==> #[trigger] bit_set(bitmap, i)) ==> hit_count(bitmap, n) == n,
        (forall|i: nat| i < n ==> !#[trigger] bit_set(bitmap, i)) ==> hit_count(bitmap, n) == 0,
        hit_count(bitmap, n) <= n,
    decreases n,
{
    if n > 0 {
        law_hits_count_positions(bitmap, (n - 1) as nat);
        if forall|i: nat| i < n ==> #[trigger] bit_set(bitmap, i) {
            assert(bit_set(bitmap, (n - 1) as nat));
        }
        if forall|i: nat| i < n ==> !#[trigger] bit_set(bitmap, i) {
            assert(!bit_set(bitmap, (n - 1) as nat));
        }
    }
}

} // verus!
