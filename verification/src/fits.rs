//! Run-time checks that a call keeps every slot computation within 256 bits
//! (and every stored length within `usize`), so that it can run without
//! arithmetic overflow.

use vstd::prelude::*;
use crate::abi::{G1Point, G2Point};
use crate::context::InternalRefContext;
use crate::da_agg::{g1_keys_fit, get_agg_pk_g1_fits, scan_len, select_signers, selected};
use crate::da_epoch::{epoch_signers, finalize_fits, EPOCH_BLOCKS, NUM_SLICES};
use crate::da_views::{
    addresses, detail_fits, flagged, get_signer_fits, quorum_fits, quorum_members,
    quorum_row_fits, read_address_array,
};
use crate::da_writes::{
    register_next_epoch_fits, register_signer_fits, store_pubkeys, update_socket_fits,
};
use crate::layout::{
    all_signers_key, all_signers_slot, base_fits, da_contract_base_slot, dynamic_slot,
    is_signer_key, is_signer_slot, pubkey_key, quorum_count_slot, quorum_list_slot,
    signer_pubkey_base_slot, signer_socket_slot, socket_key,
};
use crate::socket::{chunk_word, store_socket};
use crate::storage::read;
use crate::uint::{lemma_u256_bound, two256, Address, U256};

verus! {

/// Whether `base + k` is a 256-bit number.
pub fn check_base_fits(k: u64) -> (r: bool)
    ensures
        r == base_fits(k as nat),
{
    da_contract_base_slot().add_fits(&U256::from_u64(k))
}

/// Whether `x + n <= 2^256`.
fn check_span(x: &U256, n: u64) -> (r: bool)
    ensures
        r == (x@ + n <= two256()),
{
    if n == 0 {
        proof {
            lemma_u256_bound(*x);
        }
        true
    } else {
        x.add_fits(&U256::from_u64(n - 1))
    }
}

/// Whether `getQuorum(epoch, quorum_id)` stays in range.
pub fn check_quorum_fits(context: &InternalRefContext, epoch: &U256, quorum_id: &U256) -> (r: bool)
    requires
        context.wf(),
    ensures
        r == quorum_fits(context.state@, epoch@, quorum_id@),
{
    if !check_base_fits(1) {
        return false;
    }
    let count = context.state.get_system_storage(&quorum_count_slot(epoch));
    if count.is_zero() || !quorum_id.lt(&count) {
        return true;
    }
    if !check_base_fits(6) {
        return false;
    }
    let list = quorum_list_slot(epoch, quorum_id);
    let len = context.state.get_system_storage(&list).low_u64();
    let data = dynamic_slot(&list);
    check_span(&data, len)
}

/// Whether `getQuorumRow(epoch, quorum_id, row)` stays in range.
pub fn check_quorum_row_fits(context: &InternalRefContext, epoch: &U256, quorum_id: &U256, row: u32) -> (r:
    bool)
    requires
        context.wf(),
    ensures
        r == quorum_row_fits(context.state@, epoch@, quorum_id@, row as nat),
{
    if !check_base_fits(6) {
        return false;
    }
    let list = quorum_list_slot(epoch, quorum_id);
    let length = context.state.get_system_storage(&list);
    let row_u = U256::from_u64(row as u64);
    if !row_u.lt(&length) {
        return true;
    }
    let data = dynamic_slot(&list);
    data.add_fits(&row_u)
}

/// Whether reading `signer`'s detail stays in range.
fn check_detail_fits(context: &InternalRefContext, signer: &Address) -> (r: bool)
    requires
        context.wf(),
    ensures
        r == detail_fits(context.state@, signer@),
{
    if !check_base_fits(3) || !check_base_fits(5) {
        return false;
    }
    let sk = signer_socket_slot(signer);
    if !sk.add_fits(&U256::from_u64(2)) {
        return false;
    }
    let len = context.state.get_system_storage(&sk.add_u64(2));
    let max = U256::from_u64(usize::MAX as u64);
    if max.lt(&len) {
        return false;
    }
    let pk = signer_pubkey_base_slot(signer);
    pk.add_fits(&U256::from_u64(5))
}

/// Whether `getSigner(accounts)` stays in range.
pub fn check_get_signer_fits(context: &InternalRefContext, accounts: &Vec<Address>) -> (r: bool)
    requires
        context.wf(),
    ensures
        r == get_signer_fits(context.state@, addresses(accounts@)),
{
    if !check_base_fits(2) {
        return false;
    }
    let ghost s = context.state@;
    let ghost acc = addresses(accounts@);
    let mut i: usize = 0;
    while i < accounts.len()
        invariant
            context.wf(),
            context.state@ == s,
            acc == addresses(accounts@),
            base_fits(2),
            i <= accounts@.len(),
            forall|j: int| 0 <= j < i && flagged(s, #[trigger] acc[j]) ==> detail_fits(s, acc[j]),
        decreases accounts@.len() - i,
    {
        let a = accounts[i];
        assert(acc[i as int] == a@);
        let flag = context.state.get_system_storage(&is_signer_slot(&a));
        if !flag.is_zero() {
            if !check_detail_fits(context, &a) {
                return false;
            }
        }
        i = i + 1;
    }
    true
}

/// The value that `key` reads as after `store_socket(store_pubkeys(..))`.
fn read_after_registration_writes(
    context: &InternalRefContext,
    signer: &Address,
    g1: &G1Point,
    g2: &G2Point,
    b: &[u8],
    key: &U256,
) -> (r: U256)
    requires
        context.wf(),
        base_fits(3),
        base_fits(5),
        pubkey_key(signer@) + 5 < two256(),
        socket_key(signer@) + 2 < two256(),
        b@.len() <= 64,
    ensures
        r@ == read(
            store_socket(
                store_pubkeys(context.state@, signer@, *g1, *g2),
                socket_key(signer@),
                b@,
            ),
            key@,
        ),
{
    let sk = signer_socket_slot(signer);
    let pk = signer_pubkey_base_slot(signer);
    let len = b.len();
    if key.eq(&sk.add_u64(2)) {
        return U256::from_u64(len as u64);
    }
    if key.eq(&sk.add_u64(1)) {
        return if len > 32 {
            chunk_word(b, 32, len)
        } else {
            U256::zero()
        };
    }
    if key.eq(&sk) {
        let first_len = if len < 32 {
            len
        } else {
            32
        };
        return chunk_word(b, 0, first_len);
    }
    if key.eq(&pk.add_u64(5)) {
        return g2.1[1];
    }
    if key.eq(&pk.add_u64(4)) {
        return g2.1[0];
    }
    if key.eq(&pk.add_u64(3)) {
        return g2.0[1];
    }
    if key.eq(&pk.add_u64(2)) {
        return g2.0[0];
    }
    if key.eq(&pk.add_u64(1)) {
        return g1.1;
    }
    if key.eq(&pk) {
        return g1.0;
    }
    context.state.get_system_storage(key)
}

/// Whether `registerSigner` by `signer` with keys `g1`, `g2` and socket bytes `b` stays in range.
pub fn check_register_signer_fits(
    context: &InternalRefContext,
    signer: &Address,
    g1: &G1Point,
    g2: &G2Point,
    b: &[u8],
) -> (r: bool)
    requires
        context.wf(),
    ensures
        r == register_signer_fits(context.state@, signer@, *g1, *g2, b@),
{
    if !check_base_fits(5) {
        return false;
    }
    let pk = signer_pubkey_base_slot(signer);
    if !pk.add_fits(&U256::from_u64(5)) {
        return false;
    }
    if b.len() > 64 {
        return true;
    }
    if !check_base_fits(3) {
        return false;
    }
    let sk = signer_socket_slot(signer);
    if !sk.add_fits(&U256::from_u64(2)) {
        return false;
    }
    if !check_base_fits(2) {
        return false;
    }
    let ghost s2 = store_socket(store_pubkeys(context.state@, signer@, *g1, *g2), socket_key(signer@), b@);
    let flag_key = is_signer_slot(signer);
    let was = read_after_registration_writes(context, signer, g1, g2, b, &flag_key);
    if !was.is_zero() {
        return true;
    }
    if !check_base_fits(7) {
        return false;
    }
    let all = all_signers_slot();
    let count = if all.eq(&flag_key) {
        U256::one()
    } else {
        read_after_registration_writes(context, signer, g1, g2, b, &all)
    };
    assert(count@ == read(s2.insert(is_signer_key(signer@), 1), all_signers_key()));
    if !count.add_fits(&U256::one()) {
        return false;
    }
    let data = dynamic_slot(&all);
    data.add_fits(&count)
}

/// Whether `updateSocket` by `sender` stays in range.
pub fn check_update_socket_fits(context: &InternalRefContext, sender: &Address, socket: &String) -> (r:
    bool)
    requires
        context.wf(),
    ensures
        r == update_socket_fits(context.state@, sender@, socket@),
{
    if !check_base_fits(2) {
        return false;
    }
    let flag = context.state.get_system_storage(&is_signer_slot(sender));
    if flag.is_zero() || socket.as_str().as_bytes().len() > 64 {
        return true;
    }
    if !check_base_fits(3) {
        return false;
    }
    signer_socket_slot(sender).add_fits(&U256::from_u64(2))
}

/// Whether `registerNextEpoch` by `sender` stays in range.
pub fn check_register_next_epoch_fits(context: &InternalRefContext, sender: &Address) -> (r: bool)
    requires
        context.wf(),
    ensures
        r == register_next_epoch_fits(context.state@, sender@),
{
    if !check_base_fits(2) {
        return false;
    }
    let flag = context.state.get_system_storage(&is_signer_slot(sender));
    if flag.is_zero() {
        return true;
    }
    let current = context.state.get_system_storage(&da_contract_base_slot());
    current.add_fits(&U256::one()) && check_base_fits(4)
}

/// Whether `finalizeEpoch` at the context's block stays in range.
pub fn check_finalize_fits(context: &InternalRefContext) -> (r: bool)
    requires
        context.wf(),
    ensures
        r == finalize_fits(context.state@, context.block_number),
{
    let ghost s = context.state@;
    let current = context.state.get_system_storage(&da_contract_base_slot());
    let expected = U256::from_u64(context.block_number / EPOCH_BLOCKS);
    if expected.eq(&current) {
        return true;
    }
    if !current.add_fits(&U256::one()) {
        return false;
    }
    if !expected.eq(&current.add(&U256::one())) {
        return true;
    }
    if !check_base_fits(7) {
        return false;
    }
    let all = all_signers_slot();
    let n = context.state.get_system_storage(&all).low_u64();
    let data = dynamic_slot(&all);
    if !check_span(&data, n) {
        return false;
    }
    if n > 0 && !check_base_fits(4) {
        return false;
    }
    if !check_base_fits(1) {
        return false;
    }
    let candidates = read_address_array(context, &data, n);
    let registered = crate::da_epoch::collect_registered(context, &candidates, &expected);
    assert(addresses(registered@) == epoch_signers(s, expected@));
    if registered.len() == 0 {
        return true;
    }
    if !check_base_fits(6) {
        return false;
    }
    let list = quorum_list_slot(&expected, &U256::zero());
    check_span(&dynamic_slot(&list), NUM_SLICES)
}

/// Whether `getAggPkG1(epoch, quorum_id, bitmap)` stays in range.
pub fn check_get_agg_pk_g1_fits(
    context: &InternalRefContext,
    epoch: &U256,
    quorum_id: &U256,
    bitmap: &Vec<u8>,
) -> (r: bool)
    requires
        context.wf(),
    ensures
        r == get_agg_pk_g1_fits(context.state@, epoch@, quorum_id@, bitmap@),
{
    let ghost s = context.state@;
    if !check_quorum_fits(context, epoch, quorum_id) {
        return false;
    }
    let members = crate::da_views::read_quorum(context, epoch, quorum_id);
    let (signers, _hits) = select_signers(&members, bitmap);
    let ghost sel = addresses(signers@);
    proof {
        let qm = quorum_members(s, epoch@, quorum_id@);
        assert(addresses(members@).len() == members@.len());
        assert(sel == selected(qm, bitmap@, scan_len(qm.len(), bitmap@.len())));
    }
    check_g1_keys_fit(&signers)
}

/// Whether the G1 keys of `signers` can be read with every slot a 256-bit number.
fn check_g1_keys_fit(signers: &Vec<Address>) -> (r: bool)
    ensures
        r == g1_keys_fit(addresses(signers@)),
{
    let ghost sel = addresses(signers@);
    if signers.len() == 0 {
        return true;
    }
    if !check_base_fits(5) {
        assert(sel.len() == signers@.len());
        proof {
            if g1_keys_fit(sel) {
                let x = sel[0];
                assert(pubkey_key(x) + 1 < two256());
                assert(base_fits(5));
            }
        }
        return false;
    }
    let mut i: usize = 0;
    while i < signers.len()
        invariant
            sel == addresses(signers@),
            base_fits(5),
            i <= signers@.len(),
            forall|j: int| 0 <= j < i ==> pubkey_key(#[trigger] sel[j]) + 1 < two256(),
        decreases signers@.len() - i,
    {
        let a = signers[i];
        assert(sel[i as int] == a@);
        if !signer_pubkey_base_slot(&a).add_fits(&U256::one()) {
            assert(!(pubkey_key(sel[i as int]) + 1 < two256()));
            return false;
        }
        i = i + 1;
    }
    true
}

} // verus!
