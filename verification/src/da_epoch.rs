//! Epoch finalization: when the block height enters the next epoch, the
//! signers registered for it form the epoch's quorum.

use vstd::prelude::*;
use crate::abi::same_env;
use crate::context::{InternalRefContext, VmError};
use crate::da_views::{address_array, addresses, read_address_array};
use crate::layout::{
    all_signers_key, all_signers_slot, base_fits, base_key, da_contract_base_slot, dynamic_key,
    dynamic_slot, quorum_count_key, quorum_count_slot, quorum_list_key, quorum_list_slot,
    registration_key, signer_registration_slot,
};
use crate::storage::read;
use crate::uint::{two256, Address, U256};

verus! {

/// Blocks per epoch.
pub const EPOCH_BLOCKS: u64 = 100;

/// Length of an epoch's quorum list (the encoder's number of slices).
pub const NUM_SLICES: u64 = 1024;

/// The epoch that block `block` belongs to.
pub open spec fn epoch_of_block(block: u64) -> nat {
    (block / EPOCH_BLOCKS) as nat
}

/// Those of `candidates` that registered for `epoch`, in order.
pub open spec fn registered_among(s: Map<nat, nat>, candidates: Seq<nat>, epoch: nat) -> Seq<nat>
    decreases candidates.len(),
{
    if candidates.len() == 0 {
        Seq::empty()
    } else {
        let prev = registered_among(s, candidates.drop_last(), epoch);
        if read(s, registration_key(candidates.last(), epoch)) != 0 {
            prev.push(candidates.last())
        } else {
            prev
        }
    }
}

/// Number of entries of the list of all signers: the low 64 bits of its length slot.
pub open spec fn all_signers_len(s: Map<nat, nat>) -> nat {
    read(s, all_signers_key()) % 0x1_0000_0000_0000_0000
}

/// The list of all signers.
pub open spec fn all_signers(s: Map<nat, nat>) -> Seq<nat> {
    address_array(s, dynamic_key(all_signers_key()), all_signers_len(s))
}

/// The signers registered for `epoch`, in the order of the list of all signers.
pub open spec fn epoch_signers(s: Map<nat, nat>, epoch: nat) -> Seq<nat> {
    registered_among(s, all_signers(s), epoch)
}

/// Storage after writing entries `0..n` of a list at `data`, entry `i` being
/// `signers[i % |signers|]`.
pub open spec fn write_round_robin(s: Map<nat, nat>, data: nat, signers: Seq<nat>, n: nat) -> Map<
    nat,
    nat,
>
    decreases n,
{
    if n == 0 {
        s
    } else {
        write_round_robin(s, data, signers, (n - 1) as nat).insert(
            data + (n - 1) as nat,
            signers[((n - 1) as nat % signers.len()) as int],
        )
    }
}

/// Storage after the epoch advances from storage `s` to `epoch`.
pub open spec fn advanced_storage(s: Map<nat, nat>, epoch: nat) -> Map<nat, nat> {
    let signers = epoch_signers(s, epoch);
    let with_quorum = if signers.len() == 0 {
        s.insert(quorum_count_key(epoch), 0)
    } else {
        let list = quorum_list_key(epoch, 0);
        write_round_robin(s.insert(list, NUM_SLICES as nat), dynamic_key(list), signers, NUM_SLICES as nat).insert(
            quorum_count_key(epoch),
            1,
        )
    };
    with_quorum.insert(base_key(), epoch)
}

/// Whether finalizing at block `block` from `s` keeps every computation in range.
pub open spec fn finalize_fits(s: Map<nat, nat>, block: u64) -> bool {
    let current = read(s, base_key());
    let expected = epoch_of_block(block);
    expected != current ==> {
        &&& current + 1 < two256()
        &&& expected == current + 1 ==> {
            &&& base_fits(7)
            &&& dynamic_key(all_signers_key()) + all_signers_len(s) <= two256()
            &&& all_signers_len(s) > 0 ==> base_fits(4)
            &&& base_fits(1)
            &&& epoch_signers(s, expected).len() > 0 ==> {
                &&& base_fits(6)
                &&& dynamic_key(quorum_list_key(expected, 0)) + NUM_SLICES <= two256()
            }
        }
    }
}

/// What `finalizeEpoch` does from context `before` to `after` with result `r`.
pub open spec fn finalize_epoch_outcome(
    before: &InternalRefContext,
    after: &InternalRefContext,
    r: Result<(), VmError>,
) -> bool {
    let s = before.state@;
    let current = read(s, base_key());
    let expected = epoch_of_block(before.block_number);
    &&& after.wf()
    &&& same_env(after, before)
    &&& after.logs@ == before.logs@
    &&& if expected == current {
        &&& r == Ok::<(), VmError>(())
        &&& after.state@ == s
    } else if expected != current + 1 {
        &&& r == Err::<(), VmError>(VmError::BlockHeightNotContinuous)
        &&& after.state@ == s
    } else {
        &&& r == Ok::<(), VmError>(())
        &&& after.state@ == advanced_storage(s, expected)
    }
}

/// Those of `candidates` that registered for `epoch`.
pub(crate) fn collect_registered(context: &InternalRefContext, candidates: &Vec<Address>, epoch: &U256) -> (r: Vec<
    Address,
>)
    requires
        context.wf(),
        candidates@.len() > 0 ==> base_fits(4),
    ensures
        addresses(r@) == registered_among(context.state@, addresses(candidates@), epoch@),
{
    let ghost s = context.state@;
    let ghost cands = addresses(candidates@);
    let mut out: Vec<Address> = Vec::new();
    let mut i: usize = 0;
    assert(cands.subrange(0, 0) =~= Seq::<nat>::empty());
    assert(addresses(out@) =~= Seq::<nat>::empty());
    while i < candidates.len()
        invariant
            context.wf(),
            context.state@ == s,
            cands == addresses(candidates@),
            candidates@.len() > 0 ==> base_fits(4),
            i <= candidates@.len(),
            addresses(out@) == registered_among(s, cands.subrange(0, i as int), epoch@),
        decreases candidates@.len() - i,
    {
        let signer = candidates[i];
        proof {
            assert(cands.subrange(0, i + 1).drop_last() =~= cands.subrange(0, i as int));
            assert(cands.subrange(0, i + 1).last() == signer@);
        }
        let reg_key = signer_registration_slot(&signer, epoch);
        let is_registered = context.state.get_system_storage(&reg_key);
        if !is_registered.is_zero() {
            let ghost before = out@;
            out.push(signer);
            assert(addresses(out@) =~= addresses(before).push(signer@));
        }
        i = i + 1;
    }
    assert(cands.subrange(0, candidates@.len() as int) =~= cands);
    out
}

/// Writes entries `0..NUM_SLICES` of the list at `data`, entry `i` being
/// `signers[i % |signers|]`.
fn write_quorum_list(context: &mut InternalRefContext, data: &U256, signers: &Vec<Address>)
    requires
        old(context).wf(),
        signers@.len() > 0,
        data@ + NUM_SLICES <= two256(),
    ensures
        final(context).wf(),
        final(context).state@ == write_round_robin(
            old(context).state@,
            data@,
            addresses(signers@),
            NUM_SLICES as nat,
        ),
        final(context).logs == old(context).logs,
        same_env(final(context), old(context)),
{
    let ghost s = context.state@;
    let mut i: u64 = 0;
    while i < NUM_SLICES
        invariant
            context.wf(),
            signers@.len() > 0,
            data@ + NUM_SLICES <= two256(),
            i <= NUM_SLICES,
            context.state@ == write_round_robin(s, data@, addresses(signers@), i as nat),
            context.logs == old(context).logs,
            same_env(context, old(context)),
        decreases NUM_SLICES - i,
    {
        let signer_idx = (i as usize) % signers.len();
        let element_slot = data.add(&U256::from_u64(i));
        let value = signers[signer_idx].to_u256();
        context.state.set_system_storage(element_slot, value);
        proof {
            let n = (i + 1) as nat;
            assert((n - 1) as nat == i as nat);
            assert(addresses(signers@)[signer_idx as int] == signers@[signer_idx as int]@);
        }
        i = i + 1;
    }
}

/// `finalizeEpoch()`: when block `block_number` lies in the epoch after the
/// current one, the signers registered for it (in the order of the list of
/// all signers) fill quorum 0 of that epoch round-robin over `NUM_SLICES`
/// entries (or the epoch gets no quorum when none registered), and the
/// epoch advances. Nothing happens within the current epoch; any other
/// height is refused.
pub fn finalize_epoch(context: &mut InternalRefContext) -> (r: Result<(), VmError>)
    requires
        old(context).wf(),
        finalize_fits(old(context).state@, old(context).block_number),
    ensures
        finalize_epoch_outcome(old(context), final(context), r),
{
    let ghost s = context.state@;
    let base = da_contract_base_slot();
    let current_epoch = context.state.get_system_storage(&base);
    let expected_epoch = U256::from_u64(context.block_number / EPOCH_BLOCKS);

    if expected_epoch.eq(&current_epoch) {
        return Ok(());
    }
    let next = current_epoch.add(&U256::one());
    if !expected_epoch.eq(&next) {
        return Err(VmError::BlockHeightNotContinuous);
    }

    let all_slot = all_signers_slot();
    let signer_count = context.state.get_system_storage(&all_slot);
    let data = dynamic_slot(&all_slot);
    let candidates = read_address_array(context, &data, signer_count.low_u64());
    let registered = collect_registered(context, &candidates, &expected_epoch);
    assert(addresses(registered@) == epoch_signers(s, expected_epoch@));

    if registered.len() == 0 {
        let count_key = quorum_count_slot(&expected_epoch);
        context.state.set_system_storage(count_key, U256::zero());
    } else {
        let list_slot = quorum_list_slot(&expected_epoch, &U256::zero());
        context.state.set_system_storage(list_slot, U256::from_u64(NUM_SLICES));
        let array_data = dynamic_slot(&list_slot);
        write_quorum_list(context, &array_data, &registered);
        let count_key = quorum_count_slot(&expected_epoch);
        context.state.set_system_storage(count_key, U256::one());
    }
    context.state.set_system_storage(base, expected_epoch);
    Ok(())
}

} // verus!
