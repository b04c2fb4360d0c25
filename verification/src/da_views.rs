//! The DA contract's read-only functions.

use vstd::prelude::*;
use crate::context::{InternalRefContext, VmError};
use crate::layout::{
    base_fits, base_key, dynamic_key, dynamic_slot, is_signer_key, is_signer_slot, pubkey_key,
    quorum_count_key, signer_pk_g1_x_slot, signer_pk_g1_y_slot, signer_pk_g2_x0_slot,
    signer_pk_g2_x1_slot, signer_pk_g2_y0_slot, signer_pk_g2_y1_slot, signer_socket_slot,
    socket_key,
    quorum_count_slot, quorum_list_key, quorum_list_slot, registration_key,
    signer_registration_slot,
};
use crate::abi::{G1Point, G2Point, SignerDetail};
use crate::socket::{read_socket, stored_socket};
use crate::storage::read;
use crate::uint::{two160, two256, Address, U256};

verus! {

/// The address held in the low 20 bytes of a storage word.
pub open spec fn addr_of(v: nat) -> nat {
    v % two160()
}

/// The numbers of a sequence of addresses.
pub open spec fn addresses(v: Seq<Address>) -> Seq<nat> {
    v.map_values(|a: Address| a@)
}

/// `n` consecutive storage words from slot `data` on, read as addresses.
pub open spec fn address_array(s: Map<nat, nat>, data: nat, n: nat) -> Seq<nat> {
    Seq::new(n, |i: int| addr_of(read(s, (data + i) as nat)))
}

/// Length of the quorum list `(epoch, quorum_id)`: the low 64 bits of its length slot.
pub open spec fn quorum_len(s: Map<nat, nat>, epoch: nat, quorum_id: nat) -> nat {
    read(s, quorum_list_key(epoch, quorum_id)) % 0x1_0000_0000_0000_0000
}

/// Whether quorum `quorum_id` exists in `epoch`: below the epoch's quorum count.
pub open spec fn quorum_exists(s: Map<nat, nat>, epoch: nat, quorum_id: nat) -> bool {
    let count = read(s, quorum_count_key(epoch));
    count != 0 && quorum_id < count
}

/// The signers of quorum `quorum_id` in `epoch`; empty where the quorum does not exist.
pub open spec fn quorum_members(s: Map<nat, nat>, epoch: nat, quorum_id: nat) -> Seq<nat> {
    if quorum_exists(s, epoch, quorum_id) {
        address_array(
            s,
            dynamic_key(quorum_list_key(epoch, quorum_id)),
            quorum_len(s, epoch, quorum_id),
        )
    } else {
        Seq::empty()
    }
}

/// Whether reading quorum `(epoch, quorum_id)` keeps every slot computation a 256-bit number.
pub open spec fn quorum_fits(s: Map<nat, nat>, epoch: nat, quorum_id: nat) -> bool {
    &&& base_fits(1)
    &&& quorum_exists(s, epoch, quorum_id) ==> {
        &&& base_fits(6)
        &&& dynamic_key(quorum_list_key(epoch, quorum_id)) + quorum_len(s, epoch, quorum_id)
            <= two256()
    }
}

/// Reads `n` consecutive storage words from slot `data` on, as addresses.
pub fn read_address_array(context: &InternalRefContext, data: &U256, n: u64) -> (r: Vec<Address>)
    requires
        context.wf(),
        data@ + n <= two256(),
    ensures
        addresses(r@) == address_array(context.state@, data@, n as nat),
{
    let mut out: Vec<Address> = Vec::new();
    let mut i: u64 = 0;
    while i < n
        invariant
            context.wf(),
            data@ + n <= two256(),
            i <= n,
            out@.len() == i,
            addresses(out@) == address_array(context.state@, data@, i as nat),
        decreases n - i,
    {
        let slot = data.add(&U256::from_u64(i));
        let word = context.state.get_system_storage(&slot);
        let ghost old_out = out@;
        let addr = Address::from_u256_low(&word);
        out.push(addr);
        proof {
            let a = addresses(out@);
            let b = address_array(context.state@, data@, (i + 1) as nat);
            let a0 = addresses(old_out);
            let b0 = address_array(context.state@, data@, i as nat);
            assert(out@ == old_out.push(addr));
            assert(a.len() == b.len());
            assert forall|j: int| 0 <= j < a.len() implies a[j] == b[j] by {
                assert(a[j] == out@[j]@);
                if j < i {
                    assert(out@[j] == old_out[j]);
                    assert(a0[j] == old_out[j]@);
                    assert(a0[j] == b0[j]);
                } else {
                    assert(out@[j] == addr);
                }
            }
            assert(a =~= b);
        }
        i = i + 1;
    }
    out
}

/// `epochNumber()`: the current epoch.
pub fn epoch_number(context: &mut InternalRefContext) -> (r: Result<U256, VmError>)
    requires
        old(context).wf(),
    ensures
        *final(context) == *old(context),
        r matches Ok(v) && v@ == read(old(context).state@, base_key()),
{
    let slot = crate::layout::da_contract_base_slot();
    Ok(context.state.get_system_storage(&slot))
}

/// `quorumCount(uint epoch)`: the number of quorums of `epoch`.
pub fn quorum_count(epoch: U256, context: &mut InternalRefContext) -> (r: Result<U256, VmError>)
    requires
        old(context).wf(),
        base_fits(1),
    ensures
        *final(context) == *old(context),
        r matches Ok(v) && v@ == read(old(context).state@, quorum_count_key(epoch@)),
{
    let key = quorum_count_slot(&epoch);
    Ok(context.state.get_system_storage(&key))
}

/// `isSigner(address)`: whether the account is a registered signer.
pub fn is_signer(input: Address, context: &mut InternalRefContext) -> (r: Result<bool, VmError>)
    requires
        old(context).wf(),
        base_fits(2),
    ensures
        *final(context) == *old(context),
        r == Ok::<bool, VmError>(read(old(context).state@, is_signer_key(input@)) != 0),
{
    let key = is_signer_slot(&input);
    let value = context.state.get_system_storage(&key);
    Ok(!value.is_zero())
}

/// `registeredEpoch(address, uint epoch)`: whether the account registered for `epoch`.
pub fn registered_epoch(input: (Address, U256), context: &mut InternalRefContext) -> (r: Result<
    bool,
    VmError,
>)
    requires
        old(context).wf(),
        base_fits(4),
    ensures
        *final(context) == *old(context),
        r == Ok::<bool, VmError>(
            read(old(context).state@, registration_key(input.0@, input.1@)) != 0,
        ),
{
    let (signer, epoch) = input;
    let key = signer_registration_slot(&signer, &epoch);
    let value = context.state.get_system_storage(&key);
    Ok(!value.is_zero())
}

/// `getQuorum(uint epoch, uint quorumId)`: the signers of the quorum; empty
/// where the epoch has no such quorum.
pub fn get_quorum(input: (U256, U256), context: &mut InternalRefContext) -> (r: Result<
    Vec<Address>,
    VmError,
>)
    requires
        old(context).wf(),
        quorum_fits(old(context).state@, input.0@, input.1@),
    ensures
        *final(context) == *old(context),
        r matches Ok(v) && addresses(v@) == quorum_members(old(context).state@, input.0@, input.1@),
{
    let (epoch, quorum_id) = input;
    Ok(read_quorum(context, &epoch, &quorum_id))
}

/// The signers of quorum `(epoch, quorum_id)`; empty where it does not exist.
pub(crate) fn read_quorum(context: &InternalRefContext, epoch: &U256, quorum_id: &U256) -> (r: Vec<
    Address,
>)
    requires
        context.wf(),
        quorum_fits(context.state@, epoch@, quorum_id@),
    ensures
        addresses(r@) == quorum_members(context.state@, epoch@, quorum_id@),
{
    let count_key = quorum_count_slot(epoch);
    let count = context.state.get_system_storage(&count_key);
    if count.is_zero() || !quorum_id.lt(&count) {
        assert(addresses(Seq::<Address>::empty()) =~= Seq::<nat>::empty());
        return Vec::new();
    }
    let list_slot = quorum_list_slot(epoch, quorum_id);
    let length = context.state.get_system_storage(&list_slot);
    let data = dynamic_slot(&list_slot);
    read_address_array(context, &data, length.low_u64())
}

/// Whether reading row `row` of quorum `(epoch, quorum_id)` keeps every slot
/// computation a 256-bit number.
pub open spec fn quorum_row_fits(s: Map<nat, nat>, epoch: nat, quorum_id: nat, row: nat) -> bool {
    &&& base_fits(6)
    &&& row < read(s, quorum_list_key(epoch, quorum_id)) ==> dynamic_key(
        quorum_list_key(epoch, quorum_id),
    ) + row < two256()
}

/// What `getQuorumRow(epoch, quorum_id, row)` returns from storage `s`: the
/// address at `row` of the quorum list, refused past the list's length.
pub open spec fn quorum_row_result(
    s: Map<nat, nat>,
    epoch: nat,
    quorum_id: nat,
    row: nat,
    r: Result<Address, VmError>,
) -> bool {
    let list = quorum_list_key(epoch, quorum_id);
    if row >= read(s, list) {
        r == Err::<Address, VmError>(VmError::RowIndexOutOfBound)
    } else {
        r matches Ok(a) && a@ == addr_of(read(s, dynamic_key(list) + row))
    }
}

/// `getQuorumRow(uint epoch, uint quorumId, uint32 rowIndex)`: the signer at
/// `rowIndex` of the quorum list; refused past the list's length.
pub fn get_quorum_row(input: (U256, U256, u32), context: &mut InternalRefContext) -> (r: Result<
    Address,
    VmError,
>)
    requires
        old(context).wf(),
        quorum_row_fits(old(context).state@, input.0@, input.1@, input.2 as nat),
    ensures
        *final(context) == *old(context),
        quorum_row_result(old(context).state@, input.0@, input.1@, input.2 as nat, r),
{
    let (epoch, quorum_id, row_index) = input;
    let list_slot = quorum_list_slot(&epoch, &quorum_id);
    let length = context.state.get_system_storage(&list_slot);
    let row = U256::from_u64(row_index as u64);
    if !row.lt(&length) {
        return Err(VmError::RowIndexOutOfBound);
    }
    let data = dynamic_slot(&list_slot);
    let slot = data.add(&row);
    let word = context.state.get_system_storage(&slot);
    Ok(Address::from_u256_low(&word))
}

/// What a signer detail says: account, socket, and the six public-key words
/// (G1 x, y; G2 x0, x1, y0, y1).
pub open spec fn detail_view(d: SignerDetail) -> (nat, Seq<char>, Seq<nat>) {
    (d.0@, d.1@, seq![d.2.0@, d.2.1@, d.3.0[0]@, d.3.0[1]@, d.3.1[0]@, d.3.1[1]@])
}

/// The six public-key words stored for `signer`.
pub open spec fn stored_pubkeys(s: Map<nat, nat>, signer: nat) -> Seq<nat> {
    let k = pubkey_key(signer);
    seq![
        read(s, k),
        read(s, k + 1),
        read(s, k + 2),
        read(s, k + 3),
        read(s, k + 4),
        read(s, k + 5),
    ]
}

/// The detail stored for `signer`.
pub open spec fn stored_detail(s: Map<nat, nat>, signer: nat) -> (nat, Seq<char>, Seq<nat>) {
    (signer, stored_socket(s, socket_key(signer)), stored_pubkeys(s, signer))
}

/// Whether `signer` is flagged as a registered signer.
pub open spec fn flagged(s: Map<nat, nat>, signer: nat) -> bool {
    read(s, is_signer_key(signer)) != 0
}

/// The stored details of the registered signers among `accounts`, in order.
pub open spec fn registered_details(s: Map<nat, nat>, accounts: Seq<nat>) -> Seq<
    (nat, Seq<char>, Seq<nat>),
>
    decreases accounts.len(),
{
    if accounts.len() == 0 {
        Seq::empty()
    } else {
        let prev = registered_details(s, accounts.drop_last());
        if flagged(s, accounts.last()) {
            prev.push(stored_detail(s, accounts.last()))
        } else {
            prev
        }
    }
}

/// Whether reading the detail of `signer` keeps every slot computation a
/// 256-bit number and the stored socket length a `usize`.
pub open spec fn detail_fits(s: Map<nat, nat>, signer: nat) -> bool {
    &&& base_fits(3)
    &&& socket_key(signer) + 2 < two256()
    &&& read(s, socket_key(signer) + 2) <= usize::MAX
    &&& base_fits(5)
    &&& pubkey_key(signer) + 5 < two256()
}

/// Whether `getSigner(accounts)` keeps every computation in range.
pub open spec fn get_signer_fits(s: Map<nat, nat>, accounts: Seq<nat>) -> bool {
    &&& base_fits(2)
    &&& forall|i: int| 0 <= i < accounts.len() && flagged(s, #[trigger] accounts[i]) ==> detail_fits(s, accounts[i])
}

/// Reads the stored detail of a registered signer.
fn read_detail(context: &InternalRefContext, addr: Address) -> (r: SignerDetail)
    requires
        context.wf(),
        detail_fits(context.state@, addr@),
    ensures
        detail_view(r) == stored_detail(context.state@, addr@),
{
    let socket_slot_base = signer_socket_slot(&addr);
    let socket = read_socket(context, &socket_slot_base);
    let g1_x = context.state.get_system_storage(&signer_pk_g1_x_slot(&addr));
    let g1_y = context.state.get_system_storage(&signer_pk_g1_y_slot(&addr));
    let g2_x0 = context.state.get_system_storage(&signer_pk_g2_x0_slot(&addr));
    let g2_x1 = context.state.get_system_storage(&signer_pk_g2_x1_slot(&addr));
    let g2_y0 = context.state.get_system_storage(&signer_pk_g2_y0_slot(&addr));
    let g2_y1 = context.state.get_system_storage(&signer_pk_g2_y1_slot(&addr));
    let d = SignerDetail(addr, socket, G1Point(g1_x, g1_y), G2Point([g2_x0, g2_x1], [g2_y0, g2_y1]));
    assert(detail_view(d).2 =~= stored_pubkeys(context.state@, addr@));
    d
}

/// `getSigner(address[] accounts)`: the details of those accounts that are
/// registered signers, in order; the others are skipped.
pub fn get_signer(input: Vec<Address>, context: &mut InternalRefContext) -> (r: Result<
    Vec<SignerDetail>,
    VmError,
>)
    requires
        old(context).wf(),
        get_signer_fits(old(context).state@, addresses(input@)),
    ensures
        *final(context) == *old(context),
        r matches Ok(v) && v@.map_values(|d: SignerDetail| detail_view(d)) == registered_details(
            old(context).state@,
            addresses(input@),
        ),
{
    let ghost s = context.state@;
    let ghost accounts = addresses(input@);
    let mut details: Vec<SignerDetail> = Vec::new();
    let mut i: usize = 0;
    while i < input.len()
        invariant
            context.wf(),
            context.state@ == s,
            accounts == addresses(input@),
            get_signer_fits(s, accounts),
            i <= input@.len(),
            details@.map_values(|d: SignerDetail| detail_view(d)) == registered_details(
                s,
                accounts.subrange(0, i as int),
            ),
        decreases input@.len() - i,
    {
        let addr = input[i];
        let ghost prefix = accounts.subrange(0, i as int);
        proof {
            assert(accounts.subrange(0, i + 1).drop_last() =~= prefix);
            assert(accounts.subrange(0, i + 1).last() == accounts[i as int]);
            assert(accounts[i as int] == addr@);
        }
        let key = is_signer_slot(&addr);
        let registered = context.state.get_system_storage(&key);
        if !registered.is_zero() {
            let ghost before = details@;
            let d = read_detail(context, addr);
            details.push(d);
            assert(details@.map_values(|d: SignerDetail| detail_view(d)) =~= before.map_values(
                |d: SignerDetail| detail_view(d),
            ).push(detail_view(d)));
        }
        i = i + 1;
    }
    assert(accounts.subrange(0, input@.len() as int) =~= accounts);
    Ok(details)
}

} // verus!
