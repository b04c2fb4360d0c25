//! The DA contract's state-changing functions for signers.

use vstd::prelude::*;
use vstd::utf8::encode_utf8;
use crate::abi::{
    log_new_signer, log_socket_updated, logged, new_signer_data, new_signer_topics, same_env,
    socket_updated_topics, abi_string, G1Point, G2Point, SignerDetail,
};
use crate::context::{ActionParams, InternalRefContext, VmError};
use crate::layout::{
    all_signers_key, all_signers_slot, base_fits, base_key, da_contract_base_slot, dynamic_key,
    dynamic_slot, epoch_blocks_key, epoch_blocks_slot, is_signer_key, is_signer_slot,
    pubkey_key, registration_key, signer_pk_g1_x_slot, signer_pk_g1_y_slot,
    signer_pk_g2_x0_slot, signer_pk_g2_x1_slot, signer_pk_g2_y0_slot, signer_pk_g2_y1_slot,
    signer_registration_slot, signer_socket_slot, socket_key,
};
use crate::signature::{signature_valid, verify_signature};
use crate::socket::{store_socket, write_socket};
use crate::storage::read;
use crate::uint::{two256, Address, U256};

verus! {

/// Storage after writing a signer's six public-key words.
pub open spec fn store_pubkeys(s: Map<nat, nat>, signer: nat, g1: G1Point, g2: G2Point) -> Map<
    nat,
    nat,
> {
    let k = pubkey_key(signer);
    s.insert(k, g1.0@).insert(k + 1, g1.1@).insert(k + 2, g2.0[0]@).insert(k + 3, g2.0[1]@).insert(
        k + 4,
        g2.1[0]@,
    ).insert(k + 5, g2.1[1]@)
}

/// Storage after marking `signer` as registered, from storage `s` (after the socket writes):
/// the flag is set, and a signer not flagged before is appended to the list of all signers.
pub open spec fn store_signer_flag(s: Map<nat, nat>, signer: nat) -> Map<nat, nat> {
    let was = read(s, is_signer_key(signer));
    let s3 = s.insert(is_signer_key(signer), 1);
    if was == 0 {
        let count = read(s3, all_signers_key());
        s3.insert(dynamic_key(all_signers_key()) + count, signer).insert(
            all_signers_key(),
            count + 1,
        )
    } else {
        s3
    }
}

/// Storage after a successful registration of `detail` (socket bytes `b`) from `s`.
pub open spec fn registered_storage(
    s: Map<nat, nat>,
    signer: nat,
    g1: G1Point,
    g2: G2Point,
    b: Seq<u8>,
) -> Map<nat, nat> {
    store_signer_flag(store_socket(store_pubkeys(s, signer, g1, g2), socket_key(signer), b), signer)
}

/// Whether appending `signer` to the list of all signers from `s` keeps every
/// slot computation a 256-bit number (nothing to check for a signer already flagged).
pub open spec fn signer_flag_fits(s: Map<nat, nat>, signer: nat) -> bool {
    &&& base_fits(2)
    &&& read(s, is_signer_key(signer)) == 0 ==> {
        let count = read(s.insert(is_signer_key(signer), 1), all_signers_key());
        &&& base_fits(7)
        &&& dynamic_key(all_signers_key()) + count < two256()
        &&& count + 1 < two256()
    }
}

/// Whether registering `signer` with keys `g1`, `g2` and socket bytes `b` from
/// `s` keeps every slot computation a 256-bit number.
pub open spec fn register_signer_fits(
    s: Map<nat, nat>,
    signer: nat,
    g1: G1Point,
    g2: G2Point,
    b: Seq<u8>,
) -> bool {
    &&& base_fits(5)
    &&& pubkey_key(signer) + 5 < two256()
    &&& b.len() <= 64 ==> {
        &&& base_fits(3)
        &&& socket_key(signer) + 2 < two256()
        &&& signer_flag_fits(
            store_socket(store_pubkeys(s, signer, g1, g2), socket_key(signer), b),
            signer,
        )
    }
}

/// What `registerSigner` does from context `before` to `after` with result `r`.
pub open spec fn register_signer_outcome(
    before: &InternalRefContext,
    after: &InternalRefContext,
    signer: Address,
    socket: Seq<char>,
    g1: G1Point,
    g2: G2Point,
    sig: G1Point,
    params: ActionParams,
    r: Result<(), VmError>,
) -> bool {
    let b = encode_utf8(socket);
    let s = before.state@;
    &&& after.wf()
    &&& same_env(after, before)
    &&& if params.sender@ != signer@ {
        &&& r == Err::<(), VmError>(VmError::CallerMismatch { caller: params.sender, signer })
        &&& after.state@ == s
        &&& after.logs@ == before.logs@
    } else if !signature_valid(signer@, sig, g2) {
        &&& r == Err::<(), VmError>(VmError::InvalidSignature)
        &&& after.state@ == s
        &&& after.logs@ == before.logs@
    } else if b.len() > 64 {
        &&& r == Err::<(), VmError>(VmError::SocketTooLong)
        &&& after.state@ == store_pubkeys(s, signer@, g1, g2)
        &&& after.logs@ == before.logs@
    } else {
        &&& after.state@ == registered_storage(s, signer@, g1, g2, b)
        &&& logged(before, after, r, params, new_signer_topics(signer@), new_signer_data(g1, g2))
    }
}

/// What `updateSocket` does from context `before` to `after` with result `r`.
pub open spec fn update_socket_outcome(
    before: &InternalRefContext,
    after: &InternalRefContext,
    socket: Seq<char>,
    params: ActionParams,
    r: Result<(), VmError>,
) -> bool {
    let s = before.state@;
    let b = encode_utf8(socket);
    &&& after.wf()
    &&& same_env(after, before)
    &&& if read(s, is_signer_key(params.sender@)) == 0 {
        &&& r == Err::<(), VmError>(VmError::SenderNotRegisteredSigner)
        &&& after.state@ == s
        &&& after.logs@ == before.logs@
    } else if b.len() > 64 {
        &&& r == Err::<(), VmError>(VmError::SocketTooLong)
        &&& after.state@ == s
        &&& after.logs@ == before.logs@
    } else {
        &&& after.state@ == store_socket(s, socket_key(params.sender@), b)
        &&& logged(
            before,
            after,
            r,
            params,
            socket_updated_topics(params.sender@),
            abi_string(b),
        )
    }
}

/// What `registerNextEpoch` does from context `before` to `after` with result `r`.
pub open spec fn register_next_epoch_outcome(
    before: &InternalRefContext,
    after: &InternalRefContext,
    params: ActionParams,
    r: Result<(), VmError>,
) -> bool {
    let s = before.state@;
    &&& after.wf()
    &&& same_env(after, before)
    &&& after.logs@ == before.logs@
    &&& if read(s, is_signer_key(params.sender@)) == 0 {
        &&& r == Err::<(), VmError>(VmError::SenderNotRegisteredSigner)
        &&& after.state@ == s
    } else {
        &&& r == Ok::<(), VmError>(())
        &&& after.state@ == s.insert(registration_key(params.sender@, read(s, base_key()) + 1), 1)
    }
}

/// What `setEpochBlocks` does from context `before` to `after` with result `r`.
pub open spec fn set_epoch_blocks_outcome(
    before: &InternalRefContext,
    after: &InternalRefContext,
    blocks: nat,
    r: Result<(), VmError>,
) -> bool {
    &&& after.wf()
    &&& same_env(after, before)
    &&& after.logs@ == before.logs@
    &&& r == Ok::<(), VmError>(())
    &&& after.state@ == before.state@.insert(epoch_blocks_key(), blocks)
}

/// Whether `updateSocket` from `s` keeps every computation in range.
pub open spec fn update_socket_fits(s: Map<nat, nat>, sender: nat, socket: Seq<char>) -> bool {
    &&& base_fits(2)
    &&& read(s, is_signer_key(sender)) != 0 && encode_utf8(socket).len() <= 64 ==> {
        &&& base_fits(3)
        &&& socket_key(sender) + 2 < two256()
    }
}

/// Whether `registerNextEpoch` from `s` keeps every computation in range.
pub open spec fn register_next_epoch_fits(s: Map<nat, nat>, sender: nat) -> bool {
    &&& base_fits(2)
    &&& read(s, is_signer_key(sender)) != 0 ==> {
        &&& read(s, base_key()) + 1 < two256()
        &&& base_fits(4)
    }
}

/// Sets `signer`'s registered flag; a signer not flagged before is appended
/// to the list of all signers.
fn mark_signer(context: &mut InternalRefContext, signer: &Address)
    requires
        old(context).wf(),
        signer_flag_fits(old(context).state@, signer@),
    ensures
        final(context).wf(),
        final(context).state@ == store_signer_flag(old(context).state@, signer@),
        final(context).logs == old(context).logs,
        same_env(final(context), old(context)),
{
    let key = is_signer_slot(signer);
    let was = context.state.get_system_storage(&key);
    context.state.set_system_storage(key, U256::from_u64(1));
    if was.is_zero() {
        let all = all_signers_slot();
        let count = context.state.get_system_storage(&all);
        let data = dynamic_slot(&all);
        let slot = data.add(&count);
        context.state.set_system_storage(slot, signer.to_u256());
        let new_count = count.add(&U256::one());
        context.state.set_system_storage(all, new_count);
    }
}

/// `registerSigner(SignerDetail signer, BN254.G1Point signature)`: the caller
/// registers itself with its public keys and socket, and `NewSigner` is emitted.
/// The signature must be the signer's signature under its G2 key (see
/// `signature`); a call with another signature changes nothing.
pub fn register_signer(
    input: (SignerDetail, G1Point),
    params: &ActionParams,
    context: &mut InternalRefContext,
) -> (r: Result<(), VmError>)
    requires
        old(context).wf(),
        params.sender@ == input.0.0@ ==> register_signer_fits(
            old(context).state@,
            input.0.0@,
            input.0.2,
            input.0.3,
            encode_utf8(input.0.1@),
        ),
    ensures
        register_signer_outcome(
            old(context),
            final(context),
            input.0.0,
            input.0.1@,
            input.0.2,
            input.0.3,
            input.1,
            *params,
            r,
        ),
{
    let (signer_detail, signature) = input;
    let signer_addr = signer_detail.0;
    let socket = &signer_detail.1;
    let pk_g1 = &signer_detail.2;
    let pk_g2 = &signer_detail.3;

    if !params.sender.eq(&signer_addr) {
        return Err(VmError::CallerMismatch { caller: params.sender, signer: signer_addr });
    }
    proof {
        crate::uint::lemma_address_view_injective(params.sender, signer_addr);
    }
    if !verify_signature(&signer_addr, &signature, pk_g2) {
        return Err(VmError::InvalidSignature);
    }

    let ghost s0 = context.state@;
    let x_key = signer_pk_g1_x_slot(&signer_addr);
    let y_key = signer_pk_g1_y_slot(&signer_addr);
    context.state.set_system_storage(x_key, pk_g1.0);
    context.state.set_system_storage(y_key, pk_g1.1);
    let x0_key = signer_pk_g2_x0_slot(&signer_addr);
    let x1_key = signer_pk_g2_x1_slot(&signer_addr);
    let y0_key = signer_pk_g2_y0_slot(&signer_addr);
    let y1_key = signer_pk_g2_y1_slot(&signer_addr);
    context.state.set_system_storage(x0_key, pk_g2.0[0]);
    context.state.set_system_storage(x1_key, pk_g2.0[1]);
    context.state.set_system_storage(y0_key, pk_g2.1[0]);
    context.state.set_system_storage(y1_key, pk_g2.1[1]);
    assert(context.state@ == store_pubkeys(s0, signer_addr@, *pk_g1, *pk_g2));

    let socket_bytes = socket.as_str().as_bytes();
    if socket_bytes.len() > 64 {
        return Err(VmError::SocketTooLong);
    }
    let socket_slot_base = signer_socket_slot(&signer_addr);
    write_socket(context, &socket_slot_base, socket_bytes);

    mark_signer(context, &signer_addr);

    log_new_signer(context, params, &signer_addr, pk_g1, pk_g2)
}

/// `updateSocket(string socket)`: a registered signer replaces its socket, and
/// `SocketUpdated` is emitted.
pub fn update_socket(input: String, params: &ActionParams, context: &mut InternalRefContext) -> (r:
    Result<(), VmError>)
    requires
        old(context).wf(),
        update_socket_fits(old(context).state@, params.sender@, input@),
    ensures
        update_socket_outcome(old(context), final(context), input@, *params, r),
{
    let key = is_signer_slot(&params.sender);
    let value = context.state.get_system_storage(&key);
    if value.is_zero() {
        return Err(VmError::SenderNotRegisteredSigner);
    }
    let socket_bytes = input.as_str().as_bytes();
    if socket_bytes.len() > 64 {
        return Err(VmError::SocketTooLong);
    }
    let socket_slot_base = signer_socket_slot(&params.sender);
    write_socket(context, &socket_slot_base, socket_bytes);
    log_socket_updated(context, params, &params.sender, &input)
}

/// `registerNextEpoch(BN254.G1Point signature)`: a registered signer registers
/// for the epoch after the current one. The signature is not checked.
pub fn register_next_epoch(input: G1Point, params: &ActionParams, context: &mut InternalRefContext) -> (r:
    Result<(), VmError>)
    requires
        old(context).wf(),
        register_next_epoch_fits(old(context).state@, params.sender@),
    ensures
        register_next_epoch_outcome(old(context), final(context), *params, r),
{
    let key = is_signer_slot(&params.sender);
    let value = context.state.get_system_storage(&key);
    if value.is_zero() {
        return Err(VmError::SenderNotRegisteredSigner);
    }
    let current_epoch = context.state.get_system_storage(&da_contract_base_slot());
    let next_epoch = current_epoch.add(&U256::one());
    let reg_key = signer_registration_slot(&params.sender, &next_epoch);
    context.state.set_system_storage(reg_key, U256::one());
    Ok(())
}

/// `setEpochBlocks(uint epochBlocks)`: stores the epoch length in blocks.
pub fn set_epoch_blocks(input: U256, params: &ActionParams, context: &mut InternalRefContext) -> (r:
    Result<(), VmError>)
    requires
        old(context).wf(),
        base_fits(16),
    ensures
        set_epoch_blocks_outcome(old(context), final(context), input@, r),
{
    let slot = epoch_blocks_slot();
    context.state.set_system_storage(slot, input);
    Ok(())
}

} // verus!
