//! Executing a decoded call of the DA contract.

use vstd::prelude::*;
use vstd::utf8::encode_utf8;
use crate::abi::{G1Point, SignerDetail};
use crate::context::{ActionParams, InternalRefContext, VmError};
use crate::da_agg::{agg_pk_result, get_agg_pk_g1, get_agg_pk_g1_fits};
use crate::da_epoch::{finalize_epoch, finalize_epoch_outcome, finalize_fits};
use crate::da_views::{
    addresses, detail_view, epoch_number, get_quorum, get_quorum_row, get_signer,
    get_signer_fits, is_signer, quorum_count, quorum_fits, quorum_members, quorum_row_fits,
    quorum_row_result, registered_details, registered_epoch,
};
use crate::da_writes::{
    register_next_epoch, register_next_epoch_fits, register_next_epoch_outcome,
    register_signer, register_signer_fits, register_signer_outcome, set_epoch_blocks,
    set_epoch_blocks_outcome, update_socket, update_socket_fits, update_socket_outcome,
};
use crate::fits::{
    check_base_fits, check_finalize_fits, check_get_agg_pk_g1_fits, check_get_signer_fits,
    check_quorum_fits, check_quorum_row_fits, check_register_next_epoch_fits,
    check_register_signer_fits, check_update_socket_fits,
};
use crate::layout::{base_fits, base_key, is_signer_key, quorum_count_key, registration_key};
use crate::storage::read;
use crate::table::DaFunction;
use crate::uint::{Address, U256};

verus! {

/// A decoded call of the DA contract: the function and its arguments.
pub enum DaCall {
    EpochNumber,
    GetAggPkG1(U256, U256, Vec<u8>),
    GetQuorum(U256, U256),
    GetQuorumRow(U256, U256, u32),
    GetSigner(Vec<Address>),
    IsSigner(Address),
    QuorumCount(U256),
    RegisteredEpoch(Address, U256),
    RegisterNextEpoch(G1Point),
    RegisterSigner(SignerDetail, G1Point),
    UpdateSocket(String),
    FinalizeEpoch,
    SetEpochBlocks(U256),
}

/// What a call returns.
pub enum DaOutput {
    Uint(U256),
    Bool(bool),
    Address(Address),
    Addresses(Vec<Address>),
    Signers(Vec<SignerDetail>),
    AggPk(G1Point, U256, U256),
    Empty,
}

/// The function a call is of.
pub open spec fn function_of(call: DaCall) -> DaFunction {
    match call {
        DaCall::EpochNumber => DaFunction::EpochNumber,
        DaCall::GetAggPkG1(..) => DaFunction::GetAggPkG1,
        DaCall::GetQuorum(..) => DaFunction::GetQuorum,
        DaCall::GetQuorumRow(..) => DaFunction::GetQuorumRow,
        DaCall::GetSigner(..) => DaFunction::GetSigner,
        DaCall::IsSigner(..) => DaFunction::IsSigner,
        DaCall::QuorumCount(..) => DaFunction::QuorumCount,
        DaCall::RegisteredEpoch(..) => DaFunction::RegisteredEpoch,
        DaCall::RegisterNextEpoch(..) => DaFunction::RegisterNextEpoch,
        DaCall::RegisterSigner(..) => DaFunction::RegisterSigner,
        DaCall::UpdateSocket(..) => DaFunction::UpdateSocket,
        DaCall::FinalizeEpoch => DaFunction::FinalizeEpoch,
        DaCall::SetEpochBlocks(..) => DaFunction::SetEpochBlocks,
    }
}

impl DaCall {
    /// The function this call is of.
    pub fn function(&self) -> (r: DaFunction)
        ensures
            r == function_of(*self),
    {
        match self {
            DaCall::EpochNumber => DaFunction::EpochNumber,
            DaCall::GetAggPkG1(..) => DaFunction::GetAggPkG1,
            DaCall::GetQuorum(..) => DaFunction::GetQuorum,
            DaCall::GetQuorumRow(..) => DaFunction::GetQuorumRow,
            DaCall::GetSigner(..) => DaFunction::GetSigner,
            DaCall::IsSigner(..) => DaFunction::IsSigner,
            DaCall::QuorumCount(..) => DaFunction::QuorumCount,
            DaCall::RegisteredEpoch(..) => DaFunction::RegisteredEpoch,
            DaCall::RegisterNextEpoch(..) => DaFunction::RegisterNextEpoch,
            DaCall::RegisterSigner(..) => DaFunction::RegisterSigner,
            DaCall::UpdateSocket(..) => DaFunction::UpdateSocket,
            DaCall::FinalizeEpoch => DaFunction::FinalizeEpoch,
            DaCall::SetEpochBlocks(..) => DaFunction::SetEpochBlocks,
        }
    }
}

/// Whether `call`, from state `s` at block `block` by `params`, keeps every
/// computation in range (the functions themselves would otherwise overflow).
pub open spec fn call_fits(s: Map<nat, nat>, block: u64, params: ActionParams, call: DaCall) -> bool {
    match call {
        DaCall::EpochNumber => true,
        DaCall::GetAggPkG1(e, q, b) => get_agg_pk_g1_fits(s, e@, q@, b@),
        DaCall::GetQuorum(e, q) => quorum_fits(s, e@, q@),
        DaCall::GetQuorumRow(e, q, row) => quorum_row_fits(s, e@, q@, row as nat),
        DaCall::GetSigner(accounts) => get_signer_fits(s, addresses(accounts@)),
        DaCall::IsSigner(_) => base_fits(2),
        DaCall::QuorumCount(_) => base_fits(1),
        DaCall::RegisteredEpoch(..) => base_fits(4),
        DaCall::RegisterNextEpoch(_) => register_next_epoch_fits(s, params.sender@),
        DaCall::RegisterSigner(d, _) => params.sender@ == d.0@ ==> register_signer_fits(
            s,
            d.0@,
            d.2,
            d.3,
            encode_utf8(d.1@),
        ),
        DaCall::UpdateSocket(socket) => update_socket_fits(s, params.sender@, socket@),
        DaCall::FinalizeEpoch => finalize_fits(s, block),
        DaCall::SetEpochBlocks(_) => base_fits(16),
    }
}

/// The result of a write function.
pub open spec fn as_unit(res: Result<DaOutput, VmError>) -> Result<(), VmError> {
    match res {
        Ok(_) => Ok(()),
        Err(e) => Err(e),
    }
}

/// What a call does from context `before` to `after` with result `res`: the
/// contract of the function it is of.
pub open spec fn call_outcome(
    before: &InternalRefContext,
    after: &InternalRefContext,
    params: ActionParams,
    call: DaCall,
    res: Result<DaOutput, VmError>,
) -> bool {
    let s = before.state@;
    match call {
        DaCall::EpochNumber => *after == *before && (res matches Ok(DaOutput::Uint(v)) && v@ == read(
            s,
            base_key(),
        )),
        DaCall::GetAggPkG1(e, q, b) => {
            &&& *after == *before
            &&& (res matches Ok(o) ==> o is AggPk)
            &&& agg_pk_result(
                s,
                e@,
                q@,
                b@,
                match res {
                    Ok(DaOutput::AggPk(p, t, h)) => Ok((p, t, h)),
                    Ok(_) => Err(VmError::InvalidG1Point),
                    Err(e) => Err(e),
                },
            )
        },
        DaCall::GetQuorum(e, q) => *after == *before && (res matches Ok(DaOutput::Addresses(v))
            && addresses(v@) == quorum_members(s, e@, q@)),
        DaCall::GetQuorumRow(e, q, row) => {
            &&& *after == *before
            &&& (res matches Ok(o) ==> o is Address)
            &&& quorum_row_result(
                s,
                e@,
                q@,
                row as nat,
                match res {
                    Ok(DaOutput::Address(a)) => Ok(a),
                    Ok(_) => Err(VmError::InvalidG1Point),
                    Err(e) => Err(e),
                },
            )
        },
        DaCall::GetSigner(accounts) => *after == *before && (res matches Ok(DaOutput::Signers(v))
            && v@.map_values(|d: SignerDetail| detail_view(d)) == registered_details(
            s,
            addresses(accounts@),
        )),
        DaCall::IsSigner(a) => *after == *before && (res matches Ok(DaOutput::Bool(b)) && b == (
        read(s, is_signer_key(a@)) != 0)),
        DaCall::QuorumCount(e) => *after == *before && (res matches Ok(DaOutput::Uint(v)) && v@
            == read(s, quorum_count_key(e@))),
        DaCall::RegisteredEpoch(a, e) => *after == *before && (res matches Ok(DaOutput::Bool(b))
            && b == (read(s, registration_key(a@, e@)) != 0)),
        DaCall::RegisterNextEpoch(_) => {
            &&& (res matches Ok(o) ==> o is Empty)
            &&& register_next_epoch_outcome(before, after, params, as_unit(res))
        },
        DaCall::RegisterSigner(d, sig) => {
            &&& (res matches Ok(o) ==> o is Empty)
            &&& register_signer_outcome(before, after, d.0, d.1@, d.2, d.3, sig, params, as_unit(res))
        },
        DaCall::UpdateSocket(socket) => {
            &&& (res matches Ok(o) ==> o is Empty)
            &&& update_socket_outcome(before, after, socket@, params, as_unit(res))
        },
        DaCall::FinalizeEpoch => {
            &&& (res matches Ok(o) ==> o is Empty)
            &&& finalize_epoch_outcome(before, after, as_unit(res))
        },
        DaCall::SetEpochBlocks(v) => {
            &&& (res matches Ok(o) ==> o is Empty)
            &&& set_epoch_blocks_outcome(before, after, v@, as_unit(res))
        },
    }
}

fn unit_output(r: Result<(), VmError>) -> (o: Result<DaOutput, VmError>)
    ensures
        as_unit(o) == r,
        o matches Ok(v) ==> v is Empty,
{
    match r {
        Ok(u) => {
            assert(r == Ok::<(), VmError>(()));
            Ok(DaOutput::Empty)
        },
        Err(e) => Err(e),
    }
}

/// Runs `call`. `None` where the call would overflow a slot computation (or a
/// stored length would not fit a `usize`), with nothing changed; otherwise the
/// function's result.
pub fn execute(call: DaCall, params: &ActionParams, context: &mut InternalRefContext) -> (r: Option<
    Result<DaOutput, VmError>,
>)
    requires
        old(context).wf(),
    ensures
        final(context).wf(),
        r is None <==> !call_fits(old(context).state@, old(context).block_number, *params, call),
        r is None ==> *final(context) == *old(context),
        r matches Some(res) ==> call_outcome(old(context), final(context), *params, call, res),
{
    match call {
        DaCall::EpochNumber => match epoch_number(context) {
            Ok(v) => Some(Ok(DaOutput::Uint(v))),
            Err(e) => Some(Err(e)),
        },
        DaCall::GetAggPkG1(e, q, b) => {
            if !check_get_agg_pk_g1_fits(context, &e, &q, &b) {
                return None;
            }
            match get_agg_pk_g1((e, q, b), context) {
                Ok((p, t, h)) => Some(Ok(DaOutput::AggPk(p, t, h))),
                Err(err) => Some(Err(err)),
            }
        },
        DaCall::GetQuorum(e, q) => {
            if !check_quorum_fits(context, &e, &q) {
                return None;
            }
            match get_quorum((e, q), context) {
                Ok(v) => Some(Ok(DaOutput::Addresses(v))),
                Err(err) => Some(Err(err)),
            }
        },
        DaCall::GetQuorumRow(e, q, row) => {
            if !check_quorum_row_fits(context, &e, &q, row) {
                return None;
            }
            match get_quorum_row((e, q, row), context) {
                Ok(a) => Some(Ok(DaOutput::Address(a))),
                Err(err) => Some(Err(err)),
            }
        },
        DaCall::GetSigner(accounts) => {
            if !check_get_signer_fits(context, &accounts) {
                return None;
            }
            match get_signer(accounts, context) {
                Ok(v) => Some(Ok(DaOutput::Signers(v))),
                Err(err) => Some(Err(err)),
            }
        },
        DaCall::IsSigner(a) => {
            if !check_base_fits(2) {
                return None;
            }
            match is_signer(a, context) {
                Ok(b) => Some(Ok(DaOutput::Bool(b))),
                Err(err) => Some(Err(err)),
            }
        },
        DaCall::QuorumCount(e) => {
            if !check_base_fits(1) {
                return None;
            }
            match quorum_count(e, context) {
                Ok(v) => Some(Ok(DaOutput::Uint(v))),
                Err(err) => Some(Err(err)),
            }
        },
        DaCall::RegisteredEpoch(a, e) => {
            if !check_base_fits(4) {
                return None;
            }
            match registered_epoch((a, e), context) {
                Ok(b) => Some(Ok(DaOutput::Bool(b))),
                Err(err) => Some(Err(err)),
            }
        },
        DaCall::RegisterNextEpoch(sig) => {
            if !check_register_next_epoch_fits(context, &params.sender) {
                return None;
            }
            Some(unit_output(register_next_epoch(sig, params, context)))
        },
        DaCall::RegisterSigner(d, sig) => {
            if params.sender.eq(&d.0) {
                let fits = check_register_signer_fits(
                    context,
                    &d.0,
                    &d.2,
                    &d.3,
                    d.1.as_str().as_bytes(),
                );
                if !fits {
                    return None;
                }
            }
            Some(unit_output(register_signer((d, sig), params, context)))
        },
        DaCall::UpdateSocket(socket) => {
            if !check_update_socket_fits(context, &params.sender, &socket) {
                return None;
            }
            Some(unit_output(update_socket(socket, params, context)))
        },
        DaCall::FinalizeEpoch => {
            if !check_finalize_fits(context) {
                return None;
            }
            Some(unit_output(finalize_epoch(context)))
        },
        DaCall::SetEpochBlocks(v) => {
            if !check_base_fits(16) {
                return None;
            }
            Some(unit_output(set_epoch_blocks(v, params, context)))
        },
    }
}

} // verus!
