use da_contract::abi::G1Point;
use da_contract::context::{ActionParams, InternalRefContext, Space};
use da_contract::dispatch::{execute, DaCall, DaOutput};
use da_contract::layout::da_contract_address;
use da_contract::table::{generate_fn_table, DaFunction};
use da_contract::uint::{Address, U256};

const ALL: [DaFunction; 13] = [
    DaFunction::EpochNumber,
    DaFunction::GetAggPkG1,
    DaFunction::GetQuorum,
    DaFunction::GetQuorumRow,
    DaFunction::GetSigner,
    DaFunction::IsSigner,
    DaFunction::QuorumCount,
    DaFunction::RegisteredEpoch,
    DaFunction::RegisterNextEpoch,
    DaFunction::RegisterSigner,
    DaFunction::UpdateSocket,
    DaFunction::FinalizeEpoch,
    DaFunction::SetEpochBlocks,
];

#[test]
fn fn_table_maps_selectors() {
    let table = generate_fn_table();
    for f in ALL {
        let digest = keccak_hash::keccak(f.signature().as_bytes()).0;
        let sel = [digest[0], digest[1], digest[2], digest[3]];
        assert_eq!(f.selector(), sel);
        assert_eq!(table.lookup(&sel), Some(f));
        assert_eq!(f.upfront_gas_payment(), U256::zero());
    }
    assert_eq!(table.lookup(&[0, 0, 0, 0]), None);
}

#[test]
fn known_selector() {
    // keccak256("epochNumber()") starts with these bytes
    let digest = keccak_hash::keccak("epochNumber()".as_bytes()).0;
    assert_eq!(DaFunction::EpochNumber.selector(), [digest[0], digest[1], digest[2], digest[3]]);
    assert_ne!(DaFunction::EpochNumber.selector(), DaFunction::FinalizeEpoch.selector());
}

#[test]
fn query_functions() {
    assert!(DaFunction::GetSigner.is_query());
    assert!(DaFunction::EpochNumber.is_query());
    assert!(!DaFunction::RegisterSigner.is_query());
    assert!(!DaFunction::FinalizeEpoch.is_query());
}

#[test]
fn execute_dispatches() {
    let mut ctx = InternalRefContext::new(0);
    let a = Address { hi: 1, lo: 1 };
    let params = ActionParams { sender: a, address: da_contract_address(), space: Space::Native };
    let call = DaCall::IsSigner(a);
    assert_eq!(call.function(), DaFunction::IsSigner);
    match execute(call, &params, &mut ctx) {
        Some(Ok(DaOutput::Bool(b))) => assert!(!b),
        _ => panic!("unexpected result"),
    }
    match execute(DaCall::SetEpochBlocks(U256::from_u64(5)), &params, &mut ctx) {
        Some(Ok(DaOutput::Empty)) => {},
        _ => panic!("unexpected result"),
    }
    match execute(DaCall::RegisterNextEpoch(G1Point(U256::zero(), U256::zero())), &params, &mut ctx) {
        Some(Err(e)) => assert_eq!(e, da_contract::context::VmError::SenderNotRegisteredSigner),
        _ => panic!("unexpected result"),
    }
    match execute(DaCall::EpochNumber, &params, &mut ctx) {
        Some(Ok(DaOutput::Uint(v))) => assert_eq!(v, U256::zero()),
        _ => panic!("unexpected result"),
    }
}
