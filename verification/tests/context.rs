use da_contract::context::{ActionParams, InternalRefContext, Space, VmError};
use da_contract::uint::{Address, U256};

fn contract(n: u128) -> Address {
    Address { hi: 0x8000_0000, lo: n }
}

fn params(address: Address, space: Space) -> ActionParams {
    ActionParams { sender: Address { hi: 0x1000_0000, lo: 9 }, address, space }
}

#[test]
fn storage_reads_back_what_was_written() {
    let mut ctx = InternalRefContext::new(7);
    let p = params(contract(1), Space::Native);
    assert_eq!(ctx.storage_at(&p, b"balance"), Ok(U256::zero()));
    assert_eq!(ctx.set_storage(&p, b"balance".to_vec(), U256::from_u64(42)), Ok(()));
    assert_eq!(ctx.storage_at(&p, b"balance"), Ok(U256::from_u64(42)));
    // overwriting replaces the value
    assert_eq!(ctx.set_storage(&p, b"balance".to_vec(), U256::from_u64(5)), Ok(()));
    assert_eq!(ctx.storage_at(&p, b"balance"), Ok(U256::from_u64(5)));
    // other keys are untouched
    assert_eq!(ctx.storage_at(&p, b"balanc"), Ok(U256::zero()));
    assert_eq!(ctx.storage_at(&p, b""), Ok(U256::zero()));
}

#[test]
fn storage_is_per_account_and_space() {
    let mut ctx = InternalRefContext::new(0);
    let native = params(contract(1), Space::Native);
    let eth = params(contract(1), Space::Ethereum);
    let other = params(contract(2), Space::Native);
    let value = U256 { hi: 1, lo: 2 };
    assert_eq!(ctx.set_storage(&native, vec![1, 2, 3], value), Ok(()));
    assert_eq!(ctx.storage_at(&native, &[1, 2, 3]), Ok(value));
    assert_eq!(ctx.storage_at(&eth, &[1, 2, 3]), Ok(U256::zero()));
    assert_eq!(ctx.storage_at(&other, &[1, 2, 3]), Ok(U256::zero()));
    // the system storage is a separate store
    assert_eq!(ctx.state.get_system_storage(&U256::zero()), U256::zero());
    assert!(ctx.logs.is_empty());
}

#[test]
fn log_appends_entry() {
    let mut ctx = InternalRefContext::new(0);
    let p = params(contract(3), Space::Ethereum);
    assert_eq!(ctx.log(&p, vec![U256::from_u64(1), U256::from_u64(2)], vec![9, 8]), Ok(()));
    assert_eq!(ctx.logs.len(), 1);
    assert_eq!(ctx.logs[0].address, contract(3));
    assert_eq!(ctx.logs[0].topics, vec![U256::from_u64(1), U256::from_u64(2)]);
    assert_eq!(ctx.logs[0].data, vec![9, 8]);
    assert_eq!(ctx.logs[0].space, Space::Ethereum);
}

#[test]
fn log_refused_in_static_or_reentrant_call() {
    let p = params(contract(3), Space::Native);
    let mut ctx = InternalRefContext::new(0);
    ctx.static_flag = true;
    assert_eq!(ctx.log(&p, vec![], vec![]), Err(VmError::MutableCallInStaticContext));
    assert!(ctx.logs.is_empty());
    let mut ctx = InternalRefContext::new(0);
    ctx.in_reentrancy = true;
    assert_eq!(ctx.log(&p, vec![], vec![1]), Err(VmError::MutableCallInStaticContext));
    assert!(ctx.logs.is_empty());
}
