use da_contract::abi::{G1Point, G2Point, SignerDetail};
use da_contract::context::{ActionParams, InternalRefContext, Space, VmError};
use da_contract::da_epoch::{finalize_epoch, NUM_SLICES};
use da_contract::da_views::{epoch_number, get_quorum, get_quorum_row, quorum_count};
use da_contract::da_writes::{register_next_epoch, register_signer};
use da_contract::layout::{da_contract_address, da_contract_base_slot, quorum_list_slot};
use da_contract::signature::hash_to_g1;
use da_contract::uint::{Address, U256};
use substrate_bn::{AffineG1, AffineG2, Fq, Fr, Group, G1, G2};

fn addr(n: u128) -> Address {
    Address { hi: 0x1000_0000, lo: n }
}

fn u(n: u128) -> U256 {
    U256::from_u128(n)
}

fn params(sender: Address) -> ActionParams {
    ActionParams { sender, address: da_contract_address(), space: Space::Native }
}

fn fq_word(f: Fq) -> U256 {
    let mut b = [0u8; 32];
    f.to_big_endian(&mut b).unwrap();
    U256::from_be_bytes(&b)
}

fn word_fq(v: U256) -> Fq {
    Fq::from_slice(&v.to_be_bytes()).unwrap()
}

fn secret(n: u128) -> Fr {
    Fr::from_str(&(n + 7).to_string()).unwrap()
}

/// The G2 public key of secret number `n`.
fn g2_key(n: u128) -> G2Point {
    let p = AffineG2::from_jacobian(G2::one() * secret(n)).unwrap();
    G2Point(
        [fq_word(p.x().real()), fq_word(p.x().imaginary())],
        [fq_word(p.y().real()), fq_word(p.y().imaginary())],
    )
}

/// `a`'s registration signature with secret number `n`.
fn signature(a: Address, n: u128) -> G1Point {
    let (x, y) = hash_to_g1(&a).unwrap();
    let h = G1::from(AffineG1::new(word_fq(x), word_fq(y)).unwrap());
    let s = AffineG1::from_jacobian(h * secret(n)).unwrap();
    G1Point(fq_word(s.x()), fq_word(s.y()))
}

fn signer(ctx: &mut InternalRefContext, a: Address) {
    let d = SignerDetail(a, "host".to_string(), G1Point(u(1), u(2)), g2_key(1));
    register_signer((d, signature(a, 1)), &params(a), ctx).unwrap();
}

fn next_epoch(ctx: &mut InternalRefContext, a: Address) {
    register_next_epoch(G1Point(u(0), u(0)), &params(a), ctx).unwrap();
}

#[test]
fn epoch_starts_at_zero() {
    let mut ctx = InternalRefContext::new(0);
    assert_eq!(epoch_number(&mut ctx), Ok(u(0)));
    assert_eq!(quorum_count(u(0), &mut ctx), Ok(u(0)));
}

#[test]
fn finalize_within_current_epoch_does_nothing() {
    let mut ctx = InternalRefContext::new(99);
    assert_eq!(finalize_epoch(&mut ctx), Ok(()));
    assert_eq!(epoch_number(&mut ctx), Ok(u(0)));
    assert_eq!(quorum_count(u(1), &mut ctx), Ok(u(0)));
}

#[test]
fn finalize_refuses_skipped_epoch() {
    let mut ctx = InternalRefContext::new(200);
    assert_eq!(finalize_epoch(&mut ctx), Err(VmError::BlockHeightNotContinuous));
    assert_eq!(epoch_number(&mut ctx), Ok(u(0)));
}

#[test]
fn finalize_without_registrations() {
    let mut ctx = InternalRefContext::new(100);
    signer(&mut ctx, addr(1));
    assert_eq!(finalize_epoch(&mut ctx), Ok(()));
    assert_eq!(epoch_number(&mut ctx), Ok(u(1)));
    assert_eq!(quorum_count(u(1), &mut ctx), Ok(u(0)));
    assert_eq!(get_quorum((u(1), u(0)), &mut ctx), Ok(vec![]));
}

#[test]
fn finalize_forms_round_robin_quorum() {
    let mut ctx = InternalRefContext::new(150);
    let (a, b, c) = (addr(1), addr(2), addr(3));
    signer(&mut ctx, a);
    signer(&mut ctx, b);
    signer(&mut ctx, c);
    next_epoch(&mut ctx, a);
    next_epoch(&mut ctx, c);
    assert_eq!(finalize_epoch(&mut ctx), Ok(()));
    assert_eq!(epoch_number(&mut ctx), Ok(u(1)));
    assert_eq!(quorum_count(u(1), &mut ctx), Ok(u(1)));
    let q = get_quorum((u(1), u(0)), &mut ctx).unwrap();
    assert_eq!(q.len(), NUM_SLICES as usize);
    for (i, m) in q.iter().enumerate() {
        assert_eq!(*m, if i % 2 == 0 { a } else { c });
    }
    assert_eq!(get_quorum_row((u(1), u(0), 0), &mut ctx), Ok(a));
    assert_eq!(get_quorum_row((u(1), u(0), 1023), &mut ctx), Ok(c));
    assert_eq!(
        get_quorum_row((u(1), u(0), 1024), &mut ctx),
        Err(VmError::RowIndexOutOfBound)
    );
    // a second call in the same epoch changes nothing
    assert_eq!(finalize_epoch(&mut ctx), Ok(()));
    assert_eq!(epoch_number(&mut ctx), Ok(u(1)));
    // an unknown quorum is empty
    assert_eq!(get_quorum((u(1), u(1)), &mut ctx), Ok(vec![]));
    assert_eq!(get_quorum((u(2), u(0)), &mut ctx), Ok(vec![]));
}

#[test]
fn quorum_length_uses_low_64_bits() {
    let mut ctx = InternalRefContext::new(0);
    let list = quorum_list_slot(&u(1), &u(0));
    // a quorum count of one makes quorum 0 exist; its length slot has high bits set
    let count_key = da_contract::layout::quorum_count_slot(&u(1));
    ctx.state.set_system_storage(count_key, u(1));
    ctx.state.set_system_storage(list, U256 { hi: 1, lo: 2 });
    let q = get_quorum((u(1), u(0)), &mut ctx).unwrap();
    assert_eq!(q.len(), 2);
    assert_eq!(get_quorum_row((u(1), u(0), 5), &mut ctx), Ok(Address::zero()));
}

#[test]
fn consecutive_epochs() {
    let mut ctx = InternalRefContext::new(100);
    let a = addr(9);
    signer(&mut ctx, a);
    next_epoch(&mut ctx, a);
    finalize_epoch(&mut ctx).unwrap();
    ctx.block_number = 250;
    next_epoch(&mut ctx, a);
    assert_eq!(finalize_epoch(&mut ctx), Ok(()));
    assert_eq!(epoch_number(&mut ctx), Ok(u(2)));
    assert_eq!(get_quorum_row((u(2), u(0), 7), &mut ctx), Ok(a));
    assert_eq!(ctx.state.get_system_storage(&da_contract_base_slot()), u(2));
}
