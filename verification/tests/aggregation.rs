use da_contract::abi::{G1Point, G2Point, SignerDetail};
use da_contract::context::{ActionParams, InternalRefContext, Space, VmError};
use da_contract::da_agg::{get_agg_pk_g1, select_signers};
use da_contract::da_epoch::finalize_epoch;
use da_contract::da_writes::{register_next_epoch, register_signer};
use da_contract::layout::{
    da_contract_address, dynamic_slot, quorum_count_slot, quorum_list_slot, signer_pk_g1_x_slot,
    signer_pk_g1_y_slot,
};
use da_contract::uint::{Address, U256};
use da_contract::signature::hash_to_g1;
use substrate_bn::{AffineG1, AffineG2, Fq, Fr, Group, G1, G2};

fn addr(n: u128) -> Address {
    Address { hi: 0x1000_0000, lo: n }
}

fn u(n: u128) -> U256 {
    U256::from_u128(n)
}

fn params(sender: Address) -> ActionParams {
    ActionParams { sender, address: da_contract_address(), space: Space::Native }
}

fn fq_word(f: Fq) -> U256 {
    let mut b = [0u8; 32];
    f.to_big_endian(&mut b).unwrap();
    U256::from_be_bytes(&b)
}

fn word_fq(v: U256) -> Fq {
    Fq::from_slice(&v.to_be_bytes()).unwrap()
}

fn secret(n: u128) -> Fr {
    Fr::from_str(&(n + 7).to_string()).unwrap()
}

/// The G2 public key of secret number `n`.
fn g2_key(n: u128) -> G2Point {
    let p = AffineG2::from_jacobian(G2::one() * secret(n)).unwrap();
    G2Point(
        [fq_word(p.x().real()), fq_word(p.x().imaginary())],
        [fq_word(p.y().real()), fq_word(p.y().imaginary())],
    )
}

/// `a`'s registration signature with secret number `n`.
fn signature(a: Address, n: u128) -> G1Point {
    let (x, y) = hash_to_g1(&a).unwrap();
    let h = G1::from(AffineG1::new(word_fq(x), word_fq(y)).unwrap());
    let s = AffineG1::from_jacobian(h * secret(n)).unwrap();
    G1Point(fq_word(s.x()), fq_word(s.y()))
}

fn coords(p: G1) -> (U256, U256) {
    let a = AffineG1::from_jacobian(p).unwrap();
    let mut x = [0u8; 32];
    let mut y = [0u8; 32];
    a.x().to_big_endian(&mut x).unwrap();
    a.y().to_big_endian(&mut y).unwrap();
    (U256::from_be_bytes(&x), U256::from_be_bytes(&y))
}

fn setup(keys: &[(U256, U256)]) -> (InternalRefContext, Vec<Address>) {
    let mut ctx = InternalRefContext::new(100);
    let mut accounts = Vec::new();
    for (i, (x, y)) in keys.iter().enumerate() {
        let a = addr(i as u128 + 1);
        let d = SignerDetail(a, "h".to_string(), G1Point(*x, *y), g2_key(1));
        register_signer((d, signature(a, 1)), &params(a), &mut ctx).unwrap();
        register_next_epoch(G1Point(u(0), u(0)), &params(a), &mut ctx).unwrap();
        accounts.push(a);
    }
    finalize_epoch(&mut ctx).unwrap();
    (ctx, accounts)
}

#[test]
fn aggregate_of_two_keys() {
    let g = G1::one();
    let (gx, gy) = coords(g);
    assert_eq!((gx, gy), (u(1), u(2)));
    let (hx, hy) = coords(g + g);
    let (mut ctx, _) = setup(&[(gx, gy), (hx, hy)]);
    // quorum rows alternate the two signers; bits 0 and 1 select both
    let r = get_agg_pk_g1((u(1), u(0), vec![0b0000_0011]), &mut ctx).unwrap();
    let expected = coords(g + g + g);
    assert_eq!((r.0 .0, r.0 .1), expected);
    assert_eq!(r.1, u(1024));
    assert_eq!(r.2, u(2));
}

#[test]
fn aggregate_counts_repeated_members_once() {
    let g = G1::one();
    let (gx, gy) = coords(g);
    let (hx, hy) = coords(g + g);
    let (mut ctx, _) = setup(&[(gx, gy), (hx, hy)]);
    let r = get_agg_pk_g1((u(1), u(0), vec![0xff, 0x01]), &mut ctx).unwrap();
    assert_eq!((r.0 .0, r.0 .1), coords(g + g + g));
    assert_eq!(r.2, u(9));
    // only even rows: the first signer alone
    let r = get_agg_pk_g1((u(1), u(0), vec![0b0101_0101]), &mut ctx).unwrap();
    assert_eq!((r.0 .0, r.0 .1), (gx, gy));
    assert_eq!(r.2, u(4));
}

#[test]
fn aggregate_with_no_bits_or_no_quorum() {
    let (gx, gy) = coords(G1::one());
    let (mut ctx, _) = setup(&[(gx, gy)]);
    let r = get_agg_pk_g1((u(1), u(0), vec![0, 0]), &mut ctx).unwrap();
    assert_eq!((r.0 .0, r.0 .1, r.1, r.2), (u(0), u(0), u(1024), u(0)));
    let r = get_agg_pk_g1((u(1), u(0), vec![]), &mut ctx).unwrap();
    assert_eq!((r.0 .0, r.0 .1, r.1, r.2), (u(0), u(0), u(1024), u(0)));
    let r = get_agg_pk_g1((u(7), u(0), vec![0xff]), &mut ctx).unwrap();
    assert_eq!((r.0 .0, r.0 .1, r.1, r.2), (u(0), u(0), u(0), u(0)));
}

#[test]
fn aggregate_of_opposite_points_is_zero() {
    let g = G1::one();
    let (gx, gy) = coords(g);
    let (nx, ny) = coords(-g);
    let (mut ctx, _) = setup(&[(gx, gy), (nx, ny)]);
    let r = get_agg_pk_g1((u(1), u(0), vec![0b11]), &mut ctx).unwrap();
    assert_eq!((r.0 .0, r.0 .1), (u(0), u(0)));
}

#[test]
fn aggregate_zero_key_is_identity() {
    let (gx, gy) = coords(G1::one());
    let (mut ctx, _) = setup(&[(u(0), u(0)), (gx, gy)]);
    let r = get_agg_pk_g1((u(1), u(0), vec![0b11]), &mut ctx).unwrap();
    assert_eq!((r.0 .0, r.0 .1), (gx, gy));
}

#[test]
fn aggregate_rejects_bad_keys() {
    // the field modulus itself is not a field member
    let p = U256 {
        hi: 0x30644e72e131a029b85045b68181585d,
        lo: 0x97816a916871ca8d3c208c16d87cfd47,
    };
    let (mut ctx, accounts) = setup(&[(p, u(2))]);
    assert_eq!(get_agg_pk_g1((u(1), u(0), vec![1]), &mut ctx).err(), Some(VmError::InvalidG1X));
    ctx.state.set_system_storage(signer_pk_g1_x_slot(&accounts[0]), u(1));
    ctx.state.set_system_storage(signer_pk_g1_y_slot(&accounts[0]), p);
    assert_eq!(get_agg_pk_g1((u(1), u(0), vec![1]), &mut ctx).err(), Some(VmError::InvalidG1Y));
    ctx.state.set_system_storage(signer_pk_g1_y_slot(&accounts[0]), u(3));
    assert_eq!(get_agg_pk_g1((u(1), u(0), vec![1]), &mut ctx).err(), Some(VmError::InvalidG1Point));
    // unselected rows are not read
    assert!(get_agg_pk_g1((u(1), u(0), vec![0]), &mut ctx).is_ok());
}

#[test]
fn selection_of_signers() {
    let m = vec![addr(1), addr(2), addr(1), addr(3), addr(2)];
    let (sel, hits) = select_signers(&m, &vec![0b0001_0101]);
    assert_eq!(sel, vec![addr(1), addr(2)]);
    assert_eq!(hits, 3);
    let (sel, hits) = select_signers(&m, &vec![0b1111_1110]);
    assert_eq!(sel, vec![addr(2), addr(1), addr(3)]);
    assert_eq!(hits, 4);
    let (sel, hits) = select_signers(&m, &vec![]);
    assert!(sel.is_empty());
    assert_eq!(hits, 0);
}

/// Epoch 1 with one quorum of the two given rows; `a` holds the key `(1, 2)`.
fn two_rows(rows: [Address; 2], a: Address) -> InternalRefContext {
    let mut ctx = InternalRefContext::new(0);
    ctx.state.set_system_storage(quorum_count_slot(&u(1)), u(1));
    let list = quorum_list_slot(&u(1), &u(0));
    ctx.state.set_system_storage(list, u(2));
    let data = dynamic_slot(&list);
    ctx.state.set_system_storage(data, rows[0].to_u256());
    ctx.state.set_system_storage(data.add_u64(1), rows[1].to_u256());
    ctx.state.set_system_storage(signer_pk_g1_x_slot(&a), u(1));
    ctx.state.set_system_storage(signer_pk_g1_y_slot(&a), u(2));
    ctx
}

#[test]
fn aggregate_of_one_signer_in_two_rows() {
    let a = addr(1);
    let mut ctx = two_rows([a, a], a);
    let r = get_agg_pk_g1((u(1), u(0), vec![0b11]), &mut ctx).unwrap();
    assert_eq!((r.0 .0, r.0 .1, r.1, r.2), (u(1), u(2), u(2), u(2)));
}

#[test]
fn aggregate_of_first_row_only() {
    let a = addr(1);
    let mut ctx = two_rows([a, addr(2)], a);
    let r = get_agg_pk_g1((u(1), u(0), vec![0x01]), &mut ctx).unwrap();
    assert_eq!((r.0 .0, r.0 .1, r.1, r.2), (u(1), u(2), u(2), u(1)));
    // bits past the quorum's two rows, and bytes past the first, change nothing
    let r = get_agg_pk_g1((u(1), u(0), vec![0xfd, 0xff]), &mut ctx).unwrap();
    assert_eq!((r.0 .0, r.0 .1, r.1, r.2), (u(1), u(2), u(2), u(1)));
}
