use da_contract::abi::{G1Point, G2Point, SignerDetail};
use da_contract::context::{ActionParams, InternalRefContext, Space, VmError};
use da_contract::da_views::{get_signer, is_signer, registered_epoch};
use da_contract::da_writes::{register_next_epoch, register_signer, set_epoch_blocks, update_socket};
use da_contract::layout::{
    all_signers_slot, da_contract_address, da_contract_base_slot, dynamic_slot, epoch_blocks_slot,
    signer_pk_g1_x_slot, signer_socket_slot,
};
use da_contract::signature::hash_to_g1;
use da_contract::uint::{Address, U256};
use substrate_bn::{AffineG1, AffineG2, Fq, Fr, Group, G1, G2};

fn addr(n: u128) -> Address {
    Address { hi: 0x1000_0000, lo: n }
}

fn u(n: u128) -> U256 {
    U256::from_u128(n)
}

fn params(sender: Address) -> ActionParams {
    ActionParams { sender, address: da_contract_address(), space: Space::Native }
}


fn fq_word(f: Fq) -> U256 {
    let mut b = [0u8; 32];
    f.to_big_endian(&mut b).unwrap();
    U256::from_be_bytes(&b)
}

fn word_fq(v: U256) -> Fq {
    Fq::from_slice(&v.to_be_bytes()).unwrap()
}

fn secret(n: u128) -> Fr {
    Fr::from_str(&(n + 7).to_string()).unwrap()
}

/// The G2 public key of secret number `n`.
fn g2_key(n: u128) -> G2Point {
    let p = AffineG2::from_jacobian(G2::one() * secret(n)).unwrap();
    G2Point(
        [fq_word(p.x().real()), fq_word(p.x().imaginary())],
        [fq_word(p.y().real()), fq_word(p.y().imaginary())],
    )
}

/// `a`'s registration signature with secret number `n`.
fn signature(a: Address, n: u128) -> G1Point {
    let (x, y) = hash_to_g1(&a).unwrap();
    let h = G1::from(AffineG1::new(word_fq(x), word_fq(y)).unwrap());
    let s = AffineG1::from_jacobian(h * secret(n)).unwrap();
    G1Point(fq_word(s.x()), fq_word(s.y()))
}

fn keys(n: u128) -> (G1Point, G2Point) {
    (G1Point(u(n), u(n + 1)), g2_key(n))
}

fn register(ctx: &mut InternalRefContext, a: Address, socket: &str, n: u128) -> Result<(), VmError> {
    let (g1, g2) = keys(n);
    register_signer((SignerDetail(a, socket.to_string(), g1, g2), signature(a, n)), &params(a), ctx)
}

fn word(v: u128) -> Vec<u8> {
    U256::from_u128(v).to_be_bytes()
}

#[test]
fn register_signer_then_read_back() {
    let mut ctx = InternalRefContext::new(0);
    let a = addr(1);
    assert_eq!(register(&mut ctx, a, "10.0.0.1:32005", 100), Ok(()));
    assert_eq!(is_signer(a, &mut ctx), Ok(true));
    let details = get_signer(vec![a, addr(2)], &mut ctx).unwrap();
    assert_eq!(details.len(), 1);
    let d = &details[0];
    assert_eq!(d.0, a);
    assert_eq!(d.1, "10.0.0.1:32005");
    assert_eq!((d.2 .0, d.2 .1), (u(100), u(101)));
    let g2 = g2_key(100);
    assert_eq!(d.3 .0, g2.0);
    assert_eq!(d.3 .1, g2.1);
    // the list of all signers holds the new signer
    let all = all_signers_slot();
    assert_eq!(ctx.state.get_system_storage(&all), u(1));
    let first = dynamic_slot(&all);
    assert_eq!(ctx.state.get_system_storage(&first), a.to_u256());
}

#[test]
fn register_signer_emits_new_signer() {
    let mut ctx = InternalRefContext::new(0);
    let a = addr(3);
    register(&mut ctx, a, "host", 10).unwrap();
    assert_eq!(ctx.logs.len(), 1);
    let log = &ctx.logs[0];
    assert_eq!(log.address, da_contract_address());
    assert_eq!(log.space, Space::Native);
    let sig = keccak_hash::keccak(
        "NewSigner(address,(uint256,uint256),(uint256[2],uint256[2]))".as_bytes(),
    );
    assert_eq!(log.topics, vec![U256::from_be_bytes(&sig.0), a.to_u256()]);
    let g2 = g2_key(10);
    let mut data = Vec::new();
    for v in [u(10), u(11), g2.0[0], g2.0[1], g2.1[0], g2.1[1]] {
        data.extend(v.to_be_bytes());
    }
    assert_eq!(log.data, data);
}

#[test]
fn register_signer_with_long_socket() {
    let mut ctx = InternalRefContext::new(0);
    let a = addr(4);
    let socket = "a".repeat(40) + "b".repeat(24).as_str();
    assert_eq!(socket.len(), 64);
    register(&mut ctx, a, &socket, 0).unwrap();
    let d = get_signer(vec![a], &mut ctx).unwrap();
    assert_eq!(d[0].1, socket);
    // two data words and the length
    let k = signer_socket_slot(&a);
    assert_eq!(ctx.state.get_system_storage(&k.add_u64(2)), u(64));
    let w1 = ctx.state.get_system_storage(&k.add_u64(1)).to_be_bytes();
    assert_eq!(&w1[..8], "aaaaaaaa".as_bytes());
    assert_eq!(w1[31], b'b');
}

#[test]
fn register_signer_refuses_other_caller() {
    let mut ctx = InternalRefContext::new(0);
    let (g1, g2) = keys(1);
    let r = register_signer(
        (SignerDetail(addr(5), "x".to_string(), g1, g2), G1Point(u(0), u(0))),
        &params(addr(6)),
        &mut ctx,
    );
    assert_eq!(r, Err(VmError::CallerMismatch { caller: addr(6), signer: addr(5) }));
    assert_eq!(is_signer(addr(5), &mut ctx), Ok(false));
    assert!(ctx.logs.is_empty());
}

#[test]
fn register_signer_refuses_long_socket_after_storing_keys() {
    let mut ctx = InternalRefContext::new(0);
    let a = addr(7);
    let r = register(&mut ctx, a, &"z".repeat(65), 50);
    assert_eq!(r, Err(VmError::SocketTooLong));
    assert_eq!(is_signer(a, &mut ctx), Ok(false));
    assert_eq!(ctx.state.get_system_storage(&signer_pk_g1_x_slot(&a)), u(50));
    assert!(ctx.logs.is_empty());
}

#[test]
fn register_signer_in_static_call() {
    let mut ctx = InternalRefContext::new(0);
    ctx.static_flag = true;
    let a = addr(8);
    assert_eq!(register(&mut ctx, a, "s", 1), Err(VmError::MutableCallInStaticContext));
    // the state writes happened before the event was refused
    assert_eq!(is_signer(a, &mut ctx), Ok(true));
    assert!(ctx.logs.is_empty());
}

#[test]
fn register_signer_in_reentrant_call() {
    let mut ctx = InternalRefContext::new(0);
    ctx.in_reentrancy = true;
    assert_eq!(register(&mut ctx, addr(9), "s", 1), Err(VmError::MutableCallInStaticContext));
}

#[test]
fn reregistration_does_not_append_twice() {
    let mut ctx = InternalRefContext::new(0);
    let a = addr(10);
    register(&mut ctx, a, "one", 1).unwrap();
    register(&mut ctx, a, "two", 2).unwrap();
    register(&mut ctx, addr(11), "three", 3).unwrap();
    let all = all_signers_slot();
    assert_eq!(ctx.state.get_system_storage(&all), u(2));
    let d = get_signer(vec![a], &mut ctx).unwrap();
    assert_eq!(d[0].1, "two");
    assert_eq!(d[0].2 .0, u(2));
}

#[test]
fn update_socket_by_signer() {
    let mut ctx = InternalRefContext::new(0);
    let a = addr(12);
    register(&mut ctx, a, "old-host:1", 1).unwrap();
    let socket = "new-host.example.org:32005".to_string();
    assert_eq!(update_socket(socket.clone(), &params(a), &mut ctx), Ok(()));
    let d = get_signer(vec![a], &mut ctx).unwrap();
    assert_eq!(d[0].1, socket);
    // the keys are untouched
    let (g1, g2) = keys(1);
    assert_eq!((d[0].2 .0, d[0].2 .1), (g1.0, g1.1));
    assert_eq!((d[0].3 .0, d[0].3 .1), (g2.0, g2.1));
    let log = ctx.logs.last().unwrap();
    let sig = keccak_hash::keccak("SocketUpdated(address,string)".as_bytes());
    assert_eq!(log.topics, vec![U256::from_be_bytes(&sig.0), a.to_u256()]);
    let mut data = word(32);
    data.extend(word(socket.len() as u128));
    data.extend(socket.as_bytes());
    data.extend(vec![0u8; (32 - socket.len() % 32) % 32]);
    assert_eq!(data.len(), 96);
    assert_eq!(log.data, data);
}

#[test]
fn update_socket_to_empty() {
    let mut ctx = InternalRefContext::new(0);
    let a = addr(13);
    register(&mut ctx, a, "host", 1).unwrap();
    update_socket(String::new(), &params(a), &mut ctx).unwrap();
    let d = get_signer(vec![a], &mut ctx).unwrap();
    assert_eq!(d[0].1, "");
    let log = ctx.logs.last().unwrap();
    let mut data = word(32);
    data.extend(word(0));
    assert_eq!(log.data, data);
}

#[test]
fn update_socket_refusals() {
    let mut ctx = InternalRefContext::new(0);
    let a = addr(14);
    assert_eq!(
        update_socket("x".to_string(), &params(a), &mut ctx),
        Err(VmError::SenderNotRegisteredSigner)
    );
    register(&mut ctx, a, "host", 1).unwrap();
    assert_eq!(update_socket("y".repeat(65), &params(a), &mut ctx), Err(VmError::SocketTooLong));
    let d = get_signer(vec![a], &mut ctx).unwrap();
    assert_eq!(d[0].1, "host");
}

#[test]
fn stored_socket_out_of_range_or_invalid() {
    let mut ctx = InternalRefContext::new(0);
    let a = addr(15);
    register(&mut ctx, a, "host", 1).unwrap();
    let k = signer_socket_slot(&a);
    // a stored length over 64 reads as an empty socket
    ctx.state.set_system_storage(k.add_u64(2), u(65));
    assert_eq!(get_signer(vec![a], &mut ctx).unwrap()[0].1, "");
    // invalid UTF-8 is replaced
    let mut bytes = vec![0xffu8, b'o', b'k'];
    bytes.extend(vec![0u8; 29]);
    ctx.state.set_system_storage(k, U256::from_be_bytes(&bytes));
    ctx.state.set_system_storage(k.add_u64(2), u(3));
    assert_eq!(get_signer(vec![a], &mut ctx).unwrap()[0].1, "\u{FFFD}ok");
}

#[test]
fn register_next_epoch_marks_next_epoch() {
    let mut ctx = InternalRefContext::new(0);
    let a = addr(16);
    assert_eq!(
        register_next_epoch(G1Point(u(0), u(0)), &params(a), &mut ctx),
        Err(VmError::SenderNotRegisteredSigner)
    );
    register(&mut ctx, a, "h", 1).unwrap();
    ctx.state.set_system_storage(da_contract_base_slot(), u(4));
    assert_eq!(register_next_epoch(G1Point(u(0), u(0)), &params(a), &mut ctx), Ok(()));
    assert_eq!(registered_epoch((a, u(5)), &mut ctx), Ok(true));
    assert_eq!(registered_epoch((a, u(4)), &mut ctx), Ok(false));
    assert_eq!(registered_epoch((addr(17), u(5)), &mut ctx), Ok(false));
}

#[test]
fn set_epoch_blocks_stores_value() {
    let mut ctx = InternalRefContext::new(0);
    assert_eq!(set_epoch_blocks(u(300), &params(addr(1)), &mut ctx), Ok(()));
    assert_eq!(ctx.state.get_system_storage(&epoch_blocks_slot()), u(300));
}

#[test]
fn is_contract_address_checks_type_bits() {
    let ctx = InternalRefContext::new(0);
    assert_eq!(ctx.is_contract_address(&Address { hi: 0x8000_0000, lo: 1 }), Ok(true));
    assert_eq!(ctx.is_contract_address(&Address { hi: 0x8fff_ffff, lo: 0 }), Ok(true));
    assert_eq!(ctx.is_contract_address(&Address { hi: 0x1000_0000, lo: 1 }), Ok(false));
    assert_eq!(ctx.is_contract_address(&Address { hi: 0x9000_0000, lo: 1 }), Ok(false));
}

#[test]
fn register_signer_refuses_bad_signature() {
    let mut ctx = InternalRefContext::new(0);
    let a = addr(20);
    let (g1, g2) = keys(3);
    let attempts = vec![
        // signed with another secret
        (g2, signature(a, 4)),
        // another signer's signature
        (g2, signature(addr(21), 3)),
        // not a curve point
        (g2, G1Point(u(0), u(0))),
        (g2, G1Point(u(1), u(3))),
        // a coordinate outside the field
        (g2, G1Point(U256 { hi: u128::MAX, lo: 0 }, u(2))),
        // a key that is not a G2 point
        (G2Point([u(1), u(2)], [u(3), u(4)]), signature(a, 3)),
    ];
    for (key, sig) in attempts {
        let r = register_signer((SignerDetail(a, "h".to_string(), g1, key), sig), &params(a), &mut ctx);
        assert_eq!(r, Err(VmError::InvalidSignature));
        assert_eq!(is_signer(a, &mut ctx), Ok(false));
        assert_eq!(ctx.state.get_system_storage(&signer_pk_g1_x_slot(&a)), U256::zero());
        assert!(ctx.logs.is_empty());
    }
    let r = register_signer((SignerDetail(a, "h".to_string(), g1, g2), signature(a, 3)), &params(a), &mut ctx);
    assert_eq!(r, Ok(()));
}

#[test]
fn message_point_is_a_curve_point() {
    for n in 1..6u128 {
        let (x, y) = hash_to_g1(&addr(n)).unwrap();
        assert!(AffineG1::new(word_fq(x), word_fq(y)).is_ok());
    }
    assert_ne!(hash_to_g1(&addr(1)), hash_to_g1(&addr(2)));
}
