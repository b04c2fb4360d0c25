use da_contract::bytes::{u128_from_be, u128_push_be};
use da_contract::uint::{Address, U256};

#[test]
fn u256_bytes_roundtrip() {
    let v = U256 { hi: 5, lo: 7 };
    let b = v.to_be_bytes();
    assert_eq!(b.len(), 32);
    assert_eq!(b[15], 5);
    assert_eq!(b[31], 7);
    assert_eq!(b[0], 0);
    assert_eq!(U256::from_be_bytes(&b), v);
}

#[test]
fn u256_arithmetic() {
    let max_lo = U256 { hi: 0, lo: u128::MAX };
    let one = U256::one();
    assert!(max_lo.add_fits(&one));
    assert_eq!(max_lo.add(&one), U256 { hi: 1, lo: 0 });
    let max = U256 { hi: u128::MAX, lo: u128::MAX };
    assert!(!max.add_fits(&one));
    assert!(max.add_fits(&U256::zero()));
    assert!(one.lt(&max));
    assert!(!max.lt(&one));
    assert!(U256 { hi: 0, lo: 9 }.lt(&U256 { hi: 1, lo: 0 }));
    assert_eq!(U256 { hi: 3, lo: (1u128 << 64) + 42 }.low_u64(), 42);
    assert_eq!(U256::from_u64(77).as_usize(), 77);
    assert!(U256::zero().is_zero());
    assert!(!one.is_zero());
    assert_eq!(U256::from_u64(5).add_u64(6), U256::from_u64(11));
}

#[test]
fn u128_encoding() {
    let mut out = vec![9u8];
    u128_push_be(0x0102_0304_0506_0708_090a_0b0c_0d0e_0f10, &mut out);
    assert_eq!(out.len(), 17);
    assert_eq!(out[0], 9);
    assert_eq!(out[1], 1);
    assert_eq!(out[16], 0x10);
    assert_eq!(u128_from_be(&out, 1, 16), 0x0102_0304_0506_0708_090a_0b0c_0d0e_0f10);
    assert_eq!(u128_from_be(&out, 1, 4), 0x0102_0304);
}

#[test]
fn address_conversions() {
    let mut bytes = [0u8; 20];
    for (i, b) in bytes.iter_mut().enumerate() {
        *b = (i + 1) as u8;
    }
    let a = Address::from_slice(&bytes);
    assert_eq!(a.hi, 0x0102_0304);
    assert_eq!(a.as_bytes(), bytes.to_vec());
    let w = a.to_u256();
    assert_eq!(w.hi, 0x0102_0304);
    assert_eq!(Address::from_u256_low(&w), a);
    // the high 12 bytes are dropped
    let wide = U256 { hi: u128::MAX, lo: 5 };
    assert_eq!(Address::from_u256_low(&wide), Address { hi: u32::MAX, lo: 5 });
    assert!(a.eq(&a));
    assert!(!a.eq(&Address::zero()));
}
