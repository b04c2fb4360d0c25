use da_contract::layout::{
    all_signers_slot, da_contract_address, da_contract_base_slot, dynamic_slot, epoch_blocks_slot,
    is_signer_slot, mapping_slot, quorum_count_slot, quorum_list_slot, signer_pk_g1_x_slot,
    signer_pk_g1_y_slot, signer_pk_g2_y1_slot, signer_pubkey_base_slot, signer_registration_slot,
    signer_socket_slot, u256_to_array,
};
use da_contract::uint::{Address, U256};

fn hash(data: &[u8]) -> U256 {
    U256::from_be_bytes(&keccak_hash::keccak(data).0)
}

fn cat(a: &U256, b: &U256) -> Vec<u8> {
    let mut v = u256_to_array(a);
    v.extend_from_slice(&u256_to_array(b));
    v
}

#[test]
fn base_slot_is_digest_of_contract_address() {
    let addr = da_contract_address();
    let mut bytes = vec![0x08u8, 0x88];
    bytes.extend_from_slice(&[0u8; 17]);
    bytes.push(0x09);
    assert_eq!(addr.as_bytes(), bytes);
    assert_eq!(da_contract_base_slot(), hash(&bytes));
}

#[test]
fn mapping_and_dynamic_slots_follow_solidity() {
    let base = U256::from_u64(3);
    let key = U256::from_u64(0x1234);
    let m = mapping_slot(&base, &key);
    assert_eq!(m, hash(&cat(&key, &base)));
    assert_ne!(m, base);
    let d = dynamic_slot(&base);
    assert_eq!(d, hash(&u256_to_array(&base)));
    assert_ne!(d, base);
}

#[test]
fn contract_slots() {
    let base = da_contract_base_slot();
    let signer = Address { hi: 0, lo: 0xabcd };
    let epoch = U256::from_u64(7);
    assert_eq!(quorum_count_slot(&epoch), mapping_slot(&base.add_u64(1), &epoch));
    assert_eq!(is_signer_slot(&signer), mapping_slot(&base.add_u64(2), &signer.to_u256()));
    assert_eq!(signer_socket_slot(&signer), mapping_slot(&base.add_u64(3), &signer.to_u256()));
    assert_eq!(
        signer_registration_slot(&signer, &epoch),
        mapping_slot(&mapping_slot(&base.add_u64(4), &signer.to_u256()), &epoch)
    );
    let pk = signer_pubkey_base_slot(&signer);
    assert_eq!(pk, mapping_slot(&base.add_u64(5), &signer.to_u256()));
    assert_eq!(signer_pk_g1_x_slot(&signer), pk);
    assert_eq!(signer_pk_g1_y_slot(&signer), pk.add_u64(1));
    assert_eq!(signer_pk_g2_y1_slot(&signer), pk.add_u64(5));
    assert_eq!(
        quorum_list_slot(&epoch, &U256::zero()),
        mapping_slot(&mapping_slot(&base.add_u64(6), &epoch), &U256::zero())
    );
    assert_eq!(all_signers_slot(), base.add_u64(7));
    assert_eq!(epoch_blocks_slot(), base.add_u64(16));
}
