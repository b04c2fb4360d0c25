//! Storage layout of the DA contract, following the Solidity convention:
//!
//! - slot `base + 0`: current epoch
//! - slot `base + 1`: `mapping(uint256 epoch => uint256 count)` quorum counts
//! - slot `base + 2`: `mapping(address => bool)` registered signers
//! - slot `base + 3`: `mapping(address => string)` sockets (3 slots: 2 data, 1 length)
//! - slot `base + 4`: `mapping(address => mapping(uint256 => bool))` epoch registrations
//! - slot `base + 5`: `mapping(address => uint256[6])` public keys (G1 x, y; G2 x0, x1, y0, y1)
//! - slot `base + 6`: `mapping(uint256 => mapping(uint256 => address[]))` epoch quorums
//! - slot `base + 7`: `address[]` all signers
//! - slot `base + 16`: epoch length in blocks
//!
//! where `base` is the Keccak-256 digest of the contract's address.

use vstd::prelude::*;
use crate::bytes::{be_bytes, lemma_be_bytes_props, lemma_pow256_values};
use crate::keccak::{hash_nat, keccak_u256};
use crate::uint::{lemma_u256_bound, two256, Address, U256};

verus! {

/// The address at which the DA contract is installed.
pub open spec fn da_address() -> nat {
    0x0888_0000_0000_0000_0000_0000_0000_0000_0000_0009nat
}

/// The address at which the DA contract is installed.
pub fn da_contract_address() -> (r: Address)
    ensures
        r@ == da_address(),
{
    Address { hi: 0x0888_0000, lo: 9 }
}

/// The 32-byte big-endian encoding of a 256-bit number.
pub fn u256_to_array(v: &U256) -> (r: Vec<u8>)
    ensures
        r@ == be_bytes(v@, 32),
        r@.len() == 32,
{
    proof {
        lemma_u256_bound(*v);
        lemma_pow256_values();
        lemma_be_bytes_props(v@, 32);
    }
    v.to_be_bytes()
}

/// Slot of `mapping[key]` for a mapping declared at slot `base`:
/// `keccak256(key ++ base)`, both as 32-byte words.
pub open spec fn mapping_key(base: nat, key: nat) -> nat {
    hash_nat(be_bytes(key, 32) + be_bytes(base, 32))
}

/// First data slot of a dynamic array whose length sits at `slot`: `keccak256(slot)`.
pub open spec fn dynamic_key(slot: nat) -> nat {
    hash_nat(be_bytes(slot, 32))
}

/// Slot of `mapping[key]` for a mapping declared at slot `base`.
pub fn mapping_slot(base: &U256, key: &U256) -> (r: U256)
    ensures
        r@ == mapping_key(base@, key@),
{
    let mut data = u256_to_array(key);
    let b = u256_to_array(base);
    let mut i: usize = 0;
    let ghost k = data@;
    while i < 32
        invariant
            i <= 32,
            b@.len() == 32,
            data@ == k + b@.subrange(0, i as int),
        decreases 32 - i,
    {
        data.push(b[i]);
        i = i + 1;
        assert(data@ =~= k + b@.subrange(0, i as int));
    }
    assert(b@.subrange(0, 32) =~= b@);
    keccak_u256(data.as_slice())
}

/// First data slot of the dynamic array whose length sits at `slot`.
pub fn dynamic_slot(slot: &U256) -> (r: U256)
    ensures
        r@ == dynamic_key(slot@),
{
    let data = u256_to_array(slot);
    keccak_u256(data.as_slice())
}

/// Root of the contract's storage: the digest of its 20-byte address.
pub open spec fn base_key() -> nat {
    hash_nat(be_bytes(da_address(), 20))
}

/// Whether `base + k` stays a 256-bit number.
pub open spec fn base_fits(k: nat) -> bool {
    base_key() + k < two256()
}

pub open spec fn quorum_count_key(epoch: nat) -> nat {
    mapping_key(base_key() + 1, epoch)
}

pub open spec fn is_signer_key(signer: nat) -> nat {
    mapping_key(base_key() + 2, signer)
}

pub open spec fn socket_key(signer: nat) -> nat {
    mapping_key(base_key() + 3, signer)
}

pub open spec fn registration_key(signer: nat, epoch: nat) -> nat {
    mapping_key(mapping_key(base_key() + 4, signer), epoch)
}

pub open spec fn pubkey_key(signer: nat) -> nat {
    mapping_key(base_key() + 5, signer)
}

pub open spec fn quorum_list_key(epoch: nat, quorum_id: nat) -> nat {
    mapping_key(mapping_key(base_key() + 6, epoch), quorum_id)
}

pub open spec fn all_signers_key() -> nat {
    base_key() + 7
}

pub open spec fn epoch_blocks_key() -> nat {
    base_key() + 16
}

/// The root slot of the contract's storage.
pub fn da_contract_base_slot() -> (r: U256)
    ensures
        r@ == base_key(),
{
    let a = da_contract_address();
    let bytes = a.as_bytes();
    keccak_u256(bytes.as_slice())
}

/// `base + k`, for the offsets of the contract's top-level slots.
fn base_plus(k: u64) -> (r: U256)
    requires
        base_fits(k as nat),
    ensures
        r@ == base_key() + k,
{
    da_contract_base_slot().add_u64(k)
}

/// Storage key for the quorum count of `epoch`.
pub fn quorum_count_slot(epoch: &U256) -> (r: U256)
    requires
        base_fits(1),
    ensures
        r@ == quorum_count_key(epoch@),
{
    mapping_slot(&base_plus(1), epoch)
}

/// Storage key of "`signer` registered for `epoch`".
pub fn signer_registration_slot(signer: &Address, epoch: &U256) -> (r: U256)
    requires
        base_fits(4),
    ensures
        r@ == registration_key(signer@, epoch@),
{
    let signer_slot = mapping_slot(&base_plus(4), &signer.to_u256());
    mapping_slot(&signer_slot, epoch)
}

/// Storage key of "`signer` is a registered signer".
pub fn is_signer_slot(signer: &Address) -> (r: U256)
    requires
        base_fits(2),
    ensures
        r@ == is_signer_key(signer@),
{
    mapping_slot(&base_plus(2), &signer.to_u256())
}

/// First of the three storage keys of `signer`'s socket.
pub fn signer_socket_slot(signer: &Address) -> (r: U256)
    requires
        base_fits(3),
    ensures
        r@ == socket_key(signer@),
{
    mapping_slot(&base_plus(3), &signer.to_u256())
}

/// First of the six storage keys of `signer`'s public keys.
pub fn signer_pubkey_base_slot(signer: &Address) -> (r: U256)
    requires
        base_fits(5),
    ensures
        r@ == pubkey_key(signer@),
{
    mapping_slot(&base_plus(5), &signer.to_u256())
}

/// Storage key `i` (`i < 6`) of `signer`'s public keys: G1 x, G1 y, G2 x0, G2 x1, G2 y0, G2 y1.
pub fn signer_pk_slot(signer: &Address, i: u64) -> (r: U256)
    requires
        base_fits(5),
        i < 6,
        pubkey_key(signer@) + i < two256(),
    ensures
        r@ == pubkey_key(signer@) + i,
{
    signer_pubkey_base_slot(signer).add_u64(i)
}

/// Storage key of `signer`'s G1 public key, x coordinate.
pub fn signer_pk_g1_x_slot(signer: &Address) -> (r: U256)
    requires
        base_fits(5),
    ensures
        r@ == pubkey_key(signer@),
{
    signer_pubkey_base_slot(signer)
}

/// Storage key of `signer`'s G1 public key, y coordinate.
pub fn signer_pk_g1_y_slot(signer: &Address) -> (r: U256)
    requires
        base_fits(5),
        pubkey_key(signer@) + 1 < two256(),
    ensures
        r@ == pubkey_key(signer@) + 1,
{
    signer_pk_slot(signer, 1)
}

/// Storage key of `signer`'s G2 public key, x coordinate, real part.
pub fn signer_pk_g2_x0_slot(signer: &Address) -> (r: U256)
    requires
        base_fits(5),
        pubkey_key(signer@) + 2 < two256(),
    ensures
        r@ == pubkey_key(signer@) + 2,
{
    signer_pk_slot(signer, 2)
}

/// Storage key of `signer`'s G2 public key, x coordinate, imaginary part.
pub fn signer_pk_g2_x1_slot(signer: &Address) -> (r: U256)
    requires
        base_fits(5),
        pubkey_key(signer@) + 3 < two256(),
    ensures
        r@ == pubkey_key(signer@) + 3,
{
    signer_pk_slot(signer, 3)
}

/// Storage key of `signer`'s G2 public key, y coordinate, real part.
pub fn signer_pk_g2_y0_slot(signer: &Address) -> (r: U256)
    requires
        base_fits(5),
        pubkey_key(signer@) + 4 < two256(),
    ensures
        r@ == pubkey_key(signer@) + 4,
{
    signer_pk_slot(signer, 4)
}

/// Storage key of `signer`'s G2 public key, y coordinate, imaginary part.
pub fn signer_pk_g2_y1_slot(signer: &Address) -> (r: U256)
    requires
        base_fits(5),
        pubkey_key(signer@) + 5 < two256(),
    ensures
        r@ == pubkey_key(signer@) + 5,
{
    signer_pk_slot(signer, 5)
}

/// Storage key of the length of the array of all signers.
pub fn all_signers_slot() -> (r: U256)
    requires
        base_fits(7),
    ensures
        r@ == all_signers_key(),
{
    base_plus(7)
}

/// Storage key of the epoch length in blocks.
pub fn epoch_blocks_slot() -> (r: U256)
    requires
        base_fits(16),
    ensures
        r@ == epoch_blocks_key(),
{
    base_plus(16)
}

/// Storage key of the quorum list (its length) of `(epoch, quorum_id)`.
pub fn quorum_list_slot(epoch: &U256, quorum_id: &U256) -> (r: U256)
    requires
        base_fits(6),
    ensures
        r@ == quorum_list_key(epoch@, quorum_id@),
{
    let quorum_slot = mapping_slot(&base_plus(6), epoch);
    mapping_slot(&quorum_slot, quorum_id)
}

} // verus!
