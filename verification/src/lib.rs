//! Verified storage logic of the data-availability (DA) system contract:
//! slot layout, signer registry, epoch quorums and the events it emits.

pub mod bytes;
pub mod uint;
pub mod keccak;
pub mod layout;
pub mod storage;
pub mod context;
pub mod bn;
pub mod signature;
pub mod abi;
pub mod da_views;
pub mod socket;
pub mod da_writes;
pub mod da_epoch;
pub mod da_agg;
pub mod fits;
pub mod table;
pub mod dispatch;
pub mod laws;
