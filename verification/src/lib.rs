//! Core of a trust boundary between a public ledger and off-chain
//! trusted-execution workers: topic-addressed, signed and sequenced
//! messages; a confidential channel built from ECDH key agreement and
//! AES-256-GCM sealing; and a deterministic contract execution model with
//! a ledger (asset-transfer) contract as its reference instance.

pub mod aead;
pub mod alist;
pub mod assets;
pub mod channel;
pub mod codec;
pub mod contracts;
pub mod mq;
pub mod types;
