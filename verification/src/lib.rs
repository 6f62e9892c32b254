//! Resolution of signing identities for a set of account addresses.
//!
//! A caller supplies the addresses an operation must act for, together with a
//! priority-ordered collection of credential sources (raw private keys,
//! encrypted keystores, mnemonic phrases, interactive prompts, hardware
//! devices, pre-instantiated wallets). This library holds the verified core:
//! per-source configuration validation and work-list planning, binding of
//! identities to a chain id, and the matching algorithm that claims each
//! target address for the first source that produces it.
//!
//! The collaborators that actually unlock secrets (file reads, secure
//! prompts, device transports, the network query for the chain id) live
//! outside the library and hand it plain values.

pub mod address;
pub mod address_set;
pub mod engine;
pub mod error;
pub mod identity;
pub mod laws;
pub mod wallet;
pub mod wallet_map;
