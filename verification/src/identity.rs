//! Signing identities and chain binding.
//!
//! An identity stands for an unlocked credential: the account address it can
//! sign for, plus the chain id it has been bound to, if any. The secret
//! material itself stays with the collaborator that unlocked it; the engine
//! only needs the address and the binding state.

use vstd::prelude::*;
use crate::address::Address;

verus! {

/// An unlocked credential for one account address.
///
/// Freshly produced identities are unbound (`chain_id` is `None`); the
/// resolution engine binds each one to the active chain id before matching.
#[derive(Clone, Copy, Debug)]
pub struct SigningIdentity {
    pub address: Address,
    pub chain_id: Option<u64>,
}

impl SigningIdentity {
    /// Creates an unbound identity for the given address.
    pub fn new(address: Address) -> (r: SigningIdentity)
        ensures
            r == (SigningIdentity { address, chain_id: None::<u64> }),
    {
        SigningIdentity { address, chain_id: None }
    }

    /// The address this identity signs for.
    pub fn address(&self) -> (r: Address)
        ensures
            r == self.address,
    {
        self.address
    }

    /// Whether the identity has been bound to a chain id.
    pub open spec fn is_bound(self) -> bool {
        self.chain_id is Some
    }

    /// The identity after binding to `chain`: same address, chain id set.
    pub open spec fn spec_with_chain_id(self, chain: u64) -> SigningIdentity {
        SigningIdentity { address: self.address, chain_id: Some(chain) }
    }

    /// Binds the identity to a chain id. Binding is a pure, non-failing
    /// transformation: it never changes the address.
    pub fn with_chain_id(self, chain: u64) -> (r: SigningIdentity)
        ensures
            r == self.spec_with_chain_id(chain),
    {
        SigningIdentity { address: self.address, chain_id: Some(chain) }
    }
}

} // verus!
