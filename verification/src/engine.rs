//! The matching engine.
//!
//! Identities arrive in priority order: first the sources that were
//! evaluated first. Each identity is bound to the chain id and either claims
//! its address (removing it from the target set and entering the resolved
//! map) or is recorded as unused. The instant the target set becomes empty,
//! resolution succeeds and nothing further is consumed.

use vstd::prelude::*;
use crate::address::Address;
use crate::address_set::AddressSet;
use crate::error::WalletError;
use crate::identity::SigningIdentity;
use crate::wallet_map::{key_seq, WalletMap};

verus! {

/// The state of one resolution call: the targets still unclaimed, the
/// claimed (address, bound identity) pairs in claim order, and the addresses
/// of unlocked identities that matched no target, in discovery order.
pub struct ResolveState {
    pub targets: Set<Address>,
    pub claimed: Seq<(Address, SigningIdentity)>,
    pub unused: Seq<Address>,
}

impl ResolveState {
    /// The state a resolution call starts from.
    pub open spec fn init(targets: Set<Address>) -> ResolveState {
        ResolveState {
            targets,
            claimed: Seq::<(Address, SigningIdentity)>::empty(),
            unused: Seq::<Address>::empty(),
        }
    }

    /// Success terminal state: no target left unclaimed.
    pub open spec fn done(self) -> bool {
        self.targets =~= Set::<Address>::empty()
    }
}

/// One identity is bound to the chain id and matched: a targeted address is
/// claimed, any other address is recorded as unused.
pub open spec fn step_state(s: ResolveState, w: SigningIdentity, chain: u64) -> ResolveState {
    if s.targets.contains(w.address) {
        ResolveState {
            targets: s.targets.remove(w.address),
            claimed: s.claimed.push((w.address, w.spec_with_chain_id(chain))),
            unused: s.unused,
        }
    } else {
        ResolveState { targets: s.targets, claimed: s.claimed, unused: s.unused.push(w.address) }
    }
}

/// One source's identities are matched in emission order, stopping the
/// instant the target set becomes empty.
pub open spec fn run_wallets(s: ResolveState, ws: Seq<SigningIdentity>, chain: u64) -> ResolveState
    decreases ws.len(),
{
    if s.done() || ws.len() == 0 {
        s
    } else {
        run_wallets(step_state(s, ws[0], chain), ws.drop_first(), chain)
    }
}

/// The sources' outputs are matched in priority order, stopping the instant
/// the target set becomes empty: later sources are then never consumed.
pub open spec fn run_sources(
    s: ResolveState,
    srcs: Seq<Seq<SigningIdentity>>,
    chain: u64,
) -> ResolveState
    decreases srcs.len(),
{
    if s.done() || srcs.len() == 0 {
        s
    } else {
        run_sources(run_wallets(s, srcs[0], chain), srcs.drop_first(), chain)
    }
}

/// The incremental matching engine. A driver asks `is_resolved` before
/// evaluating each further source, feeds it each source's identities, and
/// finishes with either the resolved map or the failure diagnostic.
pub struct Resolver {
    pub chain: u64,
    pub addresses: AddressSet,
    pub local_wallets: WalletMap,
    pub unused_wallets: Vec<Address>,
}

impl Resolver {
    /// The abstract state this engine is in.
    pub open spec fn state(self) -> ResolveState {
        ResolveState {
            targets: self.addresses@,
            claimed: self.local_wallets.entries@,
            unused: self.unused_wallets@,
        }
    }

    /// Well-formed: the collections are well-formed, and no claimed or
    /// unused address is still a target.
    pub open spec fn wf(self) -> bool {
        &&& self.addresses.wf()
        &&& self.local_wallets.wf()
        &&& (forall|a: Address|
            #[trigger] self.local_wallets@.dom().contains(a) ==> !self.addresses@.contains(a))
        &&& (forall|i: int|
            0 <= i < self.unused_wallets@.len() ==> !self.addresses@.contains(
                #[trigger] self.unused_wallets@[i],
            ))
    }

    /// Starts a resolution call for the given targets on the given chain.
    pub fn new(chain: u64, addresses: AddressSet) -> (r: Resolver)
        requires
            addresses.wf(),
        ensures
            r.wf(),
            r.chain == chain,
            r.state() == ResolveState::init(addresses@),
    {
        let r = Resolver {
            chain,
            addresses,
            local_wallets: WalletMap::new(),
            unused_wallets: Vec::new(),
        };
        proof {
            assert(r.local_wallets@ =~= Map::<Address, SigningIdentity>::empty());
        }
        r
    }

    /// Whether every target has been claimed; a driver must not evaluate
    /// any further source once this returns true.
    pub fn is_resolved(&self) -> (r: bool)
        ensures
            r == self.state().done(),
    {
        self.addresses.is_empty()
    }

    /// Binds one identity to the chain id and matches it.
    pub fn feed(&mut self, w: SigningIdentity)
        requires
            old(self).wf(),
        ensures
            final(self).wf(),
            final(self).chain == old(self).chain,
            final(self).state() == step_state(old(self).state(), w, old(self).chain),
    {
        let addr = w.address();
        let bound = w.with_chain_id(self.chain);
        if self.addresses.contains(addr) {
            proof {
                assert(!self.local_wallets@.dom().contains(addr));
            }
            self.addresses.remove(addr);
            self.local_wallets.insert(addr, bound);
        } else {
            self.unused_wallets.push(addr);
        }
    }

    /// Matches one source's identities in emission order, stopping the
    /// instant the target set becomes empty.
    pub fn feed_source(&mut self, ws: &Vec<SigningIdentity>)
        requires
            old(self).wf(),
        ensures
            final(self).wf(),
            final(self).chain == old(self).chain,
            final(self).state() == run_wallets(old(self).state(), ws@, old(self).chain),
    {
        let mut i: usize = 0;
        proof {
            assert(ws@.subrange(0, ws@.len() as int) =~= ws@);
        }
        while i < ws.len()
            invariant
                0 <= i <= ws.len(),
                self.wf(),
                self.chain == old(self).chain,
                run_wallets(self.state(), ws@.subrange(i as int, ws@.len() as int), self.chain)
                    == run_wallets(old(self).state(), ws@, old(self).chain),
            decreases ws.len() - i,
        {
            if self.addresses.is_empty() {
                proof {
                    assert(self.state().done());
                    assert(run_wallets(
                        self.state(),
                        ws@.subrange(i as int, ws@.len() as int),
                        self.chain,
                    ) == self.state());
                }
                return ;
            }
            let ghost pre = self.state();
            let ghost rest = ws@.subrange(i as int, ws@.len() as int);
            let w = ws[i];
            self.feed(w);
            proof {
                assert(rest[0] == ws@[i as int]);
                assert(rest.drop_first() =~= ws@.subrange(i + 1, ws@.len() as int));
                assert(run_wallets(pre, rest, self.chain) == run_wallets(
                    step_state(pre, w, self.chain),
                    rest.drop_first(),
                    self.chain,
                ));
            }
            i = i + 1;
        }
        proof {
            assert(ws@.subrange(ws@.len() as int, ws@.len() as int).len() == 0);
        }
    }

    /// Ends the call: the resolved map if every target was claimed, else the
    /// failure diagnostic carrying the unclaimed targets and every unlocked
    /// wallet address (the unused ones first, then the claimed ones).
    pub fn finish(self) -> (r: Result<WalletMap, WalletError>)
        requires
            self.wf(),
        ensures
            match r {
                Ok(m) => {
                    &&& self.state().done()
                    &&& m.wf()
                    &&& m.entries@ == self.state().claimed
                },
                Err(e) => {
                    &&& !self.state().done()
                    &&& (e matches WalletError::UnresolvedAddresses { remaining, unused }
                        && remaining.wf() && remaining@ == self.state().targets && unused@
                        == self.state().unused + key_seq(self.state().claimed))
                },
            },
    {
        if self.addresses.is_empty() {
            Ok(self.local_wallets)
        } else {
            let Resolver { chain: _, addresses, local_wallets, unused_wallets } = self;
            let mut unused = unused_wallets;
            local_wallets.push_keys(&mut unused);
            Err(WalletError::UnresolvedAddresses { remaining: addresses, unused })
        }
    }
}

} // verus!
