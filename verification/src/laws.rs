//! General properties of the matching engine, proved once and for all.

use vstd::prelude::*;
use crate::address::Address;
use crate::engine::{run_sources, run_wallets, step_state, ResolveState};
use crate::identity::SigningIdentity;
use crate::wallet_map::key_seq;

verus! {

/// The addresses a list of identities can claim.
pub open spec fn wallet_addrs(ws: Seq<SigningIdentity>) -> Set<Address> {
    ws.map_values(|w: SigningIdentity| w.address).to_set()
}

/// The addresses emitted across a list of sources.
pub open spec fn emitted(srcs: Seq<Seq<SigningIdentity>>) -> Set<Address>
    decreases srcs.len(),
{
    if srcs.len() == 0 {
        Set::<Address>::empty()
    } else {
        wallet_addrs(srcs[0]) + emitted(srcs.drop_first())
    }
}

/// The addresses claimed so far.
pub open spec fn claimed_addrs(s: ResolveState) -> Set<Address> {
    key_seq(s.claimed).to_set()
}

proof fn lemma_wallet_addrs_cons(ws: Seq<SigningIdentity>)
    requires
        ws.len() > 0,
    ensures
        wallet_addrs(ws) =~= wallet_addrs(ws.drop_first()).insert(ws[0].address),
{
    let m = ws.map_values(|w: SigningIdentity| w.address);
    let md = ws.drop_first().map_values(|w: SigningIdentity| w.address);
    assert forall|x: Address| wallet_addrs(ws).contains(x) <==> wallet_addrs(
        ws.drop_first(),
    ).insert(ws[0].address).contains(x) by {
        if m.contains(x) {
            let k = choose|k: int| 0 <= k < m.len() && m[k] == x;
            if k > 0 {
                assert(md[k - 1] == x);
            }
        }
        if md.contains(x) {
            let k = choose|k: int| 0 <= k < md.len() && md[k] == x;
            assert(m[k + 1] == x);
        }
        if x == ws[0].address {
            assert(m[0] == x);
        }
    }
}

proof fn lemma_step_targets(s: ResolveState, w: SigningIdentity, chain: u64)
    ensures
        step_state(s, w, chain).targets =~= s.targets.remove(w.address),
{
}

/// A run over one source claims from the targets exactly the addresses the
/// source emits: what remains is the set difference.
pub proof fn lemma_run_wallets_targets(s: ResolveState, ws: Seq<SigningIdentity>, chain: u64)
    ensures
        run_wallets(s, ws, chain).targets =~= s.targets.difference(wallet_addrs(ws)),
    decreases ws.len(),
{
    if s.done() {
    } else if ws.len() == 0 {
        assert(s.targets =~= s.targets.difference(wallet_addrs(ws)));
    } else {
        lemma_run_wallets_targets(step_state(s, ws[0], chain), ws.drop_first(), chain);
        lemma_step_targets(s, ws[0], chain);
        lemma_wallet_addrs_cons(ws);
        assert(run_wallets(s, ws, chain).targets =~= s.targets.remove(ws[0].address).difference(
            wallet_addrs(ws.drop_first()),
        ));
    }
}

/// A full run claims from the targets exactly the addresses the sources
/// emit, whichever sources they come from.
pub proof fn lemma_run_sources_targets(s: ResolveState, srcs: Seq<Seq<SigningIdentity>>, chain: u64)
    ensures
        run_sources(s, srcs, chain).targets =~= s.targets.difference(emitted(srcs)),
    decreases srcs.len(),
{
    if s.done() {
    } else if srcs.len() == 0 {
        assert(s.targets =~= s.targets.difference(emitted(srcs)));
    } else {
        lemma_run_wallets_targets(s, srcs[0], chain);
        lemma_run_sources_targets(run_wallets(s, srcs[0], chain), srcs.drop_first(), chain);
    }
}

proof fn lemma_key_seq_push(c: Seq<(Address, SigningIdentity)>, p: (Address, SigningIdentity))
    ensures
        key_seq(c.push(p)).to_set() =~= key_seq(c).to_set().insert(p.0),
{
    assert forall|x: Address| key_seq(c.push(p)).to_set().contains(x) <==> key_seq(
        c,
    ).to_set().insert(p.0).contains(x) by {
        if key_seq(c.push(p)).contains(x) {
            let k = choose|k: int| 0 <= k < c.len() + 1 && key_seq(c.push(p))[k] == x;
            if k < c.len() {
                assert(key_seq(c)[k] == x);
            }
        }
        if key_seq(c).contains(x) {
            let k = choose|k: int| 0 <= k < c.len() && key_seq(c)[k] == x;
            assert(key_seq(c.push(p))[k] == x);
        }
        if x == p.0 {
            assert(key_seq(c.push(p))[c.len() as int] == x);
        }
    }
}

proof fn lemma_step_partition(s: ResolveState, w: SigningIdentity, chain: u64)
    requires
        claimed_addrs(s).disjoint(s.targets),
    ensures
        claimed_addrs(step_state(s, w, chain)).disjoint(step_state(s, w, chain).targets),
        claimed_addrs(step_state(s, w, chain)) + step_state(s, w, chain).targets =~= claimed_addrs(
            s,
        ) + s.targets,
{
    if s.targets.contains(w.address) {
        lemma_key_seq_push(s.claimed, (w.address, w.spec_with_chain_id(chain)));
    }
}

/// Invariant of a run: the claimed addresses stay disjoint from the
/// remaining targets, and together they always make up exactly what the
/// claimed addresses and targets made up before the run.
pub proof fn lemma_run_wallets_partition(s: ResolveState, ws: Seq<SigningIdentity>, chain: u64)
    requires
        claimed_addrs(s).disjoint(s.targets),
    ensures
        claimed_addrs(run_wallets(s, ws, chain)).disjoint(run_wallets(s, ws, chain).targets),
        claimed_addrs(run_wallets(s, ws, chain)) + run_wallets(s, ws, chain).targets
            =~= claimed_addrs(s) + s.targets,
    decreases ws.len(),
{
    if s.done() || ws.len() == 0 {
    } else {
        lemma_step_partition(s, ws[0], chain);
        lemma_run_wallets_partition(step_state(s, ws[0], chain), ws.drop_first(), chain);
    }
}

/// The same invariant across whole sources.
pub proof fn lemma_run_sources_partition(
    s: ResolveState,
    srcs: Seq<Seq<SigningIdentity>>,
    chain: u64,
)
    requires
        claimed_addrs(s).disjoint(s.targets),
    ensures
        claimed_addrs(run_sources(s, srcs, chain)).disjoint(run_sources(s, srcs, chain).targets),
        claimed_addrs(run_sources(s, srcs, chain)) + run_sources(s, srcs, chain).targets
            =~= claimed_addrs(s) + s.targets,
    decreases srcs.len(),
{
    if s.done() || srcs.len() == 0 {
    } else {
        lemma_run_wallets_partition(s, srcs[0], chain);
        lemma_run_sources_partition(run_wallets(s, srcs[0], chain), srcs.drop_first(), chain);
    }
}

/// Law: sources that together emit every target address resolve the whole
/// target set — the run ends with no target remaining and the claimed
/// addresses are exactly the targets asked for.
pub proof fn lemma_cover_resolves(targets: Set<Address>, srcs: Seq<Seq<SigningIdentity>>, chain: u64)
    requires
        targets.subset_of(emitted(srcs)),
    ensures
        run_sources(ResolveState::init(targets), srcs, chain).done(),
        claimed_addrs(run_sources(ResolveState::init(targets), srcs, chain)) =~= targets,
{
    let s0 = ResolveState::init(targets);
    assert(claimed_addrs(s0) =~= Set::<Address>::empty());
    lemma_run_sources_targets(s0, srcs, chain);
    assert(run_sources(s0, srcs, chain).targets =~= Set::<Address>::empty());
    lemma_run_sources_partition(s0, srcs, chain);
    assert(claimed_addrs(run_sources(s0, srcs, chain)) =~= claimed_addrs(run_sources(
        s0,
        srcs,
        chain,
    )) + run_sources(s0, srcs, chain).targets);
}

/// Law: resolution succeeds exactly when the sources together emit every
/// target address; with any target unemitted, the run ends unresolved.
pub proof fn lemma_success_iff_covered(
    targets: Set<Address>,
    srcs: Seq<Seq<SigningIdentity>>,
    chain: u64,
)
    ensures
        run_sources(ResolveState::init(targets), srcs, chain).done() <==> targets.subset_of(
            emitted(srcs),
        ),
{
    let s0 = ResolveState::init(targets);
    lemma_run_sources_targets(s0, srcs, chain);
    if targets.subset_of(emitted(srcs)) {
        assert(targets.difference(emitted(srcs)) =~= Set::<Address>::empty());
    }
    if run_sources(s0, srcs, chain).done() {
        assert forall|x: Address| targets.contains(x) implies emitted(srcs).contains(x) by {
            assert(!targets.difference(emitted(srcs)).contains(x));
        }
    }
}

/// Consumption is in order: a run over concatenated source lists is the run
/// over the first list continued over the second.
pub proof fn lemma_run_sources_append(
    s: ResolveState,
    srcs1: Seq<Seq<SigningIdentity>>,
    srcs2: Seq<Seq<SigningIdentity>>,
    chain: u64,
)
    ensures
        run_sources(s, srcs1 + srcs2, chain) == run_sources(
            run_sources(s, srcs1, chain),
            srcs2,
            chain,
        ),
    decreases srcs1.len(),
{
    if s.done() {
        assert(run_sources(s, srcs1 + srcs2, chain) == s);
        assert(run_sources(s, srcs1, chain) == s);
        assert(run_sources(s, srcs2, chain) == s);
    } else if srcs1.len() == 0 {
        assert(srcs1 + srcs2 =~= srcs2);
    } else {
        assert((srcs1 + srcs2)[0] == srcs1[0]);
        assert((srcs1 + srcs2).drop_first() =~= srcs1.drop_first() + srcs2);
        lemma_run_sources_append(run_wallets(s, srcs1[0], chain), srcs1.drop_first(), srcs2, chain);
    }
}

/// Law: the instant a prefix of the sources has claimed every target, the
/// remaining sources change nothing — they are never consumed.
pub proof fn lemma_early_exit(
    s: ResolveState,
    srcs: Seq<Seq<SigningIdentity>>,
    extra: Seq<Seq<SigningIdentity>>,
    chain: u64,
)
    requires
        run_sources(s, srcs, chain).done(),
    ensures
        run_sources(s, srcs + extra, chain) == run_sources(s, srcs, chain),
{
    lemma_run_sources_append(s, srcs, extra, chain);
    assert(run_sources(run_sources(s, srcs, chain), extra, chain) == run_sources(s, srcs, chain));
}

/// No address recorded as unused is still a target.
pub open spec fn unused_ok(s: ResolveState) -> bool {
    forall|i: int| 0 <= i < s.unused.len() ==> !s.targets.contains(#[trigger] s.unused[i])
}

/// Invariant of a run: no address recorded as unused is still a target — an
/// address is only marked unused while it is not wanted, and the target set
/// only ever shrinks.
pub proof fn lemma_run_wallets_unused(s: ResolveState, ws: Seq<SigningIdentity>, chain: u64)
    requires
        unused_ok(s),
    ensures
        unused_ok(run_wallets(s, ws, chain)),
    decreases ws.len(),
{
    if s.done() || ws.len() == 0 {
    } else {
        let s1 = step_state(s, ws[0], chain);
        assert forall|i: int| 0 <= i < s1.unused.len() implies !s1.targets.contains(
            #[trigger] s1.unused[i],
        ) by {
            if i < s.unused.len() {
                assert(s1.unused[i] == s.unused[i]);
                assert(!s.targets.contains(s.unused[i]));
            }
        }
        lemma_run_wallets_unused(s1, ws.drop_first(), chain);
    }
}

/// The same invariant across whole sources.
pub proof fn lemma_run_sources_unused(s: ResolveState, srcs: Seq<Seq<SigningIdentity>>, chain: u64)
    requires
        unused_ok(s),
    ensures
        unused_ok(run_sources(s, srcs, chain)),
    decreases srcs.len(),
{
    if s.done() || srcs.len() == 0 {
    } else {
        lemma_run_wallets_unused(s, srcs[0], chain);
        lemma_run_sources_unused(run_wallets(s, srcs[0], chain), srcs.drop_first(), chain);
    }
}

/// Law: resolution is a function of the chain id, the targets and the
/// source outputs alone — two runs over identical inputs end in identical
/// states, claims, remaining targets and unused lists alike.
pub proof fn lemma_resolution_deterministic(
    s: ResolveState,
    srcs: Seq<Seq<SigningIdentity>>,
    chain: u64,
    r1: ResolveState,
    r2: ResolveState,
)
    requires
        r1 == run_sources(s, srcs, chain),
        r2 == run_sources(s, srcs, chain),
    ensures
        r1 == r2,
{
}

/// Every claimed entry is keyed by its identity's own address, and that
/// identity is bound to the chain id the run was made with.
pub proof fn lemma_run_wallets_bound(s: ResolveState, ws: Seq<SigningIdentity>, chain: u64)
    requires
        forall|i: int| #![trigger s.claimed[i]]
            0 <= i < s.claimed.len() ==> s.claimed[i].0 == s.claimed[i].1.address
                && s.claimed[i].1.chain_id == Some(chain),
    ensures
        forall|i: int| #![trigger run_wallets(s, ws, chain).claimed[i]]
            0 <= i < run_wallets(s, ws, chain).claimed.len() ==> run_wallets(
                s,
                ws,
                chain,
            ).claimed[i].0 == run_wallets(s, ws, chain).claimed[i].1.address && run_wallets(
                s,
                ws,
                chain,
            ).claimed[i].1.chain_id == Some(chain),
    decreases ws.len(),
{
    if s.done() || ws.len() == 0 {
    } else {
        lemma_run_wallets_bound(step_state(s, ws[0], chain), ws.drop_first(), chain);
    }
}

/// Law: in a full run every claimed entry is keyed by its identity's own
/// address and bound to the chain id — binding happens before matching and
/// never changes the address.
pub proof fn lemma_run_sources_bound(s: ResolveState, srcs: Seq<Seq<SigningIdentity>>, chain: u64)
    requires
        forall|i: int| #![trigger s.claimed[i]]
            0 <= i < s.claimed.len() ==> s.claimed[i].0 == s.claimed[i].1.address
                && s.claimed[i].1.chain_id == Some(chain),
    ensures
        forall|i: int| #![trigger run_sources(s, srcs, chain).claimed[i]]
            0 <= i < run_sources(s, srcs, chain).claimed.len() ==> run_sources(
                s,
                srcs,
                chain,
            ).claimed[i].0 == run_sources(s, srcs, chain).claimed[i].1.address && run_sources(
                s,
                srcs,
                chain,
            ).claimed[i].1.chain_id == Some(chain),
    decreases srcs.len(),
{
    if s.done() || srcs.len() == 0 {
    } else {
        lemma_run_wallets_bound(s, srcs[0], chain);
        lemma_run_sources_bound(run_wallets(s, srcs[0], chain), srcs.drop_first(), chain);
    }
}

} // verus!
