use multiwallet::address::{default_sender_address, parse_address, render_address, Address};
use multiwallet::address_set::AddressSet;
use multiwallet::engine::Resolver;
use multiwallet::error::WalletError;
use multiwallet::identity::SigningIdentity;
use multiwallet::wallet::MultiWallet;
use multiwallet::wallet_map::WalletMap;

fn addr(lo: u32) -> Address {
    Address::new(0, 0, lo)
}

fn targets(addrs: &[Address]) -> AddressSet {
    let mut s = AddressSet::new();
    for a in addrs {
        s.insert(*a);
    }
    s
}

fn ids(addrs: &[Address]) -> Vec<SigningIdentity> {
    addrs.iter().map(|a| SigningIdentity::new(*a)).collect()
}

#[test]
fn scenario_single_raw_key_match() {
    // One source whose identity's address is exactly the single target.
    let t = addr(0xAAA);
    let w = MultiWallet::default();
    let r = w.find_all(1, targets(&[t]), vec![], vec![Some(ids(&[t]))]);
    let m = r.expect("target should resolve");
    assert_eq!(m.len(), 1);
    let got = m.get(t).expect("resolved identity");
    assert_eq!(got.address, t);
    assert_eq!(got.chain_id, Some(1));
}

#[test]
fn scenario_three_sources_with_unused() {
    let a = addr(0xAAA);
    let b = addr(0xBBB);
    let c = addr(0xCCC);
    let mut resolver = Resolver::new(7, targets(&[a, b]));
    resolver.feed_source(&ids(&[c]));
    assert!(!resolver.is_resolved());
    resolver.feed_source(&ids(&[a]));
    assert!(!resolver.is_resolved());
    resolver.feed_source(&ids(&[b]));
    // The target set is now empty: a driver must not evaluate source 4.
    assert!(resolver.is_resolved());
    assert_eq!(resolver.unused_wallets, vec![c]);
    let m = resolver.finish().expect("both targets resolved");
    assert_eq!(m.len(), 2);
    assert!(m.contains_key(a));
    assert!(m.contains_key(b));
    assert!(!m.contains_key(c));
}

#[test]
fn scenario_unresolved_reports_remaining_and_unused() {
    let a = addr(0xAAA);
    let c = addr(0xCCC);
    let d = addr(0xDDD);
    let w = MultiWallet::default();
    let r = w.find_all(1, targets(&[a]), vec![], vec![Some(ids(&[c])), Some(ids(&[d]))]);
    match r {
        Err(WalletError::UnresolvedAddresses { remaining, unused }) => {
            assert!(remaining.contains(a));
            assert_eq!(remaining.len(), 1);
            assert_eq!(unused, vec![c, d]);
            let msg = WalletError::UnresolvedAddresses { remaining, unused }.message();
            assert!(msg.contains("No associated wallet for addresses:"));
            assert!(msg.contains("0x0000000000000000000000000000000000000aaa"));
            assert!(msg.contains(". Unlocked wallets:"));
            assert!(msg.contains("0x0000000000000000000000000000000000000ccc"));
            assert!(msg.contains("0x0000000000000000000000000000000000000ddd"));
        }
        _ => panic!("expected UnresolvedAddresses"),
    }
}

#[test]
fn scenario_default_sender_warning() {
    let d = default_sender_address();
    let w = MultiWallet::default();
    let r = w.find_all(1, targets(&[d]), vec![], vec![]);
    match r {
        Err(e) => {
            let msg = e.message();
            assert!(msg.contains("You seem to be using the default sender"));
            assert!(msg.contains("set your own sender"));
        }
        Ok(_) => panic!("expected a failure"),
    }
}

#[test]
fn no_warning_without_default_sender() {
    let w = MultiWallet::default();
    let r = w.find_all(1, targets(&[addr(0xAAA)]), vec![], vec![]);
    match r {
        Err(e) => {
            let msg = e.message();
            assert!(!msg.contains("You seem to be using the default sender"));
            assert!(msg.contains("No associated wallet"));
        }
        Ok(_) => panic!("expected a failure"),
    }
}

#[test]
fn resolve_is_idempotent() {
    // Identical configuration and identical source outputs: identical map
    // contents on both calls.
    let a = addr(0xAAA);
    let b = addr(0xBBB);
    let w = MultiWallet::default();
    let srcs = || vec![Some(ids(&[addr(0xCCC), a])), None, Some(ids(&[b]))];
    let m1 = w.find_all(5, targets(&[a, b]), vec![], srcs()).expect("resolves");
    let m2 = w.find_all(5, targets(&[a, b]), vec![], srcs()).expect("resolves");
    assert_eq!(m1.len(), m2.len());
    for key in [a, b] {
        let w1 = m1.get(key).expect("claimed in first run");
        let w2 = m2.get(key).expect("claimed in second run");
        assert_eq!(w1.address, w2.address);
        assert_eq!(w1.chain_id, w2.chain_id);
    }
}

#[test]
fn early_exit_ignores_later_sources() {
    // Once the targets are covered, a later source producing the same
    // address changes nothing and its wallet is not even marked unused.
    let a = addr(0xAAA);
    let w = MultiWallet::default();
    let with_extra =
        w.find_all(1, targets(&[a]), vec![], vec![Some(ids(&[a])), Some(ids(&[addr(0xEEE)]))]);
    let m = with_extra.expect("resolves");
    assert_eq!(m.len(), 1);
    let mut covered = Resolver::new(1, targets(&[a]));
    assert!(!covered.is_resolved());
    covered.feed_source(&ids(&[a]));
    assert!(covered.is_resolved());
    assert!(covered.unused_wallets.is_empty());
}

#[test]
fn first_source_wins_duplicate_addresses() {
    // A later source producing an already-claimed address is redundant: the
    // address is recorded as unused, the claim stands.
    let a = addr(0xAAA);
    let b = addr(0xBBB);
    let mut resolver = Resolver::new(3, targets(&[a, b]));
    resolver.feed_source(&ids(&[a]));
    resolver.feed_source(&ids(&[a, b]));
    assert!(resolver.is_resolved());
    assert_eq!(resolver.unused_wallets, vec![a]);
}

#[test]
fn empty_target_set_succeeds_immediately() {
    let w = MultiWallet::default();
    let r = w.find_all(1, AddressSet::new(), vec![], vec![Some(ids(&[addr(0x1)]))]);
    let m = r.expect("empty target set is the success terminal state");
    assert_eq!(m.len(), 0);
}

#[test]
fn script_wallets_are_the_last_source() {
    let a = addr(0xAAA);
    let b = addr(0xBBB);
    let w = MultiWallet::default();
    let r = w.find_all(9, targets(&[a, b]), ids(&[b]), vec![Some(ids(&[a]))]);
    let m = r.expect("script wallets cover the rest");
    assert_eq!(m.len(), 2);
    assert_eq!(m.get(b).expect("claimed").chain_id, Some(9));
}

#[test]
fn binding_sets_chain_id_and_keeps_address() {
    let a = addr(0x77);
    let unbound = SigningIdentity::new(a);
    assert_eq!(unbound.chain_id, None);
    assert_eq!(unbound.address(), a);
    let bound = unbound.with_chain_id(42);
    assert_eq!(bound.chain_id, Some(42));
    assert_eq!(bound.address(), a);
}

#[test]
fn address_set_operations() {
    let mut s = AddressSet::new();
    assert!(s.is_empty());
    s.insert(addr(1));
    s.insert(addr(2));
    s.insert(addr(1));
    assert_eq!(s.len(), 2);
    assert!(s.contains(addr(1)));
    s.remove(addr(1));
    assert!(!s.contains(addr(1)));
    assert!(s.contains(addr(2)));
    assert_eq!(s.len(), 1);
    s.remove(addr(9));
    assert_eq!(s.len(), 1);
}

#[test]
fn wallet_map_operations() {
    let mut m = WalletMap::new();
    assert_eq!(m.len(), 0);
    m.insert(addr(1), SigningIdentity::new(addr(1)).with_chain_id(4));
    m.insert(addr(2), SigningIdentity::new(addr(2)).with_chain_id(4));
    assert_eq!(m.len(), 2);
    assert!(m.contains_key(addr(1)));
    assert!(!m.contains_key(addr(3)));
    assert_eq!(m.get(addr(2)).expect("present").address, addr(2));
    assert!(m.get(addr(3)).is_none());
    let mut keys = Vec::new();
    m.push_keys(&mut keys);
    assert_eq!(keys, vec![addr(1), addr(2)]);
}

#[test]
fn parse_address_reads_hex_words() {
    let a = parse_address("0x00a329c0648769A73afAc7F9381E08FB43dBEA72").expect("well-formed");
    assert_eq!(a, default_sender_address());
    let b = parse_address("00a329c0648769a73afac7f9381e08fb43dbea72").expect("prefix optional");
    assert_eq!(b, a);
    let c = parse_address("0x0000000000000000000000000000000000000abc").expect("well-formed");
    assert_eq!(c, Address::new(0, 0, 0xabc));
    assert!(parse_address("0xabc").is_none());
    assert!(parse_address("").is_none());
    assert!(parse_address("zza329c0648769a73afac7f9381e08fb43dbea72").is_none());
}

#[test]
fn render_address_is_lowercase_hex() {
    let d = default_sender_address();
    assert_eq!(render_address(&d), "0x00a329c0648769a73afac7f9381e08fb43dbea72");
    assert_eq!(
        render_address(&Address::new(0, 0, 0xAAA)),
        "0x0000000000000000000000000000000000000aaa"
    );
    let roundtrip = parse_address(&render_address(&d)).expect("rendering parses back");
    assert_eq!(roundtrip, d);
}

#[test]
fn default_sender_address_value() {
    let d = default_sender_address();
    assert_eq!(d.hi, 0x00a329c0648769a7);
    assert_eq!(d.mid, 0x3afac7f9381e08fb);
    assert_eq!(d.lo, 0x43dbea72);
}
