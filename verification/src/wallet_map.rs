//! The mapping from claimed addresses to their bound signing identities.
//!
//! Backed by a vector of pairs in insertion order, with unique keys; viewed
//! as a mathematical map. Insertion order matters for the failure
//! diagnostic, which lists the unlocked wallets in the order they appeared.

use vstd::prelude::*;
use crate::address::Address;
use crate::identity::SigningIdentity;

verus! {

/// The keys of a sequence of map entries, in order.
pub open spec fn key_seq(s: Seq<(Address, SigningIdentity)>) -> Seq<Address> {
    s.map_values(|p: (Address, SigningIdentity)| p.0)
}

/// The map held by a sequence of entries; a later entry for the same key
/// would win, but well-formed maps never hold one.
pub open spec fn map_of(s: Seq<(Address, SigningIdentity)>) -> Map<Address, SigningIdentity>
    decreases s.len(),
{
    if s.len() == 0 {
        Map::empty()
    } else {
        map_of(s.drop_last()).insert(s.last().0, s.last().1)
    }
}

/// The domain of `map_of` is exactly the set of keys of the entries.
pub proof fn lemma_map_of_dom(s: Seq<(Address, SigningIdentity)>)
    ensures
        forall|a: Address| #[trigger] map_of(s).dom().contains(a) <==> key_seq(s).contains(a),
    decreases s.len(),
{
    if s.len() == 0 {
    } else {
        lemma_map_of_dom(s.drop_last());
        assert forall|a: Address| #[trigger] map_of(s).dom().contains(a) <==> key_seq(s).contains(
            a,
        ) by {
            if map_of(s).dom().contains(a) {
                if a == s.last().0 {
                    assert(key_seq(s)[s.len() - 1] == a);
                } else {
                    assert(map_of(s.drop_last()).dom().contains(a));
                    assert(key_seq(s.drop_last()).contains(a));
                    let k = choose|k: int|
                        0 <= k < s.len() - 1 && key_seq(s.drop_last())[k] == a;
                    assert(key_seq(s)[k] == a);
                }
            }
            if key_seq(s).contains(a) {
                let k = choose|k: int| 0 <= k < s.len() && key_seq(s)[k] == a;
                if k == s.len() - 1 {
                    assert(a == s.last().0);
                } else {
                    assert(key_seq(s.drop_last())[k] == a);
                    assert(map_of(s.drop_last()).dom().contains(a));
                }
            }
        }
    }
}

/// With unique keys, each entry's key maps to that entry's value.
pub proof fn lemma_map_of_at(s: Seq<(Address, SigningIdentity)>, i: int)
    requires
        key_seq(s).no_duplicates(),
        0 <= i < s.len(),
    ensures
        map_of(s).dom().contains(s[i].0),
        map_of(s)[s[i].0] == s[i].1,
    decreases s.len(),
{
    if i == s.len() - 1 {
    } else {
        assert forall|p: int, q: int|
            0 <= p < s.len() - 1 && 0 <= q < s.len() - 1 && p != q implies key_seq(s.drop_last())[p]
            != key_seq(s.drop_last())[q] by {
            assert(key_seq(s)[p] != key_seq(s)[q]);
        }
        lemma_map_of_at(s.drop_last(), i);
        assert(key_seq(s)[i] != key_seq(s)[s.len() - 1]);
        assert(s[i].0 != s.last().0);
        assert(s.drop_last()[i] == s[i]);
    }
}

/// A map from claimed addresses to bound signing identities, with unique
/// keys, kept in insertion order.
#[derive(Clone, Debug)]
pub struct WalletMap {
    pub entries: Vec<(Address, SigningIdentity)>,
}

impl View for WalletMap {
    type V = Map<Address, SigningIdentity>;

    open spec fn view(&self) -> Map<Address, SigningIdentity> {
        map_of(self.entries@)
    }
}

impl WalletMap {
    /// Well-formed: no key appears twice.
    pub open spec fn wf(self) -> bool {
        key_seq(self.entries@).no_duplicates()
    }

    /// Creates an empty map.
    pub fn new() -> (r: WalletMap)
        ensures
            r.wf(),
            r@ =~= Map::<Address, SigningIdentity>::empty(),
            r.entries@ == Seq::<(Address, SigningIdentity)>::empty(),
    {
        WalletMap { entries: Vec::new() }
    }

    /// Inserts a binding for a key not yet present.
    pub fn insert(&mut self, a: Address, w: SigningIdentity)
        requires
            old(self).wf(),
            !old(self)@.dom().contains(a),
        ensures
            final(self).wf(),
            final(self)@ == old(self)@.insert(a, w),
            final(self).entries@ == old(self).entries@.push((a, w)),
    {
        proof {
            lemma_map_of_dom(self.entries@);
        }
        self.entries.push((a, w));
        proof {
            let cur = self.entries@;
            assert(cur.drop_last() == old(self).entries@);
            assert(cur.last() == (a, w));
            assert forall|p: int, q: int|
                0 <= p < cur.len() && 0 <= q < cur.len() && p != q implies key_seq(cur)[p]
                != key_seq(cur)[q] by {
                if p < cur.len() - 1 && q < cur.len() - 1 {
                    assert(key_seq(old(self).entries@)[p] == key_seq(cur)[p]);
                    assert(key_seq(old(self).entries@)[q] == key_seq(cur)[q]);
                } else if p == cur.len() - 1 {
                    assert(key_seq(cur)[p] == a);
                    assert(key_seq(cur)[q] == key_seq(old(self).entries@)[q]);
                    assert(!key_seq(old(self).entries@).contains(a));
                } else {
                    assert(key_seq(cur)[q] == a);
                    assert(key_seq(cur)[p] == key_seq(old(self).entries@)[p]);
                    assert(!key_seq(old(self).entries@).contains(a));
                }
            }
        }
    }

    /// Whether a binding for `a` is present.
    pub fn contains_key(&self, a: Address) -> (r: bool)
        ensures
            r == self@.dom().contains(a),
    {
        proof {
            lemma_map_of_dom(self.entries@);
        }
        let mut i: usize = 0;
        while i < self.entries.len()
            invariant
                0 <= i <= self.entries.len(),
                forall|j: int| 0 <= j < i ==> self.entries@[j].0 != a,
                forall|x: Address| #[trigger] self@.dom().contains(x) <==> key_seq(
                    self.entries@,
                ).contains(x),
            decreases self.entries.len() - i,
        {
            if self.entries[i].0 == a {
                assert(key_seq(self.entries@)[i as int] == a);
                return true;
            }
            i = i + 1;
        }
        assert(!key_seq(self.entries@).contains(a)) by {
            if key_seq(self.entries@).contains(a) {
                let k = choose|k: int|
                    0 <= k < self.entries@.len() && key_seq(self.entries@)[k] == a;
                assert(self.entries@[k].0 == a);
            }
        }
        false
    }

    /// Looks a key up.
    pub fn get(&self, a: Address) -> (r: Option<&SigningIdentity>)
        requires
            self.wf(),
        ensures
            match r {
                Some(w) => self@.dom().contains(a) && *w == self@[a],
                None => !self@.dom().contains(a),
            },
    {
        proof {
            lemma_map_of_dom(self.entries@);
        }
        let mut i: usize = 0;
        while i < self.entries.len()
            invariant
                self.wf(),
                0 <= i <= self.entries.len(),
                forall|j: int| 0 <= j < i ==> self.entries@[j].0 != a,
            decreases self.entries.len() - i,
        {
            if self.entries[i].0 == a {
                proof {
                    lemma_map_of_at(self.entries@, i as int);
                }
                return Some(&self.entries[i].1);
            }
            i = i + 1;
        }
        proof {
            lemma_map_of_dom(self.entries@);
            if key_seq(self.entries@).contains(a) {
                let k = choose|k: int|
                    0 <= k < self.entries@.len() && key_seq(self.entries@)[k] == a;
                assert(self.entries@[k].0 == a);
            }
        }
        None
    }

    /// The number of bindings.
    pub fn len(&self) -> (r: usize)
        requires
            self.wf(),
        ensures
            r == self@.dom().len(),
    {
        proof {
            lemma_map_of_dom(self.entries@);
            assert(self@.dom() =~= key_seq(self.entries@).to_set());
            key_seq(self.entries@).unique_seq_to_set();
        }
        self.entries.len()
    }

    /// Appends every key, in insertion order, to `out`.
    pub fn push_keys(&self, out: &mut Vec<Address>)
        ensures
            final(out)@ == old(out)@ + key_seq(self.entries@),
    {
        let mut i: usize = 0;
        while i < self.entries.len()
            invariant
                0 <= i <= self.entries.len(),
                out@ == old(out)@ + key_seq(self.entries@).subrange(0, i as int),
            decreases self.entries.len() - i,
        {
            let a = self.entries[i].0;
            out.push(a);
            proof {
                assert(key_seq(self.entries@)[i as int] == a);
                assert(out@ =~= old(out)@ + key_seq(self.entries@).subrange(0, i + 1));
            }
            i = i + 1;
        }
        proof {
            assert(key_seq(self.entries@).subrange(0, self.entries@.len() as int) == key_seq(
                self.entries@,
            ));
        }
    }
}

} // verus!
