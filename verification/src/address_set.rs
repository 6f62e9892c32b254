//! The set of target addresses a resolution call must still claim.
//!
//! Backed by a duplicate-free vector; viewed as a mathematical set of
//! addresses. The engine removes addresses as identities claim them, and the
//! empty set is the success terminal state.

use vstd::prelude::*;
use crate::address::Address;

verus! {

/// A finite set of account addresses, duplicate-free.
#[derive(Clone, Debug)]
pub struct AddressSet {
    pub addrs: Vec<Address>,
}

impl View for AddressSet {
    type V = Set<Address>;

    open spec fn view(&self) -> Set<Address> {
        self.addrs@.to_set()
    }
}

impl AddressSet {
    /// Well-formed: the backing vector holds each address at most once.
    pub open spec fn wf(self) -> bool {
        self.addrs@.no_duplicates()
    }

    /// Creates an empty set.
    pub fn new() -> (r: AddressSet)
        ensures
            r.wf(),
            r@ =~= Set::<Address>::empty(),
    {
        AddressSet { addrs: Vec::new() }
    }

    /// Whether `a` is a member.
    pub fn contains(&self, a: Address) -> (r: bool)
        ensures
            r == self@.contains(a),
    {
        let mut i: usize = 0;
        while i < self.addrs.len()
            invariant
                0 <= i <= self.addrs.len(),
                forall|j: int| 0 <= j < i ==> self.addrs@[j] != a,
            decreases self.addrs.len() - i,
        {
            if self.addrs[i] == a {
                assert(self.addrs@.contains(a));
                return true;
            }
            i = i + 1;
        }
        assert(!self.addrs@.contains(a));
        false
    }

    /// Adds `a`; no effect if it is already a member.
    pub fn insert(&mut self, a: Address)
        requires
            old(self).wf(),
        ensures
            final(self).wf(),
            final(self)@ =~= old(self)@.insert(a),
    {
        if !self.contains(a) {
            self.addrs.push(a);
            assert(self.addrs@.drop_last() == old(self).addrs@);
            assert forall|x: Address| final(self)@.contains(x) <==> old(self)@.insert(
                a,
            ).contains(x) by {
                if self.addrs@.contains(x) {
                    let k = choose|k: int| 0 <= k < self.addrs@.len() && self.addrs@[k] == x;
                    if k < self.addrs@.len() - 1 {
                        assert(old(self).addrs@[k] == x);
                    }
                }
                if old(self).addrs@.contains(x) {
                    let k = choose|k: int|
                        0 <= k < old(self).addrs@.len() && old(self).addrs@[k] == x;
                    assert(self.addrs@[k] == x);
                }
                if x == a {
                    assert(self.addrs@[self.addrs@.len() - 1] == a);
                }
            }
        } else {
            assert(final(self)@ =~= old(self)@.insert(a));
        }
    }

    /// Removes `a`; no effect if it is not a member.
    pub fn remove(&mut self, a: Address)
        requires
            old(self).wf(),
        ensures
            final(self).wf(),
            final(self)@ =~= old(self)@.remove(a),
    {
        let ghost orig = self.addrs@;
        let mut i: usize = 0;
        while i < self.addrs.len()
            invariant
                0 <= i <= self.addrs.len(),
                self.addrs@ == orig,
                orig == old(self).addrs@,
                orig.no_duplicates(),
                forall|j: int| 0 <= j < i ==> self.addrs@[j] != a,
            decreases self.addrs.len() - i,
        {
            if self.addrs[i] == a {
                self.addrs.remove(i);
                proof {
                    orig.remove_ensures(i as int);
                    let cur = self.addrs@;
                    assert forall|x: Address| cur.contains(x) <==> orig.to_set().remove(
                        a,
                    ).contains(x) by {
                        if cur.contains(x) {
                            let k = choose|k: int| 0 <= k < cur.len() && cur[k] == x;
                            if k < i {
                                assert(orig[k] == x);
                                assert(x != a);
                            } else {
                                assert(orig[k + 1] == x);
                                assert(k + 1 != i);
                                assert(orig[i as int] == a);
                                assert(x != a);
                            }
                            assert(orig.contains(x));
                            assert(orig.to_set().remove(a).contains(x));
                        }
                        if orig.contains(x) && x != a {
                            let k = choose|k: int| 0 <= k < orig.len() && orig[k] == x;
                            if k < i {
                                assert(cur[k] == x);
                            } else {
                                assert(k != i);
                                assert(cur[k - 1] == x);
                            }
                        }
                    }
                    assert(cur.to_set() =~= orig.to_set().remove(a));
                    assert forall|p: int, q: int|
                        0 <= p < cur.len() && 0 <= q < cur.len() && p != q implies cur[p]
                        != cur[q] by {
                        let p0: int = if p < i { p } else { p + 1 };
                        let q0: int = if q < i { q } else { q + 1 };
                        assert(cur[p] == orig[p0]);
                        assert(cur[q] == orig[q0]);
                        assert(p0 != q0);
                        assert(0 <= p0 < orig.len());
                        assert(0 <= q0 < orig.len());
                        assert(orig.no_duplicates());
                        assert(orig[p0] != orig[q0]);
                    }
                }
                return ;
            }
            i = i + 1;
        }
        assert(!orig.contains(a));
        assert(final(self)@ =~= old(self)@.remove(a));
    }

    /// Whether the set is empty.
    pub fn is_empty(&self) -> (r: bool)
        ensures
            r == (self@ =~= Set::<Address>::empty()),
    {
        if self.addrs.len() == 0 {
            assert(self@ =~= Set::<Address>::empty());
            true
        } else {
            assert(self@.contains(self.addrs@[0]));
            false
        }
    }

    /// The number of member addresses.
    pub fn len(&self) -> (r: usize)
        requires
            self.wf(),
        ensures
            r == self@.len(),
    {
        proof {
            self.addrs@.unique_seq_to_set();
        }
        self.addrs.len()
    }
}

} // verus!
