//! A small set of 64-bit entity ids, kept as a duplicate-free vector.
//!
//! Used for a group's member units, for the category indices of the
//! persisted store (deployed, troops, crates, jtacs, ewrs), and for the
//! runtime movement and proximity candidate sets.

use vstd::prelude::*;

verus! {

pub proof fn lemma_push_to_set(s: Seq<u64>, x: u64)
    ensures
        s.push(x).to_set() == s.to_set().insert(x),
{
    let sp = s.push(x);
    assert forall|y: u64| sp.to_set().contains(y) implies s.to_set().insert(x).contains(y) by {
        let j = choose|j: int| 0 <= j < sp.len() && sp[j] == y;
        if j < s.len() {
            assert(s[j] == y);
        }
    }
    assert forall|y: u64| s.to_set().insert(x).contains(y) implies sp.to_set().contains(y) by {
        if y == x {
            assert(sp[s.len() as int] == y);
        } else {
            let j = choose|j: int| 0 <= j < s.len() && s[j] == y;
            assert(sp[j] == y);
        }
    }
    assert(sp.to_set() =~= s.to_set().insert(x));
}

/// A finite set of ids.  The abstract value is `self.set()`, a `Set<u64>`;
/// `self.seq()` exposes the underlying order for iteration.
#[derive(Clone, Debug)]
pub struct IdSet {
    items: Vec<u64>,
}

impl IdSet {
    /// The stored order of the members.
    pub closed spec fn seq(&self) -> Seq<u64> {
        self.items@
    }

    /// The members as a mathematical set.
    pub open spec fn set(&self) -> Set<u64> {
        self.seq().to_set()
    }

    /// The representation holds each member exactly once.
    pub open spec fn wf(&self) -> bool {
        self.seq().no_duplicates()
    }

    pub fn new() -> (r: Self)
        ensures
            r.wf(),
            r.set() == Set::<u64>::empty(),
            r.seq() == Seq::<u64>::empty(),
    {
        let r = IdSet { items: Vec::new() };
        proof {
            assert(r.set() =~= Set::<u64>::empty());
        }
        r
    }

    pub fn contains(&self, id: u64) -> (b: bool)
        ensures
            b == self.set().contains(id),
    {
        let mut i: usize = 0;
        while i < self.items.len()
            invariant
                i <= self.items.len(),
                forall|j: int| 0 <= j < i ==> self.items@[j] != id,
            decreases self.items.len() - i,
        {
            if self.items[i] == id {
                proof {
                    assert(self.seq()[i as int] == id);
                    assert(self.set().contains(id));
                }
                return true;
            }
            i = i + 1;
        }
        proof {
            if self.set().contains(id) {
                let j = choose|j: int| 0 <= j < self.seq().len() && self.seq()[j] == id;
                assert(self.items@[j] == id);
            }
        }
        false
    }

    /// Adds `id`; a no-op when it is already a member.
    pub fn insert(&mut self, id: u64)
        requires
            old(self).wf(),
        ensures
            final(self).wf(),
            final(self).set() == old(self).set().insert(id),
            old(self).set().contains(id) ==> final(self).seq() == old(self).seq(),
            !old(self).set().contains(id) ==> final(self).seq() == old(self).seq().push(id),
    {
        if !self.contains(id) {
            self.items.push(id);
            proof {
                lemma_push_to_set(old(self).seq(), id);
            }
        } else {
            proof {
                assert(self.set() =~= old(self).set().insert(id));
            }
        }
    }

    /// Removes `id`; a no-op when it is not a member.  The stored order
    /// of the other members is not preserved.
    pub fn remove(&mut self, id: u64)
        requires
            old(self).wf(),
        ensures
            final(self).wf(),
            final(self).set() == old(self).set().remove(id),
    {
        let mut i: usize = 0;
        while i < self.items.len()
            invariant
                self == old(self),
                self.wf(),
                i <= self.items.len(),
                forall|j: int| 0 <= j < i ==> self.items@[j] != id,
            decreases self.items.len() - i,
        {
            if self.items[i] == id {
                self.items.swap_remove(i);
                proof {
                    let s_old = old(self).seq();
                    let s_new = self.seq();
                    assert(s_new =~= s_old.update(i as int, s_old.last()).drop_last());
                    assert forall|x: u64| self.set().contains(x) implies
                        old(self).set().remove(id).contains(x) by {
                        let j = choose|j: int| 0 <= j < s_new.len() && s_new[j] == x;
                        if j == i {
                            assert(s_old[s_old.len() - 1] == x);
                        } else {
                            assert(s_old[j] == x);
                        }
                        assert(x != id) by {
                            if j == i {
                                assert(s_old.no_duplicates());
                                if i < s_old.len() - 1 {
                                    assert(s_old[i as int] == id && s_old[s_old.len() - 1] == x);
                                }
                            }
                        }
                    }
                    assert forall|x: u64| old(self).set().remove(id).contains(x) implies
                        self.set().contains(x) by {
                        let j = choose|j: int| 0 <= j < s_old.len() && s_old[j] == x;
                        if j == i {
                            assert(s_old[i as int] == id);
                        } else if j == s_old.len() - 1 {
                            if i < s_old.len() - 1 {
                                assert(s_new[i as int] == x);
                            }
                        } else {
                            assert(s_new[j] == x);
                        }
                    }
                    assert(self.set() =~= old(self).set().remove(id));
                    assert(s_new.no_duplicates()) by {
                        assert forall|p: int, q: int|
                            0 <= p < s_new.len() && 0 <= q < s_new.len() && p != q
                            implies s_new[p] != s_new[q] by {
                            assert(s_old.no_duplicates());
                            if p == i && q != i {
                                assert(s_new[p] == s_old[s_old.len() - 1] && s_new[q] == s_old[q]);
                            } else if q == i && p != i {
                                assert(s_new[q] == s_old[s_old.len() - 1] && s_new[p] == s_old[p]);
                            } else {
                                assert(s_new[p] == s_old[p] && s_new[q] == s_old[q]);
                            }
                        }
                    }
                }
                return;
            }
            i = i + 1;
        }
        proof {
            if old(self).set().contains(id) {
                let j = choose|j: int| 0 <= j < old(self).seq().len() && old(self).seq()[j] == id;
                assert(self.items@[j] == id);
            }
            assert(self.set() =~= old(self).set().remove(id));
        }
    }

    pub fn len(&self) -> (n: usize)
        requires
            self.wf(),
        ensures
            n == self.set().len(),
            n == self.seq().len(),
    {
        proof {
            self.seq().unique_seq_to_set();
        }
        self.items.len()
    }

    pub fn is_empty(&self) -> (b: bool)
        requires
            self.wf(),
        ensures
            b == (self.set() == Set::<u64>::empty()),
    {
        proof {
            self.seq().unique_seq_to_set();
            if self.seq().len() == 0 {
                assert(self.set() =~= Set::<u64>::empty());
            } else {
                assert(self.set().contains(self.seq()[0]));
            }
        }
        self.items.len() == 0
    }

    /// The members in their stored order, for iteration.
    pub fn as_vec(&self) -> (v: &Vec<u64>)
        ensures
            v@ == self.seq(),
    {
        &self.items
    }

    /// An independent copy with the same members in the same order.
    pub fn duplicate(&self) -> (r: Self)
        ensures
            r.seq() == self.seq(),
            r.set() == self.set(),
            r.wf() == self.wf(),
    {
        let mut items: Vec<u64> = Vec::new();
        let mut i: usize = 0;
        while i < self.items.len()
            invariant
                i <= self.items.len(),
                items@ == self.items@.take(i as int),
            decreases self.items.len() - i,
        {
            items.push(self.items[i]);
            proof {
                assert(items@ =~= self.items@.take(i + 1));
            }
            i = i + 1;
        }
        proof {
            assert(items@ =~= self.items@);
        }
        IdSet { items }
    }

    /// True when both sets hold exactly the same members.
    pub fn same_set(&self, other: &Self) -> (b: bool)
        requires
            self.wf(),
            other.wf(),
        ensures
            b == (self.set() == other.set()),
    {
        proof {
            self.seq().unique_seq_to_set();
            other.seq().unique_seq_to_set();
        }
        if self.items.len() != other.items.len() {
            proof {
                assert(self.set().len() != other.set().len());
                assert(self.set() != other.set());
            }
            return false;
        }
        let mut i: usize = 0;
        while i < self.items.len()
            invariant
                i <= self.items.len(),
                forall|j: int| 0 <= j < i ==> other.set().contains(self.items@[j]),
            decreases self.items.len() - i,
        {
            if !other.contains(self.items[i]) {
                proof {
                    assert(self.set().contains(self.items@[i as int]));
                }
                return false;
            }
            i = i + 1;
        }
        proof {
            broadcast use vstd::seq_lib::seq_to_set_is_finite;

            assert forall|x: u64| self.set().contains(x) implies other.set().contains(x) by {
                let j = choose|j: int| 0 <= j < self.seq().len() && self.seq()[j] == x;
            }
            if self.set() != other.set() {
                assert(!(self.set() =~= other.set()));
                let y = choose|y: u64| self.set().contains(y) != other.set().contains(y);
                assert(other.set().contains(y) && !self.set().contains(y));
                assert(self.set().subset_of(other.set().remove(y)));
                vstd::set_lib::lemma_len_subset(self.set(), other.set().remove(y));
                assert(other.set().remove(y).len() == other.set().len() - 1);
            }
        }
        true
    }
}

} // verus!
