//! Name-to-id index: a one-to-one mapping from entity names to entity
//! ids, kept in sync with the primary group and unit stores.

use vstd::prelude::*;

verus! {

/// An association from names to 64-bit ids with unique names.
/// The abstract value is the relation `self.has(name, id)`.
#[derive(Debug)]
pub struct NameIdx {
    entries: Vec<(String, u64)>,
}

impl NameIdx {
    /// True when the index binds `name` to `id`.
    pub closed spec fn has(&self, name: Seq<char>, id: u64) -> bool {
        exists|i: int|
            0 <= i < self.entries@.len() && self.entries@[i].0@ == name
                && self.entries@[i].1 == id
    }

    /// True when the index binds `name` to anything.
    pub open spec fn has_key(&self, name: Seq<char>) -> bool {
        exists|id: u64| self.has(name, id)
    }

    /// Each name appears at most once.
    pub closed spec fn wf(&self) -> bool {
        forall|i: int, j: int|
            0 <= i < self.entries@.len() && 0 <= j < self.entries@.len() && i != j
                ==> self.entries@[i].0@ != self.entries@[j].0@
    }

    pub fn new() -> (r: Self)
        ensures
            r.wf(),
            forall|n: Seq<char>, id: u64| !r.has(n, id),
    {
        NameIdx { entries: Vec::new() }
    }

    /// Looks the name up; `None` exactly when the name is unbound.
    pub fn get(&self, name: &String) -> (r: Option<u64>)
        requires
            self.wf(),
        ensures
            match r {
                Some(id) => self.has(name@, id),
                None => !self.has_key(name@),
            },
    {
        let n = self.entries.len();
        let mut i: usize = 0;
        while i < n
            invariant
                n == self.entries@.len(),
                i <= n,
                forall|j: int| 0 <= j < i ==> self.entries@[j].0@ != name@,
            decreases n - i,
        {
            let e = &self.entries[i];
            if e.0 == *name {
                return Some(e.1);
            }
            i = i + 1;
        }
        proof {
            if self.has_key(name@) {
                let id = choose|id: u64| self.has(name@, id);
                let j = choose|j: int|
                    0 <= j < self.entries@.len() && self.entries@[j].0@ == name@
                        && self.entries@[j].1 == id;
            }
        }
        None
    }

    /// Exec mirror of `has_key`.
    pub fn contains_key(&self, name: &String) -> (b: bool)
        requires
            self.wf(),
        ensures
            b == self.has_key(name@),
    {
        self.get(name).is_some()
    }

    /// Binds a fresh name.  The caller must have checked the name is
    /// not yet bound, which keeps the index one-to-one.
    pub fn insert(&mut self, name: String, id: u64)
        requires
            old(self).wf(),
            !old(self).has_key(name@),
        ensures
            final(self).wf(),
            forall|n: Seq<char>, v: u64|
                final(self).has(n, v) == (old(self).has(n, v) || (n == name@ && v == id)),
    {
        proof {
            assert forall|j: int| 0 <= j < self.entries@.len()
                implies self.entries@[j].0@ != name@ by {
                if self.entries@[j].0@ == name@ {
                    assert(self.has(name@, self.entries@[j].1));
                }
            }
        }
        self.entries.push((name, id));
        proof {
            let s_new = self.entries@;
            let s_old = old(self).entries@;
            assert forall|n: Seq<char>, v: u64| #[trigger] self.has(n, v)
                implies (old(self).has(n, v) || (n == name@ && v == id)) by {
                let i = choose|i: int|
                    0 <= i < s_new.len() && s_new[i].0@ == n && s_new[i].1 == v;
                if i < s_old.len() {
                    assert(s_old[i].0@ == n && s_old[i].1 == v);
                }
            }
            assert forall|n: Seq<char>, v: u64|
                (old(self).has(n, v) || (n == name@ && v == id))
                implies #[trigger] self.has(n, v) by {
                if old(self).has(n, v) {
                    let i = choose|i: int|
                        0 <= i < s_old.len() && s_old[i].0@ == n && s_old[i].1 == v;
                    assert(s_new[i].0@ == n && s_new[i].1 == v);
                } else {
                    assert(s_new[s_old.len() as int].0@ == n && s_new[s_old.len() as int].1 == v);
                }
            }
        }
    }

    /// Unbinds a name; a no-op when it is not bound.
    pub fn remove(&mut self, name: &String)
        requires
            old(self).wf(),
        ensures
            final(self).wf(),
            forall|n: Seq<char>, v: u64|
                final(self).has(n, v) == (old(self).has(n, v) && n != name@),
    {
        let n_entries = self.entries.len();
        let mut i: usize = 0;
        while i < n_entries
            invariant
                self == old(self),
                self.wf(),
                n_entries == self.entries@.len(),
                i <= n_entries,
                forall|j: int| 0 <= j < i ==> self.entries@[j].0@ != name@,
            decreases n_entries - i,
        {
            let e = &self.entries[i];
            if e.0 == *name {
                self.entries.swap_remove(i);
                proof {
                    let s_old = old(self).entries@;
                    let s_new = self.entries@;
                    assert(s_new =~= s_old.update(i as int, s_old.last()).drop_last());
                    assert forall|n: Seq<char>, v: u64| #[trigger] self.has(n, v)
                        implies (old(self).has(n, v) && n != name@) by {
                        let j = choose|j: int|
                            0 <= j < s_new.len() && s_new[j].0@ == n && s_new[j].1 == v;
                        if j == i {
                            assert(s_old[s_old.len() - 1].0@ == n
                                && s_old[s_old.len() - 1].1 == v);
                        } else {
                            assert(s_old[j].0@ == n && s_old[j].1 == v);
                        }
                    }
                    assert forall|n: Seq<char>, v: u64|
                        (old(self).has(n, v) && n != name@)
                        implies #[trigger] self.has(n, v) by {
                        let j = choose|j: int|
                            0 <= j < s_old.len() && s_old[j].0@ == n && s_old[j].1 == v;
                        if j == s_old.len() - 1 {
                            if i < s_old.len() - 1 {
                                assert(s_new[i as int].0@ == n && s_new[i as int].1 == v);
                            }
                        } else {
                            assert(s_new[j].0@ == n && s_new[j].1 == v);
                        }
                    }
                    assert forall|p: int, q: int|
                        0 <= p < s_new.len() && 0 <= q < s_new.len() && p != q
                        implies s_new[p].0@ != s_new[q].0@ by {
                        if p == i {
                            assert(s_new[p].0@ == s_old[s_old.len() - 1].0@
                                && s_new[q].0@ == s_old[q].0@);
                        } else if q == i {
                            assert(s_new[q].0@ == s_old[s_old.len() - 1].0@
                                && s_new[p].0@ == s_old[p].0@);
                        } else {
                            assert(s_new[p].0@ == s_old[p].0@ && s_new[q].0@ == s_old[q].0@);
                        }
                    }
                }
                return;
            }
            i = i + 1;
        }
        proof {
            assert forall|n: Seq<char>, v: u64| #[trigger] self.has(n, v)
                implies (old(self).has(n, v) && n != name@) by {
                let j = choose|j: int|
                    0 <= j < self.entries@.len() && self.entries@[j].0@ == n
                        && self.entries@[j].1 == v;
            }
        }
    }


    /// An independent copy with the same bindings.
    pub fn duplicate(&self) -> (r: Self)
        requires
            self.wf(),
        ensures
            r.wf(),
            forall|n: Seq<char>, v: u64| r.has(n, v) == self.has(n, v),
    {
        let n_entries = self.entries.len();
        let mut entries: Vec<(String, u64)> = Vec::new();
        let mut i: usize = 0;
        while i < n_entries
            invariant
                n_entries == self.entries@.len(),
                self.wf(),
                i <= n_entries,
                entries@.len() == i,
                forall|j: int| #![trigger entries@[j]] 0 <= j < i
                    ==> entries@[j].0@ == self.entries@[j].0@
                        && entries@[j].1 == self.entries@[j].1,
            decreases n_entries - i,
        {
            let e = &self.entries[i];
            entries.push((e.0.clone(), e.1));
            i = i + 1;
        }
        let r = NameIdx { entries };
        proof {
            assert forall|n: Seq<char>, v: u64| #[trigger] r.has(n, v) implies self.has(n, v) by {
                let j = choose|j: int|
                    0 <= j < r.entries@.len() && r.entries@[j].0@ == n && r.entries@[j].1 == v;
                assert(self.entries@[j].0@ == n && self.entries@[j].1 == v);
            }
            assert forall|n: Seq<char>, v: u64| #[trigger] self.has(n, v) implies r.has(n, v) by {
                let j = choose|j: int|
                    0 <= j < self.entries@.len() && self.entries@[j].0@ == n
                        && self.entries@[j].1 == v;
                assert(r.entries@[j].0@ == n && r.entries@[j].1 == v);
            }
        }
        r
    }

    /// The bindings in their stored order.
    pub closed spec fn entry_seq(&self) -> Seq<(String, u64)> {
        self.entries@
    }

    /// The bindings in their stored order, for saving.
    pub fn entries(&self) -> (v: &Vec<(String, u64)>)
        ensures
            v@ == self.entry_seq(),
            forall|i: int| #![trigger v@[i]] 0 <= i < v@.len()
                ==> self.has(v@[i].0@, v@[i].1),
    {
        &self.entries
    }
}


/// A well-formed name index binds each name to at most one id.
pub proof fn lemma_has_functional(idx: &NameIdx, n: Seq<char>, a: u64, b: u64)
    requires
        idx.wf(),
        idx.has(n, a),
        idx.has(n, b),
    ensures
        a == b,
{
    let i = choose|i: int|
        0 <= i < idx.entries@.len() && idx.entries@[i].0@ == n && idx.entries@[i].1 == a;
    let j = choose|j: int|
        0 <= j < idx.entries@.len() && idx.entries@[j].0@ == n && idx.entries@[j].1 == b;
    if i != j {
        assert(idx.entries@[i].0@ != idx.entries@[j].0@);
    }
}

} // verus!
