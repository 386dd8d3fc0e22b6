//! Bidirectional association between unit ids and live engine object
//! handles.  Ephemeral: rebuilt from engine birth events, never saved.

use vstd::prelude::*;

verus! {

/// A one-to-one association between unit ids and engine handles.
/// The abstract value is the relation `self.linked(uid, handle)`.
#[derive(Debug)]
pub struct LinkMap {
    links: Vec<(u64, u64)>,
}

impl LinkMap {
    /// True when `uid` is associated with `handle`.
    pub closed spec fn linked(&self, uid: u64, handle: u64) -> bool {
        exists|i: int|
            0 <= i < self.links@.len() && self.links@[i].0 == uid && self.links@[i].1 == handle
    }

    /// True when `uid` has some live handle.
    pub open spec fn has_uid(&self, uid: u64) -> bool {
        exists|h: u64| self.linked(uid, h)
    }

    /// True when `handle` is associated with some unit.
    pub open spec fn has_handle(&self, handle: u64) -> bool {
        exists|u: u64| self.linked(u, handle)
    }

    /// Each unit id and each handle appears at most once.
    pub closed spec fn wf(&self) -> bool {
        forall|i: int, j: int|
            0 <= i < self.links@.len() && 0 <= j < self.links@.len() && i != j
                ==> self.links@[i].0 != self.links@[j].0 && self.links@[i].1 != self.links@[j].1
    }

    pub fn new() -> (r: Self)
        ensures
            r.wf(),
            forall|u: u64, h: u64| !r.linked(u, h),
    {
        LinkMap { links: Vec::new() }
    }

    /// The live handle of a unit; `None` exactly when it has none.
    pub fn handle_of(&self, uid: u64) -> (r: Option<u64>)
        requires
            self.wf(),
        ensures
            match r {
                Some(h) => self.linked(uid, h),
                None => !self.has_uid(uid),
            },
    {
        let n = self.links.len();
        let mut i: usize = 0;
        while i < n
            invariant
                n == self.links@.len(),
                i <= n,
                forall|j: int| 0 <= j < i ==> self.links@[j].0 != uid,
            decreases n - i,
        {
            let e = &self.links[i];
            if e.0 == uid {
                return Some(e.1);
            }
            i = i + 1;
        }
        proof {
            if self.has_uid(uid) {
                let h = choose|h: u64| self.linked(uid, h);
                let j = choose|j: int|
                    0 <= j < self.links@.len() && self.links@[j].0 == uid
                        && self.links@[j].1 == h;
            }
        }
        None
    }

    /// The unit owning a handle; `None` exactly when none does.
    pub fn uid_of(&self, handle: u64) -> (r: Option<u64>)
        requires
            self.wf(),
        ensures
            match r {
                Some(u) => self.linked(u, handle),
                None => !self.has_handle(handle),
            },
    {
        let n = self.links.len();
        let mut i: usize = 0;
        while i < n
            invariant
                n == self.links@.len(),
                i <= n,
                forall|j: int| 0 <= j < i ==> self.links@[j].1 != handle,
            decreases n - i,
        {
            let e = &self.links[i];
            if e.1 == handle {
                return Some(e.0);
            }
            i = i + 1;
        }
        proof {
            if self.has_handle(handle) {
                let u = choose|u: u64| self.linked(u, handle);
                let j = choose|j: int|
                    0 <= j < self.links@.len() && self.links@[j].0 == u
                        && self.links@[j].1 == handle;
            }
        }
        None
    }

    /// Associates a unit with a handle.  The caller must first have
    /// dropped any old association of either endpoint.
    pub fn link(&mut self, uid: u64, handle: u64)
        requires
            old(self).wf(),
            !old(self).has_uid(uid),
            !old(self).has_handle(handle),
        ensures
            final(self).wf(),
            forall|u: u64, h: u64|
                final(self).linked(u, h) == (old(self).linked(u, h) || (u == uid && h == handle)),
    {
        proof {
            assert forall|j: int| 0 <= j < self.links@.len()
                implies self.links@[j].0 != uid && self.links@[j].1 != handle by {
                if self.links@[j].0 == uid {
                    assert(self.linked(uid, self.links@[j].1));
                }
                if self.links@[j].1 == handle {
                    assert(self.linked(self.links@[j].0, handle));
                }
            }
        }
        self.links.push((uid, handle));
        proof {
            let s_new = self.links@;
            let s_old = old(self).links@;
            assert forall|u: u64, h: u64| #[trigger] self.linked(u, h)
                implies (old(self).linked(u, h) || (u == uid && h == handle)) by {
                let i = choose|i: int|
                    0 <= i < s_new.len() && s_new[i].0 == u && s_new[i].1 == h;
                if i < s_old.len() {
                    assert(s_old[i].0 == u && s_old[i].1 == h);
                }
            }
            assert forall|u: u64, h: u64|
                (old(self).linked(u, h) || (u == uid && h == handle))
                implies #[trigger] self.linked(u, h) by {
                if old(self).linked(u, h) {
                    let i = choose|i: int|
                        0 <= i < s_old.len() && s_old[i].0 == u && s_old[i].1 == h;
                    assert(s_new[i].0 == u && s_new[i].1 == h);
                } else {
                    assert(s_new[s_old.len() as int].0 == u
                        && s_new[s_old.len() as int].1 == h);
                }
            }
        }
    }

    /// Drops the association of `uid`, if any.
    pub fn unlink_uid(&mut self, uid: u64)
        requires
            old(self).wf(),
        ensures
            final(self).wf(),
            forall|u: u64, h: u64|
                final(self).linked(u, h) == (old(self).linked(u, h) && u != uid),
    {
        let n_links = self.links.len();
        let mut i: usize = 0;
        while i < n_links
            invariant
                self == old(self),
                self.wf(),
                n_links == self.links@.len(),
                i <= n_links,
                forall|j: int| 0 <= j < i ==> self.links@[j].0 != uid,
            decreases n_links - i,
        {
            let hit = self.links[i].0 == uid;
            if hit {
                self.links.swap_remove(i);
                proof {
                    let s_old = old(self).links@;
                    let s_new = self.links@;
                    assert(s_new =~= s_old.update(i as int, s_old.last()).drop_last());
                    assert forall|u: u64, h: u64| #[trigger] self.linked(u, h)
                        implies (old(self).linked(u, h) && u != uid) by {
                        let j = choose|j: int|
                            0 <= j < s_new.len() && s_new[j].0 == u && s_new[j].1 == h;
                        if j == i {
                            assert(s_old[s_old.len() - 1].0 == u && s_old[s_old.len() - 1].1 == h);
                        } else {
                            assert(s_old[j].0 == u && s_old[j].1 == h);
                        }
                    }
                    assert forall|u: u64, h: u64|
                        (old(self).linked(u, h) && u != uid)
                        implies #[trigger] self.linked(u, h) by {
                        let j = choose|j: int|
                            0 <= j < s_old.len() && s_old[j].0 == u && s_old[j].1 == h;
                        if j == s_old.len() - 1 {
                            if i < s_old.len() - 1 {
                                assert(s_new[i as int].0 == u && s_new[i as int].1 == h);
                            }
                        } else {
                            assert(s_new[j].0 == u && s_new[j].1 == h);
                        }
                    }
                    assert forall|p: int, q: int|
                        0 <= p < s_new.len() && 0 <= q < s_new.len() && p != q
                        implies s_new[p].0 != s_new[q].0 && s_new[p].1 != s_new[q].1 by {
                        if p == i {
                            assert(s_new[p] == s_old[s_old.len() - 1] && s_new[q] == s_old[q]);
                        } else if q == i {
                            assert(s_new[q] == s_old[s_old.len() - 1] && s_new[p] == s_old[p]);
                        } else {
                            assert(s_new[p] == s_old[p] && s_new[q] == s_old[q]);
                        }
                    }
                }
                return;
            }
            i = i + 1;
        }
        proof {
            assert forall|u: u64, h: u64| #[trigger] self.linked(u, h)
                implies (old(self).linked(u, h) && u != uid) by {
                let j = choose|j: int|
                    0 <= j < self.links@.len() && self.links@[j].0 == u && self.links@[j].1 == h;
            }
        }
    }

    /// Drops the association of `handle`, if any, and reports the unit
    /// that held it.
    pub fn unlink_handle(&mut self, handle: u64) -> (r: Option<u64>)
        requires
            old(self).wf(),
        ensures
            final(self).wf(),
            forall|u: u64, h: u64|
                final(self).linked(u, h) == (old(self).linked(u, h) && h != handle),
            match r {
                Some(u) => old(self).linked(u, handle),
                None => !old(self).has_handle(handle) && *final(self) == *old(self),
            },
    {
        let found = self.uid_of(handle);
        match found {
            None => {
                proof {
                    assert forall|u: u64, h: u64| #[trigger] self.linked(u, h)
                        implies (old(self).linked(u, h) && h != handle) by {
                        if h == handle {
                            assert(old(self).has_handle(handle));
                        }
                    }
                }
                None
            }
            Some(u) => {
                self.unlink_uid(u);
                proof {
                    assert forall|x: u64, h: u64| old(self).linked(x, h) && h != handle
                        implies #[trigger] self.linked(x, h) by {
                        if x == u {
                            assert(old(self).wf());
                            let i = choose|i: int|
                                0 <= i < old(self).links@.len() && old(self).links@[i].0 == u
                                    && old(self).links@[i].1 == handle;
                            let j = choose|j: int|
                                0 <= j < old(self).links@.len() && old(self).links@[j].0 == x
                                    && old(self).links@[j].1 == h;
                            assert(i == j);
                        }
                    }
                    assert forall|x: u64, h: u64| #[trigger] self.linked(x, h)
                        implies (old(self).linked(x, h) && h != handle) by {
                        if h == handle {
                            assert(x != u);
                            let i = choose|i: int|
                                0 <= i < old(self).links@.len() && old(self).links@[i].0 == u
                                    && old(self).links@[i].1 == handle;
                            let j = choose|j: int|
                                0 <= j < old(self).links@.len() && old(self).links@[j].0 == x
                                    && old(self).links@[j].1 == h;
                            assert(i != j);
                        }
                    }
                }
                Some(u)
            }
        }
    }
}


/// A well-formed link table is a partial bijection: a unit has at most
/// one handle and a handle at most one unit.
pub proof fn lemma_linked_functional(m: &LinkMap, u1: u64, h1: u64, u2: u64, h2: u64)
    requires
        m.wf(),
        m.linked(u1, h1),
        m.linked(u2, h2),
    ensures
        u1 == u2 ==> h1 == h2,
        h1 == h2 ==> u1 == u2,
{
    let i = choose|i: int| 0 <= i < m.links@.len() && m.links@[i].0 == u1 && m.links@[i].1 == h1;
    let j = choose|j: int| 0 <= j < m.links@.len() && m.links@[j].0 == u2 && m.links@[j].1 == h2;
    if i != j {
        assert(m.links@[i].0 != m.links@[j].0 && m.links@[i].1 != m.links@[j].1);
    }
}

} // verus!
