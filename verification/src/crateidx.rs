//! Player-to-crate ownership index: which player deployed each supply
//! crate group.  Each crate group has exactly one owner.

use vstd::prelude::*;

verus! {

/// An association from player identities to the crate groups they own.
/// The abstract value is the relation `self.owns(player, gid)`; each
/// group id appears at most once.
#[derive(Debug)]
pub struct CrateIdx {
    entries: Vec<(String, u64)>,
}

impl CrateIdx {
    /// True when `player` owns the crate group `gid`.
    pub closed spec fn owns(&self, player: Seq<char>, gid: u64) -> bool {
        exists|i: int|
            0 <= i < self.entries@.len() && self.entries@[i].0@ == player
                && self.entries@[i].1 == gid
    }

    /// True when some player owns `gid`.
    pub open spec fn has_gid(&self, gid: u64) -> bool {
        exists|p: Seq<char>| self.owns(p, gid)
    }

    /// Each group id appears at most once.
    pub closed spec fn wf(&self) -> bool {
        forall|i: int, j: int|
            0 <= i < self.entries@.len() && 0 <= j < self.entries@.len() && i != j
                ==> self.entries@[i].1 != self.entries@[j].1
    }

    pub fn new() -> (r: Self)
        ensures
            r.wf(),
            forall|p: Seq<char>, g: u64| !r.owns(p, g),
    {
        CrateIdx { entries: Vec::new() }
    }

    /// Records that `player` owns the fresh crate group `gid`.
    pub fn add(&mut self, player: String, gid: u64)
        requires
            old(self).wf(),
            !old(self).has_gid(gid),
        ensures
            final(self).wf(),
            forall|p: Seq<char>, g: u64|
                final(self).owns(p, g) == (old(self).owns(p, g) || (p == player@ && g == gid)),
    {
        proof {
            assert forall|j: int| 0 <= j < self.entries@.len()
                implies self.entries@[j].1 != gid by {
                if self.entries@[j].1 == gid {
                    assert(self.owns(self.entries@[j].0@, gid));
                }
            }
        }
        self.entries.push((player, gid));
        proof {
            let s_new = self.entries@;
            let s_old = old(self).entries@;
            assert forall|p: Seq<char>, g: u64| #[trigger] self.owns(p, g)
                implies (old(self).owns(p, g) || (p == player@ && g == gid)) by {
                let i = choose|i: int|
                    0 <= i < s_new.len() && s_new[i].0@ == p && s_new[i].1 == g;
                if i < s_old.len() {
                    assert(s_old[i].0@ == p && s_old[i].1 == g);
                }
            }
            assert forall|p: Seq<char>, g: u64|
                (old(self).owns(p, g) || (p == player@ && g == gid))
                implies #[trigger] self.owns(p, g) by {
                if old(self).owns(p, g) {
                    let i = choose|i: int|
                        0 <= i < s_old.len() && s_old[i].0@ == p && s_old[i].1 == g;
                    assert(s_new[i].0@ == p && s_new[i].1 == g);
                } else {
                    assert(s_new[s_old.len() as int].0@ == p
                        && s_new[s_old.len() as int].1 == g);
                }
            }
        }
    }

    /// Forgets the owner of `gid`, if any.
    pub fn remove_gid(&mut self, gid: u64)
        requires
            old(self).wf(),
        ensures
            final(self).wf(),
            forall|p: Seq<char>, g: u64|
                final(self).owns(p, g) == (old(self).owns(p, g) && g != gid),
    {
        let n_entries = self.entries.len();
        let mut i: usize = 0;
        while i < n_entries
            invariant
                self == old(self),
                self.wf(),
                n_entries == self.entries@.len(),
                i <= n_entries,
                forall|j: int| 0 <= j < i ==> self.entries@[j].1 != gid,
            decreases n_entries - i,
        {
            let hit = self.entries[i].1 == gid;
            if hit {
                self.entries.swap_remove(i);
                proof {
                    let s_old = old(self).entries@;
                    let s_new = self.entries@;
                    assert(s_new =~= s_old.update(i as int, s_old.last()).drop_last());
                    assert forall|p: Seq<char>, g: u64| #[trigger] self.owns(p, g)
                        implies (old(self).owns(p, g) && g != gid) by {
                        let j = choose|j: int|
                            0 <= j < s_new.len() && s_new[j].0@ == p && s_new[j].1 == g;
                        if j == i {
                            assert(s_old[s_old.len() - 1].0@ == p
                                && s_old[s_old.len() - 1].1 == g);
                        } else {
                            assert(s_old[j].0@ == p && s_old[j].1 == g);
                        }
                    }
                    assert forall|p: Seq<char>, g: u64|
                        (old(self).owns(p, g) && g != gid)
                        implies #[trigger] self.owns(p, g) by {
                        let j = choose|j: int|
                            0 <= j < s_old.len() && s_old[j].0@ == p && s_old[j].1 == g;
                        if j == s_old.len() - 1 {
                            if i < s_old.len() - 1 {
                                assert(s_new[i as int].0@ == p && s_new[i as int].1 == g);
                            }
                        } else {
                            assert(s_new[j].0@ == p && s_new[j].1 == g);
                        }
                    }
                    assert forall|p: int, q: int|
                        0 <= p < s_new.len() && 0 <= q < s_new.len() && p != q
                        implies s_new[p].1 != s_new[q].1 by {
                        if p == i {
                            assert(s_new[p] == s_old[s_old.len() - 1] && s_new[q] == s_old[q]);
                        } else if q == i {
                            assert(s_new[q] == s_old[s_old.len() - 1] && s_new[p] == s_old[p]);
                        } else {
                            assert(s_new[p] == s_old[p] && s_new[q] == s_old[q]);
                        }
                    }
                }
                return;
            }
            i = i + 1;
        }
        proof {
            assert forall|p: Seq<char>, g: u64| #[trigger] self.owns(p, g)
                implies (old(self).owns(p, g) && g != gid) by {
                let j = choose|j: int|
                    0 <= j < self.entries@.len() && self.entries@[j].0@ == p
                        && self.entries@[j].1 == g;
            }
        }
    }


    /// An independent copy with the same ownership relation.
    pub fn duplicate(&self) -> (r: Self)
        requires
            self.wf(),
        ensures
            r.wf(),
            forall|p: Seq<char>, g: u64| r.owns(p, g) == self.owns(p, g),
    {
        let n_entries = self.entries.len();
        let mut entries: Vec<(String, u64)> = Vec::new();
        let mut i: usize = 0;
        while i < n_entries
            invariant
                n_entries == self.entries@.len(),
                self.wf(),
                i <= n_entries,
                entries@.len() == i,
                forall|j: int| #![trigger entries@[j]] 0 <= j < i
                    ==> entries@[j].0@ == self.entries@[j].0@
                        && entries@[j].1 == self.entries@[j].1,
            decreases n_entries - i,
        {
            let e = &self.entries[i];
            entries.push((e.0.clone(), e.1));
            i = i + 1;
        }
        let r = CrateIdx { entries };
        proof {
            assert forall|p: Seq<char>, g: u64| #[trigger] r.owns(p, g) implies self.owns(p, g) by {
                let j = choose|j: int|
                    0 <= j < r.entries@.len() && r.entries@[j].0@ == p && r.entries@[j].1 == g;
                assert(self.entries@[j].0@ == p && self.entries@[j].1 == g);
            }
            assert forall|p: Seq<char>, g: u64| #[trigger] self.owns(p, g) implies r.owns(p, g) by {
                let j = choose|j: int|
                    0 <= j < self.entries@.len() && self.entries@[j].0@ == p
                        && self.entries@[j].1 == g;
                assert(r.entries@[j].0@ == p && r.entries@[j].1 == g);
            }
        }
        r
    }

    /// The crate groups `player` owns, in stored order.
    pub fn crates_of(&self, player: &String) -> (v: Vec<u64>)
        requires
            self.wf(),
        ensures
            forall|k: int| #![trigger v@[k]] 0 <= k < v@.len() ==> self.owns(player@, v@[k]),
            forall|g: u64| self.owns(player@, g) ==> v@.contains(g),
    {
        let n = self.entries.len();
        let mut v: Vec<u64> = Vec::new();
        let mut i: usize = 0;
        while i < n
            invariant
                self.wf(),
                n == self.entries@.len(),
                i <= n,
                forall|k: int| #![trigger v@[k]] 0 <= k < v@.len() ==> self.owns(player@, v@[k]),
                forall|j: int| #![trigger self.entries@[j]] 0 <= j < i
                    && self.entries@[j].0@ == player@ ==> v@.contains(self.entries@[j].1),
            decreases n - i,
        {
            let e = &self.entries[i];
            if e.0 == *player {
                let ghost v0 = v@;
                v.push(e.1);
                proof {
                    assert(self.owns(player@, self.entries@[i as int].1));
                    assert forall|j: int| #![trigger self.entries@[j]] 0 <= j < i + 1
                        && self.entries@[j].0@ == player@
                        implies v@.contains(self.entries@[j].1) by {
                        if j < i {
                            let k = choose|k: int| 0 <= k < v0.len() && v0[k] == self.entries@[j].1;
                            assert(v@[k] == self.entries@[j].1);
                        } else {
                            assert(v@[v0.len() as int] == self.entries@[i as int].1);
                        }
                    }
                }
            }
            i = i + 1;
        }
        proof {
            assert forall|g: u64| self.owns(player@, g) implies v@.contains(g) by {
                let j = choose|j: int|
                    0 <= j < self.entries@.len() && self.entries@[j].0@ == player@
                        && self.entries@[j].1 == g;
            }
        }
        v
    }
}

} // verus!
