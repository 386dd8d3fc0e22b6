//! Position synchronization: the caller polls the engine for the
//! working set of movement-eligible units and hands the answers back;
//! the store applies them, leaving dead units frozen, and reports
//! which units are confirmed gone and which groups moved.

use vstd::prelude::*;

use crate::entity::{Pos, Pose, Rot, SpawnedUnit, UnitView};
use crate::geom::pos_work;
use crate::store::Db;

verus! {

/// The engine's answer for one polled unit.
#[derive(Clone, Copy, Debug, PartialEq, Eq, Structural)]
pub enum ReportOutcome {
    /// The handle no longer resolves: the unit is confirmed gone.
    Invalid,
    /// The unit's current pose.
    Pose { pos: Pos, heading: Rot, alt: i64 },
}

/// What one report does to a unit record: a fresh pose is applied to
/// a known living unit when in range; everything else leaves the
/// record unchanged.  Dead units never move again.
pub open spec fn report_applied(
    uid: u64,
    oc: ReportOutcome,
    o: Db,
    f: Db,
) -> bool {
    match oc {
        ReportOutcome::Invalid => o.umap().contains_key(uid)
            ==> f.umap()[uid] == o.umap()[uid],
        ReportOutcome::Pose { pos, heading, alt } => o.umap().contains_key(uid) ==> {
            if o.ephemeral.links.has_uid(uid) && !o.umap()[uid].dead && pos_work(pos) {
                f.umap()[uid] == (UnitView {
                    pos: pos,
                    heading: heading,
                    pose: (Pose { pos: pos, alt: alt }),
                    ..o.umap()[uid]
                })
            } else {
                f.umap()[uid] == o.umap()[uid]
            }
        },
    }
}

/// Whether a report moves the unit: a pose answer for a known living
/// linked unit, in range, that differs from the stored pose.
pub open spec fn report_moves(uid: u64, oc: ReportOutcome, o: Db) -> bool {
    match oc {
        ReportOutcome::Invalid => false,
        ReportOutcome::Pose { pos, heading, alt } => o.umap().contains_key(uid)
            && o.ephemeral.links.has_uid(uid) && !o.umap()[uid].dead && pos_work(pos)
            && !(o.umap()[uid].pos == pos && o.umap()[uid].heading == heading
                && o.umap()[uid].pose == (Pose { pos: pos, alt: alt })),
    }
}

/// `uid` appears among the reports.
pub open spec fn reported(reports: Seq<(u64, ReportOutcome)>, uid: u64) -> bool {
    exists|i: int| 0 <= i < reports.len() && (#[trigger] reports[i]).0 == uid
}


/// Every reported-gone handle comes from an invalid report among the
/// first `upto` reports, of a linked unit.
pub open spec fn gone_ok(
    gone: Seq<u64>,
    reports: Seq<(u64, ReportOutcome)>,
    upto: int,
    o: Db,
) -> bool {
    forall|k: int| #![trigger gone[k]] 0 <= k < gone.len()
        ==> gone_elem_ok(gone[k], reports, upto, o)
}

/// One gone handle is justified by an invalid report of a linked unit.
pub open spec fn gone_elem_ok(
    h: u64,
    reports: Seq<(u64, ReportOutcome)>,
    upto: int,
    o: Db,
) -> bool {
    exists|j: int|
        0 <= j < upto && (#[trigger] reports[j]).1 is Invalid
            && o.ephemeral.links.linked(reports[j].0, h)
}

/// Every collected moved-group id is the group of some unit among the
/// first `upto` reports whose report moved it.
pub open spec fn moved_ok(
    moved: Seq<u64>,
    reports: Seq<(u64, ReportOutcome)>,
    upto: int,
    o: Db,
) -> bool {
    forall|k: int| #![trigger moved[k]] 0 <= k < moved.len()
        ==> moved_elem_ok(moved[k], reports, upto, o)
}

/// One moved-group id is justified by a report that moved a member.
pub open spec fn moved_elem_ok(
    g: u64,
    reports: Seq<(u64, ReportOutcome)>,
    upto: int,
    o: Db,
) -> bool {
    exists|j: int|
        0 <= j < upto && report_moves((#[trigger] reports[j]).0, reports[j].1, o)
            && o.umap()[reports[j].0].group == g
}


proof fn lemma_gone_elem_widen(
    h: u64,
    reports: Seq<(u64, ReportOutcome)>,
    a: int,
    b: int,
    o: Db,
)
    requires
        gone_elem_ok(h, reports, a, o),
        0 <= a <= b,
    ensures
        gone_elem_ok(h, reports, b, o),
{
    let j = choose|j: int|
        0 <= j < a && (#[trigger] reports[j]).1 is Invalid
            && o.ephemeral.links.linked(reports[j].0, h);
    assert(0 <= j < b && reports[j].1 is Invalid
        && o.ephemeral.links.linked(reports[j].0, h));
}

proof fn lemma_moved_elem_widen(
    g: u64,
    reports: Seq<(u64, ReportOutcome)>,
    a: int,
    b: int,
    o: Db,
)
    requires
        moved_elem_ok(g, reports, a, o),
        0 <= a <= b,
    ensures
        moved_elem_ok(g, reports, b, o),
{
    let j = choose|j: int|
        0 <= j < a && report_moves((#[trigger] reports[j]).0, reports[j].1, o)
            && o.umap()[reports[j].0].group == g;
    assert(0 <= j < b && report_moves(reports[j].0, reports[j].1, o)
        && o.umap()[reports[j].0].group == g);
}

proof fn lemma_gone_widen(
    gone: Seq<u64>,
    reports: Seq<(u64, ReportOutcome)>,
    a: int,
    b: int,
    o: Db,
)
    requires
        gone_ok(gone, reports, a, o),
        0 <= a <= b,
    ensures
        gone_ok(gone, reports, b, o),
{
    assert forall|k: int| #![trigger gone[k]] 0 <= k < gone.len()
        implies gone_elem_ok(gone[k], reports, b, o) by {
        assert(gone_elem_ok(gone[k], reports, a, o));
        lemma_gone_elem_widen(gone[k], reports, a, b, o);
    }
}

proof fn lemma_moved_widen(
    moved: Seq<u64>,
    reports: Seq<(u64, ReportOutcome)>,
    a: int,
    b: int,
    o: Db,
)
    requires
        moved_ok(moved, reports, a, o),
        0 <= a <= b,
    ensures
        moved_ok(moved, reports, b, o),
{
    assert forall|k: int| #![trigger moved[k]] 0 <= k < moved.len()
        implies moved_elem_ok(moved[k], reports, b, o) by {
        assert(moved_elem_ok(moved[k], reports, a, o));
        lemma_moved_elem_widen(moved[k], reports, a, b, o);
    }
}

impl Db {
    /// The movement-eligible units that have live handles, paired with
    /// them: the default working set for a position-polling pass.
    pub fn poll_list(&self) -> (r: Vec<(u64, u64)>)
        requires
            self.wf(),
        ensures
            forall|k: int| #![trigger r@[k]] 0 <= k < r@.len()
                ==> self.ephemeral.movable.set().contains(r@[k].0)
                    && self.ephemeral.links.linked(r@[k].0, r@[k].1),
            forall|u: u64, h: u64| self.ephemeral.movable.set().contains(u)
                && self.ephemeral.links.linked(u, h) ==> r@.contains((u, h)),
            forall|p: int, q: int| 0 <= p < q < r@.len() ==> r@[p].0 != r@[q].0,
    {
        let ids = self.ephemeral.movable.as_vec();
        let n = ids.len();
        let mut r: Vec<(u64, u64)> = Vec::new();
        let mut i: usize = 0;
        while i < n
            invariant
                self.wf(),
                n == ids@.len(),
                ids@ == self.ephemeral.movable.seq(),
                i <= n,
                forall|k: int| #![trigger r@[k]] 0 <= k < r@.len()
                    ==> self.ephemeral.movable.set().contains(r@[k].0)
                        && self.ephemeral.links.linked(r@[k].0, r@[k].1),
                forall|u: u64, h: u64|
                    #![trigger self.ephemeral.links.linked(u, h)]
                    (exists|j: int| 0 <= j < i && ids@[j] == u)
                        && self.ephemeral.links.linked(u, h) ==> r@.contains((u, h)),
                forall|k: int| #![trigger r@[k]] 0 <= k < r@.len()
                    ==> exists|j: int| 0 <= j < i && ids@[j] == r@[k].0,
                forall|p: int, q: int| 0 <= p < q < r@.len() ==> r@[p].0 != r@[q].0,
            decreases n - i,
        {
            let uid = ids[i];
            match self.ephemeral.links.handle_of(uid) {
                Some(h) => {
                    let ghost r0 = r@;
                    proof {
                        assert(self.ephemeral.movable.seq()[i as int] == uid);
                        assert(self.ephemeral.movable.set().contains(uid));
                        assert forall|p: int| 0 <= p < r0.len()
                            implies r0[p].0 != uid by {
                            if r0[p].0 == uid {
                                let j = choose|j: int| 0 <= j < i && ids@[j] == uid;
                                assert(self.ephemeral.movable.seq().no_duplicates());
                            }
                        }
                    }
                    r.push((uid, h));
                    proof {
                        assert(r@[r0.len() as int] == (uid, h));
                        assert forall|u: u64, h2: u64|
                            #![trigger self.ephemeral.links.linked(u, h2)]
                            (exists|j: int| 0 <= j < i + 1 && ids@[j] == u)
                                && self.ephemeral.links.linked(u, h2)
                            implies r@.contains((u, h2)) by {
                            let j = choose|j: int| 0 <= j < i + 1 && ids@[j] == u;
                            if j < i {
                                assert(r0.contains((u, h2)));
                                let k = choose|k: int|
                                    0 <= k < r0.len() && r0[k] == (u, h2);
                                assert(r@[k] == (u, h2));
                            } else {
                                crate::linkmap::lemma_linked_functional(
                                    &self.ephemeral.links, u, h2, uid, h);
                                assert(r@[r0.len() as int] == (u, h2));
                            }
                        }
                        assert forall|k: int| #![trigger r@[k]] 0 <= k < r@.len()
                            implies exists|j: int| 0 <= j < i + 1 && ids@[j] == r@[k].0 by {
                            if k < r0.len() {
                                let j = choose|j: int| 0 <= j < i && ids@[j] == r@[k].0;
                            } else {
                                assert(ids@[i as int] == r@[k].0);
                            }
                        }
                    }
                },
                None => {
                    proof {
                        assert forall|u: u64, h2: u64|
                            #![trigger self.ephemeral.links.linked(u, h2)]
                            (exists|j: int| 0 <= j < i + 1 && ids@[j] == u)
                                && self.ephemeral.links.linked(u, h2)
                            implies r@.contains((u, h2)) by {
                            let j = choose|j: int| 0 <= j < i + 1 && ids@[j] == u;
                            if j == i {
                                assert(self.ephemeral.links.has_uid(uid));
                            }
                        }
                        assert forall|k: int| #![trigger r@[k]] 0 <= k < r@.len()
                            implies exists|j: int| 0 <= j < i + 1 && ids@[j] == r@[k].0 by {
                            let j = choose|j: int| 0 <= j < i && ids@[j] == r@[k].0;
                        }
                    }
                },
            }
            i = i + 1;
        }
        proof {
            assert forall|u: u64, h: u64|
                self.ephemeral.movable.set().contains(u)
                    && self.ephemeral.links.linked(u, h) implies r@.contains((u, h)) by {
                let j = choose|j: int|
                    0 <= j < self.ephemeral.movable.seq().len()
                        && self.ephemeral.movable.seq()[j] == u;
            }
        }
        r
    }

    /// Applies a batch of polled position reports.  Living units with
    /// fresh poses are updated and their groups collected for a marker
    /// refresh; invalid handles are returned as confirmed gone; dead
    /// and unknown units are skipped.  The store is dirtied once when
    /// anything moved.
    pub fn update_unit_positions(
        &mut self,
        reports: &Vec<(u64, ReportOutcome)>,
        now: i64,
    ) -> (r: (Vec<u64>, Vec<u64>))
        requires
            old(self).wf(),
            forall|p: int, q: int| 0 <= p < q < reports@.len()
                ==> (#[trigger] reports@[p]).0 != (#[trigger] reports@[q]).0,
        ensures
            final(self).wf(),
            final(self).gmap() == old(self).gmap(),
            final(self).umap().dom() == old(self).umap().dom(),
            final(self).ids == old(self).ids,
            final(self).ephemeral.links == old(self).ephemeral.links,
            final(self).ephemeral.movable == old(self).ephemeral.movable,
            final(self).ephemeral.marks == old(self).ephemeral.marks,
            final(self).ephemeral.markq == old(self).ephemeral.markq,
            final(self).ephemeral.spawnq == old(self).ephemeral.spawnq,
            final(self).ephemeral.despawnq == old(self).ephemeral.despawnq,
            forall|i: int| 0 <= i < reports@.len() ==> report_applied(
                (#[trigger] reports@[i]).0, reports@[i].1, *old(self), *final(self)),
            forall|u: u64| #[trigger] old(self).umap().contains_key(u)
                && !reported(reports@, u) ==> final(self).umap()[u] == old(self).umap()[u],
            forall|u: u64| #[trigger] old(self).umap().contains_key(u)
                && old(self).umap()[u].dead
                ==> final(self).umap()[u] == old(self).umap()[u],
            gone_ok(r.0@, reports@, reports@.len() as int, *old(self)),
            moved_ok(r.1@, reports@, reports@.len() as int, *old(self)),
            forall|i: int| 0 <= i < reports@.len()
                && report_moves((#[trigger] reports@[i]).0, reports@[i].1, *old(self))
                ==> r.1@.contains(old(self).umap()[reports@[i].0].group),
            forall|p: int, q: int| 0 <= p < q < r.1@.len() ==> r.1@[p] != r.1@[q],
            r.1@.len() > 0 ==> final(self).dirty,
            r.1@.len() == 0 ==> final(self).dirty == old(self).dirty,
    {
        let n = reports.len();
        let mut gone: Vec<u64> = Vec::new();
        let mut moved: Vec<u64> = Vec::new();
        let mut i: usize = 0;
        while i < n
            invariant
                old(self).wf(),
                self.wf(),
                forall|p: int, q: int| 0 <= p < q < reports@.len()
                    ==> (#[trigger] reports@[p]).0 != (#[trigger] reports@[q]).0,
                n == reports@.len(),
                i <= n,
                self.gmap() == old(self).gmap(),
                self.umap().dom() == old(self).umap().dom(),
                self.ids == old(self).ids,
                self.ephemeral.links == old(self).ephemeral.links,
                self.ephemeral.movable == old(self).ephemeral.movable,
                self.ephemeral.marks == old(self).ephemeral.marks,
                self.ephemeral.markq == old(self).ephemeral.markq,
                self.ephemeral.next_mark == old(self).ephemeral.next_mark,
                self.ephemeral.spawnq == old(self).ephemeral.spawnq,
                self.ephemeral.despawnq == old(self).ephemeral.despawnq,
                self.ephemeral.delayspawnq == old(self).ephemeral.delayspawnq,
                forall|j: int| 0 <= j < i ==> report_applied(
                    (#[trigger] reports@[j]).0, reports@[j].1, *old(self), *self),
                forall|u: u64| #[trigger] old(self).umap().contains_key(u)
                    && !reported(reports@.take(i as int), u)
                    ==> self.umap()[u] == old(self).umap()[u],
                gone_ok(gone@, reports@, i as int, *old(self)),
                moved_ok(moved@, reports@, i as int, *old(self)),
                forall|j: int| 0 <= j < i
                    && report_moves((#[trigger] reports@[j]).0, reports@[j].1, *old(self))
                    ==> moved@.contains(old(self).umap()[reports@[j].0].group),
                forall|p: int, q: int| 0 <= p < q < moved@.len() ==> moved@[p] != moved@[q],
                moved@.len() > 0 ==> self.dirty,
                moved@.len() == 0 ==> self.dirty == old(self).dirty,
            decreases n - i,
        {
            proof {
                assert forall|u: u64| #[trigger] reported(reports@.take(i + 1), u)
                    implies (reported(reports@.take(i as int), u)
                        || u == reports@[i as int].0) by {
                    let j = choose|j: int|
                        0 <= j < i + 1 && (#[trigger] reports@.take(i + 1)[j]).0 == u;
                    if j < i {
                        assert(reports@.take(i as int)[j].0 == u);
                    }
                }
                assert forall|u: u64| reported(reports@.take(i as int), u)
                    implies #[trigger] reported(reports@.take(i + 1), u) by {
                    let j = choose|j: int|
                        0 <= j < i && (#[trigger] reports@.take(i as int)[j]).0 == u;
                    assert(reports@.take(i + 1)[j].0 == u);
                }
            }
            let uid = reports[i].0;
            let ghost pre = *self;
            match reports[i].1 {
                ReportOutcome::Invalid => {
                    match self.ephemeral.links.handle_of(uid) {
                        Some(h) => {
                            let ghost g0 = gone@;
                            gone.push(h);
                            proof {
                                assert(old(self).ephemeral.links.linked(uid, h));
                                assert(gone_ok(gone@, reports@, i + 1, *old(self))) by {
                                    assert forall|k: int| #![trigger gone@[k]]
                                        0 <= k < gone@.len() implies gone_elem_ok(
                                        gone@[k], reports@, i + 1, *old(self)) by {
                                        if k < g0.len() {
                                            assert(gone@[k] == g0[k]);
                                            assert(gone_elem_ok(
                                                g0[k], reports@, i as int, *old(self)));
                                            lemma_gone_elem_widen(
                                                g0[k], reports@, i as int, i + 1,
                                                *old(self));
                                        } else {
                                            assert(gone@[k] == h);
                                            assert((reports@[i as int]).1 is Invalid
                                                && old(self).ephemeral.links.linked(
                                                reports@[i as int].0, h));
                                        }
                                    }
                                }
                            }
                        },
                        None => {},
                    }
                    proof {
                        assert(report_applied(uid, reports@[i as int].1, *old(self), *self));
                    }
                },
                ReportOutcome::Pose { pos, heading, alt } => {
                    let linked = self.ephemeral.links.handle_of(uid).is_some();
                    let mut updated = false;
                    if linked {
                        match self.get_unit(uid) {
                            None => {},
                            Some(u) => {
                                if !u.dead && pos.x >= -crate::geom::WORK_LIMIT
                                    && pos.x <= crate::geom::WORK_LIMIT
                                    && pos.y >= -crate::geom::WORK_LIMIT
                                    && pos.y <= crate::geom::WORK_LIMIT {
                                    let same = u.pos == pos && u.heading == heading
                                        && u.pose == (Pose { pos, alt });
                                    if !same {
                                        let nu = SpawnedUnit {
                                            name: u.name.clone(),
                                            id: u.id,
                                            group: u.group,
                                            side: u.side,
                                            typ: u.typ.clone(),
                                            tags: u.tags,
                                            template_name: u.template_name.clone(),
                                            spawn_pos: u.spawn_pos,
                                            spawn_heading: u.spawn_heading,
                                            spawn_pose: u.spawn_pose,
                                            pos: pos,
                                            heading: heading,
                                            pose: Pose { pos, alt },
                                            dead: false,
                                            moved: Some(now),
                                        };
                                        let gid = u.group;
                                        proof {
                                            assert(nu@ == (UnitView {
                                                pos: pos,
                                                heading: heading,
                                                pose: (Pose { pos: pos, alt: alt }),
                                                ..pre.umap()[uid]
                                            }));
                                        }
                                        let _ = crate::chunk::unit_map_insert(
                                            &mut self.persisted.units, uid, nu);
                                        self.dirty = true;
                                        self.ephemeral.near_enemies.insert(uid);
                                        self.ephemeral.walkabout.insert(uid);
                                        proof {
                                            assert(!reported(
                                                reports@.take(i as int), uid)) by {
                                                if reported(reports@.take(i as int), uid) {
                                                    let j = choose|j: int|
                                                        0 <= j < i && (#[trigger] reports@.take(
                                                        i as int)[j]).0 == uid;
                                                    assert(reports@[j].0 == uid);
                                                }
                                            }
                                            assert(pre.umap()[uid] == old(self).umap()[uid]);
                                            assert(report_moves(
                                                uid, reports@[i as int].1, *old(self)));
                                            assert(old(self).umap()[uid].group == gid);
                                        }
                                        let ghost m0 = moved@;
                                        if !moved_contains(&moved, gid) {
                                            moved.push(gid);
                                        }
                                        updated = true;
                                        proof {
                                            lemma_pose_update_wf(pre, *self, uid, pos, heading, alt);
                                            assert(moved@.contains(gid)) by {
                                                if m0.contains(gid) {
                                                    let k = choose|k: int|
                                                        0 <= k < m0.len() && m0[k] == gid;
                                                    assert(moved@[k] == gid);
                                                } else {
                                                    assert(moved@[m0.len() as int] == gid);
                                                }
                                            }
                                            assert forall|j2: int| 0 <= j2 < i + 1
                                                && report_moves(
                                                (#[trigger] reports@[j2]).0,
                                                reports@[j2].1, *old(self))
                                                implies moved@.contains(old(self).umap()[
                                                reports@[j2].0].group) by {
                                                if j2 < i {
                                                    let grp = old(self).umap()[
                                                        reports@[j2].0].group;
                                                    assert(m0.contains(grp));
                                                    let k = choose|k: int|
                                                        0 <= k < m0.len() && m0[k] == grp;
                                                    assert(moved@[k] == grp);
                                                } else {
                                                    assert(moved@.contains(gid));
                                                }
                                            }
                                            assert(moved_ok(
                                                moved@, reports@, i + 1, *old(self))) by {
                                                assert forall|k: int| #![trigger moved@[k]]
                                                    0 <= k < moved@.len() implies
                                                    moved_elem_ok(moved@[k], reports@,
                                                        i + 1, *old(self)) by {
                                                    if k < m0.len() {
                                                        assert(moved@[k] == m0[k]);
                                                        assert(moved_elem_ok(m0[k],
                                                            reports@, i as int, *old(self)));
                                                        lemma_moved_elem_widen(
                                                            m0[k], reports@, i as int,
                                                            i + 1, *old(self));
                                                    } else {
                                                        assert(moved@[k] == gid);
                                                        assert(report_moves(
                                                            reports@[i as int].0,
                                                            reports@[i as int].1,
                                                            *old(self)));
                                                    }
                                                }
                                            }
                                        }
                                    }
                                }
                            },
                        }
                    }
                    proof {
                        if !updated {
                            assert(*self == pre);
                            assert(report_applied(
                                uid, reports@[i as int].1, *old(self), *self));
                            assert(!report_moves(uid, reports@[i as int].1, *old(self)));
                        } else {
                            assert(report_applied(
                                uid, reports@[i as int].1, *old(self), *self));
                        }
                    }
                },
            }
            proof {
                // Paths that pushed have already justified the new
                // element against the widened bound; the others only
                // need the old justifications widened.
                if gone_ok(gone@, reports@, i as int, *old(self)) {
                    lemma_gone_widen(gone@, reports@, i as int, i + 1, *old(self));
                }
                if moved_ok(moved@, reports@, i as int, *old(self)) {
                    lemma_moved_widen(moved@, reports@, i as int, i + 1, *old(self));
                }
                assert forall|j: int| 0 <= j < i + 1 implies report_applied(
                    (#[trigger] reports@[j]).0, reports@[j].1, *old(self), *self) by {
                    if j < i {
                        assert(reports@[j].0 != uid);
                        assert(report_applied(reports@[j].0, reports@[j].1, *old(self), pre));
                        if old(self).umap().contains_key(reports@[j].0) {
                            assert(self.umap()[reports@[j].0] == pre.umap()[reports@[j].0]);
                        }
                    }
                }
                assert forall|u: u64| #[trigger] old(self).umap().contains_key(u)
                    && !reported(reports@.take(i + 1), u)
                    implies self.umap()[u] == old(self).umap()[u] by {
                    assert(!reported(reports@.take(i as int), u));
                    assert(reports@.take(i + 1)[i as int].0 == reports@[i as int].0);
                    assert(u != uid);
                    assert(self.umap()[u] == pre.umap()[u]);
                }
            }
            i = i + 1;
        }
        proof {
            assert(reports@.take(n as int) =~= reports@);
            assert forall|u: u64| #[trigger] old(self).umap().contains_key(u)
                && old(self).umap()[u].dead
                implies self.umap()[u] == old(self).umap()[u] by {
                if reported(reports@, u) {
                    let j = choose|j: int|
                        0 <= j < reports@.len() && (#[trigger] reports@[j]).0 == u;
                    assert(report_applied(reports@[j].0, reports@[j].1, *old(self), *self));
                }
            }
        }
        (gone, moved)
    }
}

/// Linear scan used to deduplicate the moved-group list.
fn moved_contains(v: &Vec<u64>, g: u64) -> (b: bool)
    ensures
        b == v@.contains(g),
{
    let n = v.len();
    let mut i: usize = 0;
    while i < n
        invariant
            n == v@.len(),
            i <= n,
            forall|j: int| 0 <= j < i ==> v@[j] != g,
        decreases n - i,
    {
        if v[i] == g {
            return true;
        }
        i = i + 1;
    }
    proof {
        if v@.contains(g) {
            let j = choose|j: int| 0 <= j < v@.len() && v@[j] == g;
        }
    }
    false
}

/// A pose update of one living unit preserves store well-formedness:
/// the record keeps its identity, name, group and spawn-time fields.
proof fn lemma_pose_update_wf(o: Db, f: Db, uid: u64, pos: Pos, heading: Rot, alt: i64)
    requires
        o.wf(),
        o.umap().contains_key(uid),
        !o.umap()[uid].dead,
        f.gmap() == o.gmap(),
        pos_work(pos),
        f.umap() == o.umap().insert(
            uid,
            UnitView { pos: pos, heading: heading, pose: (Pose { pos: pos, alt: alt }),
                ..o.umap()[uid] },
        ),
        f.persisted.groups_by_name == o.persisted.groups_by_name,
        f.persisted.units_by_name == o.persisted.units_by_name,
        f.persisted.by_side == o.persisted.by_side,
        f.persisted.deployed == o.persisted.deployed,
        f.persisted.troops == o.persisted.troops,
        f.persisted.crates == o.persisted.crates,
        f.persisted.jtacs == o.persisted.jtacs,
        f.persisted.ewrs == o.persisted.ewrs,
        f.persisted.crates_by_player == o.persisted.crates_by_player,
        f.ephemeral.links == o.ephemeral.links,
        f.ephemeral.marks == o.ephemeral.marks,
        f.ephemeral.next_mark == o.ephemeral.next_mark,
        f.ephemeral.movable.wf(),
        f.ephemeral.near_enemies.wf(),
        f.ephemeral.walkabout.wf(),
        f.ids == o.ids,
    ensures
        f.wf(),
{
    assert(f.umap().dom() =~= o.umap().dom());
    assert forall|g2: u64, j: int|
        f.gmap().contains_key(g2) && 0 <= j < f.gmap()[g2].units.len()
        implies f.umap().contains_key(#[trigger] f.gmap()[g2].units[j])
            && f.umap()[f.gmap()[g2].units[j]].group == g2 by {
        let u2 = f.gmap()[g2].units[j];
        assert(o.umap().contains_key(u2) && o.umap()[u2].group == g2);
    }
    assert forall|u2: u64| #[trigger] f.umap().contains_key(u2)
        implies f.umap()[u2].id == u2 && f.umap()[u2].death_frozen()
            && pos_work(f.umap()[u2].pos) && pos_work(f.umap()[u2].spawn_pos)
            && f.gmap().contains_key(f.umap()[u2].group)
            && f.gmap()[f.umap()[u2].group].units.contains(u2) by {
        assert(o.umap().contains_key(u2));
    }
    assert forall|n2: Seq<char>, u2: u64| #[trigger] f.persisted.units_by_name.has(n2, u2)
        <==> (f.umap().contains_key(u2) && f.umap()[u2].name == n2) by {
        if o.umap().contains_key(u2) {
            assert(f.umap()[u2].name == o.umap()[u2].name);
        }
    }
    assert forall|u2: u64, h2: u64| #[trigger] f.ephemeral.links.linked(u2, h2)
        implies f.umap().contains_key(u2) by {
        assert(o.ephemeral.links.linked(u2, h2));
    }
}

} // verus!
