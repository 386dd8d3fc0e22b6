//! Lifecycle management: group queries, spawn planning, marker
//! refresh, group creation with cascading index updates, cascading
//! deletion, and birth/death event reconciliation.

use vstd::prelude::*;

use crate::entity::{Pos, SpawnedGroup, SpawnedUnit, Template, TemplateUnitView, UnitView};
use crate::geom::{centroid, pos_work, spec_centroid};
use crate::spawnloc::{
    plan_at_components, plan_at_components_ok, plan_at_pos, plan_at_pos_ok,
    plan_at_pos_with_center, plan_at_pos_with_center_ok, plan_at_trigger, plan_at_trigger_ok,
    at_pos_stuck, tpl_ok, SpawnLoc, SpawnLocView, SpawnPlan,
};
use crate::store::{Db, MarkCmd, MarkCmdView};
use crate::DbError;

verus! {

/// The current positions of the listed units.
pub open spec fn unit_positions(umap: Map<u64, UnitView>, s: Seq<u64>) -> Seq<Pos> {
    s.map_values(|u: u64| umap[u].pos)
}

/// The current positions of the listed units that are alive, in order.
pub open spec fn alive_positions(umap: Map<u64, UnitView>, s: Seq<u64>) -> Seq<Pos>
    decreases s.len(),
{
    if s.len() == 0 {
        Seq::empty()
    } else {
        let rest = alive_positions(umap, s.drop_last());
        if umap.contains_key(s.last()) && !umap[s.last()].dead {
            rest.push(umap[s.last()].pos)
        } else {
            rest
        }
    }
}

/// How many of the listed units are alive.
pub open spec fn alive_count(umap: Map<u64, UnitView>, s: Seq<u64>) -> int
    decreases s.len(),
{
    if s.len() == 0 {
        0
    } else {
        alive_count(umap, s.drop_last()) + if umap.contains_key(s.last())
            && !umap[s.last()].dead {
            1int
        } else {
            0int
        }
    }
}

/// What spawn-location resolution computes, per variant.
pub open spec fn plan_matches(
    us: Seq<TemplateUnitView>,
    loc: SpawnLocView,
    plan: SpawnPlan,
) -> bool {
    match loc {
        SpawnLocView::AtPosWithCenter { pos, center } => plan_at_pos_with_center_ok(
            us, pos, center, plan),
        SpawnLocView::AtTrigger { zone, heading } => plan_at_trigger_ok(us, zone, heading, plan),
        SpawnLocView::AtPos { pos, offset_direction, heading } => plan_at_pos_ok(
            us, pos, offset_direction, heading, plan),
        SpawnLocView::AtPosWithComponents { pos, heading, component_pos } =>
            plan_at_components_ok(us, pos, heading, component_pos, plan),
    }
}

/// Spawn-location resolution can fail only for the offset-direction
/// variant, and only when the nudge cap cannot reach clearance.
pub open spec fn plan_stuck(us: Seq<TemplateUnitView>, loc: SpawnLocView) -> bool {
    match loc {
        SpawnLocView::AtPos { pos, offset_direction, heading } => at_pos_stuck(
            us, pos, offset_direction, heading),
        _ => false,
    }
}

/// Resolves a spawn-location specification against a template: one
/// absolute position per template unit, plus the group heading.
pub fn plan_group(template: &Template, loc: &SpawnLoc) -> (r: Result<SpawnPlan, DbError>)
    requires
        tpl_ok(template@.units),
        loc@.ok(),
    ensures
        match r {
            Ok(plan) => plan_matches(template@.units, loc@, plan)
                && plan.positions@.len() == template@.units.len()
                && forall|i: int| 0 <= i < plan.positions@.len()
                    ==> pos_work(#[trigger] plan.positions@[i]),
            Err(e) => e == DbError::NoClearance && plan_stuck(template@.units, loc@),
        },
{
    match loc {
        SpawnLoc::AtPosWithCenter { pos, center } => Ok(
            plan_at_pos_with_center(&template.units, *pos, *center),
        ),
        SpawnLoc::AtTrigger { zone, heading } => Ok(
            plan_at_trigger(&template.units, *zone, *heading),
        ),
        SpawnLoc::AtPos { pos, offset_direction, heading } => plan_at_pos(
            &template.units,
            *pos,
            *offset_direction,
            *heading,
        ),
        SpawnLoc::AtPosWithComponents { pos, heading, component_pos } => {
            proof {
                let cv = component_pos@.map_values(|e: (String, Pos)| (e.0@, e.1));
                assert(loc@ == (SpawnLocView::AtPosWithComponents {
                    pos: *pos,
                    heading: *heading,
                    component_pos: cv,
                }));
                assert(crate::spawnloc::comp_ok(cv));
            }
            Ok(plan_at_components(&template.units, *pos, *heading, component_pos))
        },
    }
}


/// The marker command queue, as views.
pub open spec fn markqv(e: crate::store::Ephemeral) -> Seq<MarkCmdView> {
    e.markq@.map_values(|c: MarkCmd| c@)
}

/// The despawn intent queue, as views.
pub open spec fn despawnqv(e: crate::store::Ephemeral) -> Seq<crate::store::DespawnView> {
    e.despawnq@.map_values(|c: crate::store::Despawn| c@)
}

/// What refreshing a group's marker does to the runtime index: any old
/// marker is removed, and unless the group is a mission objective, a
/// fresh marker is placed at the centroid of the members' positions.
pub open spec fn mark_effect(
    o: crate::store::Ephemeral,
    f: crate::store::Ephemeral,
    gid: u64,
    gv: crate::entity::GroupView,
    umap: Map<u64, UnitView>,
) -> bool {
    let obj = gv.origin is Objective;
    let add = MarkCmdView::Add {
        id: o.next_mark,
        side: gv.side,
        pos: spec_centroid(unit_positions(umap, gv.units)),
        text: gv.name,
    };
    &&& forall|g2: u64, m: u64| #[trigger] f.marks.linked(g2, m)
        == ((o.marks.linked(g2, m) && g2 != gid) || (!obj && g2 == gid && m == o.next_mark))
    &&& f.next_mark == if obj { o.next_mark as int } else { o.next_mark + 1 }
    &&& if o.marks.has_uid(gid) {
        exists|m: u64| #[trigger] o.marks.linked(gid, m) && markqv(f) == (if obj {
            markqv(o).push(MarkCmdView::Remove(m))
        } else {
            markqv(o).push(MarkCmdView::Remove(m)).push(add)
        })
    } else {
        markqv(f) == (if obj { markqv(o) } else { markqv(o).push(add) })
    }
}



/// The ids the allocator will issue for `n` units starting at `uf`.
pub open spec fn fresh_uids(uf: u64, n: int) -> Seq<u64> {
    Seq::new(n as nat, |i: int| (uf + i) as u64)
}

/// Bitwise union of a tag sequence.
pub open spec fn or_seq(s: Seq<u64>) -> u64
    decreases s.len(),
{
    if s.len() == 0 {
        0
    } else {
        or_seq(s.drop_last()) | s.last()
    }
}

/// No resolved position fell on water.
pub open spec fn water_free(terrain: Seq<crate::entity::TerrainSample>) -> bool {
    forall|i: int| 0 <= i < terrain.len() ==> !(#[trigger] terrain[i].surface).spec_is_water()
}

/// Every template unit type has a classification.
pub open spec fn all_classified(us: Seq<TemplateUnitView>, classify: crate::nameidx::NameIdx) -> bool {
    forall|i: int| 0 <= i < us.len() ==> classify.has_key((#[trigger] us[i]).typ)
}



/// A unit record frozen at death: dead, with position, heading and
/// pose reset to their spawn-time values.
pub open spec fn frozen(u: UnitView) -> UnitView {
    UnitView { dead: true, pos: u.spawn_pos, heading: u.spawn_heading, pose: u.spawn_pose, ..u }
}

/// The alive members of a group in order, as pairs of template unit
/// name and current position, for respawning into the engine.
pub open spec fn respawn_seq(umap: Map<u64, UnitView>, s: Seq<u64>) -> Seq<(Seq<char>, Pos)>
    decreases s.len(),
{
    if s.len() == 0 {
        Seq::empty()
    } else {
        let rest = respawn_seq(umap, s.drop_last());
        if umap.contains_key(s.last()) && !umap[s.last()].dead {
            rest.push((umap[s.last()].template_name, umap[s.last()].pos))
        } else {
            rest
        }
    }
}

/// Template unit `j` was stored with its classified tags, derived
/// name, planned position and terrain-relative pose.
pub open spec fn one_unit_stored(
    umap: Map<u64, UnitView>,
    classify: crate::nameidx::NameIdx,
    us: Seq<TemplateUnitView>,
    ps: Seq<Pos>,
    heading: crate::entity::Rot,
    terrain: Seq<crate::entity::TerrainSample>,
    side: crate::entity::Side,
    gid: u64,
    uf: u64,
    gname: Seq<char>,
    j: int,
) -> bool {
    exists|t: u64|
        #[trigger] classify.has(us[j].typ, t) && umap[(uf + j) as u64]
            == spawned_unit_view(
            us[j], ps[j], heading, terrain[j].height, side, gid, (uf + j) as u64, gname, t)
}

/// Every template unit was stored as [`one_unit_stored`] describes.
pub open spec fn units_stored(
    umap: Map<u64, UnitView>,
    classify: crate::nameidx::NameIdx,
    us: Seq<TemplateUnitView>,
    ps: Seq<Pos>,
    heading: crate::entity::Rot,
    terrain: Seq<crate::entity::TerrainSample>,
    side: crate::entity::Side,
    gid: u64,
    uf: u64,
    gname: Seq<char>,
) -> bool {
    forall|j: int| 0 <= j < us.len()
        ==> #[trigger] one_unit_stored(umap, classify, us, ps, heading, terrain, side, gid, uf,
            gname, j)
}

/// The record an accepted spawn stores for template unit `j`.
pub open spec fn spawned_unit_view(
    uj: TemplateUnitView,
    pos: Pos,
    heading: crate::entity::Rot,
    alt: i64,
    side: crate::entity::Side,
    gid: u64,
    uid: u64,
    gname: Seq<char>,
    tag: u64,
) -> UnitView {
    UnitView {
        name: crate::names::spec_name(gname, uid),
        id: uid,
        group: gid,
        side: side,
        typ: uj.typ,
        tags: tag,
        template_name: uj.name,
        spawn_pos: pos,
        spawn_heading: heading,
        spawn_pose: (crate::entity::Pose { pos: pos, alt: alt }),
        pos: pos,
        heading: heading,
        pose: (crate::entity::Pose { pos: pos, alt: alt }),
        dead: false,
    }
}

/// The despawn intents deleting a group enqueues: a maneuver group by
/// its group name, a static object unit by unit.
pub open spec fn despawn_intents(
    gv: crate::entity::GroupView,
    umap: Map<u64, UnitView>,
) -> Seq<crate::store::DespawnView> {
    if gv.kind is Some {
        seq![crate::store::DespawnView::Group(gv.name)]
    } else {
        gv.units.map_values(|u: u64| crate::store::DespawnView::Static(umap[u].name))
    }
}

impl Db {
    /// The planar centroid of a group's living units.
    pub fn group_center(&self, gid: u64) -> (r: Result<Pos, DbError>)
        requires
            self.wf(),
        ensures
            match r {
                Ok(c) => self.gmap().contains_key(gid)
                    && alive_positions(self.umap(), self.gmap()[gid].units).len() >= 1
                    && c == spec_centroid(alive_positions(self.umap(), self.gmap()[gid].units)),
                Err(DbError::NoSuchGroup) => !self.gmap().contains_key(gid),
                Err(DbError::NoLivingUnits) => self.gmap().contains_key(gid)
                    && alive_positions(self.umap(), self.gmap()[gid].units).len() == 0,
                Err(_) => false,
            },
    {
        let g = match self.get_group(gid) {
            None => {
                return Err(DbError::NoSuchGroup);
            },
            Some(g) => g,
        };
        let members = g.units.as_vec();
        let n = members.len();
        let mut pts: Vec<Pos> = Vec::new();
        let mut i: usize = 0;
        while i < n
            invariant
                self.wf(),
                self.gmap().contains_key(gid),
                g@ == self.gmap()[gid],
                members@ == g@.units,
                n == members@.len(),
                i <= n,
                pts@ == alive_positions(self.umap(), members@.take(i as int)),
                forall|k: int| 0 <= k < pts@.len() ==> pos_work(#[trigger] pts@[k]),
            decreases n - i,
        {
            proof {
                let t1 = members@.take(i + 1);
                assert(t1.drop_last() =~= members@.take(i as int));
                assert(t1.last() == members@[i as int]);
            }
            let uid = members[i];
            match self.get_unit(uid) {
                None => {
                    proof {
                        assert(self.umap().contains_key(members@[i as int]));
                    }
                },
                Some(u) => {
                    if !u.dead {
                        pts.push(u.pos);
                    }
                },
            }
            i = i + 1;
        }
        proof {
            assert(members@.take(n as int) =~= members@);
        }
        if pts.len() == 0 {
            return Err(DbError::NoLivingUnits);
        }
        proof {
            crate::lifecycle::lemma_alive_positions_len(self.umap(), members@);
        }
        Ok(centroid(&pts))
    }

    /// Living and total member counts of a group.
    pub fn group_health(&self, gid: u64) -> (r: Result<(usize, usize), DbError>)
        requires
            self.wf(),
        ensures
            match r {
                Ok((alive, total)) => self.gmap().contains_key(gid)
                    && alive == alive_count(self.umap(), self.gmap()[gid].units)
                    && total == self.gmap()[gid].units.len(),
                Err(e) => e == DbError::NoSuchGroup && !self.gmap().contains_key(gid),
            },
    {
        let g = match self.get_group(gid) {
            None => {
                return Err(DbError::NoSuchGroup);
            },
            Some(g) => g,
        };
        let members = g.units.as_vec();
        let n = members.len();
        let mut alive: usize = 0;
        let mut i: usize = 0;
        while i < n
            invariant
                self.wf(),
                self.gmap().contains_key(gid),
                g@ == self.gmap()[gid],
                members@ == g@.units,
                n == members@.len(),
                i <= n,
                alive == alive_count(self.umap(), members@.take(i as int)),
                alive <= i,
            decreases n - i,
        {
            proof {
                let t1 = members@.take(i + 1);
                assert(t1.drop_last() =~= members@.take(i as int));
                assert(t1.last() == members@[i as int]);
            }
            let uid = members[i];
            match self.get_unit(uid) {
                None => {
                    proof {
                        assert(self.umap().contains_key(members@[i as int]));
                    }
                },
                Some(u) => {
                    if !u.dead {
                        alive = alive + 1;
                    }
                },
            }
            i = i + 1;
        }
        proof {
            assert(members@.take(n as int) =~= members@);
        }
        Ok((alive, members.len()))
    }

    /// The live handle of the first member that has one.
    pub fn first_living_unit(&self, gid: u64) -> (r: Result<u64, DbError>)
        requires
            self.wf(),
        ensures
            match r {
                Ok(h) => self.gmap().contains_key(gid) && exists|i: int|
                    0 <= i < self.gmap()[gid].units.len()
                        && self.ephemeral.links.linked(#[trigger] self.gmap()[gid].units[i], h),
                Err(DbError::NoSuchGroup) => !self.gmap().contains_key(gid),
                Err(DbError::NoLivingUnits) => self.gmap().contains_key(gid) && forall|i: int|
                    0 <= i < self.gmap()[gid].units.len()
                        ==> !self.ephemeral.links.has_uid(#[trigger] self.gmap()[gid].units[i]),
                Err(_) => false,
            },
    {
        let g = match self.get_group(gid) {
            None => {
                return Err(DbError::NoSuchGroup);
            },
            Some(g) => g,
        };
        let members = g.units.as_vec();
        let n = members.len();
        let mut i: usize = 0;
        while i < n
            invariant
                self.wf(),
                self.gmap().contains_key(gid),
                g@ == self.gmap()[gid],
                members@ == g@.units,
                n == members@.len(),
                i <= n,
                forall|k: int| 0 <= k < i
                    ==> !self.ephemeral.links.has_uid(#[trigger] members@[k]),
            decreases n - i,
        {
            match self.ephemeral.links.handle_of(members[i]) {
                Some(h) => {
                    proof {
                        assert(self.ephemeral.links.linked(members@[i as int], h));
                    }
                    return Ok(h);
                },
                None => {},
            }
            i = i + 1;
        }
        Err(DbError::NoLivingUnits)
    }

    /// Every stored unit that has a live engine handle, with it.
    pub fn instanced_units(&self) -> (r: Vec<(u64, u64)>)
        requires
            self.wf(),
        ensures
            forall|k: int| #![trigger r@[k]] 0 <= k < r@.len()
                ==> self.umap().contains_key(r@[k].0)
                    && self.ephemeral.links.linked(r@[k].0, r@[k].1),
            forall|u: u64, h: u64| self.ephemeral.links.linked(u, h)
                && self.umap().contains_key(u) ==> r@.contains((u, h)),
    {
        let entries = crate::chunk::unit_map_entries(&self.persisted.units);
        let n = entries.len();
        let mut r: Vec<(u64, u64)> = Vec::new();
        let mut i: usize = 0;
        while i < n
            invariant
                self.wf(),
                n == entries@.len(),
                crate::chunk::map_of_pairs(
                    entries@.map_values(|e: (u64, SpawnedUnit)| (e.0, e.1@)))
                    == self.umap(),
                forall|p: int, q: int| 0 <= p < q < entries@.len()
                    ==> entries@[p].0 < entries@[q].0,
                i <= n,
                forall|k: int| #![trigger r@[k]] 0 <= k < r@.len()
                    ==> self.umap().contains_key(r@[k].0)
                        && self.ephemeral.links.linked(r@[k].0, r@[k].1),
                forall|u: u64, h: u64| #![trigger self.ephemeral.links.linked(u, h)]
                    self.ephemeral.links.linked(u, h) && self.umap().contains_key(u)
                        && (exists|j: int| 0 <= j < i && entries@[j].0 == u)
                        ==> r@.contains((u, h)),
            decreases n - i,
        {
            let uid = entries[i].0;
            match self.ephemeral.links.handle_of(uid) {
                Some(h) => {
                    proof {
                        lemma_map_of_pairs_contains(
                            entries@.map_values(|e: (u64, SpawnedUnit)| (e.0, e.1@)),
                            i as int,
                        );
                    }
                    let ghost r0 = r@;
                    r.push((uid, h));
                    proof {
                        assert(r@[r0.len() as int] == (uid, h));
                        assert forall|u: u64, h2: u64|
                            #![trigger self.ephemeral.links.linked(u, h2)]
                            self.ephemeral.links.linked(u, h2) && self.umap().contains_key(u)
                                && (exists|j: int| 0 <= j < i + 1 && entries@[j].0 == u)
                            implies r@.contains((u, h2)) by {
                            let j = choose|j: int| 0 <= j < i + 1 && entries@[j].0 == u;
                            if j < i {
                                assert(r0.contains((u, h2)));
                                let k = choose|k: int| 0 <= k < r0.len() && r0[k] == (u, h2);
                                assert(r@[k] == (u, h2));
                            } else {
                                assert(u == uid);
                                crate::linkmap::lemma_linked_functional(
                                    &self.ephemeral.links, u, h2, uid, h);
                                assert(r@[r0.len() as int] == (u, h2));
                            }
                        }
                    }
                },
                None => {
                    proof {
                        assert forall|u: u64, h2: u64|
                            #![trigger self.ephemeral.links.linked(u, h2)]
                            self.ephemeral.links.linked(u, h2) && self.umap().contains_key(u)
                                && (exists|j: int| 0 <= j < i + 1 && entries@[j].0 == u)
                            implies r@.contains((u, h2)) by {
                            let j = choose|j: int| 0 <= j < i + 1 && entries@[j].0 == u;
                            if j == i {
                                assert(self.ephemeral.links.has_uid(uid));
                            }
                        }
                    }
                },
            }
            i = i + 1;
        }
        proof {
            assert forall|u: u64, h: u64|
                self.ephemeral.links.linked(u, h) && self.umap().contains_key(u)
                implies r@.contains((u, h)) by {
                lemma_map_of_pairs_complete(
                    entries@.map_values(|e: (u64, SpawnedUnit)| (e.0, e.1@)),
                    u,
                );
            }
        }
        r
    }


    /// Refreshes the visual marker of a group: removes any previous
    /// marker and, for player-deployed groups, places a fresh one at
    /// the centroid of the members' current positions.
    pub fn mark_group(&mut self, gid: u64) -> (r: Result<(), DbError>)
        requires
            old(self).wf(),
            old(self).ephemeral.next_mark < u64::MAX,
        ensures
            final(self).wf(),
            final(self).persisted == old(self).persisted,
            final(self).ids == old(self).ids,
            final(self).dirty == old(self).dirty,
            final(self).ephemeral.links == old(self).ephemeral.links,
            final(self).ephemeral.movable == old(self).ephemeral.movable,
            final(self).ephemeral.near_enemies == old(self).ephemeral.near_enemies,
            final(self).ephemeral.walkabout == old(self).ephemeral.walkabout,
            final(self).ephemeral.spawnq == old(self).ephemeral.spawnq,
            final(self).ephemeral.despawnq == old(self).ephemeral.despawnq,
            final(self).ephemeral.delayspawnq == old(self).ephemeral.delayspawnq,
            match r {
                Err(e) => e == DbError::NoSuchGroup && !old(self).gmap().contains_key(gid)
                    && final(self).ephemeral == old(self).ephemeral,
                Ok(()) => old(self).gmap().contains_key(gid) && mark_effect(
                    old(self).ephemeral,
                    final(self).ephemeral,
                    gid,
                    old(self).gmap()[gid],
                    old(self).umap(),
                ),
            },
    {
        let g = match self.get_group(gid) {
            None => {
                return Err(DbError::NoSuchGroup);
            },
            Some(g) => g,
        };
        let members = g.units.as_vec();
        let n = members.len();
        let mut pts: Vec<Pos> = Vec::new();
        let mut i: usize = 0;
        while i < n
            invariant
                self.wf(),
                self.gmap().contains_key(gid),
                g@ == self.gmap()[gid],
                members@ == g@.units,
                n == members@.len(),
                i <= n,
                pts@ == unit_positions(self.umap(), members@.take(i as int)),
                forall|k: int| 0 <= k < pts@.len() ==> pos_work(#[trigger] pts@[k]),
            decreases n - i,
        {
            let uid = members[i];
            match self.get_unit(uid) {
                None => {
                    proof {
                        assert(self.umap().contains_key(members@[i as int]));
                    }
                },
                Some(u) => {
                    pts.push(u.pos);
                    proof {
                        assert(pts@ =~= unit_positions(self.umap(), members@.take(i + 1)));
                    }
                },
            }
            i = i + 1;
        }
        proof {
            assert(members@.take(n as int) =~= members@);
        }
        let c = centroid(&pts);
        let side = g.side;
        let name = g.name.clone();
        let obj = match &g.origin {
            crate::entity::DeployKind::Objective => true,
            _ => false,
        };
        proof {
            assert(obj == (self.gmap()[gid].origin is Objective));
        }
        let ghost eo = self.ephemeral;
        match self.ephemeral.marks.handle_of(gid) {
            Some(m) => {
                self.ephemeral.marks.unlink_uid(gid);
                self.ephemeral.markq.push(MarkCmd::Remove(m));
                proof {
                    assert(markqv(self.ephemeral) =~= markqv(eo).push(MarkCmdView::Remove(m)));
                }
            },
            None => {},
        }
        if !obj {
            let ghost e1 = self.ephemeral;
            let mid = self.ephemeral.next_mark;
            proof {
                assert(!self.ephemeral.marks.has_uid(gid));
                if self.ephemeral.marks.has_handle(mid) {
                    let u = choose|u: u64| self.ephemeral.marks.linked(u, mid);
                    assert(eo.marks.linked(u, mid));
                }
            }
            self.ephemeral.marks.link(gid, mid);
            self.ephemeral.next_mark = mid + 1;
            self.ephemeral.markq.push(MarkCmd::Add { id: mid, side, pos: c, text: name });
            proof {
                assert(markqv(self.ephemeral) =~= markqv(e1).push(MarkCmdView::Add {
                    id: mid,
                    side,
                    pos: c,
                    text: self.gmap()[gid].name,
                }));
            }
        }
        proof {
            assert(self.gmap() == old(self).gmap());
            assert(self.umap() == old(self).umap());
            assert(unit_positions(self.umap(), members@) =~= unit_positions(
                old(self).umap(), old(self).gmap()[gid].units));
        }
        Ok(())
    }


    /// Deletes a group: removes it and every member unit from the
    /// primary maps and from every secondary and runtime index, drops
    /// its marker, and enqueues the matching despawn intents.  This is
    /// the single path through which dependent indices stay in sync.
    pub fn delete_group(&mut self, gid: u64) -> (r: Result<(), DbError>)
        requires
            old(self).wf(),
        ensures
            final(self).wf(),
            final(self).ids == old(self).ids,
            final(self).ephemeral.spawnq == old(self).ephemeral.spawnq,
            final(self).ephemeral.delayspawnq == old(self).ephemeral.delayspawnq,
            final(self).ephemeral.next_mark == old(self).ephemeral.next_mark,
            match r {
                Err(e) => e == DbError::NoSuchGroup && !old(self).gmap().contains_key(gid)
                    && *final(self) == *old(self),
                Ok(()) => {
                    let gv = old(self).gmap()[gid];
                    let ms = gv.units;
                    &&& old(self).gmap().contains_key(gid)
                    &&& final(self).gmap() == old(self).gmap().remove(gid)
                    &&& final(self).umap() == old(self).umap().remove_keys(ms.to_set())
                    &&& final(self).dirty
                    &&& forall|u: u64, h: u64| #[trigger] final(self).ephemeral.links.linked(u, h)
                        == (old(self).ephemeral.links.linked(u, h) && !ms.contains(u))
                    &&& forall|u: u64| #[trigger] final(self).ephemeral.movable.set().contains(u)
                        == (old(self).ephemeral.movable.set().contains(u) && !ms.contains(u))
                    &&& forall|u: u64|
                        #[trigger] final(self).ephemeral.near_enemies.set().contains(u)
                        == (old(self).ephemeral.near_enemies.set().contains(u) && !ms.contains(u))
                    &&& forall|u: u64| #[trigger] final(self).ephemeral.walkabout.set().contains(u)
                        == (old(self).ephemeral.walkabout.set().contains(u) && !ms.contains(u))
                    &&& forall|g2: u64, m: u64| #[trigger] final(self).ephemeral.marks.linked(g2, m)
                        == (old(self).ephemeral.marks.linked(g2, m) && g2 != gid)
                    &&& (old(self).ephemeral.marks.has_uid(gid) ==> exists|m: u64|
                        #[trigger] old(self).ephemeral.marks.linked(gid, m)
                            && markqv(final(self).ephemeral)
                            == markqv(old(self).ephemeral).push(MarkCmdView::Remove(m)))
                    &&& (!old(self).ephemeral.marks.has_uid(gid)
                        ==> markqv(final(self).ephemeral) == markqv(old(self).ephemeral))
                    &&& despawnqv(final(self).ephemeral) == despawnqv(old(self).ephemeral)
                        + despawn_intents(gv, old(self).umap())
                },
            },
    {
        if self.get_group(gid).is_none() {
            return Err(DbError::NoSuchGroup);
        }
        let ghost gv = self.gmap()[gid];
        let g = match crate::chunk::group_map_remove(&mut self.persisted.groups, gid) {
            None => {
                proof {
                    assert(false);
                }
                return Err(DbError::NoSuchGroup);
            },
            Some(g) => g,
        };
        proof {
            assert(g@ == gv);
        }
        self.persisted.groups_by_name.remove(&g.name);
        proof {
            assert forall|n2: Seq<char>, g2: u64|
                #[trigger] self.persisted.groups_by_name.has(n2, g2)
                == (old(self).persisted.groups_by_name.has(n2, g2) && g2 != gid) by {
                if old(self).persisted.groups_by_name.has(n2, g2) && n2 != gv.name && g2 == gid {
                    assert(old(self).gmap()[gid].name == n2);
                }
                if old(self).persisted.groups_by_name.has(n2, g2) && n2 == gv.name {
                    assert(old(self).gmap().contains_key(g2)
                        && old(self).gmap()[g2].name == gv.name);
                    assert(old(self).persisted.groups_by_name.has(gv.name, gid));
                    if g2 != gid {
                        crate::nameidx::lemma_has_functional(
                            &old(self).persisted.groups_by_name, gv.name, g2, gid);
                    }
                }
            }
        }
        let si = g.side.index();
        let mut sset = self.persisted.by_side.remove(si);
        sset.remove(gid);
        self.persisted.by_side.insert(si, sset);
        proof {
            assert(self.persisted.by_side@.len() == 7);
            assert forall|s2: int, g2: u64|
                0 <= s2 < 7 implies ((#[trigger] self.persisted.by_side@[s2].set().contains(g2))
                == (old(self).persisted.by_side@[s2].set().contains(g2) && g2 != gid)) by {
                if s2 == si {
                } else {
                    assert(self.persisted.by_side@[s2]
                        == old(self).persisted.by_side@[s2]);
                    if old(self).persisted.by_side@[s2].set().contains(g2) && g2 == gid {
                        assert(old(self).gmap()[gid].side.spec_index() == s2);
                        assert(old(self).gmap()[gid].side.spec_index() == si as int);
                    }
                }
            }
            assert(forall|s2: int| 0 <= s2 < 7
                ==> (#[trigger] self.persisted.by_side@[s2]).wf());
        }
        self.persisted.deployed.remove(gid);
        self.persisted.troops.remove(gid);
        self.persisted.crates.remove(gid);
        self.persisted.jtacs.remove(gid);
        self.persisted.ewrs.remove(gid);
        self.persisted.crates_by_player.remove_gid(gid);
        let ghost e0 = self.ephemeral;
        match self.ephemeral.marks.handle_of(gid) {
            Some(m) => {
                self.ephemeral.marks.unlink_uid(gid);
                self.ephemeral.markq.push(MarkCmd::Remove(m));
                proof {
                    assert(markqv(self.ephemeral)
                        =~= markqv(e0).push(MarkCmdView::Remove(m)));
                    let m2 = choose|m2: u64| old(self).ephemeral.marks.linked(gid, m2);
                    crate::linkmap::lemma_linked_functional(
                        &old(self).ephemeral.marks, gid, m, gid, m2);
                }
            },
            None => {},
        }
        let ghost eph1 = self.ephemeral;
        let members = g.units.as_vec();
        let n = members.len();
        let is_static = match g.kind {
            None => true,
            Some(_) => false,
        };
        let mut i: usize = 0;
        while i < n
            invariant
                old(self).wf(),
                old(self).gmap().contains_key(gid),
                gv == old(self).gmap()[gid],
                members@ == gv.units,
                n == members@.len(),
                is_static == (gv.kind is None),
                i <= n,
                self.persisted.gmap() == old(self).gmap().remove(gid),
                self.persisted.umap() == old(self).umap().remove_keys(
                    members@.take(i as int).to_set()),
                forall|n2: Seq<char>, g2: u64| #[trigger] self.persisted.groups_by_name.has(n2, g2)
                    == (old(self).persisted.groups_by_name.has(n2, g2) && g2 != gid),
                forall|n2: Seq<char>, u2: u64| #[trigger] self.persisted.units_by_name.has(n2, u2)
                    == (old(self).persisted.units_by_name.has(n2, u2)
                        && !members@.take(i as int).contains(u2)),
                self.persisted.groups_by_name.wf(),
                self.persisted.units_by_name.wf(),
                self.persisted.by_side@.len() == 7,
                forall|s2: int| 0 <= s2 < 7 ==> (#[trigger] self.persisted.by_side@[s2]).wf(),
                forall|s2: int, g2: u64| 0 <= s2 < 7
                    ==> ((#[trigger] self.persisted.by_side@[s2].set().contains(g2))
                        == (old(self).persisted.by_side@[s2].set().contains(g2) && g2 != gid)),
                self.persisted.deployed.wf() && self.persisted.troops.wf()
                    && self.persisted.crates.wf() && self.persisted.jtacs.wf()
                    && self.persisted.ewrs.wf() && self.persisted.crates_by_player.wf(),
                forall|g2: u64| #[trigger] self.persisted.deployed.set().contains(g2)
                    == (old(self).persisted.deployed.set().contains(g2) && g2 != gid),
                forall|g2: u64| #[trigger] self.persisted.troops.set().contains(g2)
                    == (old(self).persisted.troops.set().contains(g2) && g2 != gid),
                forall|g2: u64| #[trigger] self.persisted.crates.set().contains(g2)
                    == (old(self).persisted.crates.set().contains(g2) && g2 != gid),
                forall|g2: u64| #[trigger] self.persisted.jtacs.set().contains(g2)
                    == (old(self).persisted.jtacs.set().contains(g2) && g2 != gid),
                forall|g2: u64| #[trigger] self.persisted.ewrs.set().contains(g2)
                    == (old(self).persisted.ewrs.set().contains(g2) && g2 != gid),
                forall|p: Seq<char>, g2: u64| #[trigger] self.persisted.crates_by_player.owns(p, g2)
                    == (old(self).persisted.crates_by_player.owns(p, g2) && g2 != gid),
                self.ephemeral.wf(),
                forall|u2: u64, h: u64| #[trigger] self.ephemeral.links.linked(u2, h)
                    == (old(self).ephemeral.links.linked(u2, h)
                        && !members@.take(i as int).contains(u2)),
                forall|u2: u64| #[trigger] self.ephemeral.movable.set().contains(u2)
                    == (old(self).ephemeral.movable.set().contains(u2)
                        && !members@.take(i as int).contains(u2)),
                forall|u2: u64| #[trigger] self.ephemeral.near_enemies.set().contains(u2)
                    == (old(self).ephemeral.near_enemies.set().contains(u2)
                        && !members@.take(i as int).contains(u2)),
                forall|u2: u64| #[trigger] self.ephemeral.walkabout.set().contains(u2)
                    == (old(self).ephemeral.walkabout.set().contains(u2)
                        && !members@.take(i as int).contains(u2)),
                self.ephemeral.marks == eph1.marks,
                forall|g2: u64, m: u64| #[trigger] eph1.marks.linked(g2, m)
                    == (old(self).ephemeral.marks.linked(g2, m) && g2 != gid),
                self.ephemeral.markq == eph1.markq,
                markqv(eph1) == (if old(self).ephemeral.marks.has_uid(gid) {
                    markqv(old(self).ephemeral).push(MarkCmdView::Remove(
                        choose|m: u64| old(self).ephemeral.marks.linked(gid, m)))
                } else {
                    markqv(old(self).ephemeral)
                }),
                self.ephemeral.next_mark == old(self).ephemeral.next_mark,
                self.ephemeral.spawnq == old(self).ephemeral.spawnq,
                self.ephemeral.delayspawnq == old(self).ephemeral.delayspawnq,
                is_static ==> despawnqv(self.ephemeral) == despawnqv(old(self).ephemeral)
                    + members@.take(i as int).map_values(
                        |u: u64| crate::store::DespawnView::Static(old(self).umap()[u].name)),
                !is_static ==> self.ephemeral.despawnq == old(self).ephemeral.despawnq,
                self.dirty == old(self).dirty,
                self.ids == old(self).ids,
            decreases n - i,
        {
            let uid = members[i];
            proof {
                assert(gv.units[i as int] == uid);
                assert(old(self).umap().contains_key(uid)
                    && old(self).umap()[uid].group == gid);
                assert(gv.units.no_duplicates());
                assert(!members@.take(i as int).contains(uid)) by {
                    if members@.take(i as int).contains(uid) {
                        let j = choose|j: int|
                            0 <= j < i && members@.take(i as int)[j] == uid;
                        assert(members@[j] == uid && members@[i as int] == uid);
                    }
                }
                assert(self.persisted.umap().contains_key(uid));
                assert(members@.take(i + 1) =~= members@.take(i as int).push(uid));
                assert forall|u2: u64| #[trigger] members@.take(i + 1).contains(u2)
                    == (members@.take(i as int).contains(u2) || u2 == uid) by {
                    let t0 = members@.take(i as int);
                    let t1 = members@.take(i + 1);
                    if t1.contains(u2) {
                        let j = choose|j: int| 0 <= j < t1.len() && t1[j] == u2;
                        if j < i {
                            assert(t0[j] == u2);
                        }
                    }
                    if t0.contains(u2) {
                        let j = choose|j: int| 0 <= j < t0.len() && t0[j] == u2;
                        assert(t1[j] == u2);
                    }
                    if u2 == uid {
                        assert(t1[i as int] == u2);
                    }
                }
            }
            self.ephemeral.near_enemies.remove(uid);
            self.ephemeral.walkabout.remove(uid);
            self.ephemeral.movable.remove(uid);
            self.ephemeral.links.unlink_uid(uid);
            let u = match crate::chunk::unit_map_remove(&mut self.persisted.units, uid) {
                None => {
                    proof {
                        assert(false);
                    }
                    return Err(DbError::NoSuchUnit);
                },
                Some(u) => u,
            };
            proof {
                assert(u@ == old(self).umap()[uid]);
                crate::idset::lemma_push_to_set(members@.take(i as int), uid);
                assert(members@.take(i + 1) =~= members@.take(i as int).push(uid));
                assert(self.persisted.umap() =~= old(self).umap().remove_keys(
                    members@.take(i + 1).to_set()));
            }
            self.persisted.units_by_name.remove(&u.name);
            proof {
                let ghost uname = u@.name;
                assert(old(self).umap()[uid].name == uname);
                assert(old(self).persisted.units_by_name.has(uname, uid));
                assert forall|n2: Seq<char>, u2: u64|
                    #[trigger] self.persisted.units_by_name.has(n2, u2)
                    == (old(self).persisted.units_by_name.has(n2, u2)
                        && !members@.take(i + 1).contains(u2)) by {
                    if self.persisted.units_by_name.has(n2, u2) {
                        assert(old(self).persisted.units_by_name.has(n2, u2)
                            && !members@.take(i as int).contains(u2) && n2 != uname);
                        assert(old(self).umap().contains_key(u2)
                            && old(self).umap()[u2].name == n2);
                        assert(u2 != uid);
                        assert(!members@.take(i + 1).contains(u2));
                    }
                    if old(self).persisted.units_by_name.has(n2, u2)
                        && !members@.take(i + 1).contains(u2) {
                        assert(!members@.take(i as int).contains(u2) && u2 != uid);
                        if n2 == uname {
                            crate::nameidx::lemma_has_functional(
                                &old(self).persisted.units_by_name, n2, u2, uid);
                        }
                        assert(n2 != uname);
                        assert(self.persisted.units_by_name.has(n2, u2));
                    }
                }
            }
            if is_static {
                let ghost e2 = self.ephemeral;
                self.ephemeral.despawnq.push(crate::store::Despawn::Static(u.name));
                proof {
                    assert(despawnqv(self.ephemeral) =~= despawnqv(e2).push(
                        crate::store::DespawnView::Static(old(self).umap()[uid].name)));
                    assert(despawnqv(self.ephemeral) =~= despawnqv(old(self).ephemeral)
                        + members@.take(i + 1).map_values(
                            |u2: u64| crate::store::DespawnView::Static(
                                old(self).umap()[u2].name)));
                }
            }
            i = i + 1;
        }
        proof {
            assert(members@.take(n as int) =~= members@);
        }
        if !is_static {
            let ghost e3 = self.ephemeral;
            self.ephemeral.despawnq.push(crate::store::Despawn::Group(g.name));
            proof {
                assert(despawnqv(self.ephemeral) =~= despawnqv(e3).push(
                    crate::store::DespawnView::Group(gv.name)));
                assert(despawnqv(self.ephemeral) =~= despawnqv(old(self).ephemeral)
                    + despawn_intents(gv, old(self).umap()));
            }
        } else {
            proof {
                assert(despawn_intents(gv, old(self).umap()) =~= members@.map_values(
                    |u2: u64| crate::store::DespawnView::Static(old(self).umap()[u2].name)));
            }
        }
        self.dirty = true;
        proof {
            let ms = gv.units;
            let gm1 = self.persisted.gmap();
            let um1 = self.persisted.umap();
            assert(self.persisted.umap() == old(self).umap().remove_keys(ms.to_set())) by {
                assert(members@.take(n as int) =~= members@);
            }
            assert forall|u2: u64| ms.contains(u2)
                implies old(self).umap().contains_key(u2)
                    && old(self).umap()[u2].group == gid by {
                let j = choose|j: int| 0 <= j < ms.len() && ms[j] == u2;
                assert(old(self).gmap()[gid].units[j] == u2);
            }
            assert(um1.dom() =~= old(self).umap().dom().difference(ms.to_set()));
            vstd::set::axiom_set_difference_finite(
                old(self).umap().dom(), ms.to_set());
            assert forall|g2: u64, j: int|
                gm1.contains_key(g2) && 0 <= j < gm1[g2].units.len()
                implies um1.contains_key(#[trigger] gm1[g2].units[j])
                    && um1[gm1[g2].units[j]].group == g2 by {
                let u2 = gm1[g2].units[j];
                assert(old(self).gmap().contains_key(g2));
                assert(old(self).gmap()[g2].units[j] == u2);
                assert(old(self).umap().contains_key(u2)
                    && old(self).umap()[u2].group == g2);
                if ms.contains(u2) {
                    assert(old(self).umap()[u2].group == gid);
                }
            }
            assert forall|u2: u64| #[trigger] um1.contains_key(u2)
                implies gm1.contains_key(um1[u2].group)
                    && gm1[um1[u2].group].units.contains(u2) by {
                assert(old(self).umap().contains_key(u2));
                let g2 = old(self).umap()[u2].group;
                assert(old(self).gmap().contains_key(g2)
                    && old(self).gmap()[g2].units.contains(u2));
                if g2 == gid {
                    assert(ms.contains(u2));
                }
            }
            assert forall|n2: Seq<char>, u2: u64|
                #[trigger] self.persisted.units_by_name.has(n2, u2)
                <==> (um1.contains_key(u2) && um1[u2].name == n2) by {
                if self.persisted.units_by_name.has(n2, u2) {
                    assert(old(self).persisted.units_by_name.has(n2, u2)
                        && !ms.contains(u2));
                }
                if um1.contains_key(u2) && um1[u2].name == n2 {
                    assert(old(self).umap().contains_key(u2)
                        && old(self).umap()[u2].name == n2);
                    assert(old(self).persisted.units_by_name.has(n2, u2));
                    assert(!ms.to_set().contains(u2));
                }
            }
            assert forall|u2: u64, h: u64| #[trigger] self.ephemeral.links.linked(u2, h)
                implies um1.contains_key(u2) by {
                assert(old(self).ephemeral.links.linked(u2, h));
                assert(old(self).umap().contains_key(u2));
                assert(!ms.contains(u2));
            }
            assert(self.wf());
        }
        Ok(())
    }


    /// Creates a group from a resolved spawn plan: validates terrain
    /// and unit classification, allocates ids, derives deterministic
    /// names, stores every unit and the group record, and threads the
    /// origin into the category indices.  Validation failures reject
    /// the spawn before any store mutation.
    #[verifier::rlimit(100)]
    pub fn add_group(
        &mut self,
        side: crate::entity::Side,
        template: &Template,
        plan: &SpawnPlan,
        origin: crate::entity::DeployKind,
        classify: &crate::nameidx::NameIdx,
        terrain: &Vec<crate::entity::TerrainSample>,
    ) -> (r: Result<u64, DbError>)
        requires
            old(self).wf(),
            old(self).ephemeral.next_mark < u64::MAX,
            classify.wf(),
            tpl_ok(template@.units),
            old(self).ids.can_allocate(template@.units.len() as nat),
            plan.positions@.len() == template@.units.len(),
            forall|i: int| 0 <= i < plan.positions@.len()
                ==> pos_work(#[trigger] plan.positions@[i]),
        ensures
            final(self).wf(),
            match r {
                Err(e) => *final(self) == *old(self) && {
                    let us = template@.units;
                    let gf = old(self).ids.group_floor();
                    let uf = old(self).ids.unit_floor();
                    let gname = crate::names::spec_name(template@.name, gf);
                    &&& (e == DbError::BadTerrainData
                        <==> terrain@.len() != plan.positions@.len())
                    &&& (e == DbError::WaterPlacement
                        <==> terrain@.len() == plan.positions@.len() && !water_free(terrain@))
                    &&& (e == DbError::UnclassifiedUnitType
                        <==> terrain@.len() == plan.positions@.len() && water_free(terrain@)
                            && !all_classified(us, *classify))
                    &&& (e == DbError::NameCollision ==> terrain@.len()
                        == plan.positions@.len() && water_free(terrain@)
                        && all_classified(us, *classify)
                        && (old(self).persisted.groups_by_name.has_key(gname)
                            || exists|j: int|
                                #![trigger crate::names::spec_name(gname, (uf + j) as u64)]
                                0 <= j < us.len()
                                    && old(self).persisted.units_by_name.has_key(
                                    crate::names::spec_name(gname, (uf + j) as u64))))
                    &&& (e == DbError::BadTerrainData || e == DbError::WaterPlacement
                        || e == DbError::UnclassifiedUnitType || e == DbError::NameCollision)
                },
                Ok(gid) => {
                    let us = template@.units;
                    let n = us.len() as int;
                    let gf = old(self).ids.group_floor();
                    let uf = old(self).ids.unit_floor();
                    let gname = crate::names::spec_name(template@.name, gf);
                    let gv = final(self).gmap()[gid];
                    &&& terrain@.len() == plan.positions@.len() && water_free(terrain@)
                        && all_classified(us, *classify)
                    &&& gid == gf
                    &&& final(self).ids.group_floor() == gf + 1
                    &&& final(self).ids.unit_floor() == uf + n
                    &&& final(self).gmap() == old(self).gmap().insert(gid, gv)
                    &&& gv.id == gid && gv.name == gname && gv.template_name == template@.name
                        && gv.side == side && gv.kind == template@.category
                        && gv.class == template@.class && gv.origin == origin@
                        && gv.units == fresh_uids(uf, n)
                    &&& gv.tags == or_seq(Seq::new(n as nat, |j: int|
                        final(self).umap()[(uf + j) as u64].tags))
                    &&& final(self).umap().dom() =~= old(self).umap().dom()
                        + fresh_uids(uf, n).to_set()
                    &&& forall|u2: u64| #[trigger] old(self).umap().contains_key(u2)
                        ==> final(self).umap()[u2] == old(self).umap()[u2]
                    &&& units_stored(final(self).umap(), *classify, us, plan.positions@,
                        plan.heading, terrain@, side, gid, uf, gname)
                    &&& final(self).dirty
                    &&& final(self).ephemeral.spawnq == old(self).ephemeral.spawnq
                    &&& final(self).ephemeral.delayspawnq == old(self).ephemeral.delayspawnq
                    &&& final(self).ephemeral.despawnq == old(self).ephemeral.despawnq
                    &&& final(self).ephemeral.links == old(self).ephemeral.links
                    &&& final(self).ephemeral.movable == old(self).ephemeral.movable
                    &&& final(self).ephemeral.near_enemies == old(self).ephemeral.near_enemies
                    &&& final(self).ephemeral.walkabout == old(self).ephemeral.walkabout
                    &&& mark_effect(old(self).ephemeral, final(self).ephemeral, gid, gv,
                        final(self).umap())
                },
            },
    {
        let us_len = template.units.len();
        if terrain.len() != plan.positions.len() {
            return Err(DbError::BadTerrainData);
        }
        // Terrain validation: reject the whole spawn if any resolved
        // position lies on water.
        let mut i: usize = 0;
        while i < us_len
            invariant
                self == old(self),
                self.wf(),
                us_len == template@.units.len(),
                terrain@.len() == us_len,
                plan.positions@.len() == us_len,
                i <= us_len,
                forall|k: int| 0 <= k < i
                    ==> !(#[trigger] terrain@[k].surface).spec_is_water(),
            decreases us_len - i,
        {
            if terrain[i].surface.is_water() {
                return Err(DbError::WaterPlacement);
            }
            i = i + 1;
        }
        // Capability tags for every unit type.
        let mut tagv: Vec<u64> = Vec::new();
        let mut i: usize = 0;
        while i < us_len
            invariant
                self == old(self),
                self.wf(),
                us_len == template@.units.len(),
                classify.wf(),
                terrain@.len() == us_len,
                plan.positions@.len() == us_len,
                water_free(terrain@),
                i <= us_len,
                tagv@.len() == i,
                forall|k: int| 0 <= k < i ==> classify.has(
                    template@.units[k].typ, #[trigger] tagv@[k]),
            decreases us_len - i,
        {
            proof {
                assert(template@.units[i as int].typ == template.units@[i as int].typ@);
            }
            match classify.get(&template.units[i].typ) {
                None => {
                    return Err(DbError::UnclassifiedUnitType);
                },
                Some(t) => {
                    tagv.push(t);
                },
            }
            i = i + 1;
        }
        proof {
            assert(all_classified(template@.units, *classify)) by {
                assert forall|k: int| 0 <= k < template@.units.len()
                    implies classify.has_key((#[trigger] template@.units[k]).typ) by {
                    assert(classify.has(template@.units[k].typ, tagv@[k]));
                }
            }
        }
        proof {
            assert(water_free(terrain@));
        }
        // Deterministic names, checked against the store before any
        // mutation.
        let gid_peek = self.ids.peek_group_id();
        let gname = crate::names::derive_name(&template.name, gid_peek);
        proof {
            assert(template@.name == template.name@);
            assert(gname@ == crate::names::spec_name(
                template@.name, old(self).ids.group_floor()));
        }
        if self.persisted.groups_by_name.contains_key(&gname) {
            return Err(DbError::NameCollision);
        }
        let uf = self.ids.peek_unit_id();
        let mut unames: Vec<String> = Vec::new();
        let mut i: usize = 0;
        while i < us_len
            invariant
                us_len == template@.units.len(),
                self == old(self),
                self.wf(),
                old(self).ids.can_allocate(us_len as nat),
                uf == self.ids.unit_floor(),
                gname@ == crate::names::spec_name(template@.name, self.ids.group_floor()),
                terrain@.len() == us_len,
                plan.positions@.len() == us_len,
                water_free(terrain@),
                all_classified(template@.units, *classify),
                i <= us_len,
                unames@.len() == i,
                forall|k: int| #![trigger unames@[k]] 0 <= k < i
                    ==> unames@[k]@ == crate::names::spec_name(gname@, (uf + k) as u64)
                        && !self.persisted.units_by_name.has_key(unames@[k]@),
            decreases us_len - i,
        {
            let uname = crate::names::derive_name(&gname, uf + i as u64);
            if self.persisted.units_by_name.contains_key(&uname) {
                return Err(DbError::NameCollision);
            }
            unames.push(uname);
            i = i + 1;
        }
        // All validation passed: allocate and populate.
        let ghost old_self = *self;
        let gid = self.ids.new_group_id();
        let mut units_set = crate::idset::IdSet::new();
        let mut gtags: u64 = 0;
        let mut i: usize = 0;
        while i < us_len
            invariant
                us_len == template@.units.len(),
                old_self == *old(self),
                old(self).wf(),
                classify.wf(),
                tpl_ok(template@.units),
                terrain@.len() == us_len,
                plan.positions@.len() == us_len,
                forall|k: int| 0 <= k < plan.positions@.len()
                    ==> pos_work(#[trigger] plan.positions@[k]),
                old(self).ids.can_allocate(us_len as nat),
                gid == old(self).ids.group_floor(),
                uf == old(self).ids.unit_floor(),
                gname@ == crate::names::spec_name(template@.name, gid),
                forall|k: int| 0 <= k < us_len ==> classify.has(
                    template@.units[k].typ, #[trigger] tagv@[k]),
                tagv@.len() == us_len,
                unames@.len() == us_len,
                forall|k: int| #![trigger unames@[k]] 0 <= k < us_len
                    ==> unames@[k]@ == crate::names::spec_name(gname@, (uf + k) as u64)
                        && !old(self).persisted.units_by_name.has_key(unames@[k]@),
                !old(self).persisted.groups_by_name.has_key(gname@),
                i <= us_len,
                self.ids.group_floor() == gid + 1,
                self.ids.unit_floor() == uf + i,
                self.persisted.groups == old(self).persisted.groups,
                self.persisted.groups_by_name == old(self).persisted.groups_by_name,
                self.persisted.by_side == old(self).persisted.by_side,
                self.persisted.deployed == old(self).persisted.deployed,
                self.persisted.troops == old(self).persisted.troops,
                self.persisted.crates == old(self).persisted.crates,
                self.persisted.jtacs == old(self).persisted.jtacs,
                self.persisted.ewrs == old(self).persisted.ewrs,
                self.persisted.crates_by_player == old(self).persisted.crates_by_player,
                self.ephemeral == old(self).ephemeral,
                self.dirty == old(self).dirty,
                units_set.wf(),
                units_set.seq() == fresh_uids(uf, i as int),
                gtags == or_seq(tagv@.take(i as int)),
                self.persisted.units_by_name.wf(),
                forall|n2: Seq<char>, u2: u64|
                    #[trigger] self.persisted.units_by_name.has(n2, u2)
                    == (old(self).persisted.units_by_name.has(n2, u2)
                        || (uf <= u2 < uf + i
                            && n2 == crate::names::spec_name(gname@, u2))),
                self.persisted.umap().dom() =~= old(self).umap().dom()
                    + fresh_uids(uf, i as int).to_set(),
                self.persisted.umap().dom().finite(),
                forall|u2: u64| #[trigger] old(self).umap().contains_key(u2)
                    ==> self.persisted.umap()[u2] == old(self).umap()[u2],
                forall|j: int| 0 <= j < i ==> self.persisted.umap().contains_key(
                    (uf + j) as u64) && self.persisted.umap()[(uf + j) as u64]
                    == spawned_unit_view(
                        template@.units[j], plan.positions@[j], plan.heading,
                        terrain@[j].height, side, gid, (uf + j) as u64, gname@,
                        #[trigger] tagv@[j]),
            decreases us_len - i,
        {
            let uid = self.ids.new_unit_id();
            proof {
                assert(uid == uf + i);
                assert(!old(self).umap().contains_key(uid)) by {
                    if old(self).umap().contains_key(uid) {
                        assert(uid < old(self).ids.unit_floor());
                    }
                }
                assert(!self.persisted.umap().contains_key(uid)) by {
                    if fresh_uids(uf, i as int).to_set().contains(uid) {
                        let j = choose|j: int|
                            0 <= j < i && fresh_uids(uf, i as int)[j] == uid;
                        assert((uf + j) as u64 == uid);
                    }
                }
                assert(template@.units[i as int].typ == template.units@[i as int].typ@);
                assert(template@.units[i as int].name == template.units@[i as int].name@);
            }
            let tu = &template.units[i];
            let uname = unames[i].clone();
            let upos = plan.positions[i];
            let alt = terrain[i].height;
            let su = SpawnedUnit {
                name: uname,
                id: uid,
                group: gid,
                side: side,
                typ: tu.typ.clone(),
                tags: tagv[i],
                template_name: tu.name.clone(),
                spawn_pos: upos,
                spawn_heading: plan.heading,
                spawn_pose: crate::entity::Pose { pos: upos, alt: alt },
                pos: upos,
                heading: plan.heading,
                pose: crate::entity::Pose { pos: upos, alt: alt },
                dead: false,
                moved: None,
            };
            proof {
                assert(su@ == spawned_unit_view(
                    template@.units[i as int], plan.positions@[i as int], plan.heading,
                    terrain@[i as int].height, side, gid, uid, gname@, tagv@[i as int]));
            }
            let _ = crate::chunk::unit_map_insert(&mut self.persisted.units, uid, su);
            proof {
                crate::idset::lemma_push_to_set(fresh_uids(uf, i as int), uid);
                assert(fresh_uids(uf, i + 1) =~= fresh_uids(uf, i as int).push(uid));
                assert(self.persisted.umap().dom() =~= old(self).umap().dom()
                    + fresh_uids(uf, i + 1).to_set());
            }
            proof {
                assert(!self.persisted.units_by_name.has_key(unames@[i as int]@)) by {
                    if self.persisted.units_by_name.has_key(unames@[i as int]@) {
                        let u2 = choose|u2: u64|
                            self.persisted.units_by_name.has(unames@[i as int]@, u2);
                        if old(self).persisted.units_by_name.has(unames@[i as int]@, u2) {
                            assert(old(self).persisted.units_by_name.has_key(
                                unames@[i as int]@));
                        } else {
                            crate::names::lemma_spec_name_injective(
                                gname@, u2, (uf + i) as u64);
                        }
                    }
                }
            }
            let uname2 = unames[i].clone();
            self.persisted.units_by_name.insert(uname2, uid);
            units_set.insert(uid);
            proof {
                assert(!fresh_uids(uf, i as int).to_set().contains(uid)) by {
                    if fresh_uids(uf, i as int).to_set().contains(uid) {
                        let j = choose|j: int|
                            0 <= j < i && fresh_uids(uf, i as int)[j] == uid;
                    }
                }
                assert(units_set.seq() =~= fresh_uids(uf, i + 1));
                assert(tagv@.take(i + 1).drop_last() =~= tagv@.take(i as int));
            }
            gtags = gtags | tagv[i];
            i = i + 1;
            proof {
                assert forall|n2: Seq<char>, u2: u64|
                    #[trigger] self.persisted.units_by_name.has(n2, u2)
                    == (old(self).persisted.units_by_name.has(n2, u2)
                        || (uf <= u2 < uf + i
                            && n2 == crate::names::spec_name(gname@, u2))) by {
                    if u2 == uid && n2 == crate::names::spec_name(gname@, u2) {
                    }
                }
            }
        }
        proof {
            assert(tagv@.take(us_len as int) =~= tagv@);
        }
        // Group record and indices.
        let d_dep = match &origin {
            crate::entity::DeployKind::Deployed { .. } => true,
            _ => false,
        };
        let d_troop = match &origin {
            crate::entity::DeployKind::Troop { .. } => true,
            _ => false,
        };
        let d_crate = match &origin {
            crate::entity::DeployKind::Crate { .. } => true,
            _ => false,
        };
        let d_jtac = match &origin {
            crate::entity::DeployKind::Deployed { spec, .. } => spec.jtac,
            crate::entity::DeployKind::Troop { spec, .. } => spec.jtac,
            _ => false,
        };
        let d_ewr = match &origin {
            crate::entity::DeployKind::Deployed { spec, .. } => spec.ewr,
            _ => false,
        };
        let crate_player: Option<String> = match &origin {
            crate::entity::DeployKind::Crate { player, .. } => Some(player.clone()),
            _ => None,
        };
        proof {
            assert(d_dep == origin@.in_deployed());
            assert(d_troop == origin@.in_troops());
            assert(d_crate == origin@.in_crates());
            assert(d_jtac == origin@.in_jtacs());
            assert(d_ewr == origin@.in_ewrs());
            match &crate_player {
                Some(p) => {
                    assert(origin@.crate_owner() == Some(p@));
                },
                None => {
                    assert(origin@.crate_owner() is None);
                },
            }
        }
        let sg = SpawnedGroup {
            id: gid,
            name: gname.clone(),
            template_name: template.name.clone(),
            side: side,
            kind: template.category,
            class: template.class.clone(),
            origin: origin,
            units: units_set,
            tags: gtags,
        };
        let ghost gv = sg@;
        proof {
            assert(!old(self).gmap().contains_key(gid)) by {
                if old(self).gmap().contains_key(gid) {
                    assert(gid < old(self).ids.group_floor());
                }
            }
        }
        let _ = crate::chunk::group_map_insert(&mut self.persisted.groups, gid, sg);
        proof {
            assert(!self.persisted.groups_by_name.has_key(gname@));
        }
        self.persisted.groups_by_name.insert(gname.clone(), gid);
        let si = side.index();
        let mut sset = self.persisted.by_side.remove(si);
        sset.insert(gid);
        self.persisted.by_side.insert(si, sset);
        if d_dep {
            proof {
                assert(!old(self).persisted.deployed.set().contains(gid));
            }
            self.persisted.deployed.insert(gid);
        }
        if d_troop {
            self.persisted.troops.insert(gid);
        }
        if d_crate {
            self.persisted.crates.insert(gid);
        }
        if d_jtac {
            self.persisted.jtacs.insert(gid);
        }
        if d_ewr {
            self.persisted.ewrs.insert(gid);
        }
        match crate_player {
            Some(p) => {
                proof {
                    assert(!old(self).persisted.crates_by_player.has_gid(gid)) by {
                        if old(self).persisted.crates_by_player.has_gid(gid) {
                            let p2 = choose|p2: Seq<char>|
                                old(self).persisted.crates_by_player.owns(p2, gid);
                        }
                    }
                }
                self.persisted.crates_by_player.add(p, gid);
            },
            None => {},
        }
        self.dirty = true;
        proof {
            let n = us_len as int;
            lemma_add_group_wf(
                *old(self), *self, gid, gv, uf, n, template@.units, gname@, tagv@,
                plan.positions@, plan.heading, terrain@, side, si as int);
            assert(Seq::new(n as nat, |j: int|
                self.persisted.umap()[(uf + j) as u64].tags) =~= tagv@) by {
                assert forall|j: int| 0 <= j < n implies
                    self.persisted.umap()[(uf + j) as u64].tags == tagv@[j] by {
                    assert(self.persisted.umap()[(uf + j) as u64] == spawned_unit_view(
                        template@.units[j], plan.positions@[j], plan.heading,
                        terrain@[j].height, side, gid, (uf + j) as u64, gname@,
                        tagv@[j]));
                }
            }
        }
        let ghost pre_mark = *self;
        let res = self.mark_group(gid);
        proof {
            assert(res is Ok);
            assert(self.persisted == pre_mark.persisted);
            assert(gname@ == crate::names::spec_name(
                template@.name, old(self).ids.group_floor()));
            assert forall|j: int| 0 <= j < template@.units.len()
                implies #[trigger] one_unit_stored(self.umap(), *classify, template@.units,
                    plan.positions@, plan.heading, terrain@, side, gid, uf, gname@, j) by {
                let t0 = tagv@[j];
                assert(classify.has(template@.units[j].typ, t0));
                assert(pre_mark.persisted.umap()[(uf + j) as u64] == spawned_unit_view(
                    template@.units[j], plan.positions@[j], plan.heading,
                    terrain@[j].height, side, gid, (uf + j) as u64, gname@, t0));
                assert(self.umap()[(uf + j) as u64] == spawned_unit_view(
                    template@.units[j], plan.positions@[j], plan.heading,
                    terrain@[j].height, side, gid, (uf + j) as u64, gname@, t0));
            }
            assert(units_stored(self.umap(), *classify, template@.units, plan.positions@,
                plan.heading, terrain@, side, gid, uf, gname@));
        }
        Ok(gid)
    }


    /// Reconciles an engine death notification: resolves the handle,
    /// marks the unit dead with its pose frozen to spawn-time values,
    /// and, when the last living member of a player-deployed group
    /// dies, cascade-deletes the whole group.  Unknown handles are
    /// ignored.
    pub fn unit_dead(&mut self, handle: u64) -> (r: Result<(), DbError>)
        requires
            old(self).wf(),
        ensures
            final(self).wf(),
            r is Ok,
            final(self).ids == old(self).ids,
            !old(self).ephemeral.links.has_handle(handle) ==> *final(self) == *old(self),
            forall|uid: u64| #[trigger] old(self).ephemeral.links.linked(uid, handle) ==> {
                let m1 = old(self).umap().insert(uid, frozen(old(self).umap()[uid]));
                let gid = old(self).umap()[uid].group;
                let gv = old(self).gmap()[gid];
                let wipe = (gv.origin.in_deployed() || gv.origin.in_troops()
                    || gv.origin.in_crates()) && alive_count(m1, gv.units) == 0;
                &&& final(self).dirty
                &&& old(self).umap().contains_key(uid)
                &&& !wipe ==> {
                    &&& final(self).gmap() == old(self).gmap()
                    &&& final(self).umap() == m1
                    &&& (forall|u2: u64, h2: u64|
                        #[trigger] final(self).ephemeral.links.linked(u2, h2)
                            == (old(self).ephemeral.links.linked(u2, h2) && h2 != handle))
                    &&& final(self).ephemeral.movable == old(self).ephemeral.movable
                    &&& final(self).ephemeral.despawnq == old(self).ephemeral.despawnq
                    &&& final(self).ephemeral.marks == old(self).ephemeral.marks
                    &&& final(self).ephemeral.markq == old(self).ephemeral.markq
                }
                &&& wipe ==> {
                    &&& final(self).gmap() == old(self).gmap().remove(gid)
                    &&& final(self).umap() == m1.remove_keys(gv.units.to_set())
                    &&& (forall|u2: u64, h2: u64|
                        #[trigger] final(self).ephemeral.links.linked(u2, h2)
                            == (old(self).ephemeral.links.linked(u2, h2) && h2 != handle
                                && !gv.units.contains(u2)))
                    &&& despawnqv(final(self).ephemeral) == despawnqv(old(self).ephemeral)
                        + despawn_intents(gv, m1)
                }
            },
    {
        let uid = match self.ephemeral.links.unlink_handle(handle) {
            None => {
                return Ok(());
            },
            Some(uid) => uid,
        };
        proof {
            assert(old(self).ephemeral.links.linked(uid, handle));
            assert(old(self).umap().contains_key(uid));
            assert forall|u2: u64| old(self).ephemeral.links.linked(u2, handle)
                implies u2 == uid by {
                crate::linkmap::lemma_linked_functional(
                    &old(self).ephemeral.links, u2, handle, uid, handle);
            }
        }
        let (nu, gid) = match self.get_unit(uid) {
            None => {
                proof {
                    assert(false);
                }
                return Ok(());
            },
            Some(u) => {
                let nu = SpawnedUnit {
                    name: u.name.clone(),
                    id: u.id,
                    group: u.group,
                    side: u.side,
                    typ: u.typ.clone(),
                    tags: u.tags,
                    template_name: u.template_name.clone(),
                    spawn_pos: u.spawn_pos,
                    spawn_heading: u.spawn_heading,
                    spawn_pose: u.spawn_pose,
                    pos: u.spawn_pos,
                    heading: u.spawn_heading,
                    pose: u.spawn_pose,
                    dead: true,
                    moved: u.moved,
                };
                proof {
                    assert(nu@ == frozen(old(self).umap()[uid]));
                }
                (nu, u.group)
            },
        };
        let _ = crate::chunk::unit_map_insert(&mut self.persisted.units, uid, nu);
        self.dirty = true;
        let ghost m1 = old(self).umap().insert(uid, frozen(old(self).umap()[uid]));
        proof {
            assert(self.umap() == m1);
            assert(self.umap().dom() =~= old(self).umap().dom());
            let gv = old(self).gmap()[gid];
            assert(old(self).gmap().contains_key(gid));
            assert forall|g2: u64, j: int|
                self.gmap().contains_key(g2) && 0 <= j < self.gmap()[g2].units.len()
                implies self.umap().contains_key(#[trigger] self.gmap()[g2].units[j])
                    && self.umap()[self.gmap()[g2].units[j]].group == g2 by {
                let u2 = self.gmap()[g2].units[j];
                assert(old(self).umap().contains_key(u2)
                    && old(self).umap()[u2].group == g2);
            }
            assert forall|u2: u64| #[trigger] self.umap().contains_key(u2)
                implies self.umap()[u2].id == u2 && self.umap()[u2].death_frozen()
                    && pos_work(self.umap()[u2].pos) && pos_work(self.umap()[u2].spawn_pos)
                    && self.gmap().contains_key(self.umap()[u2].group)
                    && self.gmap()[self.umap()[u2].group].units.contains(u2) by {
                assert(old(self).umap().contains_key(u2));
            }
            assert forall|n2: Seq<char>, u2: u64|
                #[trigger] self.persisted.units_by_name.has(n2, u2)
                <==> (self.umap().contains_key(u2) && self.umap()[u2].name == n2) by {
                assert(self.persisted.units_by_name.has(n2, u2)
                    == old(self).persisted.units_by_name.has(n2, u2));
                if old(self).umap().contains_key(u2) {
                    assert(self.umap()[u2].name == old(self).umap()[u2].name);
                }
            }
            assert forall|u2: u64, h2: u64| #[trigger] self.ephemeral.links.linked(u2, h2)
                implies self.umap().contains_key(u2) by {
                assert(old(self).ephemeral.links.linked(u2, h2));
            }
            assert(self.wf());
        }
        let dep = self.persisted.deployed.contains(gid) || self.persisted.troops.contains(gid)
            || self.persisted.crates.contains(gid);
        if dep {
            let wipe = match self.group_health(gid) {
                Ok((alive, _total)) => alive == 0,
                Err(_) => {
                    proof {
                        assert(false);
                    }
                    false
                },
            };
            if wipe {
                let ghost mid_db = *self;
                let res = self.delete_group(gid);
                proof {
                    assert(res is Ok);
                    let gv = old(self).gmap()[gid];
                    assert(mid_db.gmap()[gid] == gv);
                    assert(self.gmap() == old(self).gmap().remove(gid));
                    assert(self.umap() == m1.remove_keys(gv.units.to_set()));
                    assert(despawn_intents(gv, m1) =~= despawn_intents(gv, mid_db.umap()));
                    assert forall|u2: u64, h2: u64|
                        #[trigger] self.ephemeral.links.linked(u2, h2)
                        == (old(self).ephemeral.links.linked(u2, h2) && h2 != handle
                            && !gv.units.contains(u2)) by {
                        if old(self).ephemeral.links.linked(u2, h2) && h2 != handle
                            && !gv.units.contains(u2) {
                            assert(mid_db.ephemeral.links.linked(u2, h2));
                        }
                    }
                }
                return Ok(());
            }
        }
        proof {
            let gv = old(self).gmap()[gid];
            if (gv.origin.in_deployed() || gv.origin.in_troops() || gv.origin.in_crates())
                && alive_count(m1, gv.units) == 0 {
                assert(dep);
            }
        }
        Ok(())
    }

    /// Reconciles an engine birth notification: resolves the unit by
    /// name, registers its live handle, and adds it to the movement
    /// and proximity polling sets.  Unknown names are ignored.
    pub fn unit_born(&mut self, name: &String, handle: u64) -> (r: Result<(), DbError>)
        requires
            old(self).wf(),
        ensures
            final(self).wf(),
            r is Ok,
            final(self).persisted == old(self).persisted,
            final(self).ids == old(self).ids,
            final(self).dirty == old(self).dirty,
            final(self).ephemeral.marks == old(self).ephemeral.marks,
            final(self).ephemeral.markq == old(self).ephemeral.markq,
            final(self).ephemeral.next_mark == old(self).ephemeral.next_mark,
            final(self).ephemeral.spawnq == old(self).ephemeral.spawnq,
            final(self).ephemeral.despawnq == old(self).ephemeral.despawnq,
            final(self).ephemeral.delayspawnq == old(self).ephemeral.delayspawnq,
            (forall|u2: u64| #[trigger] old(self).umap().contains_key(u2)
                ==> old(self).umap()[u2].name != name@) ==> *final(self) == *old(self),
            forall|uid: u64|
                old(self).umap().contains_key(uid) && (#[trigger] old(self).umap()[uid].name)
                    == name@ ==> {
                &&& (forall|u2: u64, h2: u64|
                    #[trigger] final(self).ephemeral.links.linked(u2, h2)
                        == ((old(self).ephemeral.links.linked(u2, h2) && u2 != uid
                            && h2 != handle) || (u2 == uid && h2 == handle)))
                &&& (forall|u2: u64| #[trigger] final(self).ephemeral.movable.set().contains(u2)
                    == (old(self).ephemeral.movable.set().contains(u2) || u2 == uid))
                &&& (forall|u2: u64|
                    #[trigger] final(self).ephemeral.near_enemies.set().contains(u2)
                        == (old(self).ephemeral.near_enemies.set().contains(u2) || u2 == uid))
                &&& (forall|u2: u64|
                    #[trigger] final(self).ephemeral.walkabout.set().contains(u2)
                        == (old(self).ephemeral.walkabout.set().contains(u2) || u2 == uid))
            },
    {
        let uid = match self.get_unit_by_name(name) {
            None => {
                return Ok(());
            },
            Some(u) => u.id,
        };
        proof {
            assert(old(self).umap().contains_key(uid)
                && old(self).umap()[uid].name == name@);
            assert forall|u2: u64|
                old(self).umap().contains_key(u2)
                    && (#[trigger] old(self).umap()[u2].name) == name@
                implies u2 == uid by {
                assert(old(self).persisted.units_by_name.has(name@, u2));
                assert(old(self).persisted.units_by_name.has(name@, uid));
                crate::nameidx::lemma_has_functional(
                    &old(self).persisted.units_by_name, name@, u2, uid);
            }
        }
        self.ephemeral.links.unlink_uid(uid);
        let _ = self.ephemeral.links.unlink_handle(handle);
        self.ephemeral.links.link(uid, handle);
        self.ephemeral.movable.insert(uid);
        self.ephemeral.near_enemies.insert(uid);
        self.ephemeral.walkabout.insert(uid);
        proof {
            assert(self.persisted == old(self).persisted);
            assert(self.gmap() == old(self).gmap());
            assert(self.umap() == old(self).umap());
            assert forall|u2: u64, h2: u64| #[trigger] self.ephemeral.links.linked(u2, h2)
                implies self.umap().contains_key(u2) by {
                if u2 != uid {
                    assert(old(self).ephemeral.links.linked(u2, h2));
                }
            }
            assert(self.wf());
        }
        Ok(())
    }

    /// Creates a group and queues it for spawning into the engine,
    /// immediately or at a future tick.
    pub fn add_and_queue_group(
        &mut self,
        side: crate::entity::Side,
        template: &Template,
        plan: &SpawnPlan,
        origin: crate::entity::DeployKind,
        classify: &crate::nameidx::NameIdx,
        terrain: &Vec<crate::entity::TerrainSample>,
        delay: Option<i64>,
    ) -> (r: Result<u64, DbError>)
        requires
            old(self).wf(),
            old(self).ephemeral.next_mark < u64::MAX,
            classify.wf(),
            tpl_ok(template@.units),
            old(self).ids.can_allocate(template@.units.len() as nat),
            plan.positions@.len() == template@.units.len(),
            forall|i: int| 0 <= i < plan.positions@.len()
                ==> pos_work(#[trigger] plan.positions@[i]),
        ensures
            final(self).wf(),
            match r {
                Err(e) => *final(self) == *old(self),
                Ok(gid) => {
                    &&& gid == old(self).ids.group_floor()
                    &&& final(self).gmap().contains_key(gid)
                    &&& final(self).gmap().remove(gid) == old(self).gmap()
                    &&& units_stored(final(self).umap(), *classify, template@.units,
                        plan.positions@, plan.heading, terrain@, side, gid,
                        old(self).ids.unit_floor(),
                        crate::names::spec_name(template@.name, gid))
                    &&& final(self).dirty
                    &&& match delay {
                        None => final(self).ephemeral.spawnq@
                            == old(self).ephemeral.spawnq@.push(gid)
                            && final(self).ephemeral.delayspawnq
                            == old(self).ephemeral.delayspawnq,
                        Some(t) => final(self).ephemeral.delayspawnq@
                            == old(self).ephemeral.delayspawnq@.push((t, gid))
                            && final(self).ephemeral.spawnq == old(self).ephemeral.spawnq,
                    }
                },
            },
    {
        let gid = match self.add_group(side, template, plan, origin, classify, terrain) {
            Err(e) => {
                return Err(e);
            },
            Ok(gid) => gid,
        };
        proof {
            assert(self.gmap().remove(gid) =~= old(self).gmap());
        }
        let ghost mid = *self;
        match delay {
            None => {
                self.ephemeral.spawnq.push(gid);
            },
            Some(t) => {
                self.ephemeral.delayspawnq.push((t, gid));
            },
        }
        proof {
            assert(self.persisted == mid.persisted);
            assert(self.gmap() == mid.gmap());
            assert(self.umap() == mid.umap());
            assert(self.wf());
        }
        Ok(gid)
    }

    /// The alive members of a group with their template unit names and
    /// current positions, for re-instantiating the group after a
    /// reload.
    pub fn plan_respawn(&self, gid: u64) -> (r: Result<Vec<(String, Pos)>, DbError>)
        requires
            self.wf(),
        ensures
            match r {
                Ok(v) => self.gmap().contains_key(gid)
                    && v@.map_values(|e: (String, Pos)| (e.0@, e.1))
                    == respawn_seq(self.umap(), self.gmap()[gid].units),
                Err(e) => e == DbError::NoSuchGroup && !self.gmap().contains_key(gid),
            },
    {
        let g = match self.get_group(gid) {
            None => {
                return Err(DbError::NoSuchGroup);
            },
            Some(g) => g,
        };
        let members = g.units.as_vec();
        let n = members.len();
        let mut v: Vec<(String, Pos)> = Vec::new();
        let mut i: usize = 0;
        while i < n
            invariant
                self.wf(),
                self.gmap().contains_key(gid),
                g@ == self.gmap()[gid],
                members@ == g@.units,
                n == members@.len(),
                i <= n,
                v@.map_values(|e: (String, Pos)| (e.0@, e.1))
                    == respawn_seq(self.umap(), members@.take(i as int)),
            decreases n - i,
        {
            proof {
                let t1 = members@.take(i + 1);
                assert(t1.drop_last() =~= members@.take(i as int));
                assert(t1.last() == members@[i as int]);
            }
            let uid = members[i];
            match self.get_unit(uid) {
                None => {
                    proof {
                        assert(self.umap().contains_key(members@[i as int]));
                    }
                },
                Some(u) => {
                    if !u.dead {
                        v.push((u.template_name.clone(), u.pos));
                        proof {
                            assert(v@.map_values(|e: (String, Pos)| (e.0@, e.1))
                                =~= respawn_seq(self.umap(), members@.take(i + 1)));
                        }
                    }
                },
            }
            i = i + 1;
        }
        proof {
            assert(members@.take(n as int) =~= members@);
        }
        Ok(v)
    }

    /// The ids of every player-deployed structure or troop group.
    pub fn deployed(&self) -> (r: Vec<u64>)
        requires
            self.wf(),
        ensures
            forall|k: int| #![trigger r@[k]] 0 <= k < r@.len()
                ==> self.persisted.deployed.set().contains(r@[k])
                    || self.persisted.troops.set().contains(r@[k]),
            forall|g: u64| self.persisted.deployed.set().contains(g)
                || self.persisted.troops.set().contains(g) ==> r@.contains(g),
    {
        let a = self.persisted.deployed.as_vec();
        let b = self.persisted.troops.as_vec();
        let mut r: Vec<u64> = Vec::new();
        let mut i: usize = 0;
        let na = a.len();
        while i < na
            invariant
                na == a@.len(),
                a@ == self.persisted.deployed.seq(),
                i <= na,
                r@ == a@.take(i as int),
            decreases na - i,
        {
            r.push(a[i]);
            proof {
                assert(r@ =~= a@.take(i + 1));
            }
            i = i + 1;
        }
        proof {
            assert(r@ =~= a@);
        }
        let nb = b.len();
        let mut j: usize = 0;
        while j < nb
            invariant
                nb == b@.len(),
                a@ == self.persisted.deployed.seq(),
                b@ == self.persisted.troops.seq(),
                j <= nb,
                r@ == a@ + b@.take(j as int),
            decreases nb - j,
        {
            r.push(b[j]);
            proof {
                assert(r@ =~= a@ + b@.take(j + 1));
            }
            j = j + 1;
        }
        proof {
            assert(r@ =~= a@ + b@);
            assert forall|k: int| 0 <= k < r@.len()
                implies self.persisted.deployed.set().contains(#[trigger] r@[k])
                    || self.persisted.troops.set().contains(r@[k]) by {
                if k < a@.len() {
                    assert(r@[k] == a@[k]);
                } else {
                    assert(r@[k] == b@[k - a@.len()]);
                }
            }
            assert forall|g: u64|
                self.persisted.deployed.set().contains(g)
                    || self.persisted.troops.set().contains(g) implies r@.contains(g) by {
                if self.persisted.deployed.set().contains(g) {
                    let k = choose|k: int| 0 <= k < a@.len() && a@[k] == g;
                    assert(r@[k] == g);
                } else {
                    let k = choose|k: int| 0 <= k < b@.len() && b@[k] == g;
                    assert(r@[a@.len() + k] == g);
                }
            }
        }
        r
    }
}

/// A sequence of alive positions never outgrows its unit list.
pub proof fn lemma_alive_positions_len(umap: Map<u64, UnitView>, s: Seq<u64>)
    ensures
        alive_positions(umap, s).len() <= s.len(),
    decreases s.len(),
{
    if s.len() > 0 {
        lemma_alive_positions_len(umap, s.drop_last());
    }
}

/// A pair list with ascending keys binds its `i`-th key to its `i`-th
/// value in the map it describes.
pub proof fn lemma_map_of_pairs_contains<V>(s: Seq<(u64, V)>, i: int)
    requires
        forall|p: int, q: int| 0 <= p < q < s.len() ==> s[p].0 < s[q].0,
        0 <= i < s.len(),
    ensures
        crate::chunk::map_of_pairs(s).contains_key(s[i].0),
        crate::chunk::map_of_pairs(s)[s[i].0] == s[i].1,
    decreases s.len(),
{
    if i == s.len() - 1 {
    } else {
        assert(forall|p: int, q: int|
            0 <= p < q < s.drop_last().len() ==> s.drop_last()[p].0 < s.drop_last()[q].0);
        lemma_map_of_pairs_contains(s.drop_last(), i);
        assert(s.drop_last()[i] == s[i]);
        assert(s[i].0 < s.last().0);
    }
}

/// Every key of the described map appears in the pair list.
pub proof fn lemma_map_of_pairs_complete<V>(s: Seq<(u64, V)>, k: u64)
    requires
        crate::chunk::map_of_pairs(s).contains_key(k),
    ensures
        exists|i: int| 0 <= i < s.len() && (#[trigger] s[i].0) == k,
    decreases s.len(),
{
    if s.len() > 0 {
        if s.last().0 == k {
            assert(s[s.len() - 1].0 == k);
        } else {
            lemma_map_of_pairs_complete(s.drop_last(), k);
            let i = choose|i: int| 0 <= i < s.drop_last().len() && (#[trigger] s.drop_last()[i].0) == k;
            assert(s[i].0 == k);
        }
    }
}

/// Re-establishes store well-formedness after a group spawn has
/// populated the primary maps and every index.
#[verifier::rlimit(100)]
#[verifier::spinoff_prover]
proof fn lemma_add_group_wf(
    old_db: Db,
    db: Db,
    gid: u64,
    gv: crate::entity::GroupView,
    uf: u64,
    n: int,
    us: Seq<TemplateUnitView>,
    gname: Seq<char>,
    tagv: Seq<u64>,
    ps: Seq<Pos>,
    heading: crate::entity::Rot,
    terrain: Seq<crate::entity::TerrainSample>,
    side: crate::entity::Side,
    si: int,
)
    requires
        old_db.wf(),
        tpl_ok(us),
        us.len() == n,
        ps.len() == n,
        terrain.len() == n,
        tagv.len() == n,
        forall|k: int| 0 <= k < n ==> pos_work(#[trigger] ps[k]),
        gid == old_db.ids.group_floor(),
        uf == old_db.ids.unit_floor(),
        uf + n <= u64::MAX,
        db.ids.group_floor() == gid + 1,
        db.ids.unit_floor() == uf + n,
        db.persisted.gmap() == old_db.gmap().insert(gid, gv),
        gv.id == gid,
        gv.name == gname,
        gv.side == side,
        gv.units == fresh_uids(uf, n),
        si == side.spec_index(),
        db.persisted.umap().dom() =~= old_db.umap().dom() + fresh_uids(uf, n).to_set(),
        db.persisted.umap().dom().finite(),
        forall|u2: u64| #[trigger] old_db.umap().contains_key(u2)
            ==> db.persisted.umap()[u2] == old_db.umap()[u2],
        forall|j: int| 0 <= j < n ==> db.persisted.umap().contains_key((uf + j) as u64)
            && db.persisted.umap()[(uf + j) as u64] == spawned_unit_view(
            us[j], ps[j], heading, terrain[j].height, side, gid, (uf + j) as u64, gname,
            #[trigger] tagv[j]),
        db.persisted.groups_by_name.wf(),
        db.persisted.units_by_name.wf(),
        !old_db.persisted.groups_by_name.has_key(gname),
        forall|n2: Seq<char>, g2: u64| #[trigger] db.persisted.groups_by_name.has(n2, g2)
            == (old_db.persisted.groups_by_name.has(n2, g2) || (n2 == gname && g2 == gid)),
        forall|n2: Seq<char>, u2: u64| #[trigger] db.persisted.units_by_name.has(n2, u2)
            == (old_db.persisted.units_by_name.has(n2, u2)
                || (uf <= u2 < uf + n && n2 == crate::names::spec_name(gname, u2))),
        db.persisted.by_side@.len() == 7,
        forall|s2: int| 0 <= s2 < 7 ==> (#[trigger] db.persisted.by_side@[s2]).wf(),
        forall|s2: int, g2: u64| 0 <= s2 < 7
            ==> ((#[trigger] db.persisted.by_side@[s2].set().contains(g2))
                == (old_db.persisted.by_side@[s2].set().contains(g2)
                    || (s2 == si && g2 == gid))),
        db.persisted.deployed.wf() && db.persisted.troops.wf() && db.persisted.crates.wf()
            && db.persisted.jtacs.wf() && db.persisted.ewrs.wf()
            && db.persisted.crates_by_player.wf(),
        forall|g2: u64| #[trigger] db.persisted.deployed.set().contains(g2)
            == (old_db.persisted.deployed.set().contains(g2)
                || (g2 == gid && gv.origin.in_deployed())),
        forall|g2: u64| #[trigger] db.persisted.troops.set().contains(g2)
            == (old_db.persisted.troops.set().contains(g2)
                || (g2 == gid && gv.origin.in_troops())),
        forall|g2: u64| #[trigger] db.persisted.crates.set().contains(g2)
            == (old_db.persisted.crates.set().contains(g2)
                || (g2 == gid && gv.origin.in_crates())),
        forall|g2: u64| #[trigger] db.persisted.jtacs.set().contains(g2)
            == (old_db.persisted.jtacs.set().contains(g2)
                || (g2 == gid && gv.origin.in_jtacs())),
        forall|g2: u64| #[trigger] db.persisted.ewrs.set().contains(g2)
            == (old_db.persisted.ewrs.set().contains(g2)
                || (g2 == gid && gv.origin.in_ewrs())),
        forall|p2: Seq<char>, g2: u64| #[trigger] db.persisted.crates_by_player.owns(p2, g2)
            == (old_db.persisted.crates_by_player.owns(p2, g2)
                || (g2 == gid && gv.origin.crate_owner() == Some(p2))),
        db.ephemeral == old_db.ephemeral,
    ensures
        db.wf(),
{
    let gm1 = db.persisted.gmap();
    let um1 = db.persisted.umap();
    broadcast use vstd::seq_lib::seq_to_set_is_finite;

    assert(!old_db.gmap().contains_key(gid)) by {
        if old_db.gmap().contains_key(gid) {
            assert(gid < old_db.ids.group_floor());
        }
    }
    assert forall|p: int, q: int| 0 <= p < q < n
        implies fresh_uids(uf, n)[p] != fresh_uids(uf, n)[q] by {
        assert(fresh_uids(uf, n)[p] == (uf + p) as u64);
        assert(fresh_uids(uf, n)[q] == (uf + q) as u64);
    }
    assert(fresh_uids(uf, n).no_duplicates());
    assert forall|g2: u64, j: int|
        gm1.contains_key(g2) && 0 <= j < gm1[g2].units.len()
        implies um1.contains_key(#[trigger] gm1[g2].units[j])
            && um1[gm1[g2].units[j]].group == g2 by {
        if g2 == gid {
            assert(gm1[g2].units[j] == (uf + j) as u64);
            assert(um1[(uf + j) as u64] == spawned_unit_view(
                us[j], ps[j], heading, terrain[j].height, side, gid, (uf + j) as u64,
                gname, tagv[j]));
        } else {
            assert(old_db.gmap().contains_key(g2));
            let u2 = old_db.gmap()[g2].units[j];
            assert(old_db.umap().contains_key(u2) && old_db.umap()[u2].group == g2);
            assert(um1[u2] == old_db.umap()[u2]);
        }
    }
    assert forall|u2: u64| #[trigger] um1.contains_key(u2)
        implies um1[u2].id == u2 && um1[u2].death_frozen()
            && pos_work(um1[u2].pos) && pos_work(um1[u2].spawn_pos)
            && gm1.contains_key(um1[u2].group)
            && gm1[um1[u2].group].units.contains(u2) by {
        if old_db.umap().contains_key(u2) {
            let g2 = old_db.umap()[u2].group;
            assert(old_db.gmap().contains_key(g2));
            assert(g2 != gid);
            assert(gm1[g2] == old_db.gmap()[g2]);
            assert(gm1[g2].units.contains(u2));
        } else {
            let j = choose|j: int| 0 <= j < n && fresh_uids(uf, n)[j] == u2;
            assert(um1[(uf + j) as u64] == spawned_unit_view(
                us[j], ps[j], heading, terrain[j].height, side, gid, (uf + j) as u64,
                gname, tagv[j]));
            assert(gv.units[j] == u2);
        }
    }
    assert forall|n2: Seq<char>, g2: u64|
        #[trigger] db.persisted.groups_by_name.has(n2, g2)
        <==> (gm1.contains_key(g2) && gm1[g2].name == n2) by {
        if db.persisted.groups_by_name.has(n2, g2) {
            if old_db.persisted.groups_by_name.has(n2, g2) {
                assert(old_db.gmap().contains_key(g2));
                assert(g2 != gid);
            }
        }
        if gm1.contains_key(g2) && gm1[g2].name == n2 {
            if g2 != gid {
                assert(old_db.gmap().contains_key(g2) && old_db.gmap()[g2].name == n2);
                assert(old_db.persisted.groups_by_name.has(n2, g2));
            }
        }
    }
    assert forall|n2: Seq<char>, u2: u64|
        #[trigger] db.persisted.units_by_name.has(n2, u2)
        <==> (um1.contains_key(u2) && um1[u2].name == n2) by {
        if db.persisted.units_by_name.has(n2, u2) {
            if old_db.persisted.units_by_name.has(n2, u2) {
                assert(old_db.umap().contains_key(u2));
            } else {
                assert(uf <= u2 < uf + n && n2 == crate::names::spec_name(gname, u2));
                let j = u2 - uf;
                assert(fresh_uids(uf, n)[j as int] == u2);
                assert(um1.contains_key(u2));
                assert(um1[(uf + j) as u64] == spawned_unit_view(
                    us[j as int], ps[j as int], heading, terrain[j as int].height, side,
                    gid, (uf + j) as u64, gname, tagv[j as int]));
                assert(um1[u2].name == crate::names::spec_name(gname, u2));
            }
        }
        if um1.contains_key(u2) && um1[u2].name == n2 {
            if old_db.umap().contains_key(u2) {
                assert(old_db.persisted.units_by_name.has(n2, u2));
            } else {
                let j = choose|j: int| 0 <= j < n && fresh_uids(uf, n)[j] == u2;
                assert(u2 == (uf + j) as u64);
                assert(um1[(uf + j) as u64] == spawned_unit_view(
                    us[j], ps[j], heading, terrain[j].height, side, gid, (uf + j) as u64,
                    gname, tagv[j]));
                assert(n2 == crate::names::spec_name(gname, u2));
                assert(db.persisted.units_by_name.has(n2, u2));
            }
        }
    }
    assert forall|s2: int, g2: u64| 0 <= s2 < 7
        implies ((#[trigger] db.persisted.by_side@[s2].set().contains(g2))
            <==> (gm1.contains_key(g2) && gm1[g2].side.spec_index() == s2)) by {
        if db.persisted.by_side@[s2].set().contains(g2) {
            if g2 != gid || s2 != si {
                assert(old_db.persisted.by_side@[s2].set().contains(g2));
                assert(old_db.gmap().contains_key(g2));
                assert(g2 != gid);
            }
        }
        if gm1.contains_key(g2) && gm1[g2].side.spec_index() == s2 {
            if g2 != gid {
                assert(old_db.gmap().contains_key(g2));
                assert(old_db.persisted.by_side@[s2].set().contains(g2));
            }
        }
    }
    assert forall|g2: u64| #[trigger] db.persisted.deployed.set().contains(g2)
        <==> (gm1.contains_key(g2) && gm1[g2].origin.in_deployed()) by {
        if db.persisted.deployed.set().contains(g2) && g2 != gid {
            assert(old_db.persisted.deployed.set().contains(g2));
        }
        if gm1.contains_key(g2) && gm1[g2].origin.in_deployed() && g2 != gid {
            assert(old_db.persisted.deployed.set().contains(g2));
        }
    }
    assert forall|g2: u64| #[trigger] db.persisted.troops.set().contains(g2)
        <==> (gm1.contains_key(g2) && gm1[g2].origin.in_troops()) by {
        if db.persisted.troops.set().contains(g2) && g2 != gid {
            assert(old_db.persisted.troops.set().contains(g2));
        }
        if gm1.contains_key(g2) && gm1[g2].origin.in_troops() && g2 != gid {
            assert(old_db.persisted.troops.set().contains(g2));
        }
    }
    assert forall|g2: u64| #[trigger] db.persisted.crates.set().contains(g2)
        <==> (gm1.contains_key(g2) && gm1[g2].origin.in_crates()) by {
        if db.persisted.crates.set().contains(g2) && g2 != gid {
            assert(old_db.persisted.crates.set().contains(g2));
        }
        if gm1.contains_key(g2) && gm1[g2].origin.in_crates() && g2 != gid {
            assert(old_db.persisted.crates.set().contains(g2));
        }
    }
    assert forall|g2: u64| #[trigger] db.persisted.jtacs.set().contains(g2)
        <==> (gm1.contains_key(g2) && gm1[g2].origin.in_jtacs()) by {
        if db.persisted.jtacs.set().contains(g2) && g2 != gid {
            assert(old_db.persisted.jtacs.set().contains(g2));
        }
        if gm1.contains_key(g2) && gm1[g2].origin.in_jtacs() && g2 != gid {
            assert(old_db.persisted.jtacs.set().contains(g2));
        }
    }
    assert forall|g2: u64| #[trigger] db.persisted.ewrs.set().contains(g2)
        <==> (gm1.contains_key(g2) && gm1[g2].origin.in_ewrs()) by {
        if db.persisted.ewrs.set().contains(g2) && g2 != gid {
            assert(old_db.persisted.ewrs.set().contains(g2));
        }
        if gm1.contains_key(g2) && gm1[g2].origin.in_ewrs() && g2 != gid {
            assert(old_db.persisted.ewrs.set().contains(g2));
        }
    }
    assert forall|p2: Seq<char>, g2: u64|
        #[trigger] db.persisted.crates_by_player.owns(p2, g2)
        <==> (gm1.contains_key(g2) && gm1[g2].origin.crate_owner() == Some(p2)) by {
        if db.persisted.crates_by_player.owns(p2, g2) && g2 != gid {
            assert(old_db.persisted.crates_by_player.owns(p2, g2));
        }
        if gm1.contains_key(g2) && gm1[g2].origin.crate_owner() == Some(p2) && g2 != gid {
            assert(old_db.persisted.crates_by_player.owns(p2, g2));
        }
    }
    assert forall|g2: u64| #[trigger] gm1.contains_key(g2)
        implies g2 < db.ids.group_floor() by {
        if g2 != gid {
            assert(g2 < old_db.ids.group_floor());
        }
    }
    assert forall|u2: u64| #[trigger] um1.contains_key(u2)
        implies u2 < db.ids.unit_floor() by {
        if old_db.umap().contains_key(u2) {
            assert(u2 < old_db.ids.unit_floor());
        } else {
            let j = choose|j: int| 0 <= j < n && fresh_uids(uf, n)[j] == u2;
        }
    }
    assert forall|u2: u64, h: u64| #[trigger] db.ephemeral.links.linked(u2, h)
        implies um1.contains_key(u2) by {
        assert(old_db.ephemeral.links.linked(u2, h));
        assert(old_db.umap().contains_key(u2));
    }
}

} // verus!
