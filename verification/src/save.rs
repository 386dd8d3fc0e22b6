//! The snapshot/save document and its inverse: a saved store is the
//! full list of group and unit records; loading rebuilds the primary
//! maps and every secondary index, re-seeds the id allocator, and
//! rejects any internally inconsistent document outright.

use vstd::prelude::*;

use crate::chunk::{map_of_pairs, GroupMap, UnitMap};
use crate::entity::{GroupView, SpawnedGroup, SpawnedUnit, UnitView};
use crate::geom::pos_work;
use crate::idset::IdSet;
use crate::ids::IdAllocator;
use crate::nameidx::NameIdx;
use crate::store::{Db, Ephemeral, Persisted};
use crate::DbError;

verus! {

/// The serializable document: every group and unit record, keyed by
/// id.  Runtime state is never part of it.
pub struct SavedState {
    pub groups: Vec<(u64, SpawnedGroup)>,
    pub units: Vec<(u64, SpawnedUnit)>,
}

/// The group records of a document, as views.
pub open spec fn sgv(s: SavedState) -> Seq<(u64, GroupView)> {
    s.groups@.map_values(|e: (u64, SpawnedGroup)| (e.0, e.1@))
}

/// The unit records of a document, as views.
pub open spec fn suv(s: SavedState) -> Seq<(u64, UnitView)> {
    s.units@.map_values(|e: (u64, SpawnedUnit)| (e.0, e.1@))
}

/// Internal consistency of a saved document: exactly what a
/// well-formed store saves and what loading accepts.
pub open spec fn saved_wf(gs: Seq<(u64, GroupView)>, us: Seq<(u64, UnitView)>) -> bool {
    let gm = map_of_pairs(gs);
    let um = map_of_pairs(us);
    &&& forall|p: int, q: int| 0 <= p < q < gs.len()
        ==> (#[trigger] gs[p]).0 != (#[trigger] gs[q]).0
    &&& forall|p: int, q: int| 0 <= p < q < us.len()
        ==> (#[trigger] us[p]).0 != (#[trigger] us[q]).0
    &&& forall|i: int| 0 <= i < gs.len() ==> (#[trigger] gs[i]).1.id == gs[i].0
        && gs[i].0 < u64::MAX
    &&& forall|i: int| 0 <= i < us.len() ==> (#[trigger] us[i]).1.id == us[i].0
        && us[i].0 < u64::MAX
    &&& forall|i: int| 0 <= i < gs.len() ==> 1 <= (#[trigger] gs[i]).1.units.len() <= 4096
        && gs[i].1.units.no_duplicates()
    &&& forall|i: int, j: int| 0 <= i < gs.len() && 0 <= j < gs[i].1.units.len()
        ==> um.contains_key(#[trigger] gs[i].1.units[j])
            && um[gs[i].1.units[j]].group == gs[i].0
    &&& forall|i: int| 0 <= i < us.len() ==> gm.contains_key((#[trigger] us[i]).1.group)
        && gm[us[i].1.group].units.contains(us[i].0)
    &&& forall|i: int| 0 <= i < us.len() ==> (#[trigger] us[i]).1.death_frozen()
        && pos_work(us[i].1.pos) && pos_work(us[i].1.spawn_pos)
    &&& forall|p: int, q: int| 0 <= p < q < gs.len()
        ==> (#[trigger] gs[p]).1.name != (#[trigger] gs[q]).1.name
    &&& forall|p: int, q: int| 0 <= p < q < us.len()
        ==> (#[trigger] us[p]).1.name != (#[trigger] us[q]).1.name
}

impl Db {
    /// Produces the serializable document of the persisted store: a
    /// consistent snapshot that `load` reconstructs exactly.
    pub fn save(&self) -> (r: SavedState)
        requires
            self.wf(),
        ensures
            map_of_pairs(sgv(r)) == self.gmap(),
            map_of_pairs(suv(r)) == self.umap(),
            saved_wf(sgv(r), suv(r)),
    {
        let groups = crate::chunk::group_map_entries(&self.persisted.groups);
        let units = crate::chunk::unit_map_entries(&self.persisted.units);
        let r = SavedState { groups, units };
        proof {
            let gs = sgv(r);
            let us = suv(r);
            let gm = map_of_pairs(gs);
            let um = map_of_pairs(us);
            assert(gm == self.gmap());
            assert(um == self.umap());
            assert forall|i: int| 0 <= i < gs.len() implies (#[trigger] gs[i]).1.id == gs[i].0
                && gs[i].0 < u64::MAX && 1 <= gs[i].1.units.len() <= 4096
                && gs[i].1.units.no_duplicates() by {
                crate::lifecycle::lemma_map_of_pairs_contains(gs, i);
                assert(self.gmap().contains_key(gs[i].0));
                assert(gs[i].0 < self.ids.group_floor());
            }
            assert forall|i: int| 0 <= i < us.len() implies (#[trigger] us[i]).1.id == us[i].0
                && us[i].0 < u64::MAX && us[i].1.death_frozen() && pos_work(us[i].1.pos)
                && pos_work(us[i].1.spawn_pos) by {
                crate::lifecycle::lemma_map_of_pairs_contains(us, i);
                assert(self.umap().contains_key(us[i].0));
                assert(us[i].0 < self.ids.unit_floor());
            }
            assert forall|i: int, j: int|
                0 <= i < gs.len() && 0 <= j < gs[i].1.units.len()
                implies um.contains_key(#[trigger] gs[i].1.units[j])
                    && um[gs[i].1.units[j]].group == gs[i].0 by {
                crate::lifecycle::lemma_map_of_pairs_contains(gs, i);
                assert(self.gmap().contains_key(gs[i].0));
                assert(self.gmap()[gs[i].0].units[j] == gs[i].1.units[j]);
            }
            assert forall|i: int| 0 <= i < us.len()
                implies gm.contains_key((#[trigger] us[i]).1.group)
                    && gm[us[i].1.group].units.contains(us[i].0) by {
                crate::lifecycle::lemma_map_of_pairs_contains(us, i);
                assert(self.umap().contains_key(us[i].0));
            }
            assert forall|p: int, q: int| 0 <= p < q < gs.len()
                implies (#[trigger] gs[p]).1.name != (#[trigger] gs[q]).1.name by {
                crate::lifecycle::lemma_map_of_pairs_contains(gs, p);
                crate::lifecycle::lemma_map_of_pairs_contains(gs, q);
                if gs[p].1.name == gs[q].1.name {
                    assert(self.persisted.groups_by_name.has(gs[p].1.name, gs[p].0));
                    assert(self.persisted.groups_by_name.has(gs[q].1.name, gs[q].0));
                    crate::nameidx::lemma_has_functional(
                        &self.persisted.groups_by_name, gs[p].1.name, gs[p].0, gs[q].0);
                }
            }
            assert forall|p: int, q: int| 0 <= p < q < us.len()
                implies (#[trigger] us[p]).1.name != (#[trigger] us[q]).1.name by {
                crate::lifecycle::lemma_map_of_pairs_contains(us, p);
                crate::lifecycle::lemma_map_of_pairs_contains(us, q);
                if us[p].1.name == us[q].1.name {
                    assert(self.persisted.units_by_name.has(us[p].1.name, us[p].0));
                    assert(self.persisted.units_by_name.has(us[q].1.name, us[q].0));
                    crate::nameidx::lemma_has_functional(
                        &self.persisted.units_by_name, us[p].1.name, us[p].0, us[q].0);
                }
            }
        }
        r
    }
}

impl Db {
    /// Rebuilds a database from a saved document: primary maps, every
    /// secondary index, and the id allocator re-seeded past every id
    /// seen.  An inconsistent document is rejected whole; nothing
    /// partial is returned.
    #[verifier::rlimit(100)]
    #[verifier::spinoff_prover]
    pub fn load(saved: &SavedState) -> (r: Result<Db, DbError>)
    ensures
        match r {
            Ok(db) => {
                &&& db.wf()
                &&& db.gmap() == map_of_pairs(sgv(*saved))
                &&& db.umap() == map_of_pairs(suv(*saved))
                &&& !db.dirty
            },
            Err(e) => e == DbError::CorruptSave && !saved_wf(sgv(*saved), suv(*saved)),
        },
{
    let ghost gs = sgv(*saved);
    let ghost us = suv(*saved);
    let mut units: UnitMap = crate::chunk::unit_map_new();
    let mut units_by_name = NameIdx::new();
    let mut ids = IdAllocator::new();
    let nu = saved.units.len();
    let mut i: usize = 0;
    while i < nu
        invariant
            nu == saved.units@.len(),
            us == suv(*saved),
            gs == sgv(*saved),
            i <= nu,
            crate::chunk::unit_map_of(units) == map_of_pairs(us.take(i as int)),
            crate::chunk::unit_map_of(units).dom().finite(),
            forall|j: int| 0 <= j < i ==> (#[trigger] us[j]).1.id == us[j].0
                && us[j].0 < u64::MAX && us[j].1.death_frozen() && pos_work(us[j].1.pos)
                && pos_work(us[j].1.spawn_pos),
            forall|j: int| 0 <= j < i
                ==> crate::chunk::unit_map_of(units).contains_key((#[trigger] us[j]).0)
                    && crate::chunk::unit_map_of(units)[us[j].0] == us[j].1,
            forall|u2: u64| #[trigger] crate::chunk::unit_map_of(units).contains_key(u2)
                ==> exists|j: int| 0 <= j < i && (#[trigger] us[j]).0 == u2,
            units_by_name.wf(),
            forall|n2: Seq<char>, u2: u64| #[trigger] units_by_name.has(n2, u2)
                <==> (crate::chunk::unit_map_of(units).contains_key(u2)
                    && crate::chunk::unit_map_of(units)[u2].name == n2),
            forall|u2: u64| #[trigger] crate::chunk::unit_map_of(units).contains_key(u2)
                ==> u2 < ids.unit_floor(),
            ids.group_floor() == 0,
        decreases nu - i,
    {
        proof {
            assert(us.take(i + 1).drop_last() =~= us.take(i as int));
            assert(us.take(i + 1).last() == us[i as int]);
        }
        let e = &saved.units[i];
        let uid = e.0;
        let u = &e.1;
        proof {
            assert(us[i as int] == (uid, u@));
        }
        if u.id != uid || uid == u64::MAX {
            return Err(DbError::CorruptSave);
        }
        if u.dead && !(u.pos == u.spawn_pos && u.heading == u.spawn_heading
            && u.pose == u.spawn_pose) {
            return Err(DbError::CorruptSave);
        }
        if u.pos.x < -crate::geom::WORK_LIMIT || u.pos.x > crate::geom::WORK_LIMIT
            || u.pos.y < -crate::geom::WORK_LIMIT || u.pos.y > crate::geom::WORK_LIMIT
            || u.spawn_pos.x < -crate::geom::WORK_LIMIT
            || u.spawn_pos.x > crate::geom::WORK_LIMIT
            || u.spawn_pos.y < -crate::geom::WORK_LIMIT
            || u.spawn_pos.y > crate::geom::WORK_LIMIT {
            return Err(DbError::CorruptSave);
        }
        if units_by_name.contains_key(&u.name) {
            proof {
                let u2 = choose|u2: u64| units_by_name.has(u.name@, u2);
                let j = choose|j: int| 0 <= j < i && (#[trigger] us[j]).0 == u2;
                assert(us[j].1.name == us[i as int].1.name);
            }
            return Err(DbError::CorruptSave);
        }
        let prev = crate::chunk::unit_map_insert(&mut units, uid, u.clone_record());
        if prev.is_some() {
            proof {
                let j = choose|j: int| 0 <= j < i && (#[trigger] us[j]).0 == uid;
            }
            return Err(DbError::CorruptSave);
        }
        units_by_name.insert(u.name.clone(), uid);
        ids.observe_unit(uid);
        proof {
            assert forall|u2: u64|
                #[trigger] crate::chunk::unit_map_of(units).contains_key(u2)
                implies exists|j: int| 0 <= j < i + 1 && (#[trigger] us[j]).0 == u2 by {
                if u2 != uid {
                    let j = choose|j: int| 0 <= j < i && (#[trigger] us[j]).0 == u2;
                }
            }
        }
        i = i + 1;
    }
    proof {
        assert(us.take(nu as int) =~= us);
    }

    let mut groups: GroupMap = crate::chunk::group_map_new();
    let mut groups_by_name = NameIdx::new();
    let mut by_side: Vec<IdSet> = Vec::new();
    let mut k: usize = 0;
    while k < 7
        invariant
            k <= 7,
            by_side@.len() == k,
            forall|j: int| 0 <= j < k
                ==> (#[trigger] by_side@[j]).wf()
                    && by_side@[j].set() == Set::<u64>::empty(),
        decreases 7 - k,
    {
        by_side.push(IdSet::new());
        k = k + 1;
    }
    let mut deployed = IdSet::new();
    let mut troops = IdSet::new();
    let mut crates = IdSet::new();
    let mut jtacs = IdSet::new();
    let mut ewrs = IdSet::new();
    let mut crates_by_player = crate::crateidx::CrateIdx::new();
    let ng = saved.groups.len();
    let mut i: usize = 0;
    while i < ng
        invariant
            ng == saved.groups@.len(),
            us == suv(*saved),
            gs == sgv(*saved),
            i <= ng,
            crate::chunk::unit_map_of(units) == map_of_pairs(us),
            crate::chunk::unit_map_of(units).dom().finite(),
            forall|j: int| 0 <= j < us.len() ==> (#[trigger] us[j]).1.id == us[j].0
                && us[j].0 < u64::MAX && us[j].1.death_frozen() && pos_work(us[j].1.pos)
                && pos_work(us[j].1.spawn_pos),
            forall|j: int| 0 <= j < us.len()
                ==> crate::chunk::unit_map_of(units).contains_key((#[trigger] us[j]).0)
                    && crate::chunk::unit_map_of(units)[us[j].0] == us[j].1,
            forall|u2: u64| #[trigger] crate::chunk::unit_map_of(units).contains_key(u2)
                ==> exists|j: int| 0 <= j < us.len() && (#[trigger] us[j]).0 == u2,
            units_by_name.wf(),
            forall|n2: Seq<char>, u2: u64| #[trigger] units_by_name.has(n2, u2)
                <==> (crate::chunk::unit_map_of(units).contains_key(u2)
                    && crate::chunk::unit_map_of(units)[u2].name == n2),
            forall|u2: u64| #[trigger] crate::chunk::unit_map_of(units).contains_key(u2)
                ==> u2 < ids.unit_floor(),
            crate::chunk::group_map_of(groups) == map_of_pairs(gs.take(i as int)),
            crate::chunk::group_map_of(groups).dom().finite(),
            forall|j: int| 0 <= j < i ==> (#[trigger] gs[j]).1.id == gs[j].0
                && gs[j].0 < u64::MAX && 1 <= gs[j].1.units.len() <= 4096
                && gs[j].1.units.no_duplicates(),
            forall|j: int| 0 <= j < i
                ==> crate::chunk::group_map_of(groups).contains_key((#[trigger] gs[j]).0)
                    && crate::chunk::group_map_of(groups)[gs[j].0] == gs[j].1,
            forall|g2: u64| #[trigger] crate::chunk::group_map_of(groups).contains_key(g2)
                ==> exists|j: int| 0 <= j < i && (#[trigger] gs[j]).0 == g2,
            forall|j: int, j2: int| 0 <= j < i && 0 <= j2 < gs[j].1.units.len()
                ==> crate::chunk::unit_map_of(units).contains_key(
                    #[trigger] gs[j].1.units[j2])
                    && crate::chunk::unit_map_of(units)[gs[j].1.units[j2]].group == gs[j].0,
            groups_by_name.wf(),
            forall|n2: Seq<char>, g2: u64| #[trigger] groups_by_name.has(n2, g2)
                <==> (crate::chunk::group_map_of(groups).contains_key(g2)
                    && crate::chunk::group_map_of(groups)[g2].name == n2),
            by_side@.len() == 7,
            forall|s2: int| 0 <= s2 < 7 ==> (#[trigger] by_side@[s2]).wf(),
            forall|s2: int, g2: u64| 0 <= s2 < 7
                ==> ((#[trigger] by_side@[s2].set().contains(g2))
                    <==> (crate::chunk::group_map_of(groups).contains_key(g2)
                        && crate::chunk::group_map_of(
                        groups)[g2].side.spec_index() == s2)),
            deployed.wf() && troops.wf() && crates.wf() && jtacs.wf() && ewrs.wf()
                && crates_by_player.wf(),
            forall|g2: u64| #[trigger] deployed.set().contains(g2)
                <==> (crate::chunk::group_map_of(groups).contains_key(g2)
                    && crate::chunk::group_map_of(groups)[g2].origin.in_deployed()),
            forall|g2: u64| #[trigger] troops.set().contains(g2)
                <==> (crate::chunk::group_map_of(groups).contains_key(g2)
                    && crate::chunk::group_map_of(groups)[g2].origin.in_troops()),
            forall|g2: u64| #[trigger] crates.set().contains(g2)
                <==> (crate::chunk::group_map_of(groups).contains_key(g2)
                    && crate::chunk::group_map_of(groups)[g2].origin.in_crates()),
            forall|g2: u64| #[trigger] jtacs.set().contains(g2)
                <==> (crate::chunk::group_map_of(groups).contains_key(g2)
                    && crate::chunk::group_map_of(groups)[g2].origin.in_jtacs()),
            forall|g2: u64| #[trigger] ewrs.set().contains(g2)
                <==> (crate::chunk::group_map_of(groups).contains_key(g2)
                    && crate::chunk::group_map_of(groups)[g2].origin.in_ewrs()),
            forall|p2: Seq<char>, g2: u64| #[trigger] crates_by_player.owns(p2, g2)
                <==> (crate::chunk::group_map_of(groups).contains_key(g2)
                    && crate::chunk::group_map_of(groups)[g2].origin.crate_owner()
                    == Some(p2)),
            forall|g2: u64| #[trigger] crate::chunk::group_map_of(groups).contains_key(g2)
                ==> g2 < ids.group_floor(),
        decreases ng - i,
    {
        proof {
            assert(gs.take(i + 1).drop_last() =~= gs.take(i as int));
            assert(gs.take(i + 1).last() == gs[i as int]);
        }
        let e = &saved.groups[i];
        let gid = e.0;
        let g = &e.1;
        proof {
            assert(gs[i as int] == (gid, g@));
        }
        if g.id != gid || gid == u64::MAX {
            return Err(DbError::CorruptSave);
        }
        let members = g.units.as_vec();
        let nm = members.len();
        if nm == 0 || nm > 4096 {
            return Err(DbError::CorruptSave);
        }
        // members must exist, point back, and be listed once
        let mut seen = IdSet::new();
        let mut j: usize = 0;
        while j < nm
            invariant
                us == suv(*saved),
                gs == sgv(*saved),
                nm == members@.len(),
                members@ == gs[i as int].1.units,
                0 <= i < gs.len(),
                gid == gs[i as int].0,
                crate::chunk::unit_map_of(units) == map_of_pairs(us),
                j <= nm,
                seen.wf(),
                seen.seq() == members@.take(j as int),
                forall|j2: int| 0 <= j2 < j
                    ==> crate::chunk::unit_map_of(units).contains_key(
                        #[trigger] members@[j2])
                        && crate::chunk::unit_map_of(units)[members@[j2]].group == gid,
            decreases nm - j,
        {
            let uid = members[j];
            if seen.contains(uid) {
                proof {
                    let j2 = choose|j2: int|
                        0 <= j2 < j && members@.take(j as int)[j2] == uid;
                    assert(members@[j2] == uid && members@[j as int] == uid);
                    assert(!gs[i as int].1.units.no_duplicates());
                    assert(!saved_wf(gs, us));
                }
                return Err(DbError::CorruptSave);
            }
            match crate::chunk::unit_map_get(&units, uid) {
                None => {
                    proof {
                        assert(members@[j as int] == gs[i as int].1.units[j as int]);
                        assert(!map_of_pairs(us).contains_key(
                            gs[i as int].1.units[j as int]));
                        assert(!saved_wf(gs, us));
                    }
                    return Err(DbError::CorruptSave);
                },
                Some(u) => {
                    if u.group != gid {
                        proof {
                            assert(members@[j as int] == gs[i as int].1.units[j as int]);
                            assert(map_of_pairs(us)[gs[i as int].1.units[j as int]].group
                                != gs[i as int].0);
                            assert(!saved_wf(gs, us));
                        }
                        return Err(DbError::CorruptSave);
                    }
                },
            }
            seen.insert(uid);
            proof {
                assert(seen.seq() =~= members@.take(j + 1));
            }
            j = j + 1;
        }
        proof {
            assert(members@.take(nm as int) =~= members@);
            assert(gs[i as int].1.units.no_duplicates());
        }
        if groups_by_name.contains_key(&g.name) {
            proof {
                let g2 = choose|g2: u64| groups_by_name.has(g.name@, g2);
                let j2 = choose|j2: int| 0 <= j2 < i && (#[trigger] gs[j2]).0 == g2;
                assert(gs[j2].1.name == gs[i as int].1.name);
            }
            return Err(DbError::CorruptSave);
        }
        let prev = crate::chunk::group_map_insert(&mut groups, gid, g.clone_record());
        if prev.is_some() {
            proof {
                let j2 = choose|j2: int| 0 <= j2 < i && (#[trigger] gs[j2]).0 == gid;
            }
            return Err(DbError::CorruptSave);
        }
        groups_by_name.insert(g.name.clone(), gid);
        let si = g.side.index();
        let mut sset = by_side.remove(si);
        sset.insert(gid);
        by_side.insert(si, sset);
        let d_dep = match &g.origin {
            crate::entity::DeployKind::Deployed { .. } => true,
            _ => false,
        };
        let d_troop = match &g.origin {
            crate::entity::DeployKind::Troop { .. } => true,
            _ => false,
        };
        let d_crate = match &g.origin {
            crate::entity::DeployKind::Crate { .. } => true,
            _ => false,
        };
        let d_jtac = match &g.origin {
            crate::entity::DeployKind::Deployed { spec, .. } => spec.jtac,
            crate::entity::DeployKind::Troop { spec, .. } => spec.jtac,
            _ => false,
        };
        let d_ewr = match &g.origin {
            crate::entity::DeployKind::Deployed { spec, .. } => spec.ewr,
            _ => false,
        };
        let crate_player: Option<String> = match &g.origin {
            crate::entity::DeployKind::Crate { player, .. } => Some(player.clone()),
            _ => None,
        };
        proof {
            assert(d_dep == g@.origin.in_deployed());
            assert(d_troop == g@.origin.in_troops());
            assert(d_crate == g@.origin.in_crates());
            assert(d_jtac == g@.origin.in_jtacs());
            assert(d_ewr == g@.origin.in_ewrs());
            match &crate_player {
                Some(p) => {
                    assert(g@.origin.crate_owner() == Some(p@));
                },
                None => {
                    assert(g@.origin.crate_owner() is None);
                },
            }
        }
        if d_dep {
            deployed.insert(gid);
        }
        if d_troop {
            troops.insert(gid);
        }
        if d_crate {
            crates.insert(gid);
        }
        if d_jtac {
            jtacs.insert(gid);
        }
        if d_ewr {
            ewrs.insert(gid);
        }
        match crate_player {
            Some(p) => {
                proof {
                    assert(!crates_by_player.has_gid(gid)) by {
                        if crates_by_player.has_gid(gid) {
                            let p2 = choose|p2: Seq<char>| crates_by_player.owns(p2, gid);
                        }
                    }
                }
                crates_by_player.add(p, gid);
            },
            None => {},
        }
        ids.observe_group(gid);
        proof {
            assert forall|g2: u64|
                #[trigger] crate::chunk::group_map_of(groups).contains_key(g2)
                implies exists|j2: int| 0 <= j2 < i + 1 && (#[trigger] gs[j2]).0 == g2 by {
                if g2 != gid {
                    let j2 = choose|j2: int| 0 <= j2 < i && (#[trigger] gs[j2]).0 == g2;
                }
            }
            assert forall|s2: int, g2: u64| 0 <= s2 < 7
                implies ((#[trigger] by_side@[s2].set().contains(g2))
                    <==> (crate::chunk::group_map_of(groups).contains_key(g2)
                        && crate::chunk::group_map_of(
                        groups)[g2].side.spec_index() == s2)) by {
                if s2 != si {
                    if by_side@[s2].set().contains(g2) {
                        assert(g2 != gid);
                    }
                }
            }
        }
        i = i + 1;
    }
    proof {
        assert(gs.take(ng as int) =~= gs);
    }
    // every unit's group must exist and list it
    let mut i: usize = 0;
    while i < nu
        invariant
            nu == saved.units@.len(),
            us == suv(*saved),
            gs == sgv(*saved),
            crate::chunk::unit_map_of(units) == map_of_pairs(us),
            crate::chunk::group_map_of(groups) == map_of_pairs(gs),
            forall|j: int| 0 <= j < us.len()
                ==> crate::chunk::unit_map_of(units).contains_key((#[trigger] us[j]).0)
                    && crate::chunk::unit_map_of(units)[us[j].0] == us[j].1,
            i <= nu,
            forall|j: int| 0 <= j < i
                ==> crate::chunk::group_map_of(groups).contains_key(
                    (#[trigger] us[j]).1.group)
                    && crate::chunk::group_map_of(groups)[us[j].1.group].units.contains(
                    us[j].0),
        decreases nu - i,
    {
        let e = &saved.units[i];
        proof {
            assert(us[i as int] == (e.0, e.1@));
        }
        match crate::chunk::group_map_get(&groups, e.1.group) {
            None => {
                return Err(DbError::CorruptSave);
            },
            Some(g) => {
                if !g.units.contains(e.0) {
                    return Err(DbError::CorruptSave);
                }
            },
        }
        i = i + 1;
    }

    let db = Db {
        persisted: Persisted {
            groups,
            units,
            groups_by_name,
            units_by_name,
            by_side,
            deployed,
            troops,
            crates,
            jtacs,
            ewrs,
            crates_by_player,
        },
        dirty: false,
        ids,
        ephemeral: Ephemeral::new(),
    };
    proof {
        assert(db.gmap() == map_of_pairs(gs));
        assert(db.umap() == map_of_pairs(us));
        assert forall|g2: u64, j: int|
            db.gmap().contains_key(g2) && 0 <= j < db.gmap()[g2].units.len()
            implies db.umap().contains_key(#[trigger] db.gmap()[g2].units[j])
                && db.umap()[db.gmap()[g2].units[j]].group == g2 by {
            let j2 = choose|j2: int| 0 <= j2 < gs.len() && (#[trigger] gs[j2]).0 == g2;
            assert(db.gmap()[g2] == gs[j2].1);
            assert(db.umap().contains_key(gs[j2].1.units[j])
                && db.umap()[gs[j2].1.units[j]].group == gs[j2].0);
        }
        assert forall|u2: u64| #[trigger] db.umap().contains_key(u2)
            implies db.umap()[u2].id == u2 && db.umap()[u2].death_frozen()
                && pos_work(db.umap()[u2].pos) && pos_work(db.umap()[u2].spawn_pos)
                && db.gmap().contains_key(db.umap()[u2].group)
                && db.gmap()[db.umap()[u2].group].units.contains(u2)
                && u2 < db.ids.unit_floor() by {
            let j = choose|j: int| 0 <= j < us.len() && (#[trigger] us[j]).0 == u2;
            assert(db.umap()[u2] == us[j].1);
        }
        assert forall|g2: u64| #[trigger] db.gmap().contains_key(g2)
            implies db.gmap()[g2].id == g2 && db.gmap()[g2].units.no_duplicates()
                && 1 <= db.gmap()[g2].units.len() <= 4096
                && g2 < db.ids.group_floor() by {
            let j = choose|j: int| 0 <= j < gs.len() && (#[trigger] gs[j]).0 == g2;
            assert(db.gmap()[g2] == gs[j].1);
        }
        assert(db.wf());
    }
    Ok(db)
    }
}

impl SpawnedGroup {
    /// A field-for-field copy of the record.
    pub fn clone_record(&self) -> (r: SpawnedGroup)
        ensures
            r@ == self@,
    {
        SpawnedGroup {
            id: self.id,
            name: self.name.clone(),
            template_name: self.template_name.clone(),
            side: self.side,
            kind: self.kind,
            class: self.class.clone(),
            origin: self.origin.clone_record(),
            units: self.units.duplicate(),
            tags: self.tags,
        }
    }
}

impl crate::entity::DeployKind {
    /// A field-for-field copy of the provenance tag.
    pub fn clone_record(&self) -> (r: crate::entity::DeployKind)
        ensures
            r@ == self@,
    {
        match self {
            crate::entity::DeployKind::Objective => crate::entity::DeployKind::Objective,
            crate::entity::DeployKind::Deployed { player, spec } =>
                crate::entity::DeployKind::Deployed {
                    player: player.clone(),
                    spec: crate::entity::DeployableSpec {
                        name: spec.name.clone(),
                        jtac: spec.jtac,
                        ewr: spec.ewr,
                    },
                },
            crate::entity::DeployKind::Troop { player, spec } =>
                crate::entity::DeployKind::Troop {
                    player: player.clone(),
                    spec: crate::entity::TroopSpec { name: spec.name.clone(), jtac: spec.jtac },
                },
            crate::entity::DeployKind::Crate { origin, player, spec } =>
                crate::entity::DeployKind::Crate {
                    origin: *origin,
                    player: player.clone(),
                    spec: crate::entity::CrateSpec { name: spec.name.clone() },
                },
        }
    }
}

impl SpawnedUnit {
    /// A field-for-field copy of the record.
    pub fn clone_record(&self) -> (r: SpawnedUnit)
        ensures
            r@ == self@,
    {
        SpawnedUnit {
            name: self.name.clone(),
            id: self.id,
            group: self.group,
            side: self.side,
            typ: self.typ.clone(),
            tags: self.tags,
            template_name: self.template_name.clone(),
            spawn_pos: self.spawn_pos,
            spawn_heading: self.spawn_heading,
            spawn_pose: self.spawn_pose,
            pos: self.pos,
            heading: self.heading,
            pose: self.pose,
            dead: self.dead,
            moved: self.moved,
        }
    }
}

} // verus!
