//! The entity store: a durable persisted layer (groups, units, and
//! every secondary index) plus the volatile runtime index, with a
//! dirty flag driving the copy-on-write snapshot pipeline.

use vstd::prelude::*;

use crate::chunk::{
    group_map_clone, group_map_get, group_map_new, group_map_of, unit_map_clone, unit_map_get,
    unit_map_new, unit_map_of, GroupMap, UnitMap,
};
use crate::crateidx::CrateIdx;
use crate::entity::{GroupView, Pos, Side, SpawnedGroup, SpawnedUnit, UnitView};
use crate::ids::IdAllocator;
use crate::idset::IdSet;
use crate::linkmap::LinkMap;
use crate::nameidx::NameIdx;

verus! {

/// A queued despawn intent for the engine: a maneuver group is removed
/// by group name, a static object unit by unit.
#[derive(Clone, Debug)]
pub enum Despawn {
    Group(String),
    Static(String),
}

/// View of [`Despawn`].
pub enum DespawnView {
    Group(Seq<char>),
    Static(Seq<char>),
}

impl View for Despawn {
    type V = DespawnView;

    open spec fn view(&self) -> DespawnView {
        match self {
            Despawn::Group(n) => DespawnView::Group(n@),
            Despawn::Static(n) => DespawnView::Static(n@),
        }
    }
}

/// A queued marker request for the UI layer.
#[derive(Clone, Debug)]
pub enum MarkCmd {
    /// Remove the marker with this id.
    Remove(u64),
    /// Add a marker with this id for a side at a group's centroid.
    Add { id: u64, side: Side, pos: Pos, text: String },
}

/// View of [`MarkCmd`].
pub enum MarkCmdView {
    Remove(u64),
    Add { id: u64, side: Side, pos: Pos, text: Seq<char> },
}

impl View for MarkCmd {
    type V = MarkCmdView;

    open spec fn view(&self) -> MarkCmdView {
        match self {
            MarkCmd::Remove(id) => MarkCmdView::Remove(*id),
            MarkCmd::Add { id, side, pos, text } => MarkCmdView::Add {
                id: *id,
                side: *side,
                pos: *pos,
                text: text@,
            },
        }
    }
}

/// The volatile runtime index: engine handles, movement candidates,
/// pending spawn and despawn queues, markers.  Never saved.
#[derive(Debug)]
pub struct Ephemeral {
    /// Unit id to live engine handle, one-to-one.
    pub links: LinkMap,
    /// Units eligible for position polling.
    pub movable: IdSet,
    /// Units possibly close to hostiles, refreshed opportunistically.
    pub near_enemies: IdSet,
    /// Units possibly wandering off their station.
    pub walkabout: IdSet,
    /// Group ids queued for immediate spawning.
    pub spawnq: Vec<u64>,
    /// Despawn intents queued for the engine.
    pub despawnq: Vec<Despawn>,
    /// Group ids scheduled to spawn at a future tick.
    pub delayspawnq: Vec<(i64, u64)>,
    /// Group id to visual marker id, one-to-one.
    pub marks: LinkMap,
    /// Next marker id to issue.
    pub next_mark: u64,
    /// Marker commands queued for the UI layer.
    pub markq: Vec<MarkCmd>,
}

impl Ephemeral {
    pub open spec fn wf(&self) -> bool {
        &&& self.links.wf()
        &&& self.movable.wf()
        &&& self.near_enemies.wf()
        &&& self.walkabout.wf()
        &&& self.marks.wf()
        &&& forall|g: u64, m: u64| #[trigger] self.marks.linked(g, m) ==> m < self.next_mark
    }

    pub fn new() -> (r: Self)
        ensures
            r.wf(),
            forall|u: u64, h: u64| !r.links.linked(u, h),
            r.movable.set() == Set::<u64>::empty(),
            r.near_enemies.set() == Set::<u64>::empty(),
            r.walkabout.set() == Set::<u64>::empty(),
            r.spawnq@ == Seq::<u64>::empty(),
            r.despawnq@.len() == 0,
            r.delayspawnq@ == Seq::<(i64, u64)>::empty(),
            forall|g: u64, m: u64| !r.marks.linked(g, m),
            r.next_mark == 0,
            r.markq@.len() == 0,
    {
        Ephemeral {
            links: LinkMap::new(),
            movable: IdSet::new(),
            near_enemies: IdSet::new(),
            walkabout: IdSet::new(),
            spawnq: Vec::new(),
            despawnq: Vec::new(),
            delayspawnq: Vec::new(),
            marks: LinkMap::new(),
            next_mark: 0,
            markq: Vec::new(),
        }
    }
}

/// The durable entity store: the primary group and unit maps, held in
/// copy-on-write persistent maps, and every secondary index.
#[derive(Debug)]
pub struct Persisted {
    pub groups: GroupMap,
    pub units: UnitMap,
    pub groups_by_name: NameIdx,
    pub units_by_name: NameIdx,
    /// Group ids per side, indexed by `Side::index`.
    pub by_side: Vec<IdSet>,
    pub deployed: IdSet,
    pub troops: IdSet,
    pub crates: IdSet,
    pub jtacs: IdSet,
    pub ewrs: IdSet,
    pub crates_by_player: CrateIdx,
}

impl Persisted {
    /// The group records, as a map over views.
    pub open spec fn gmap(&self) -> Map<u64, GroupView> {
        group_map_of(self.groups)
    }

    /// The unit records, as a map over views.
    pub open spec fn umap(&self) -> Map<u64, UnitView> {
        unit_map_of(self.units)
    }

    /// Structural well-formedness of the components.
    pub open spec fn wf_components(&self) -> bool {
        &&& self.gmap().dom().finite()
        &&& self.umap().dom().finite()
        &&& self.groups_by_name.wf()
        &&& self.units_by_name.wf()
        &&& self.by_side@.len() == 7
        &&& forall|i: int| 0 <= i < 7 ==> (#[trigger] self.by_side@[i]).wf()
        &&& self.deployed.wf()
        &&& self.troops.wf()
        &&& self.crates.wf()
        &&& self.jtacs.wf()
        &&& self.ewrs.wf()
        &&& self.crates_by_player.wf()
    }

    /// Records agree with their keys and with each other: every group
    /// member exists and points back, every unit's group contains it,
    /// and dead units are frozen at their spawn-time pose.
    pub open spec fn wf_records(&self) -> bool {
        &&& forall|g: u64| #[trigger] self.gmap().contains_key(g) ==> self.gmap()[g].id == g
        &&& forall|g: u64| #[trigger] self.gmap().contains_key(g)
            ==> self.gmap()[g].units.no_duplicates()
                && 1 <= self.gmap()[g].units.len() <= 4096
        &&& forall|g: u64, j: int|
            self.gmap().contains_key(g) && 0 <= j < self.gmap()[g].units.len()
                ==> self.umap().contains_key(#[trigger] self.gmap()[g].units[j])
                    && self.umap()[self.gmap()[g].units[j]].group == g
        &&& forall|u: u64| #[trigger] self.umap().contains_key(u) ==> self.umap()[u].id == u
        &&& forall|u: u64| #[trigger] self.umap().contains_key(u)
            ==> self.gmap().contains_key(self.umap()[u].group)
                && self.gmap()[self.umap()[u].group].units.contains(u)
        &&& forall|u: u64| #[trigger] self.umap().contains_key(u)
            ==> self.umap()[u].death_frozen()
        &&& forall|u: u64| #[trigger] self.umap().contains_key(u)
            ==> crate::geom::pos_work(self.umap()[u].pos)
                && crate::geom::pos_work(self.umap()[u].spawn_pos)
    }

    /// The secondary indices hold exactly what the primary maps imply.
    pub open spec fn wf_indices(&self) -> bool {
        &&& forall|n: Seq<char>, g: u64| #[trigger] self.groups_by_name.has(n, g)
            <==> self.gmap().contains_key(g) && self.gmap()[g].name == n
        &&& forall|n: Seq<char>, u: u64| #[trigger] self.units_by_name.has(n, u)
            <==> self.umap().contains_key(u) && self.umap()[u].name == n
        &&& forall|si: int, g: u64|
            0 <= si < 7 ==> ((#[trigger] self.by_side@[si].set().contains(g))
                <==> self.gmap().contains_key(g) && self.gmap()[g].side.spec_index() == si)
        &&& forall|g: u64| #[trigger] self.deployed.set().contains(g)
            <==> self.gmap().contains_key(g) && self.gmap()[g].origin.in_deployed()
        &&& forall|g: u64| #[trigger] self.troops.set().contains(g)
            <==> self.gmap().contains_key(g) && self.gmap()[g].origin.in_troops()
        &&& forall|g: u64| #[trigger] self.crates.set().contains(g)
            <==> self.gmap().contains_key(g) && self.gmap()[g].origin.in_crates()
        &&& forall|g: u64| #[trigger] self.jtacs.set().contains(g)
            <==> self.gmap().contains_key(g) && self.gmap()[g].origin.in_jtacs()
        &&& forall|g: u64| #[trigger] self.ewrs.set().contains(g)
            <==> self.gmap().contains_key(g) && self.gmap()[g].origin.in_ewrs()
        &&& forall|p: Seq<char>, g: u64| #[trigger] self.crates_by_player.owns(p, g)
            <==> self.gmap().contains_key(g) && self.gmap()[g].origin.crate_owner() == Some(p)
    }

    /// Full well-formedness of the persisted store.
    pub open spec fn wf(&self) -> bool {
        self.wf_components() && self.wf_records() && self.wf_indices()
    }

    /// Two stores hold the same content: equal record maps.  With
    /// well-formedness, every index is determined by these.
    pub open spec fn same_content(&self, other: &Persisted) -> bool {
        self.gmap() == other.gmap() && self.umap() == other.umap()
    }

    pub fn new() -> (r: Self)
        ensures
            r.wf(),
            r.gmap() == crate::chunk::no_groups(),
            r.umap() == crate::chunk::no_units(),
    {
        let mut by_side: Vec<IdSet> = Vec::new();
        let mut i: usize = 0;
        while i < 7
            invariant
                i <= 7,
                by_side@.len() == i,
                forall|j: int| 0 <= j < i
                    ==> (#[trigger] by_side@[j]).wf()
                        && by_side@[j].set() == Set::<u64>::empty(),
            decreases 7 - i,
        {
            by_side.push(IdSet::new());
            i = i + 1;
        }
        let r = Persisted {
            groups: group_map_new(),
            units: unit_map_new(),
            groups_by_name: NameIdx::new(),
            units_by_name: NameIdx::new(),
            by_side,
            deployed: IdSet::new(),
            troops: IdSet::new(),
            crates: IdSet::new(),
            jtacs: IdSet::new(),
            ewrs: IdSet::new(),
            crates_by_player: CrateIdx::new(),
        };
        proof {
            assert(r.gmap().dom() =~= Set::<u64>::empty());
            assert(r.umap().dom() =~= Set::<u64>::empty());
        }
        r
    }

    /// A point-in-time structural copy.  The persistent maps share
    /// structure, so this is O(changed nodes), not O(entities).
    pub fn snapshot(&self) -> (r: Persisted)
        requires
            self.wf(),
        ensures
            r.wf(),
            r.same_content(self),
    {
        let mut by_side: Vec<IdSet> = Vec::new();
        let n = self.by_side.len();
        let mut i: usize = 0;
        while i < n
            invariant
                self.wf(),
                n == self.by_side@.len(),
                i <= n,
                by_side@.len() == i,
                forall|j: int| 0 <= j < i
                    ==> (#[trigger] by_side@[j]).wf()
                        && by_side@[j].set() == self.by_side@[j].set(),
            decreases n - i,
        {
            proof {
                assert(self.by_side@[i as int].wf());
            }
            by_side.push(self.by_side[i].duplicate());
            i = i + 1;
        }
        let r = Persisted {
            groups: group_map_clone(&self.groups),
            units: unit_map_clone(&self.units),
            groups_by_name: self.groups_by_name.duplicate(),
            units_by_name: self.units_by_name.duplicate(),
            by_side,
            deployed: self.deployed.duplicate(),
            troops: self.troops.duplicate(),
            crates: self.crates.duplicate(),
            jtacs: self.jtacs.duplicate(),
            ewrs: self.ewrs.duplicate(),
            crates_by_player: self.crates_by_player.duplicate(),
        };
        r
    }
}

/// The authoritative entity database: the persisted store, its dirty
/// flag, the id allocator, and the runtime index.
#[derive(Debug)]
pub struct Db {
    pub persisted: Persisted,
    /// Set by every mutating operation; cleared by `maybe_snapshot`.
    pub dirty: bool,
    pub ids: IdAllocator,
    pub ephemeral: Ephemeral,
}

impl Db {
    pub open spec fn gmap(&self) -> Map<u64, GroupView> {
        self.persisted.gmap()
    }

    pub open spec fn umap(&self) -> Map<u64, UnitView> {
        self.persisted.umap()
    }

    /// Ids already present in the store are below the allocator's
    /// floors, so fresh ids never collide.
    pub open spec fn ids_fresh(&self) -> bool {
        &&& forall|g: u64| #[trigger] self.gmap().contains_key(g) ==> g < self.ids.group_floor()
        &&& forall|u: u64| #[trigger] self.umap().contains_key(u) ==> u < self.ids.unit_floor()
    }

    /// Every live engine handle belongs to a stored unit.
    pub open spec fn links_valid(&self) -> bool {
        forall|u: u64, h: u64| #[trigger] self.ephemeral.links.linked(u, h)
            ==> self.umap().contains_key(u)
    }

    pub open spec fn wf(&self) -> bool {
        self.persisted.wf() && self.ephemeral.wf() && self.ids_fresh() && self.links_valid()
    }

    pub fn new() -> (r: Self)
        ensures
            r.wf(),
            !r.dirty,
            r.gmap() == crate::chunk::no_groups(),
            r.umap() == crate::chunk::no_units(),
    {
        Db {
            persisted: Persisted::new(),
            dirty: false,
            ids: IdAllocator::new(),
            ephemeral: Ephemeral::new(),
        }
    }

    /// Looks a group up by id.
    pub fn get_group(&self, id: u64) -> (r: Option<&SpawnedGroup>)
        ensures
            match r {
                Some(g) => self.gmap().contains_key(id) && g@ == self.gmap()[id],
                None => !self.gmap().contains_key(id),
            },
    {
        group_map_get(&self.persisted.groups, id)
    }

    /// Looks a unit up by id.
    pub fn get_unit(&self, id: u64) -> (r: Option<&SpawnedUnit>)
        ensures
            match r {
                Some(u) => self.umap().contains_key(id) && u@ == self.umap()[id],
                None => !self.umap().contains_key(id),
            },
    {
        unit_map_get(&self.persisted.units, id)
    }

    /// Looks a group up by name; `None` exactly when no group has the
    /// name.
    pub fn get_group_by_name(&self, name: &String) -> (r: Option<&SpawnedGroup>)
        requires
            self.wf(),
        ensures
            match r {
                Some(g) => self.gmap().contains_key(g.id) && g@ == self.gmap()[g.id]
                    && g@.name == name@,
                None => forall|g: u64| #[trigger] self.gmap().contains_key(g)
                    ==> self.gmap()[g].name != name@,
            },
    {
        match self.persisted.groups_by_name.get(name) {
            None => {
                proof {
                    assert forall|g: u64| #[trigger] self.gmap().contains_key(g)
                        implies self.gmap()[g].name != name@ by {
                        if self.gmap()[g].name == name@ {
                            assert(self.persisted.groups_by_name.has(name@, g));
                        }
                    }
                }
                None
            },
            Some(gid) => {
                let g = group_map_get(&self.persisted.groups, gid);
                proof {
                    assert(self.gmap().contains_key(gid));
                }
                match g {
                    Some(g) => Some(g),
                    None => None,
                }
            },
        }
    }

    /// Looks a unit up by name; `None` exactly when no unit has the
    /// name.
    pub fn get_unit_by_name(&self, name: &String) -> (r: Option<&SpawnedUnit>)
        requires
            self.wf(),
        ensures
            match r {
                Some(u) => self.umap().contains_key(u.id) && u@ == self.umap()[u.id]
                    && u@.name == name@,
                None => forall|u: u64| #[trigger] self.umap().contains_key(u)
                    ==> self.umap()[u].name != name@,
            },
    {
        match self.persisted.units_by_name.get(name) {
            None => {
                proof {
                    assert forall|u: u64| #[trigger] self.umap().contains_key(u)
                        implies self.umap()[u].name != name@ by {
                        if self.umap()[u].name == name@ {
                            assert(self.persisted.units_by_name.has(name@, u));
                        }
                    }
                }
                None
            },
            Some(uid) => {
                let u = unit_map_get(&self.persisted.units, uid);
                proof {
                    assert(self.umap().contains_key(uid));
                }
                match u {
                    Some(u) => Some(u),
                    None => None,
                }
            },
        }
    }

    /// Every group, as `(id, record)` pairs with ascending ids.
    pub fn groups(&self) -> (r: Vec<(u64, SpawnedGroup)>)
        ensures
            forall|i: int, j: int| 0 <= i < j < r@.len() ==> r@[i].0 < r@[j].0,
            crate::chunk::map_of_pairs(r@.map_values(|e: (u64, SpawnedGroup)| (e.0, e.1@)))
                == self.gmap(),
    {
        crate::chunk::group_map_entries(&self.persisted.groups)
    }

    /// Every unit, as `(id, record)` pairs with ascending ids.
    pub fn units(&self) -> (r: Vec<(u64, SpawnedUnit)>)
        ensures
            forall|i: int, j: int| 0 <= i < j < r@.len() ==> r@[i].0 < r@[j].0,
            crate::chunk::map_of_pairs(r@.map_values(|e: (u64, SpawnedUnit)| (e.0, e.1@)))
                == self.umap(),
    {
        crate::chunk::unit_map_entries(&self.persisted.units)
    }

    /// The only way to obtain a point-in-time copy of the persisted
    /// store: when the store is dirty, the flag clears and a snapshot
    /// with identical content is returned; when it is clean, nothing
    /// is copied and nothing is returned.
    pub fn maybe_snapshot(&mut self) -> (r: Option<Persisted>)
        requires
            old(self).wf(),
        ensures
            final(self).wf(),
            final(self).persisted == old(self).persisted,
            final(self).ids == old(self).ids,
            final(self).ephemeral == old(self).ephemeral,
            !final(self).dirty,
            match r {
                Some(snap) => old(self).dirty && snap.wf()
                    && snap.same_content(&old(self).persisted),
                None => !old(self).dirty,
            },
    {
        let r = if self.dirty {
            self.dirty = false;
            Some(self.persisted.snapshot())
        } else {
            None
        };
        proof {
            assert(self.gmap() == old(self).gmap());
            assert(self.umap() == old(self).umap());
        }
        r
    }
}

} // verus!
