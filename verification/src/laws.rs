//! The store's global laws, stated as public proofs so a reader sees
//! them directly rather than deriving them from the invariant.

use vstd::prelude::*;

use crate::chunk::map_of_pairs;
use crate::save::{sgv, suv, SavedState};
use crate::store::Db;

verus! {

/// Every unit referenced by a group's member set exists in the unit
/// store and points back at the group: no dangling ids, however the
/// store was built up.
pub proof fn lemma_no_dangling_ids(db: Db)
    requires
        db.wf(),
    ensures
        forall|g: u64, j: int|
            db.gmap().contains_key(g) && 0 <= j < db.gmap()[g].units.len()
                ==> db.umap().contains_key(#[trigger] db.gmap()[g].units[j])
                    && db.umap()[db.gmap()[g].units[j]].group == g,
{
}

/// A group id absent from the primary store is absent from every
/// secondary and category index, and no name resolves to it: deleting
/// a group leaves nothing dangling, and lookups fail cleanly.
pub proof fn lemma_deleted_group_unindexed(db: Db, gid: u64)
    requires
        db.wf(),
        !db.gmap().contains_key(gid),
    ensures
        !db.persisted.deployed.set().contains(gid),
        !db.persisted.troops.set().contains(gid),
        !db.persisted.crates.set().contains(gid),
        !db.persisted.jtacs.set().contains(gid),
        !db.persisted.ewrs.set().contains(gid),
        forall|si: int| 0 <= si < 7
            ==> !(#[trigger] db.persisted.by_side@[si]).set().contains(gid),
        forall|n: Seq<char>| !(#[trigger] db.persisted.groups_by_name.has(n, gid)),
        forall|p: Seq<char>| !(#[trigger] db.persisted.crates_by_player.owns(p, gid)),
{
    assert forall|si: int| 0 <= si < 7
        implies !(#[trigger] db.persisted.by_side@[si]).set().contains(gid) by {
        if db.persisted.by_side@[si].set().contains(gid) {
            assert(db.gmap().contains_key(gid));
        }
    }
    assert forall|n: Seq<char>|
        !(#[trigger] db.persisted.groups_by_name.has(n, gid)) by {
        if db.persisted.groups_by_name.has(n, gid) {
            assert(db.gmap().contains_key(gid));
        }
    }
    assert forall|p: Seq<char>|
        !(#[trigger] db.persisted.crates_by_player.owns(p, gid)) by {
        if db.persisted.crates_by_player.owns(p, gid) {
            assert(db.gmap().contains_key(gid));
        }
    }
}

/// A dead unit's current position, heading and pose equal its
/// spawn-time values, in every well-formed store: death freezes a
/// unit where it was born, whatever position passes run afterwards.
pub proof fn lemma_death_freezes(db: Db)
    requires
        db.wf(),
    ensures
        forall|u: u64|
            db.umap().contains_key(u) && (#[trigger] db.umap()[u]).dead
                ==> db.umap()[u].pos == db.umap()[u].spawn_pos
                    && db.umap()[u].heading == db.umap()[u].spawn_heading
                    && db.umap()[u].pose == db.umap()[u].spawn_pose,
{
    assert forall|u: u64|
        db.umap().contains_key(u) && (#[trigger] db.umap()[u]).dead
        implies db.umap()[u].pos == db.umap()[u].spawn_pos
            && db.umap()[u].heading == db.umap()[u].spawn_heading
            && db.umap()[u].pose == db.umap()[u].spawn_pose by {
        assert(db.umap()[u].death_frozen());
    }
}

/// Save-then-load round trip: a document produced by `save` from a
/// well-formed store, reconstructed by `load`, holds exactly the same
/// groups and units, and every id the reloaded allocator issues is
/// strictly greater than every id present in the reloaded data.
pub proof fn lemma_save_load_round_trip(db: Db, s: SavedState, db2: Db)
    requires
        db.wf(),
        map_of_pairs(sgv(s)) == db.gmap(),
        map_of_pairs(suv(s)) == db.umap(),
        db2.wf(),
        db2.gmap() == map_of_pairs(sgv(s)),
        db2.umap() == map_of_pairs(suv(s)),
    ensures
        db2.gmap() == db.gmap(),
        db2.umap() == db.umap(),
        forall|g: u64| #[trigger] db2.gmap().contains_key(g)
            ==> g < db2.ids.group_floor(),
        forall|u: u64| #[trigger] db2.umap().contains_key(u)
            ==> u < db2.ids.unit_floor(),
{
}

} // verus!
