use bflib::entity::{
    DeployKind, DeployableSpec, GroupCategory, Pos, Rot, Side, SurfaceType, TerrainSample,
    Template, TemplateUnit,
};
use bflib::lifecycle::plan_group;
use bflib::nameidx::NameIdx;
use bflib::names::derive_name;

use bflib::spawnloc::SpawnLoc;
use bflib::store::{Db, Despawn, MarkCmd};
use bflib::DbError;

fn classify_table() -> NameIdx {
    let mut c = NameIdx::new();
    c.insert(String::from("tank"), 3);
    c.insert(String::from("truck"), 1);
    c
}

fn template3() -> Template {
    Template {
        name: String::from("T1"),
        class: String::from("armor"),
        category: Some(GroupCategory::Ground),
        units: vec![
            TemplateUnit {
                typ: String::from("tank"),
                name: String::from("u1"),
                pos: Pos { x: 0, y: 0 },
            },
            TemplateUnit {
                typ: String::from("tank"),
                name: String::from("u2"),
                pos: Pos { x: 10, y: 0 },
            },
            TemplateUnit {
                typ: String::from("truck"),
                name: String::from("u3"),
                pos: Pos { x: 0, y: 10 },
            },
        ],
    }
}

fn land(n: usize) -> Vec<TerrainSample> {
    let mut v = Vec::new();
    for _ in 0..n {
        v.push(TerrainSample { surface: SurfaceType::Land, height: 5 });
    }
    v
}

fn deployed_origin() -> DeployKind {
    DeployKind::Deployed {
        player: String::from("P"),
        spec: DeployableSpec { name: String::from("outpost"), jtac: false, ewr: false },
    }
}

fn spawn_deployed(db: &mut Db) -> u64 {
    let template = template3();
    let loc = SpawnLoc::AtPosWithCenter {
        pos: Pos { x: 100, y: 100 },
        center: Pos { x: 0, y: 0 },
    };
    let plan = plan_group(&template, &loc).unwrap();
    let classify = classify_table();
    let terrain = land(plan.positions.len());
    db.add_and_queue_group(
        Side::Blue,
        &template,
        &plan,
        deployed_origin(),
        &classify,
        &terrain,
        None,
    )
    .unwrap()
}

#[test]
fn allocator_issues_monotonic_ids() {
    let mut ids = bflib::ids::IdAllocator::new();
    assert_eq!(ids.peek_group_id(), 0);
    assert_eq!(ids.new_group_id(), 0);
    assert_eq!(ids.new_group_id(), 1);
    ids.observe_group(41);
    assert_eq!(ids.new_group_id(), 42);
    assert_eq!(ids.new_unit_id(), 0);
    ids.observe_unit(7);
    assert_eq!(ids.new_unit_id(), 8);
}

#[test]
fn side_names_and_opposites() {
    assert_eq!(Side::Blue.to_str(), "blue");
    assert_eq!(Side::Red.to_str(), "red");
    assert_eq!(Side::Neutral.to_str(), "neutrals");
    assert_eq!(Side::Blue.opposite(), Side::Red);
    assert_eq!(Side::Red.opposite(), Side::Blue);
    assert_eq!(Side::Merc1.opposite(), Side::Green);
}

#[test]
fn derived_names_are_deterministic() {
    assert_eq!(derive_name(&String::from("T1"), 0), "T1-0");
    assert_eq!(derive_name(&String::from("T1"), 12), "T1-12");
    assert_eq!(derive_name(&String::from("T1-3"), 907), "T1-3-907");
}

#[test]
fn fixed_center_translates_template() {
    let template = template3();
    let loc = SpawnLoc::AtPosWithCenter {
        pos: Pos { x: 100, y: 200 },
        center: Pos { x: 0, y: 0 },
    };
    let plan = plan_group(&template, &loc).unwrap();
    assert_eq!(plan.positions.len(), 3);
    assert_eq!(plan.positions[0], Pos { x: 100, y: 200 });
    assert_eq!(plan.positions[1], Pos { x: 110, y: 200 });
    assert_eq!(plan.positions[2], Pos { x: 100, y: 210 });
    assert_eq!(plan.heading, Rot { c: 1000, s: 0 });
}

#[test]
fn trigger_zone_recenters_and_rotates() {
    let template = Template {
        name: String::from("Z"),
        class: String::from("armor"),
        category: Some(GroupCategory::Ground),
        units: vec![
            TemplateUnit {
                typ: String::from("tank"),
                name: String::from("u1"),
                pos: Pos { x: 10, y: 0 },
            },
            TemplateUnit {
                typ: String::from("tank"),
                name: String::from("u2"),
                pos: Pos { x: -10, y: 0 },
            },
        ],
    };
    // A quarter turn: cosine 0, sine 1.
    let loc = SpawnLoc::AtTrigger {
        zone: Pos { x: 0, y: 0 },
        heading: Rot { c: 0, s: 1000 },
    };
    let plan = plan_group(&template, &loc).unwrap();
    assert_eq!(plan.positions[0], Pos { x: 0, y: 10 });
    assert_eq!(plan.positions[1], Pos { x: 0, y: -10 });
}

#[test]
fn offset_spawn_keeps_clearance() {
    let template = template3();
    let target = Pos { x: 0, y: 0 };
    let loc = SpawnLoc::AtPos {
        pos: target,
        offset_direction: Rot { c: 1000, s: 0 },
        heading: Rot { c: 1000, s: 0 },
    };
    let plan = plan_group(&template, &loc).unwrap();
    for p in &plan.positions {
        let dx = (p.x - target.x) as i128;
        let dy = (p.y - target.y) as i128;
        assert!(dx * dx + dy * dy >= 400);
    }
}

#[test]
fn water_placement_rejects_whole_spawn() {
    let mut db = Db::new();
    let template = template3();
    let loc = SpawnLoc::AtPosWithCenter {
        pos: Pos { x: 0, y: 0 },
        center: Pos { x: 0, y: 0 },
    };
    let plan = plan_group(&template, &loc).unwrap();
    let classify = classify_table();
    let mut terrain = land(plan.positions.len());
    terrain[1] = TerrainSample { surface: SurfaceType::Water, height: 0 };
    let r = db.add_and_queue_group(
        Side::Blue,
        &template,
        &plan,
        deployed_origin(),
        &classify,
        &terrain,
        None,
    );
    assert_eq!(r, Err(DbError::WaterPlacement));
    assert!(db.get_group_by_name(&String::from("T1-0")).is_none());
    assert_eq!(db.groups().len(), 0);
    assert_eq!(db.units().len(), 0);

    terrain[1] = TerrainSample { surface: SurfaceType::ShallowWater, height: 0 };
    let r = db.add_and_queue_group(
        Side::Blue,
        &template,
        &plan,
        deployed_origin(),
        &classify,
        &terrain,
        None,
    );
    assert_eq!(r, Err(DbError::WaterPlacement));
}

#[test]
fn unclassified_unit_type_rejected() {
    let mut db = Db::new();
    let mut template = template3();
    template.units[2].typ = String::from("boat");
    let loc = SpawnLoc::AtPosWithCenter {
        pos: Pos { x: 0, y: 0 },
        center: Pos { x: 0, y: 0 },
    };
    let plan = plan_group(&template, &loc).unwrap();
    let classify = classify_table();
    let terrain = land(plan.positions.len());
    let r = db.add_and_queue_group(
        Side::Blue,
        &template,
        &plan,
        deployed_origin(),
        &classify,
        &terrain,
        None,
    );
    assert_eq!(r, Err(DbError::UnclassifiedUnitType));
    assert_eq!(db.groups().len(), 0);
}

#[test]
fn add_group_populates_store_and_indices() {
    let mut db = Db::new();
    let gid = spawn_deployed(&mut db);
    assert_eq!(gid, 0);
    let g = db.get_group(gid).expect("group stored");
    assert_eq!(g.name, "T1-0");
    assert_eq!(g.side, Side::Blue);
    assert_eq!(g.tags, 3);
    let (alive, total) = db.group_health(gid).unwrap();
    assert_eq!((alive, total), (3, 3));
    let u = db.get_unit_by_name(&String::from("T1-0-0")).expect("unit by name");
    assert_eq!(u.group, gid);
    assert_eq!(u.pos, Pos { x: 100, y: 100 });
    assert_eq!(u.pose.alt, 5);
    assert!(!u.dead);
    assert_eq!(db.groups().len(), 1);
    assert_eq!(db.units().len(), 3);
    assert_eq!(db.deployed(), vec![gid]);
    assert_eq!(db.ephemeral.spawnq, vec![gid]);
    let center = db.group_center(gid).unwrap();
    assert_eq!(center, Pos { x: 103, y: 103 });
    match db.ephemeral.markq.last() {
        Some(MarkCmd::Add { text, .. }) => assert_eq!(text, "T1-0"),
        other => panic!("expected a marker add, got {:?}", other),
    }
}

#[test]
fn snapshot_only_when_dirty() {
    let mut db = Db::new();
    assert!(db.maybe_snapshot().is_none());
    spawn_deployed(&mut db);
    let snap = db.maybe_snapshot();
    assert!(snap.is_some());
    assert!(db.maybe_snapshot().is_none());
    spawn_deployed(&mut db);
    assert!(db.maybe_snapshot().is_some());
}

#[test]
fn save_load_round_trip_restores_store_and_ids() {
    let mut db = Db::new();
    let gid = spawn_deployed(&mut db);
    let saved = db.save();
    let db2 = Db::load(&saved).expect("reload");
    let gs1 = db.groups();
    let gs2 = db2.groups();
    assert_eq!(gs1.len(), gs2.len());
    for (a, b) in gs1.iter().zip(gs2.iter()) {
        assert_eq!(a.0, b.0);
        assert_eq!(a.1.name, b.1.name);
        assert_eq!(a.1.side, b.1.side);
    }
    let us1 = db.units();
    let us2 = db2.units();
    assert_eq!(us1.len(), us2.len());
    for (a, b) in us1.iter().zip(us2.iter()) {
        assert_eq!(a.0, b.0);
        assert_eq!(a.1.name, b.1.name);
        assert_eq!(a.1.pos, b.1.pos);
        assert_eq!(a.1.dead, b.1.dead);
    }
    assert!(db2.ids.peek_group_id() > gid);
    for (uid, _) in us2.iter() {
        assert!(*uid < db2.ids.peek_unit_id());
    }
    assert!(db2.get_group_by_name(&String::from("T1-0")).is_some());
}

#[test]
fn corrupt_documents_are_rejected_whole() {
    let mut db = Db::new();
    spawn_deployed(&mut db);
    let mut saved = db.save();
    saved.units.remove(0);
    match Db::load(&saved) {
        Err(e) => assert_eq!(e, DbError::CorruptSave),
        Ok(_) => panic!("corrupt document was accepted"),
    }
}

#[test]
fn deployed_group_cascades_when_last_member_dies() {
    let mut db = Db::new();
    let gid = spawn_deployed(&mut db);
    db.unit_born(&String::from("T1-0-0"), 11).unwrap();
    db.unit_born(&String::from("T1-0-1"), 12).unwrap();
    db.unit_born(&String::from("T1-0-2"), 13).unwrap();

    db.unit_dead(11).unwrap();
    assert!(db.get_group(gid).is_some());
    assert_eq!(db.group_health(gid).unwrap(), (2, 3));

    db.unit_dead(12).unwrap();
    assert!(db.get_group(gid).is_some());
    assert_eq!(db.group_health(gid).unwrap(), (1, 3));

    db.unit_dead(13).unwrap();
    assert!(db.get_group(gid).is_none());
    assert!(db.get_group_by_name(&String::from("T1-0")).is_none());
    assert!(db.get_unit_by_name(&String::from("T1-0-0")).is_none());
    assert_eq!(db.groups().len(), 0);
    assert_eq!(db.units().len(), 0);
    assert_eq!(db.deployed().len(), 0);
    let group_despawns: Vec<&Despawn> = db
        .ephemeral
        .despawnq
        .iter()
        .filter(|d| matches!(d, Despawn::Group(_)))
        .collect();
    assert_eq!(group_despawns.len(), 1);
    match group_despawns[0] {
        Despawn::Group(name) => assert_eq!(name, "T1-0"),
        _ => unreachable!(),
    }
}

#[test]
fn death_freezes_position_against_later_sync() {
    let mut db = Db::new();
    let gid = spawn_deployed(&mut db);
    db.unit_born(&String::from("T1-0-0"), 21).unwrap();
    db.unit_born(&String::from("T1-0-1"), 22).unwrap();
    let uid = db.get_unit_by_name(&String::from("T1-0-0")).unwrap().id;

    // A live unit moves.
    let reports = vec![(
        uid,
        bflib::sync::ReportOutcome::Pose {
            pos: Pos { x: 500, y: 600 },
            heading: Rot { c: 1000, s: 0 },
            alt: 9,
        },
    )];
    let (gone, moved) = db.update_unit_positions(&reports, 1);
    assert!(gone.is_empty());
    assert_eq!(moved, vec![gid]);
    assert_eq!(db.get_unit(uid).unwrap().pos, Pos { x: 500, y: 600 });

    // Death freezes it back at its spawn position.
    db.unit_dead(21).unwrap();
    let u = db.get_unit(uid).unwrap();
    assert!(u.dead);
    assert_eq!(u.pos, u.spawn_pos);
    assert_eq!(u.pos, Pos { x: 100, y: 100 });

    // Later sync passes cannot move it again.
    let reports = vec![(
        uid,
        bflib::sync::ReportOutcome::Pose {
            pos: Pos { x: 900, y: 900 },
            heading: Rot { c: 1000, s: 0 },
            alt: 9,
        },
    )];
    let (_, moved) = db.update_unit_positions(&reports, 2);
    assert!(moved.is_empty());
    assert_eq!(db.get_unit(uid).unwrap().pos, Pos { x: 100, y: 100 });
}

#[test]
fn invalid_handles_are_reported_gone() {
    let mut db = Db::new();
    spawn_deployed(&mut db);
    db.unit_born(&String::from("T1-0-0"), 31).unwrap();
    let uid = db.get_unit_by_name(&String::from("T1-0-0")).unwrap().id;
    let polled = db.poll_list();
    assert!(polled.contains(&(uid, 31)));
    let reports = vec![(uid, bflib::sync::ReportOutcome::Invalid)];
    let (gone, moved) = db.update_unit_positions(&reports, 3);
    assert_eq!(gone, vec![31]);
    assert!(moved.is_empty());
}

#[test]
fn crate_groups_track_their_owner() {
    let mut db = Db::new();
    let template = template3();
    let loc = SpawnLoc::AtPosWithCenter {
        pos: Pos { x: 0, y: 0 },
        center: Pos { x: 0, y: 0 },
    };
    let plan = plan_group(&template, &loc).unwrap();
    let classify = classify_table();
    let terrain = land(plan.positions.len());
    let origin = DeployKind::Crate {
        origin: 7,
        player: String::from("P"),
        spec: bflib::entity::CrateSpec { name: String::from("ammo") },
    };
    let gid = db
        .add_and_queue_group(Side::Red, &template, &plan, origin, &classify, &terrain, None)
        .unwrap();
    assert_eq!(db.persisted.crates_by_player.crates_of(&String::from("P")), vec![gid]);
    db.delete_group(gid).unwrap();
    assert!(db.persisted.crates_by_player.crates_of(&String::from("P")).is_empty());
}

#[test]
fn respawn_plan_lists_living_members() {
    let mut db = Db::new();
    let gid = spawn_deployed(&mut db);
    db.unit_born(&String::from("T1-0-1"), 41).unwrap();
    db.unit_dead(41).unwrap();
    let plan = db.plan_respawn(gid).unwrap();
    assert_eq!(plan.len(), 2);
    assert_eq!(plan[0].0, "u1");
    assert_eq!(plan[1].0, "u3");
    assert_eq!(db.first_living_unit(gid), Err(DbError::NoLivingUnits));
    db.unit_born(&String::from("T1-0-0"), 42).unwrap();
    assert_eq!(db.first_living_unit(gid), Ok(42));
    let inst = db.instanced_units();
    assert_eq!(inst.len(), 1);
}

#[test]
fn delayed_spawns_are_scheduled() {
    let mut db = Db::new();
    let template = template3();
    let loc = SpawnLoc::AtPosWithCenter {
        pos: Pos { x: 0, y: 0 },
        center: Pos { x: 0, y: 0 },
    };
    let plan = plan_group(&template, &loc).unwrap();
    let classify = classify_table();
    let terrain = land(plan.positions.len());
    let gid = db
        .add_and_queue_group(
            Side::Blue,
            &template,
            &plan,
            deployed_origin(),
            &classify,
            &terrain,
            Some(90),
        )
        .unwrap();
    assert!(db.ephemeral.spawnq.is_empty());
    assert_eq!(db.ephemeral.delayspawnq, vec![(90, gid)]);
}

#[test]
fn component_centers_regroup_by_type() {
    let template = Template {
        name: String::from("MIX"),
        class: String::from("mixed"),
        category: Some(GroupCategory::Ground),
        units: vec![
            TemplateUnit {
                typ: String::from("tank"),
                name: String::from("u1"),
                pos: Pos { x: 4, y: 0 },
            },
            TemplateUnit {
                typ: String::from("tank"),
                name: String::from("u2"),
                pos: Pos { x: -4, y: 0 },
            },
            TemplateUnit {
                typ: String::from("truck"),
                name: String::from("u3"),
                pos: Pos { x: 0, y: 8 },
            },
        ],
    };
    let loc = SpawnLoc::AtPosWithComponents {
        pos: Pos { x: 100, y: 100 },
        heading: Rot { c: 1000, s: 0 },
        component_pos: vec![(String::from("tank"), Pos { x: 50, y: 50 })],
    };
    let plan = plan_group(&template, &loc).unwrap();
    // The two tanks regroup around their declared sub-center, which is
    // the mean of their template positions.
    assert_eq!(plan.positions[0], Pos { x: 54, y: 50 });
    assert_eq!(plan.positions[1], Pos { x: 46, y: 50 });
    // The truck recenters on the target point: it is the centroid of
    // its one-element remainder after the floored template centroid
    // (0, 2) is subtracted.
    assert_eq!(plan.positions[2], Pos { x: 100, y: 106 });
}

#[test]
fn mismatched_terrain_answers_are_rejected() {
    let mut db = Db::new();
    let template = template3();
    let loc = SpawnLoc::AtPosWithCenter {
        pos: Pos { x: 0, y: 0 },
        center: Pos { x: 0, y: 0 },
    };
    let plan = plan_group(&template, &loc).unwrap();
    let classify = classify_table();
    let terrain = land(plan.positions.len() - 1);
    let r = db.add_and_queue_group(
        Side::Blue,
        &template,
        &plan,
        deployed_origin(),
        &classify,
        &terrain,
        None,
    );
    assert_eq!(r, Err(DbError::BadTerrainData));
    assert_eq!(db.groups().len(), 0);
}

#[test]
fn degenerate_offset_direction_cannot_reach_clearance() {
    // A zero direction never nudges the formation outward, so a unit
    // sitting on the target point can never clear it.
    let template = Template {
        name: String::from("STUCK"),
        class: String::from("armor"),
        category: Some(GroupCategory::Ground),
        units: vec![TemplateUnit {
            typ: String::from("tank"),
            name: String::from("u1"),
            pos: Pos { x: 0, y: 0 },
        }],
    };
    let loc = SpawnLoc::AtPos {
        pos: Pos { x: 0, y: 0 },
        offset_direction: Rot { c: 0, s: 0 },
        heading: Rot { c: 1000, s: 0 },
    };
    assert_eq!(plan_group(&template, &loc).err(), Some(DbError::NoClearance));
}

#[test]
fn role_flags_drive_category_indices() {
    let mut db = Db::new();
    let template = template3();
    let loc = SpawnLoc::AtPosWithCenter {
        pos: Pos { x: 0, y: 0 },
        center: Pos { x: 0, y: 0 },
    };
    let plan = plan_group(&template, &loc).unwrap();
    let classify = classify_table();
    let terrain = land(plan.positions.len());
    let origin = DeployKind::Deployed {
        player: String::from("P"),
        spec: DeployableSpec { name: String::from("radar post"), jtac: true, ewr: true },
    };
    let gid = db
        .add_and_queue_group(Side::Blue, &template, &plan, origin, &classify, &terrain, None)
        .unwrap();
    assert!(db.persisted.deployed.contains(gid));
    assert!(db.persisted.jtacs.contains(gid));
    assert!(db.persisted.ewrs.contains(gid));
    assert!(!db.persisted.troops.contains(gid));
    assert!(!db.persisted.crates.contains(gid));
    db.delete_group(gid).unwrap();
    assert!(!db.persisted.deployed.contains(gid));
    assert!(!db.persisted.jtacs.contains(gid));
    assert!(!db.persisted.ewrs.contains(gid));
}
