//! The entity data model: sides, categories, terrain surfaces, planar
//! positions, provenance tags, and the spawned unit and group records.
//!
//! Every record type has a mathematical view (`@`) over which all
//! contracts are stated: strings become `Seq<char>`, member id sets
//! become `Seq<u64>`, and the rest are plain values.

use vstd::prelude::*;

use crate::idset::IdSet;

verus! {

/// A coalition side.
#[derive(Clone, Copy, Debug, PartialEq, Eq, Structural)]
pub enum Side {
    Neutral,
    Red,
    Blue,
    Green,
    Merc1,
    Merc2,
    Merc3,
}

impl Side {
    /// The canonical lower-case name of the side.
    pub open spec fn spec_str(self) -> Seq<char> {
        match self {
            Side::Neutral => "neutrals"@,
            Side::Red => "red"@,
            Side::Blue => "blue"@,
            Side::Green => "green"@,
            Side::Merc1 => "merc1"@,
            Side::Merc2 => "merc2"@,
            Side::Merc3 => "merc3"@,
        }
    }

    pub fn to_str(&self) -> (r: &'static str)
        ensures
            r@ == self.spec_str(),
    {
        match self {
            Side::Neutral => "neutrals",
            Side::Red => "red",
            Side::Blue => "blue",
            Side::Green => "green",
            Side::Merc1 => "merc1",
            Side::Merc2 => "merc2",
            Side::Merc3 => "merc3",
        }
    }

    /// The side a unit of this side fights against.
    pub open spec fn spec_opposite(self) -> Side {
        match self {
            Side::Blue => Side::Red,
            Side::Red => Side::Blue,
            Side::Neutral => Side::Neutral,
            Side::Green => Side::Neutral,
            Side::Merc1 => Side::Green,
            Side::Merc2 => Side::Green,
            Side::Merc3 => Side::Green,
        }
    }

    pub fn opposite(&self) -> (r: Side)
        ensures
            r == self.spec_opposite(),
    {
        match self {
            Side::Blue => Side::Red,
            Side::Red => Side::Blue,
            Side::Neutral => Side::Neutral,
            Side::Green => Side::Neutral,
            Side::Merc1 => Side::Green,
            Side::Merc2 => Side::Green,
            Side::Merc3 => Side::Green,
        }
    }

    /// A stable small index, used to key the per-side group index.
    pub open spec fn spec_index(self) -> int {
        match self {
            Side::Neutral => 0,
            Side::Red => 1,
            Side::Blue => 2,
            Side::Green => 3,
            Side::Merc1 => 4,
            Side::Merc2 => 5,
            Side::Merc3 => 6,
        }
    }

    pub fn index(&self) -> (i: usize)
        ensures
            i == self.spec_index(),
            i < 7,
    {
        match self {
            Side::Neutral => 0,
            Side::Red => 1,
            Side::Blue => 2,
            Side::Green => 3,
            Side::Merc1 => 4,
            Side::Merc2 => 5,
            Side::Merc3 => 6,
        }
    }
}

/// The engine's category of a maneuver group.  A group without a
/// category is a static object.
#[derive(Clone, Copy, Debug, PartialEq, Eq, Structural)]
pub enum GroupCategory {
    Airplane,
    Ground,
    Helicopter,
    Ship,
    Train,
}

/// Terrain surface classification at a point.
#[derive(Clone, Copy, Debug, PartialEq, Eq, Structural)]
pub enum SurfaceType {
    Land,
    ShallowWater,
    Water,
    Road,
    Runway,
}

impl SurfaceType {
    /// Units may not spawn on water of either depth.
    pub open spec fn spec_is_water(self) -> bool {
        self == SurfaceType::ShallowWater || self == SurfaceType::Water
    }

    pub fn is_water(&self) -> (b: bool)
        ensures
            b == self.spec_is_water(),
    {
        match self {
            SurfaceType::ShallowWater => true,
            SurfaceType::Water => true,
            _ => false,
        }
    }
}

/// A planar position in whole distance units.
#[derive(Clone, Copy, Debug, PartialEq, Eq, Structural)]
pub struct Pos {
    pub x: i64,
    pub y: i64,
}

/// A heading as a fixed-point unit vector: `c` and `s` are the cosine
/// and sine scaled by 1000.  The neutral heading is `(1000, 0)`.
#[derive(Clone, Copy, Debug, PartialEq, Eq, Structural)]
pub struct Rot {
    pub c: i64,
    pub s: i64,
}

impl Rot {
    /// Components stay within the fixed-point unit circle's bounding box.
    pub open spec fn bounded(self) -> bool {
        -1000 <= self.c <= 1000 && -1000 <= self.s <= 1000
    }

    /// The neutral heading: no rotation.
    pub fn neutral() -> (r: Rot)
        ensures
            r == (Rot { c: 1000int as i64, s: 0int as i64 }),
    {
        Rot { c: 1000, s: 0 }
    }
}

/// A full pose: planar position plus terrain-relative altitude.
#[derive(Clone, Copy, Debug, PartialEq, Eq, Structural)]
pub struct Pose {
    pub pos: Pos,
    pub alt: i64,
}

/// A player-deployable structure specification.
#[derive(Clone, Debug)]
pub struct DeployableSpec {
    pub name: String,
    /// The structure acts as a forward observer.
    pub jtac: bool,
    /// The structure acts as an early-warning radar.
    pub ewr: bool,
}

/// View of [`DeployableSpec`].
pub struct DeployableSpecView {
    pub name: Seq<char>,
    pub jtac: bool,
    pub ewr: bool,
}

impl View for DeployableSpec {
    type V = DeployableSpecView;

    open spec fn view(&self) -> DeployableSpecView {
        DeployableSpecView { name: self.name@, jtac: self.jtac, ewr: self.ewr }
    }
}

/// A deployable troop element specification.
#[derive(Clone, Debug)]
pub struct TroopSpec {
    pub name: String,
    /// The troop element acts as a forward observer.
    pub jtac: bool,
}

/// View of [`TroopSpec`].
pub struct TroopSpecView {
    pub name: Seq<char>,
    pub jtac: bool,
}

impl View for TroopSpec {
    type V = TroopSpecView;

    open spec fn view(&self) -> TroopSpecView {
        TroopSpecView { name: self.name@, jtac: self.jtac }
    }
}

/// A supply crate specification.
#[derive(Clone, Debug)]
pub struct CrateSpec {
    pub name: String,
}

/// View of [`CrateSpec`].
pub struct CrateSpecView {
    pub name: Seq<char>,
}

impl View for CrateSpec {
    type V = CrateSpecView;

    open spec fn view(&self) -> CrateSpecView {
        CrateSpecView { name: self.name@ }
    }
}

/// The provenance of a group: a mission-defined objective asset, or a
/// player-deployed structure, troop element, or supply crate.  The tag
/// drives which category indices the group belongs to.
#[derive(Clone, Debug)]
pub enum DeployKind {
    Objective,
    Deployed { player: String, spec: DeployableSpec },
    Troop { player: String, spec: TroopSpec },
    Crate { origin: u64, player: String, spec: CrateSpec },
}

/// View of [`DeployKind`].
pub enum DeployKindView {
    Objective,
    Deployed { player: Seq<char>, spec: DeployableSpecView },
    Troop { player: Seq<char>, spec: TroopSpecView },
    Crate { origin: u64, player: Seq<char>, spec: CrateSpecView },
}

impl View for DeployKind {
    type V = DeployKindView;

    open spec fn view(&self) -> DeployKindView {
        match self {
            DeployKind::Objective => DeployKindView::Objective,
            DeployKind::Deployed { player, spec } => DeployKindView::Deployed {
                player: player@,
                spec: spec@,
            },
            DeployKind::Troop { player, spec } => DeployKindView::Troop {
                player: player@,
                spec: spec@,
            },
            DeployKind::Crate { origin, player, spec } => DeployKindView::Crate {
                origin: *origin,
                player: player@,
                spec: spec@,
            },
        }
    }
}

impl DeployKindView {
    /// Membership in the `deployed` category index.
    pub open spec fn in_deployed(self) -> bool {
        self is Deployed
    }

    /// Membership in the `troops` category index.
    pub open spec fn in_troops(self) -> bool {
        self is Troop
    }

    /// Membership in the `crates` category index.
    pub open spec fn in_crates(self) -> bool {
        self is Crate
    }

    /// Membership in the `jtacs` category index: a deployed structure
    /// or troop element whose specification declares the role.
    pub open spec fn in_jtacs(self) -> bool {
        ||| (self matches DeployKindView::Deployed { spec, .. } && spec.jtac)
        ||| (self matches DeployKindView::Troop { spec, .. } && spec.jtac)
    }

    /// Membership in the `ewrs` category index: a deployed structure
    /// whose specification declares the role.
    pub open spec fn in_ewrs(self) -> bool {
        self matches DeployKindView::Deployed { spec, .. } && spec.ewr
    }

    /// The player whose crate set the group belongs to, if any.
    pub open spec fn crate_owner(self) -> Option<Seq<char>> {
        match self {
            DeployKindView::Crate { player, .. } => Some(player),
            _ => None,
        }
    }
}

/// An individual spawned unit.  Invariant maintained by the store:
/// `dead` implies the current position, heading and pose equal the
/// spawn-time values.
#[derive(Clone, Debug)]
pub struct SpawnedUnit {
    pub name: String,
    pub id: u64,
    pub group: u64,
    pub side: Side,
    pub typ: String,
    pub tags: u64,
    pub template_name: String,
    pub spawn_pos: Pos,
    pub spawn_heading: Rot,
    pub spawn_pose: Pose,
    pub pos: Pos,
    pub heading: Rot,
    pub pose: Pose,
    pub dead: bool,
    /// Tick of the last observed movement; volatile, never saved.
    pub moved: Option<i64>,
}

/// View of [`SpawnedUnit`].  `moved` is volatile and deliberately not
/// part of the durable view.
pub struct UnitView {
    pub name: Seq<char>,
    pub id: u64,
    pub group: u64,
    pub side: Side,
    pub typ: Seq<char>,
    pub tags: u64,
    pub template_name: Seq<char>,
    pub spawn_pos: Pos,
    pub spawn_heading: Rot,
    pub spawn_pose: Pose,
    pub pos: Pos,
    pub heading: Rot,
    pub pose: Pose,
    pub dead: bool,
}

impl View for SpawnedUnit {
    type V = UnitView;

    open spec fn view(&self) -> UnitView {
        UnitView {
            name: self.name@,
            id: self.id,
            group: self.group,
            side: self.side,
            typ: self.typ@,
            tags: self.tags,
            template_name: self.template_name@,
            spawn_pos: self.spawn_pos,
            spawn_heading: self.spawn_heading,
            spawn_pose: self.spawn_pose,
            pos: self.pos,
            heading: self.heading,
            pose: self.pose,
            dead: self.dead,
        }
    }
}

impl UnitView {
    /// A dead unit's position, heading and pose are frozen to their
    /// spawn-time values.
    pub open spec fn death_frozen(self) -> bool {
        self.dead ==> self.pos == self.spawn_pos && self.heading == self.spawn_heading
            && self.pose == self.spawn_pose
    }
}

/// A spawned group: the unit of spawning and despawning.
#[derive(Clone, Debug)]
pub struct SpawnedGroup {
    pub id: u64,
    pub name: String,
    pub template_name: String,
    pub side: Side,
    /// `None` marks a static object rather than a maneuver group.
    pub kind: Option<GroupCategory>,
    /// Semantic classification carried over from the template.
    pub class: String,
    pub origin: DeployKind,
    pub units: IdSet,
    /// Union of the member units' capability tags.
    pub tags: u64,
}

/// View of [`SpawnedGroup`].
pub struct GroupView {
    pub id: u64,
    pub name: Seq<char>,
    pub template_name: Seq<char>,
    pub side: Side,
    pub kind: Option<GroupCategory>,
    pub class: Seq<char>,
    pub origin: DeployKindView,
    /// Member unit ids in insertion order.
    pub units: Seq<u64>,
    pub tags: u64,
}

impl View for SpawnedGroup {
    type V = GroupView;

    open spec fn view(&self) -> GroupView {
        GroupView {
            id: self.id,
            name: self.name@,
            template_name: self.template_name@,
            side: self.side,
            kind: self.kind,
            class: self.class@,
            origin: self.origin@,
            units: self.units.seq(),
            tags: self.tags,
        }
    }
}

/// The terrain answer for one resolved unit position: its surface
/// classification and terrain height.
#[derive(Clone, Copy, Debug, PartialEq, Eq, Structural)]
pub struct TerrainSample {
    pub surface: SurfaceType,
    pub height: i64,
}

/// One unit of a spawn template: its type tag, its name within the
/// template, and its template-relative planar position.
#[derive(Clone, Debug)]
pub struct TemplateUnit {
    pub typ: String,
    pub name: String,
    pub pos: Pos,
}

/// View of [`TemplateUnit`].
pub struct TemplateUnitView {
    pub typ: Seq<char>,
    pub name: Seq<char>,
    pub pos: Pos,
}

impl View for TemplateUnit {
    type V = TemplateUnitView;

    open spec fn view(&self) -> TemplateUnitView {
        TemplateUnitView { typ: self.typ@, name: self.name@, pos: self.pos }
    }
}

/// A deep-cloned spawn template definition, handed in by the caller.
/// The source-of-truth template store is never mutated.
#[derive(Clone, Debug)]
pub struct Template {
    pub name: String,
    /// Semantic classification of groups spawned from this template.
    pub class: String,
    /// `None` spawns a static object.
    pub category: Option<GroupCategory>,
    pub units: Vec<TemplateUnit>,
}

/// View of [`Template`].
pub struct TemplateView {
    pub name: Seq<char>,
    pub class: Seq<char>,
    pub category: Option<GroupCategory>,
    pub units: Seq<TemplateUnitView>,
}

impl View for Template {
    type V = TemplateView;

    open spec fn view(&self) -> TemplateView {
        TemplateView {
            name: self.name@,
            class: self.class@,
            category: self.category,
            units: self.units@.map_values(|u: TemplateUnit| u@),
        }
    }
}

} // verus!
