//! Spawn-location resolution: from a location specification and a
//! template's relative unit positions to one absolute position per
//! unit, plus the resolved group heading.

use vstd::prelude::*;

use crate::entity::{Pos, Rot, TemplateUnit, TemplateUnitView};
use crate::geom::{
    centroid, dist_sq, dist_sq_exec, div1000, div1000_exec, isqrt, lemma_div1000_bound,
    lemma_mul_bound, pos_ok, rotate_about, spec_centroid, spec_rotate_about, CLEARANCE,
    COORD_LIMIT,
};
use vstd::arithmetic::div_mod::{
    lemma_div_is_ordered, lemma_div_multiples_vanish, lemma_div_pos_is_pos,
};

use crate::DbError;

verus! {

/// Scale applied to the offset direction for one clearance nudge:
/// each nudge moves the formation five distance units outward.
pub const NUDGE_SCALE: i64 = 5000;

/// Number of clearance nudges after which placement gives up.
pub const MAX_NUDGES: i64 = 1000;

/// Where to place a spawned formation.
#[derive(Clone, Debug)]
pub enum SpawnLoc {
    /// Fixed pose: translate every template position by `pos - center`.
    AtPosWithCenter { pos: Pos, center: Pos },
    /// Named-zone placement: recenter the template's centroid onto the
    /// resolved zone position, then rotate around it by `heading`.
    AtTrigger { zone: Pos, heading: Rot },
    /// Fixed point with offset direction: recenter on the target
    /// offset outward by the bounding radius along the direction,
    /// rotate, then nudge outward until the closest unit clears the
    /// target by [`CLEARANCE`].
    AtPos { pos: Pos, offset_direction: Rot, heading: Rot },
    /// Fixed point with per-type sub-formation centers.
    AtPosWithComponents { pos: Pos, heading: Rot, component_pos: Vec<(String, Pos)> },
}

/// View of [`SpawnLoc`].
pub enum SpawnLocView {
    AtPosWithCenter { pos: Pos, center: Pos },
    AtTrigger { zone: Pos, heading: Rot },
    AtPos { pos: Pos, offset_direction: Rot, heading: Rot },
    AtPosWithComponents { pos: Pos, heading: Rot, component_pos: Seq<(Seq<char>, Pos)> },
}

impl View for SpawnLoc {
    type V = SpawnLocView;

    open spec fn view(&self) -> SpawnLocView {
        match self {
            SpawnLoc::AtPosWithCenter { pos, center } => SpawnLocView::AtPosWithCenter {
                pos: *pos,
                center: *center,
            },
            SpawnLoc::AtTrigger { zone, heading } => SpawnLocView::AtTrigger {
                zone: *zone,
                heading: *heading,
            },
            SpawnLoc::AtPos { pos, offset_direction, heading } => SpawnLocView::AtPos {
                pos: *pos,
                offset_direction: *offset_direction,
                heading: *heading,
            },
            SpawnLoc::AtPosWithComponents { pos, heading, component_pos } =>
                SpawnLocView::AtPosWithComponents {
                    pos: *pos,
                    heading: *heading,
                    component_pos: component_pos@.map_values(|e: (String, Pos)| (e.0@, e.1)),
                },
        }
    }
}

/// Every declared sub-formation center is in range.
pub open spec fn comp_ok(s: Seq<(Seq<char>, Pos)>) -> bool {
    forall|i: int| 0 <= i < s.len() ==> pos_ok(#[trigger] s[i].1)
}

impl SpawnLocView {
    /// Every coordinate and heading in the specification is in range.
    pub open spec fn ok(self) -> bool {
        match self {
            SpawnLocView::AtPosWithCenter { pos, center } => pos_ok(pos) && pos_ok(center),
            SpawnLocView::AtTrigger { zone, heading } => pos_ok(zone) && heading.bounded(),
            SpawnLocView::AtPos { pos, offset_direction, heading } => pos_ok(pos)
                && offset_direction.bounded() && heading.bounded(),
            SpawnLocView::AtPosWithComponents { pos, heading, component_pos } => pos_ok(pos)
                && heading.bounded() && comp_ok(component_pos),
        }
    }
}

/// The template-relative positions of a unit sequence.
pub open spec fn tpl_positions(us: Seq<TemplateUnitView>) -> Seq<Pos> {
    us.map_values(|u: TemplateUnitView| u.pos)
}

/// A usable template unit list: non-empty, of sane size, every
/// position in range.
pub open spec fn tpl_ok(us: Seq<TemplateUnitView>) -> bool {
    1 <= us.len() <= 4096 && forall|i: int| 0 <= i < us.len() ==> pos_ok(#[trigger] us[i].pos)
}

/// The result of spawn-location resolution: one absolute position per
/// template unit and the resolved heading.  The ghost fields record
/// the bounding radius and nudge count the computation used, so the
/// position formulas can be stated exactly.
pub struct SpawnPlan {
    pub positions: Vec<Pos>,
    pub heading: Rot,
    pub radius: Ghost<int>,
    pub nudges: Ghost<int>,
}


/// The x coordinate of unit `i` under the offset-direction variant,
/// given the bounding radius `r` and `k` applied nudges.
pub open spec fn at_pos_x(
    us: Seq<TemplateUnitView>,
    pos: Pos,
    dir: Rot,
    heading: Rot,
    r: int,
    k: int,
    i: int,
) -> int {
    let c = spec_centroid(tpl_positions(us));
    let ctr = Pos {
        x: (pos.x + div1000(r * dir.c)) as i64,
        y: (pos.y + div1000(r * dir.s)) as i64,
    };
    let b = Pos {
        x: (us[i].pos.x - c.x + ctr.x) as i64,
        y: (us[i].pos.y - c.y + ctr.y) as i64,
    };
    spec_rotate_about(b, ctr, heading).x + k * div1000(dir.c * NUDGE_SCALE)
}

/// The y coordinate of unit `i` under the offset-direction variant.
pub open spec fn at_pos_y(
    us: Seq<TemplateUnitView>,
    pos: Pos,
    dir: Rot,
    heading: Rot,
    r: int,
    k: int,
    i: int,
) -> int {
    let c = spec_centroid(tpl_positions(us));
    let ctr = Pos {
        x: (pos.x + div1000(r * dir.c)) as i64,
        y: (pos.y + div1000(r * dir.s)) as i64,
    };
    let b = Pos {
        x: (us[i].pos.x - c.x + ctr.x) as i64,
        y: (us[i].pos.y - c.y + ctr.y) as i64,
    };
    spec_rotate_about(b, ctr, heading).y + k * div1000(dir.s * NUDGE_SCALE)
}

/// `r` is the integer bounding radius of the template around its
/// centroid.
pub open spec fn is_radius(us: Seq<TemplateUnitView>, r: int) -> bool {
    let m = max_dist_sq(tpl_positions(us), spec_centroid(tpl_positions(us)));
    0 <= r && r * r <= m && m < ((r + 1) * (r + 1))
}

/// All positions clear the target point by at least [`CLEARANCE`].
pub open spec fn all_clear_spec(ps: Seq<Pos>, pos: Pos) -> bool {
    forall|i: int| 0 <= i < ps.len() ==> dist_sq(#[trigger] ps[i], pos) >= CLEARANCE * CLEARANCE
}

/// Scans the positions for one too close to the target.
fn all_clear(ps: &Vec<Pos>, target: Pos) -> (b: bool)
    requires
        forall|i: int| 0 <= i < ps@.len() ==> crate::geom::pos_work(#[trigger] ps@[i]),
        pos_ok(target),
    ensures
        b == all_clear_spec(ps@, target),
{
    let n = ps.len();
    let mut i: usize = 0;
    while i < n
        invariant
            n == ps@.len(),
            i <= n,
            forall|k: int| 0 <= k < ps@.len() ==> crate::geom::pos_work(#[trigger] ps@[k]),
            pos_ok(target),
            forall|k: int| 0 <= k < i ==> dist_sq(#[trigger] ps@[k], target) >= CLEARANCE
                * CLEARANCE,
        decreases n - i,
    {
        let d = dist_sq_exec(ps[i], target);
        if d < CLEARANCE * CLEARANCE {
            return false;
        }
        i = i + 1;
    }
    true
}

/// Largest squared distance from `c` to any point of `s`.
pub open spec fn max_dist_sq(s: Seq<Pos>, c: Pos) -> int
    decreases s.len(),
{
    if s.len() == 0 {
        0
    } else {
        let rest = max_dist_sq(s.drop_last(), c);
        if dist_sq(s.last(), c) > rest {
            dist_sq(s.last(), c)
        } else {
            rest
        }
    }
}

/// What the fixed-pose variant computes: a pure translation.
pub open spec fn plan_at_pos_with_center_ok(
    us: Seq<TemplateUnitView>,
    pos: Pos,
    center: Pos,
    plan: SpawnPlan,
) -> bool {
    &&& plan.positions@.len() == us.len()
    &&& forall|i: int| #![trigger plan.positions@[i]] 0 <= i < us.len()
        ==> plan.positions@[i].x == us[i].pos.x - center.x + pos.x
            && plan.positions@[i].y == us[i].pos.y - center.y + pos.y
    &&& plan.heading == (Rot { c: 1000int as i64, s: 0int as i64 })
}

/// What the named-zone variant computes: recenter the centroid onto
/// the zone, then rotate around the zone.
pub open spec fn plan_at_trigger_ok(
    us: Seq<TemplateUnitView>,
    zone: Pos,
    heading: Rot,
    plan: SpawnPlan,
) -> bool {
    let c = spec_centroid(tpl_positions(us));
    &&& plan.positions@.len() == us.len()
    &&& forall|i: int| #![trigger plan.positions@[i]] 0 <= i < us.len()
        ==> plan.positions@[i] == spec_rotate_about(
            Pos {
                x: (us[i].pos.x - c.x + zone.x) as i64,
                y: (us[i].pos.y - c.y + zone.y) as i64,
            },
            zone,
            heading,
        )
    &&& plan.heading == heading
}

/// What the offset-direction variant computes: the formation recentred
/// on the target offset outward by the bounding radius, rotated, and
/// nudged outward until every unit clears the target.
pub open spec fn plan_at_pos_ok(
    us: Seq<TemplateUnitView>,
    pos: Pos,
    dir: Rot,
    heading: Rot,
    plan: SpawnPlan,
) -> bool {
    &&& plan.positions@.len() == us.len()
    &&& is_radius(us, plan.radius@)
    &&& 0 <= plan.nudges@ <= MAX_NUDGES
    &&& forall|i: int| #![trigger plan.positions@[i]] 0 <= i < us.len()
        ==> plan.positions@[i].x == at_pos_x(us, pos, dir, heading, plan.radius@, plan.nudges@, i)
            && plan.positions@[i].y == at_pos_y(
                us, pos, dir, heading, plan.radius@, plan.nudges@, i)
    &&& all_clear_spec(plan.positions@, pos)
    &&& plan.heading == heading
}

/// Even the fully nudged-out formation leaves some unit within the
/// clearance ring: the only way the offset-direction variant fails.
pub open spec fn at_pos_stuck(us: Seq<TemplateUnitView>, pos: Pos, dir: Rot, heading: Rot) -> bool {
    exists|rr: int, i: int|
        #![trigger at_pos_x(us, pos, dir, heading, rr, MAX_NUDGES as int, i)]
        is_radius(us, rr) && 0 <= i < us.len() && {
            let px = at_pos_x(us, pos, dir, heading, rr, MAX_NUDGES as int, i);
            let py = at_pos_y(us, pos, dir, heading, rr, MAX_NUDGES as int, i);
            (px - pos.x) * (px - pos.x) + (py - pos.y) * (py - pos.y) < CLEARANCE * CLEARANCE
        }
}

/// Fixed pose with declared center: translate every template-relative
/// offset by `pos - center`.  Never fails.
pub fn plan_at_pos_with_center(units: &Vec<TemplateUnit>, pos: Pos, center: Pos) -> (plan:
    SpawnPlan)
    requires
        tpl_ok(units@.map_values(|u: TemplateUnit| u@)),
        pos_ok(pos),
        pos_ok(center),
    ensures
        plan_at_pos_with_center_ok(units@.map_values(|u: TemplateUnit| u@), pos, center, plan),
        forall|i: int| 0 <= i < plan.positions@.len()
            ==> crate::geom::pos_work(#[trigger] plan.positions@[i]),
{
    let ghost us = units@.map_values(|u: TemplateUnit| u@);
    let n = units.len();
    let mut out: Vec<Pos> = Vec::new();
    let mut i: usize = 0;
    while i < n
        invariant
            n == units@.len(),
            us == units@.map_values(|u: TemplateUnit| u@),
            tpl_ok(us),
            pos_ok(pos),
            pos_ok(center),
            i <= n,
            out@.len() == i,
            forall|k: int| #![trigger out@[k]] 0 <= k < i
                ==> out@[k].x == us[k].pos.x - center.x + pos.x
                    && out@[k].y == us[k].pos.y - center.y + pos.y
                    && crate::geom::pos_work(out@[k]),
        decreases n - i,
    {
        proof {
            assert(us[i as int].pos == units@[i as int].pos);
        }
        let u = &units[i];
        let p = Pos { x: u.pos.x - center.x + pos.x, y: u.pos.y - center.y + pos.y };
        out.push(p);
        i = i + 1;
    }
    SpawnPlan {
        positions: out,
        heading: Rot::neutral(),
        radius: Ghost(0),
        nudges: Ghost(0),
    }
}

/// Named-zone placement: recenter the template's centroid onto the
/// zone position, then rotate every unit around it by the heading.
/// Never fails.
pub fn plan_at_trigger(units: &Vec<TemplateUnit>, zone: Pos, heading: Rot) -> (plan: SpawnPlan)
    requires
        tpl_ok(units@.map_values(|u: TemplateUnit| u@)),
        pos_ok(zone),
        heading.bounded(),
    ensures
        plan_at_trigger_ok(units@.map_values(|u: TemplateUnit| u@), zone, heading, plan),
        forall|i: int| 0 <= i < plan.positions@.len()
            ==> crate::geom::pos_work(#[trigger] plan.positions@[i]),
{
    let ghost us = units@.map_values(|u: TemplateUnit| u@);
    let n = units.len();
    let mut raw: Vec<Pos> = Vec::new();
    let mut i: usize = 0;
    while i < n
        invariant
            n == units@.len(),
            us == units@.map_values(|u: TemplateUnit| u@),
            tpl_ok(us),
            i <= n,
            raw@.len() == i,
            forall|k: int| #![trigger raw@[k]] 0 <= k < i ==> raw@[k] == us[k].pos,
        decreases n - i,
    {
        proof {
            assert(us[i as int].pos == units@[i as int].pos);
        }
        raw.push(units[i].pos);
        i = i + 1;
    }
    proof {
        assert(raw@ =~= tpl_positions(us));
    }
    let c = centroid(&raw);
    let mut out: Vec<Pos> = Vec::new();
    let mut i: usize = 0;
    while i < n
        invariant
            n == units@.len(),
            us == units@.map_values(|u: TemplateUnit| u@),
            tpl_ok(us),
            pos_ok(zone),
            pos_ok(c),
            heading.bounded(),
            c == spec_centroid(tpl_positions(us)),
            i <= n,
            out@.len() == i,
            forall|k: int| #![trigger out@[k]] 0 <= k < i
                ==> out@[k] == spec_rotate_about(
                    Pos {
                        x: (us[k].pos.x - c.x + zone.x) as i64,
                        y: (us[k].pos.y - c.y + zone.y) as i64,
                    },
                    zone,
                    heading,
                ) && crate::geom::pos_work(out@[k]),
        decreases n - i,
    {
        proof {
            assert(us[i as int].pos == units@[i as int].pos);
        }
        let u = &units[i];
        let t = Pos { x: u.pos.x - c.x + zone.x, y: u.pos.y - c.y + zone.y };
        let p = rotate_about(t, zone, heading);
        out.push(p);
        i = i + 1;
    }
    SpawnPlan {
        positions: out,
        heading,
        radius: Ghost(0),
        nudges: Ghost(0),
    }
}

/// Fixed point with offset direction: recenter on the target point
/// offset outward by the template's bounding radius along the given
/// direction, rotate by the heading, then nudge further outward until
/// the closest unit is at least [`CLEARANCE`] from the target point.
/// Fails only when the nudge cap cannot reach clearance, which a
/// non-degenerate direction never hits.
pub fn plan_at_pos(units: &Vec<TemplateUnit>, pos: Pos, dir: Rot, heading: Rot) -> (r: Result<
    SpawnPlan,
    DbError,
>)
    requires
        tpl_ok(units@.map_values(|u: TemplateUnit| u@)),
        pos_ok(pos),
        dir.bounded(),
        heading.bounded(),
    ensures
        match r {
            Ok(plan) => plan_at_pos_ok(
                units@.map_values(|u: TemplateUnit| u@), pos, dir, heading, plan)
                && forall|i: int| 0 <= i < plan.positions@.len()
                    ==> crate::geom::pos_work(#[trigger] plan.positions@[i]),
            Err(e) => e == DbError::NoClearance
                && at_pos_stuck(units@.map_values(|u: TemplateUnit| u@), pos, dir, heading),
        },
{
    let ghost us = units@.map_values(|u: TemplateUnit| u@);
    let n = units.len();
    let mut raw: Vec<Pos> = Vec::new();
    let mut i: usize = 0;
    while i < n
        invariant
            n == units@.len(),
            us == units@.map_values(|u: TemplateUnit| u@),
            tpl_ok(us),
            i <= n,
            raw@.len() == i,
            forall|k: int| #![trigger raw@[k]] 0 <= k < i ==> raw@[k] == us[k].pos,
        decreases n - i,
    {
        proof {
            assert(us[i as int].pos == units@[i as int].pos);
        }
        raw.push(units[i].pos);
        i = i + 1;
    }
    proof {
        assert(raw@ =~= tpl_positions(us));
    }
    let c = centroid(&raw);

    // Bounding radius: the largest distance from the centroid.
    let mut m: i64 = 0;
    let mut i: usize = 0;
    proof {
        assert(max_dist_sq(raw@.take(0), c) == 0);
    }
    while i < n
        invariant
            n == raw@.len(),
            raw@ == tpl_positions(us),
            tpl_ok(us),
            pos_ok(c),
            i <= n,
            0 <= m,
            m == max_dist_sq(raw@.take(i as int), c),
            m <= 8 * (COORD_LIMIT as int) * (COORD_LIMIT as int),
        decreases n - i,
    {
        proof {
            let t1 = raw@.take(i + 1);
            assert(t1.drop_last() =~= raw@.take(i as int));
            assert(t1.last() == raw@[i as int]);
            assert(raw@[i as int] == us[i as int].pos);
            let dx = (raw@[i as int].x - c.x) as int;
            let dy = (raw@[i as int].y - c.y) as int;
            lemma_mul_bound(dx, dx, 2 * COORD_LIMIT as int, 2 * COORD_LIMIT as int);
            lemma_mul_bound(dy, dy, 2 * COORD_LIMIT as int, 2 * COORD_LIMIT as int);
        }
        let d = dist_sq_exec(raw[i], c);
        if d > m {
            m = d;
        }
        i = i + 1;
    }
    proof {
        assert(raw@.take(n as int) =~= raw@);
    }

    let radius: u64 = isqrt(m as u64);
    proof {
        assert((radius as int) <= 0x80_0000) by {
            if (radius as int) > 0x80_0000 {
                lemma_mul_bound(0x80_0001, 0x80_0001, 0x80_0001, 0x80_0001);
                assert((0x80_0001int * 0x80_0001int) > 8 * (COORD_LIMIT as int) * (
                COORD_LIMIT as int));
                assert((radius as int) * (radius as int) >= 0x80_0001int * 0x80_0001int)
                    by (nonlinear_arith)
                    requires
                        (radius as int) >= 0x80_0001,
                ;
            }
        }
        lemma_mul_bound(radius as int, dir.c as int, 0x80_0000, 1000);
        lemma_mul_bound(radius as int, dir.s as int, 0x80_0000, 1000);
        lemma_div1000_bound((radius as int) * (dir.c as int), 0x1_F400_0000);
        lemma_div1000_bound((radius as int) * (dir.s as int), 0x1_F400_0000);
        assert(0x1_F400_0000int == 1000int * 0x80_0000int) by (nonlinear_arith);
        lemma_div_multiples_vanish(0x80_0000int, 1000int);
    }
    let off_x: i64 = div1000_exec((radius as i64) * dir.c);
    let off_y: i64 = div1000_exec((radius as i64) * dir.s);
    let ctr = Pos { x: pos.x + off_x, y: pos.y + off_y };

    // Recenter on the offset target and rotate around it.
    let mut cur: Vec<Pos> = Vec::new();
    let mut i: usize = 0;
    while i < n
        invariant
            n == units@.len(),
            us == units@.map_values(|u: TemplateUnit| u@),
            tpl_ok(us),
            pos_ok(pos),
            pos_ok(c),
            c == spec_centroid(tpl_positions(us)),
            dir.bounded(),
            heading.bounded(),
            -0x90_0000 <= ctr.x <= 0x90_0000,
            -0x90_0000 <= ctr.y <= 0x90_0000,
            ctr.x == pos.x + div1000((radius as int) * (dir.c as int)),
            ctr.y == pos.y + div1000((radius as int) * (dir.s as int)),
            i <= n,
            cur@.len() == i,
            forall|k: int| #![trigger cur@[k]] 0 <= k < i
                ==> cur@[k] == spec_rotate_about(
                    Pos {
                        x: (us[k].pos.x - c.x + ctr.x) as i64,
                        y: (us[k].pos.y - c.y + ctr.y) as i64,
                    },
                    ctr,
                    heading,
                ) && -0x500_0000 <= cur@[k].x <= 0x500_0000
                    && -0x500_0000 <= cur@[k].y <= 0x500_0000,
        decreases n - i,
    {
        proof {
            assert(us[i as int].pos == units@[i as int].pos);
        }
        let u = &units[i];
        let b = Pos { x: u.pos.x - c.x + ctr.x, y: u.pos.y - c.y + ctr.y };
        let p = rotate_about(b, ctr, heading);
        cur.push(p);
        i = i + 1;
    }
    let ghost rot0 = cur@;

    // Nudge outward until every unit clears the target.
    proof {
        lemma_mul_bound(dir.c as int, NUDGE_SCALE as int, 1000, NUDGE_SCALE as int);
        lemma_mul_bound(dir.s as int, NUDGE_SCALE as int, 1000, NUDGE_SCALE as int);
        lemma_div1000_bound((dir.c as int) * (NUDGE_SCALE as int), 5000000);
        lemma_div1000_bound((dir.s as int) * (NUDGE_SCALE as int), 5000000);
    }
    let step_x: i64 = div1000_exec(dir.c * NUDGE_SCALE);
    let step_y: i64 = div1000_exec(dir.s * NUDGE_SCALE);
    let mut k: i64 = 0;
    let mut clear = all_clear(&cur, pos);
    while !clear && k < MAX_NUDGES
        invariant
            n == us.len(),
            tpl_ok(us),
            pos_ok(pos),
            dir.bounded(),
            heading.bounded(),
            -5000 <= step_x <= 5000,
            -5000 <= step_y <= 5000,
            step_x == div1000((dir.c as int) * (NUDGE_SCALE as int)),
            step_y == div1000((dir.s as int) * (NUDGE_SCALE as int)),
            rot0.len() == n,
            forall|j: int| #![trigger rot0[j]] 0 <= j < n
                ==> -0x500_0000 <= rot0[j].x <= 0x500_0000
                    && -0x500_0000 <= rot0[j].y <= 0x500_0000,
            0 <= k <= MAX_NUDGES,
            cur@.len() == n,
            forall|j: int| #![trigger cur@[j]] 0 <= j < n
                ==> cur@[j].x == rot0[j].x + k * step_x && cur@[j].y == rot0[j].y + k * step_y
                    && crate::geom::pos_work(cur@[j]),
            clear == all_clear_spec(cur@, pos),
        decreases MAX_NUDGES - k + (if clear { 0int } else { 1int }),
    {
        let mut next: Vec<Pos> = Vec::new();
        let mut j: usize = 0;
        proof {
            assert((k + 1) * step_x == k * step_x + step_x) by (nonlinear_arith);
            assert((k + 1) * step_y == k * step_y + step_y) by (nonlinear_arith);
            lemma_mul_bound((k + 1) as int, step_x as int, MAX_NUDGES as int, 5000);
            lemma_mul_bound((k + 1) as int, step_y as int, MAX_NUDGES as int, 5000);
        }
        while j < n
            invariant
                cur@.len() == n,
                rot0.len() == n,
                0 <= k < MAX_NUDGES,
                -5000 <= step_x <= 5000,
                -5000 <= step_y <= 5000,
                forall|q: int| #![trigger rot0[q]] 0 <= q < n
                    ==> -0x500_0000 <= rot0[q].x <= 0x500_0000
                        && -0x500_0000 <= rot0[q].y <= 0x500_0000,
                forall|q: int| #![trigger cur@[q]] 0 <= q < n
                    ==> cur@[q].x == rot0[q].x + k * step_x
                        && cur@[q].y == rot0[q].y + k * step_y
                        && crate::geom::pos_work(cur@[q]),
                (k + 1) * step_x == k * step_x + step_x,
                (k + 1) * step_y == k * step_y + step_y,
                -(MAX_NUDGES as int) * 5000 <= (k + 1) * step_x <= (MAX_NUDGES as int) * 5000,
                -(MAX_NUDGES as int) * 5000 <= (k + 1) * step_y <= (MAX_NUDGES as int) * 5000,
                j <= n,
                next@.len() == j,
                forall|q: int| #![trigger next@[q]] 0 <= q < j
                    ==> next@[q].x == rot0[q].x + (k + 1) * step_x
                        && next@[q].y == rot0[q].y + (k + 1) * step_y
                        && crate::geom::pos_work(next@[q]),
            decreases n - j,
        {
            let p = cur[j];
            next.push(Pos { x: p.x + step_x, y: p.y + step_y });
            j = j + 1;
        }
        cur = next;
        k = k + 1;
        clear = all_clear(&cur, pos);
    }

    if clear {
        proof {
            assert forall|i: int| #![trigger cur@[i]] 0 <= i < n implies
                cur@[i].x == at_pos_x(us, pos, dir, heading, radius as int, k as int, i)
                    && cur@[i].y == at_pos_y(us, pos, dir, heading, radius as int, k as int, i)
                by {
                assert(cur@[i].x == rot0[i].x + k * step_x);
            }
        }
        Ok(SpawnPlan {
            positions: cur,
            heading,
            radius: Ghost(radius as int),
            nudges: Ghost(k as int),
        })
    } else {
        proof {
            assert(k == MAX_NUDGES);
            let i = choose|i: int|
                0 <= i < cur@.len() && !(dist_sq(cur@[i], pos) >= CLEARANCE * CLEARANCE);
            assert(cur@[i].x == at_pos_x(us, pos, dir, heading, radius as int, k as int, i));
            assert(cur@[i].y == at_pos_y(us, pos, dir, heading, radius as int, k as int, i));
            assert(is_radius(us, radius as int));
            assert(at_pos_stuck(us, pos, dir, heading));
        }
        Err(DbError::NoClearance)
    }
}

/// First binding of `typ` among the per-type sub-formation centers.
pub open spec fn comp_lookup(s: Seq<(Seq<char>, Pos)>, typ: Seq<char>) -> Option<Pos>
    decreases s.len(),
{
    if s.len() == 0 {
        None
    } else if s[0].0 == typ {
        Some(s[0].1)
    } else {
        comp_lookup(s.subrange(1, s.len() as int), typ)
    }
}

/// Sum of the x coordinates of the units of one type.
pub open spec fn typ_sum_x(us: Seq<TemplateUnitView>, typ: Seq<char>) -> int
    decreases us.len(),
{
    if us.len() == 0 {
        0
    } else {
        typ_sum_x(us.drop_last(), typ) + if us.last().typ == typ {
            us.last().pos.x as int
        } else {
            0
        }
    }
}

/// Sum of the y coordinates of the units of one type.
pub open spec fn typ_sum_y(us: Seq<TemplateUnitView>, typ: Seq<char>) -> int
    decreases us.len(),
{
    if us.len() == 0 {
        0
    } else {
        typ_sum_y(us.drop_last(), typ) + if us.last().typ == typ {
            us.last().pos.y as int
        } else {
            0
        }
    }
}

/// Number of units of one type.
pub open spec fn typ_count(us: Seq<TemplateUnitView>, typ: Seq<char>) -> int
    decreases us.len(),
{
    if us.len() == 0 {
        0
    } else {
        typ_count(us.drop_last(), typ) + if us.last().typ == typ {
            1int
        } else {
            0int
        }
    }
}

proof fn lemma_typ_count_range(us: Seq<TemplateUnitView>, typ: Seq<char>)
    ensures
        0 <= typ_count(us, typ) <= us.len(),
    decreases us.len(),
{
    if us.len() > 0 {
        lemma_typ_count_range(us.drop_last(), typ);
    }
}

proof fn lemma_typ_count_witness(us: Seq<TemplateUnitView>, typ: Seq<char>, j: int)
    requires
        0 <= j < us.len(),
        us[j].typ == typ,
    ensures
        typ_count(us, typ) >= 1,
    decreases us.len(),
{
    lemma_typ_count_range(us.drop_last(), typ);
    if j < us.len() - 1 {
        lemma_typ_count_witness(us.drop_last(), typ, j);
    }
}

proof fn lemma_typ_sum_bounds(us: Seq<TemplateUnitView>, typ: Seq<char>, b: int)
    requires
        0 <= b,
        forall|i: int| 0 <= i < us.len()
            ==> -b <= #[trigger] us[i].pos.x <= b && -b <= us[i].pos.y <= b,
    ensures
        -(typ_count(us, typ) * b) <= typ_sum_x(us, typ) <= typ_count(us, typ) * b,
        -(typ_count(us, typ) * b) <= typ_sum_y(us, typ) <= typ_count(us, typ) * b,
    decreases us.len(),
{
    if us.len() == 0 {
    } else {
        let u0 = us.drop_last();
        assert(forall|i: int| 0 <= i < u0.len()
            ==> -b <= #[trigger] u0[i].pos.x <= b && -b <= u0[i].pos.y <= b);
        lemma_typ_sum_bounds(u0, typ, b);
        if us.last().typ == typ {
            assert((typ_count(u0, typ) + 1) * b == typ_count(u0, typ) * b + b)
                by (nonlinear_arith);
        }
    }
}

/// The centroid of the units of one type: the floored mean of each
/// coordinate over those units, shifted like [`spec_centroid`].
/// Meaningful only when at least one unit has the type.
pub open spec fn spec_typ_centroid(us: Seq<TemplateUnitView>, typ: Seq<char>) -> Pos {
    let n = typ_count(us, typ);
    Pos {
        x: ((typ_sum_x(us, typ) + n * (COORD_LIMIT as int)) / n - COORD_LIMIT as int) as i64,
        y: ((typ_sum_y(us, typ) + n * (COORD_LIMIT as int)) / n - COORD_LIMIT as int) as i64,
    }
}

/// The position of unit `i` under the per-type sub-formation variant:
/// units whose type has a declared sub-center regroup around it, the
/// rest recenter on the target; all rotate by the same heading around
/// their respective centers.
pub open spec fn comp_unit_pos(
    us: Seq<TemplateUnitView>,
    pos: Pos,
    heading: Rot,
    comp: Seq<(Seq<char>, Pos)>,
    i: int,
) -> Pos {
    let c = spec_centroid(tpl_positions(us));
    match comp_lookup(comp, us[i].typ) {
        None => spec_rotate_about(
            Pos { x: (us[i].pos.x - c.x + pos.x) as i64, y: (us[i].pos.y - c.y + pos.y) as i64 },
            pos,
            heading,
        ),
        Some(t) => {
            let ct = spec_typ_centroid(us, us[i].typ);
            spec_rotate_about(
                Pos { x: (us[i].pos.x - ct.x + t.x) as i64, y: (us[i].pos.y - ct.y + t.y) as i64 },
                t,
                heading,
            )
        },
    }
}

/// What the per-type sub-formation variant computes.
pub open spec fn plan_at_components_ok(
    us: Seq<TemplateUnitView>,
    pos: Pos,
    heading: Rot,
    comp: Seq<(Seq<char>, Pos)>,
    plan: SpawnPlan,
) -> bool {
    &&& plan.positions@.len() == us.len()
    &&& forall|i: int| #![trigger plan.positions@[i]] 0 <= i < us.len()
        ==> plan.positions@[i] == comp_unit_pos(us, pos, heading, comp, i)
    &&& plan.heading == heading
}

proof fn lemma_comp_lookup_ok(s: Seq<(Seq<char>, Pos)>, typ: Seq<char>)
    requires
        forall|i: int| 0 <= i < s.len() ==> pos_ok(#[trigger] s[i].1),
    ensures
        match comp_lookup(s, typ) {
            Some(t) => pos_ok(t),
            None => true,
        },
    decreases s.len(),
{
    if s.len() > 0 && s[0].0 != typ {
        let s1 = s.subrange(1, s.len() as int);
        assert(forall|i: int| 0 <= i < s1.len() ==> pos_ok(#[trigger] s1[i].1));
        lemma_comp_lookup_ok(s1, typ);
    }
}

/// Looks a unit type up among the declared sub-formation centers.
fn comp_find(comp: &Vec<(String, Pos)>, typ: &String) -> (r: Option<Pos>)
    ensures
        r == comp_lookup(comp@.map_values(|e: (String, Pos)| (e.0@, e.1)), typ@),
{
    let ghost cv = comp@.map_values(|e: (String, Pos)| (e.0@, e.1));
    let n = comp.len();
    proof {
        assert(cv.subrange(0, n as int) =~= cv);
    }
    let mut i: usize = 0;
    while i < n
        invariant
            n == comp@.len(),
            cv == comp@.map_values(|e: (String, Pos)| (e.0@, e.1)),
            i <= n,
            comp_lookup(cv, typ@) == comp_lookup(cv.subrange(i as int, n as int), typ@),
        decreases n - i,
    {
        let e = &comp[i];
        proof {
            assert(cv.subrange(i as int, n as int)[0] == cv[i as int]);
            assert(cv[i as int].0 == comp@[i as int].0@);
        }
        if e.0 == *typ {
            return Some(e.1);
        }
        proof {
            assert(cv.subrange(i as int, n as int).subrange(
                1,
                cv.subrange(i as int, n as int).len() as int,
            ) =~= cv.subrange(i + 1, n as int));
        }
        i = i + 1;
    }
    proof {
        assert(cv.subrange(n as int, n as int).len() == 0);
    }
    None
}

/// The centroid of the units sharing the type of unit `at`, exactly
/// as [`spec_typ_centroid`] describes it.
fn typ_centroid(units: &Vec<TemplateUnit>, at: usize) -> (c: Pos)
    requires
        tpl_ok(units@.map_values(|u: TemplateUnit| u@)),
        at < units@.len(),
    ensures
        c == spec_typ_centroid(
            units@.map_values(|u: TemplateUnit| u@),
            units@.map_values(|u: TemplateUnit| u@)[at as int].typ,
        ),
        pos_ok(c),
{
    let ghost us = units@.map_values(|u: TemplateUnit| u@);
    let ghost typ = us[at as int].typ;
    let n = units.len();
    let mut sx: u64 = 0;
    let mut sy: u64 = 0;
    let mut count: u64 = 0;
    let mut j: usize = 0;
    while j < n
        invariant
            n == units@.len(),
            us == units@.map_values(|u: TemplateUnit| u@),
            tpl_ok(us),
            at < n,
            typ == us[at as int].typ,
            j <= n,
            count == typ_count(us.take(j as int), typ),
            0 <= count <= j,
            sx == typ_sum_x(us.take(j as int), typ) + (count as int) * (COORD_LIMIT as int),
            sy == typ_sum_y(us.take(j as int), typ) + (count as int) * (COORD_LIMIT as int),
            sx <= (count as int) * (2 * COORD_LIMIT as int),
            sy <= (count as int) * (2 * COORD_LIMIT as int),
        decreases n - j,
    {
        proof {
            let t1 = us.take(j + 1);
            assert(t1.drop_last() =~= us.take(j as int));
            assert(t1.last() == us[j as int]);
            assert(us[j as int].typ == units@[j as int].typ@);
            assert(us[j as int].pos == units@[j as int].pos);
            assert(us[at as int].typ == units@[at as int].typ@);
            lemma_typ_count_range(us.take(j as int), typ);
            assert(((count + 1) as int) * (COORD_LIMIT as int)
                == (count as int) * (COORD_LIMIT as int) + COORD_LIMIT) by (nonlinear_arith);
            assert(((count + 1) as int) * (2 * COORD_LIMIT as int)
                == (count as int) * (2 * COORD_LIMIT as int) + 2 * COORD_LIMIT)
                by (nonlinear_arith);
            assert((count as int) * (2 * COORD_LIMIT as int)
                <= 4096int * (2 * COORD_LIMIT as int)) by (nonlinear_arith)
                requires
                    0 <= count <= 4096,
            ;
        }
        let uj = &units[j];
        if uj.typ == units[at].typ {
            sx = sx + (uj.pos.x + COORD_LIMIT) as u64;
            sy = sy + (uj.pos.y + COORD_LIMIT) as u64;
            count = count + 1;
        }
        j = j + 1;
    }
    proof {
        assert(us.take(n as int) =~= us);
        lemma_typ_count_witness(us, typ, at as int);
        lemma_typ_sum_bounds(us, typ, COORD_LIMIT as int);
        let m = typ_count(us, typ);
        let l = COORD_LIMIT as int;
        let vx = typ_sum_x(us, typ) + m * l;
        let vy = typ_sum_y(us, typ) + m * l;
        lemma_div_pos_is_pos(vx, m);
        lemma_div_pos_is_pos(vy, m);
        lemma_div_is_ordered(vx, m * (2 * l), m);
        lemma_div_is_ordered(vy, m * (2 * l), m);
        lemma_div_multiples_vanish(2 * l, m);
    }
    let cx: u64 = sx / count;
    let cy: u64 = sy / count;
    Pos { x: cx as i64 - COORD_LIMIT, y: cy as i64 - COORD_LIMIT }
}

/// Fixed point with per-type sub-formation centers: units whose type
/// has a declared center regroup around it; the rest recenter on the
/// target point; everything rotates by the same heading.  Never fails.
pub fn plan_at_components(
    units: &Vec<TemplateUnit>,
    pos: Pos,
    heading: Rot,
    comp: &Vec<(String, Pos)>,
) -> (plan: SpawnPlan)
    requires
        tpl_ok(units@.map_values(|u: TemplateUnit| u@)),
        pos_ok(pos),
        heading.bounded(),
        comp_ok(comp@.map_values(|e: (String, Pos)| (e.0@, e.1))),
    ensures
        plan_at_components_ok(
            units@.map_values(|u: TemplateUnit| u@),
            pos,
            heading,
            comp@.map_values(|e: (String, Pos)| (e.0@, e.1)),
            plan,
        ),
        forall|i: int| 0 <= i < plan.positions@.len()
            ==> crate::geom::pos_work(#[trigger] plan.positions@[i]),
{
    let ghost us = units@.map_values(|u: TemplateUnit| u@);
    let ghost cv = comp@.map_values(|e: (String, Pos)| (e.0@, e.1));
    proof {
        assert forall|k: int| 0 <= k < comp@.len()
            implies pos_ok(#[trigger] comp@[k].1) by {
            assert(cv[k].1 == comp@[k].1);
        }
    }
    let n = units.len();
    let mut raw: Vec<Pos> = Vec::new();
    let mut i: usize = 0;
    while i < n
        invariant
            n == units@.len(),
            us == units@.map_values(|u: TemplateUnit| u@),
            tpl_ok(us),
            i <= n,
            raw@.len() == i,
            forall|k: int| #![trigger raw@[k]] 0 <= k < i ==> raw@[k] == us[k].pos,
        decreases n - i,
    {
        proof {
            assert(us[i as int].pos == units@[i as int].pos);
        }
        raw.push(units[i].pos);
        i = i + 1;
    }
    proof {
        assert(raw@ =~= tpl_positions(us));
    }
    let c = centroid(&raw);
    let mut out: Vec<Pos> = Vec::new();
    let mut i: usize = 0;
    while i < n
        invariant
            n == units@.len(),
            us == units@.map_values(|u: TemplateUnit| u@),
            cv == comp@.map_values(|e: (String, Pos)| (e.0@, e.1)),
            tpl_ok(us),
            pos_ok(pos),
            pos_ok(c),
            heading.bounded(),
            forall|k: int| 0 <= k < comp@.len() ==> pos_ok(#[trigger] comp@[k].1),
            c == spec_centroid(tpl_positions(us)),
            i <= n,
            out@.len() == i,
            forall|k: int| #![trigger out@[k]] 0 <= k < i
                ==> out@[k] == comp_unit_pos(us, pos, heading, cv, k)
                    && crate::geom::pos_work(out@[k]),
        decreases n - i,
    {
        proof {
            assert(us[i as int].pos == units@[i as int].pos);
            assert(us[i as int].typ == units@[i as int].typ@);
        }
        let u = &units[i];
        let found = comp_find(comp, &u.typ);
        let p = match found {
            None => {
                let b = Pos { x: u.pos.x - c.x + pos.x, y: u.pos.y - c.y + pos.y };
                rotate_about(b, pos, heading)
            },
            Some(t) => {
                proof {
                    assert(forall|k: int| 0 <= k < cv.len() ==> pos_ok(#[trigger] cv[k].1));
                    lemma_comp_lookup_ok(cv, us[i as int].typ);
                }
                let ct = typ_centroid(units, i);
                let b = Pos { x: u.pos.x - ct.x + t.x, y: u.pos.y - ct.y + t.y };
                rotate_about(b, t, heading)
            },
        };
        out.push(p);
        i = i + 1;
    }
    SpawnPlan {
        positions: out,
        heading,
        radius: Ghost(0),
        nudges: Ghost(0),
    }
}


} // verus!
