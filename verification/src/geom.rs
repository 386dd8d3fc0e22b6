//! Planar geometry for spawn-location resolution.
//!
//! All computation is exact integer arithmetic on whole distance units.
//! Headings and directions are fixed-point unit vectors scaled by 1000
//! (see [`crate::entity::Rot`]); rotation divides by the scale with
//! truncation toward zero, written [`div1000`] so contracts can state
//! results exactly.

use vstd::prelude::*;

use vstd::arithmetic::div_mod::{
    lemma_div_is_ordered, lemma_div_multiples_vanish, lemma_div_nonincreasing,
    lemma_div_pos_is_pos, lemma_fundamental_div_mod, lemma_mod_bound,
};

use crate::entity::{Pos, Rot};

verus! {

/// Largest magnitude accepted for any input coordinate.
pub const COORD_LIMIT: i64 = 1048576;

/// Largest magnitude any computed position can reach; far below what
/// squared-distance arithmetic can overflow.
pub const WORK_LIMIT: i64 = 536870912;

/// Minimum distance from the target point to the closest unit of a
/// formation spawned with an offset direction.
pub const CLEARANCE: i64 = 20;

/// An input coordinate pair within the accepted range.
pub open spec fn pos_ok(p: Pos) -> bool {
    -COORD_LIMIT <= p.x <= COORD_LIMIT && -COORD_LIMIT <= p.y <= COORD_LIMIT
}

/// A computed coordinate pair within the working range.
pub open spec fn pos_work(p: Pos) -> bool {
    -WORK_LIMIT <= p.x <= WORK_LIMIT && -WORK_LIMIT <= p.y <= WORK_LIMIT
}

/// Division by the fixed-point scale, truncating toward zero, exactly
/// as the executable code computes it.
pub open spec fn div1000(v: int) -> int {
    if v >= 0 {
        v / 1000
    } else {
        -((-v) / 1000)
    }
}

/// `|a| <= ba` and `|b| <= bb` bound the product by `ba * bb`.
pub proof fn lemma_mul_bound(a: int, b: int, ba: int, bb: int)
    requires
        -ba <= a <= ba,
        -bb <= b <= bb,
        0 <= ba,
        0 <= bb,
    ensures
        -(ba * bb) <= a * b <= ba * bb,
{
    assert(-(ba * bb) <= a * b <= ba * bb) by (nonlinear_arith)
        requires
            -ba <= a <= ba,
            -bb <= b <= bb,
            0 <= ba,
            0 <= bb,
    ;
}

/// Truncating scale division divides the bound by the scale.
pub proof fn lemma_div1000_bound(v: int, b: int)
    requires
        -b <= v <= b,
        0 <= b,
    ensures
        -(b / 1000) <= div1000(v) <= b / 1000,
{
    if v >= 0 {
        lemma_div_pos_is_pos(v, 1000);
        lemma_div_is_ordered(v, b, 1000);
        lemma_div_pos_is_pos(b, 1000);
    } else {
        lemma_div_pos_is_pos(-v, 1000);
        lemma_div_is_ordered(-v, b, 1000);
        lemma_div_pos_is_pos(b, 1000);
    }
}

/// Exec form of [`div1000`], computed on magnitudes so the semantics
/// are truncation toward zero.
pub fn div1000_exec(v: i64) -> (r: i64)
    requires
        -0x4000_0000_0000_0000 < v < 0x4000_0000_0000_0000,
    ensures
        r == div1000(v as int),
{
    if v >= 0 {
        proof {
            lemma_div_pos_is_pos(v as int, 1000);
            lemma_div_nonincreasing(v as int, 1000);
        }
        let q: u64 = (v as u64) / 1000;
        q as i64
    } else {
        let w: i64 = -v;
        proof {
            lemma_div_pos_is_pos(w as int, 1000);
            lemma_div_nonincreasing(w as int, 1000);
        }
        let q: u64 = (w as u64) / 1000;
        -(q as i64)
    }
}

/// Squared planar distance between two points.
pub open spec fn dist_sq(a: Pos, b: Pos) -> int {
    (a.x - b.x) * (a.x - b.x) + (a.y - b.y) * (a.y - b.y)
}

pub fn dist_sq_exec(a: Pos, b: Pos) -> (d: i64)
    requires
        pos_work(a),
        pos_work(b),
    ensures
        d == dist_sq(a, b),
        d >= 0,
{
    let dx: i64 = a.x - b.x;
    let dy: i64 = a.y - b.y;
    proof {
        lemma_mul_bound(dx as int, dx as int, 2 * WORK_LIMIT as int, 2 * WORK_LIMIT as int);
        lemma_mul_bound(dy as int, dy as int, 2 * WORK_LIMIT as int, 2 * WORK_LIMIT as int);
        assert(dx as int * dx as int >= 0) by (nonlinear_arith);
        assert(dy as int * dy as int >= 0) by (nonlinear_arith);
    }
    dx * dx + dy * dy
}

/// Sum of the x coordinates of a sequence of points.
pub open spec fn sum_x(s: Seq<Pos>) -> int
    decreases s.len(),
{
    if s.len() == 0 {
        0
    } else {
        sum_x(s.drop_last()) + s.last().x
    }
}

/// Sum of the y coordinates of a sequence of points.
pub open spec fn sum_y(s: Seq<Pos>) -> int
    decreases s.len(),
{
    if s.len() == 0 {
        0
    } else {
        sum_y(s.drop_last()) + s.last().y
    }
}

/// The planar centroid of a non-empty sequence of points: the floored
/// mean of each coordinate, computed on coordinates shifted into the
/// non-negative range.
pub open spec fn spec_centroid(s: Seq<Pos>) -> Pos {
    let n = s.len() as int;
    Pos {
        x: ((sum_x(s) + n * (WORK_LIMIT as int)) / n - WORK_LIMIT as int) as i64,
        y: ((sum_y(s) + n * (WORK_LIMIT as int)) / n - WORK_LIMIT as int) as i64,
    }
}

proof fn lemma_sum_bounds(s: Seq<Pos>, b: int)
    requires
        0 <= b,
        forall|i: int| 0 <= i < s.len() ==> -b <= #[trigger] s[i].x <= b && -b <= s[i].y <= b,
    ensures
        -((s.len() as int) * b) <= sum_x(s) <= (s.len() as int) * b,
        -((s.len() as int) * b) <= sum_y(s) <= (s.len() as int) * b,
    decreases s.len(),
{
    if s.len() == 0 {
    } else {
        let s0 = s.drop_last();
        assert(forall|i: int|
            0 <= i < s0.len() ==> -b <= #[trigger] s0[i].x <= b && -b <= s0[i].y <= b);
        lemma_sum_bounds(s0, b);
        assert((s.len() as int) * b == (s0.len() as int) * b + b) by (nonlinear_arith)
            requires
                s.len() == s0.len() + 1,
        ;
    }
}

/// The centroid of working-range points, exactly as [`spec_centroid`]
/// describes it.  The result stays in working range, and within the
/// input coordinate range when every input is.
pub fn centroid(pts: &Vec<Pos>) -> (c: Pos)
    requires
        1 <= pts@.len() <= 1000000,
        forall|i: int| 0 <= i < pts@.len() ==> pos_work(#[trigger] pts@[i]),
    ensures
        c == spec_centroid(pts@),
        pos_work(c),
        (forall|i: int| 0 <= i < pts@.len() ==> pos_ok(#[trigger] pts@[i])) ==> pos_ok(c),
{
    let n: usize = pts.len();
    let mut sx: u64 = 0;
    let mut sy: u64 = 0;
    let mut i: usize = 0;
    while i < n
        invariant
            n == pts@.len(),
            1 <= n <= 1000000,
            i <= n,
            forall|k: int| 0 <= k < pts@.len() ==> pos_work(#[trigger] pts@[k]),
            sx == sum_x(pts@.take(i as int)) + (i as int) * (WORK_LIMIT as int),
            sy == sum_y(pts@.take(i as int)) + (i as int) * (WORK_LIMIT as int),
            sx <= (i as int) * (2 * WORK_LIMIT as int),
            sy <= (i as int) * (2 * WORK_LIMIT as int),
        decreases n - i,
    {
        proof {
            let t1 = pts@.take(i + 1);
            assert(t1.drop_last() =~= pts@.take(i as int));
            assert(t1.last() == pts@[i as int]);
            assert((i + 1) * (WORK_LIMIT as int) == i * (WORK_LIMIT as int) + WORK_LIMIT)
                by (nonlinear_arith);
            assert((i + 1) * (2 * WORK_LIMIT as int) == i * (2 * WORK_LIMIT as int)
                + 2 * WORK_LIMIT) by (nonlinear_arith);
            assert((i as int) * (2 * WORK_LIMIT as int)
                <= 1000000int * (2 * WORK_LIMIT as int)) by (nonlinear_arith)
                requires
                    0 <= i <= 1000000,
            ;
        }
        let shifted_x: u64 = (pts[i].x + WORK_LIMIT) as u64;
        let shifted_y: u64 = (pts[i].y + WORK_LIMIT) as u64;
        sx = sx + shifted_x;
        sy = sy + shifted_y;
        i = i + 1;
    }
    proof {
        assert(pts@.take(n as int) =~= pts@);
        let n_int = n as int;
        let w = WORK_LIMIT as int;
        lemma_sum_bounds(pts@, w);
        let vx = sum_x(pts@) + n_int * w;
        let vy = sum_y(pts@) + n_int * w;
        lemma_div_pos_is_pos(vx, n_int);
        lemma_div_pos_is_pos(vy, n_int);
        lemma_div_is_ordered(vx, n_int * (2 * w), n_int);
        lemma_div_is_ordered(vy, n_int * (2 * w), n_int);
        lemma_div_multiples_vanish(2 * w, n_int);
        if forall|k: int| 0 <= k < pts@.len() ==> pos_ok(#[trigger] pts@[k]) {
            let l = COORD_LIMIT as int;
            lemma_sum_bounds(pts@, l);
            assert(n_int * (w - l) <= vx) by (nonlinear_arith)
                requires
                    vx == sum_x(pts@) + n_int * w,
                    -(n_int * l) <= sum_x(pts@),
                    0 <= n_int,
            ;
            assert(vx <= n_int * (w + l)) by (nonlinear_arith)
                requires
                    vx == sum_x(pts@) + n_int * w,
                    sum_x(pts@) <= n_int * l,
                    0 <= n_int,
            ;
            assert(n_int * (w - l) <= vy) by (nonlinear_arith)
                requires
                    vy == sum_y(pts@) + n_int * w,
                    -(n_int * l) <= sum_y(pts@),
                    0 <= n_int,
            ;
            assert(vy <= n_int * (w + l)) by (nonlinear_arith)
                requires
                    vy == sum_y(pts@) + n_int * w,
                    sum_y(pts@) <= n_int * l,
                    0 <= n_int,
            ;
            lemma_div_is_ordered(n_int * (w - l), vx, n_int);
            lemma_div_is_ordered(vx, n_int * (w + l), n_int);
            lemma_div_is_ordered(n_int * (w - l), vy, n_int);
            lemma_div_is_ordered(vy, n_int * (w + l), n_int);
            lemma_div_multiples_vanish(w - l, n_int);
            lemma_div_multiples_vanish(w + l, n_int);
        }
    }
    let cx: u64 = sx / (n as u64);
    let cy: u64 = sy / (n as u64);
    Pos { x: cx as i64 - WORK_LIMIT, y: cy as i64 - WORK_LIMIT }
}

/// Integer square root: the unique `r` with `r*r <= d < (r+1)*(r+1)`.
pub fn isqrt(d: u64) -> (r: u64)
    requires
        d < 0x4000_0000_0000_0000,
    ensures
        r as int * r as int <= d as int,
        (d as int) < ((r as int + 1) * (r as int + 1)),
        r < 0x8000_0000,
{
    let mut lo: u64 = 0;
    let mut hi: u64 = 0x8000_0000;
    while lo + 1 < hi
        invariant
            lo < hi <= 0x8000_0000,
            d < 0x4000_0000_0000_0000,
            lo as int * lo as int <= d as int,
            (hi as int * hi as int) > d as int,
        decreases hi - lo,
    {
        let mid: u64 = lo + (hi - lo) / 2;
        proof {
            lemma_div_pos_is_pos((hi - lo) as int, 2);
            lemma_div_nonincreasing((hi - lo) as int, 2);
            lemma_fundamental_div_mod((hi - lo) as int, 2);
            lemma_mod_bound((hi - lo) as int, 2);
            assert(lo < mid && mid < hi);
        }
        let q: u64 = d / mid;
        proof {
            lemma_fundamental_div_mod(d as int, mid as int);
            lemma_mod_bound(d as int, mid as int);
            assert(d as int == (mid as int) * (q as int) + (d as int % (mid as int)));
        }
        if mid <= q {
            proof {
                assert(mid as int * mid as int <= d as int) by (nonlinear_arith)
                    requires
                        mid as int >= 1,
                        mid as int <= q as int,
                        d as int == (mid as int) * (q as int) + (d as int % (mid as int)),
                        d as int % (mid as int) >= 0;
            }
            lo = mid;
        } else {
            proof {
                assert((d as int) < (mid as int * mid as int)) by (nonlinear_arith)
                    requires
                        mid as int >= 1,
                        (q as int) < (mid as int),
                        d as int == (mid as int) * (q as int) + (d as int % (mid as int)),
                        0 <= d as int % (mid as int) && (d as int % (mid as int)) < (mid as int);
            }
            hi = mid;
        }
    }
    lo
}

/// Rotation of the offset `(dx, dy)` by `r`: the x component.
pub open spec fn rot_x(dx: int, dy: int, r: Rot) -> int {
    div1000(dx * r.c - dy * r.s)
}

/// Rotation of the offset `(dx, dy)` by `r`: the y component.
pub open spec fn rot_y(dx: int, dy: int, r: Rot) -> int {
    div1000(dx * r.s + dy * r.c)
}

/// The point `p` rotated around `center` by `r`.
pub open spec fn spec_rotate_about(p: Pos, center: Pos, r: Rot) -> Pos {
    Pos {
        x: (center.x + rot_x(p.x - center.x, p.y - center.y, r)) as i64,
        y: (center.y + rot_y(p.x - center.x, p.y - center.y, r)) as i64,
    }
}

/// Rotates `p` around `center`, exactly as [`spec_rotate_about`]
/// describes.  A rotated offset at most doubles in each coordinate,
/// so results stay far inside the working range.
pub fn rotate_about(p: Pos, center: Pos, r: Rot) -> (q: Pos)
    requires
        -0x100_0000 <= p.x <= 0x100_0000,
        -0x100_0000 <= p.y <= 0x100_0000,
        -0x100_0000 <= center.x <= 0x100_0000,
        -0x100_0000 <= center.y <= 0x100_0000,
        r.bounded(),
    ensures
        q == spec_rotate_about(p, center, r),
        -0x500_0000 <= q.x <= 0x500_0000,
        -0x500_0000 <= q.y <= 0x500_0000,
{
    let dx: i64 = p.x - center.x;
    let dy: i64 = p.y - center.y;
    proof {
        lemma_mul_bound(dx as int, r.c as int, 0x200_0000, 1000);
        lemma_mul_bound(dy as int, r.s as int, 0x200_0000, 1000);
        lemma_mul_bound(dx as int, r.s as int, 0x200_0000, 1000);
        lemma_mul_bound(dy as int, r.c as int, 0x200_0000, 1000);
        lemma_div1000_bound(dx as int * r.c as int - dy as int * r.s as int, 0xF_A000_0000);
        lemma_div1000_bound(dx as int * r.s as int + dy as int * r.c as int, 0xF_A000_0000);
        assert(0xF_A000_0000int / 1000 == 0x400_0000int);
    }
    let rx: i64 = div1000_exec(dx * r.c - dy * r.s);
    let ry: i64 = div1000_exec(dx * r.s + dy * r.c);
    Pos { x: center.x + rx, y: center.y + ry }
}

} // verus!
