//! Fixed-point planar geometry: points and headings as integer vectors, the
//! squared distance they are compared by, the lazy chase rule that keeps the
//! snake's chain together, and rotation of a heading by a unit vector.

use vstd::prelude::*;
use crate::arith::{
    mag, tdiv, sqrt_floor, lemma_sqrt_floor_bounds, lemma_sq_lt, lemma_mag_sq, lemma_tdiv_mag,
    lemma_mul_mag_bound, lemma_scaled_div_band, div_trunc, isqrt,
};
use crate::DIR_ONE;

verus! {

/// A point or heading of the playing field, in fixed-point steps.
#[derive(Clone, Copy, PartialEq, Eq, Structural, Debug)]
pub struct Vec2 {
    pub x: i64,
    pub y: i64,
}

/// The gap the chase rule restores: two segment radii.
pub const CHASE_GAP: i64 = 80;

/// Coordinate bound under which all the squared distances taken here stay
/// far from overflow.
pub const COORD_LIMIT: i64 = 1_000_000;

impl Vec2 {
    /// Both coordinates within `bound` of zero.
    pub open spec fn wf_within(self, bound: int) -> bool {
        mag(self.x as int) <= bound && mag(self.y as int) <= bound
    }
}

/// Squared distance between two points.
pub open spec fn dist2(a: Vec2, b: Vec2) -> int {
    (a.x - b.x) * (a.x - b.x) + (a.y - b.y) * (a.y - b.y)
}

/// Squared norm of a heading.
pub open spec fn norm2(a: Vec2) -> int {
    a.x * a.x + a.y * a.y
}

/// `c` lies between `a` and `b`, whichever way they are ordered.
pub open spec fn between(a: int, b: int, c: int) -> bool {
    (a <= c <= b) || (b <= c <= a)
}

/// Squared distance between two bounded points, as a machine integer.
pub fn dist2_i64(a: Vec2, b: Vec2) -> (r: i64)
    requires
        a.wf_within(COORD_LIMIT as int),
        b.wf_within(COORD_LIMIT as int),
    ensures
        r == dist2(a, b),
        0 <= r <= 8_000_000_000_000,
{
    let dx = a.x - b.x;
    let dy = a.y - b.y;
    proof {
        assert(dx * dx <= 4_000_000_000_000 && 0 <= dx * dx) by (nonlinear_arith)
            requires
                mag(dx as int) <= 2_000_000,
        ;
        assert(dy * dy <= 4_000_000_000_000 && 0 <= dy * dy) by (nonlinear_arith)
            requires
                mag(dy as int) <= 2_000_000,
        ;
    }
    dx * dx + dy * dy
}

/// Where the lazy chase rule puts a follower at `p` whose leader stands at
/// `l`: in place while the leader is within two radii; otherwise pulled
/// straight toward the leader until the gap is two radii again, at the
/// precision of the fixed-point grid.
pub open spec fn chase(p: Vec2, l: Vec2) -> Vec2 {
    let dx = l.x - p.x;
    let dy = l.y - p.y;
    let d2 = dx * dx + dy * dy;
    if d2 <= CHASE_GAP * CHASE_GAP {
        p
    } else {
        let d = sqrt_floor(d2);
        Vec2 {
            x: (l.x - tdiv(dx * CHASE_GAP, d)) as i64,
            y: (l.y - tdiv(dy * CHASE_GAP, d)) as i64,
        }
    }
}

/// The floor square root of a squared distance beyond the chase gap is at
/// least the gap itself.
proof fn lemma_gap_root(d2: int)
    requires
        CHASE_GAP * CHASE_GAP < d2,
    ensures
        CHASE_GAP <= sqrt_floor(d2),
        0 < sqrt_floor(d2),
        sqrt_floor(d2) * sqrt_floor(d2) <= d2 < (sqrt_floor(d2) + 1) * (sqrt_floor(d2) + 1),
{
    lemma_sqrt_floor_bounds(d2);
    let d = sqrt_floor(d2);
    lemma_sq_lt(CHASE_GAP as int, d + 1);
}

/// The chase move stays on the segment between follower and leader, one
/// coordinate at a time.
pub proof fn lemma_chase_between(p: Vec2, l: Vec2)
    requires
        p.wf_within(COORD_LIMIT as int),
        l.wf_within(COORD_LIMIT as int),
    ensures
        between(p.x as int, l.x as int, chase(p, l).x as int),
        between(p.y as int, l.y as int, chase(p, l).y as int),
{
    let dx = l.x - p.x;
    let dy = l.y - p.y;
    let d2 = dx * dx + dy * dy;
    if d2 > CHASE_GAP * CHASE_GAP {
        let d = sqrt_floor(d2);
        lemma_gap_root(d2);
        lemma_tdiv_mag(dx * CHASE_GAP, d);
        lemma_tdiv_mag(dy * CHASE_GAP, d);
        let tx = tdiv(dx * CHASE_GAP, d);
        let ty = tdiv(dy * CHASE_GAP, d);
        assert(mag(tx) <= mag(dx) && mag(ty) <= mag(dy)) by (nonlinear_arith)
            requires
                mag(tx) * d <= mag(dx * CHASE_GAP),
                mag(ty) * d <= mag(dy * CHASE_GAP),
                mag(dx * CHASE_GAP) == mag(dx) * CHASE_GAP,
                mag(dy * CHASE_GAP) == mag(dy) * CHASE_GAP,
                CHASE_GAP <= d,
                0 <= mag(tx),
                0 <= mag(ty),
                0 <= mag(dx),
                0 <= mag(dy),
        ;
    }
}

/// Each coordinate of a vector stays under the bound its squared norm
/// stays strictly under.
pub proof fn lemma_comp_bound(a: Vec2, cap: int)
    requires
        0 <= cap,
        norm2(a) < cap * cap,
    ensures
        mag(a.x as int) < cap,
        mag(a.y as int) < cap,
{
    lemma_mag_sq(a.x as int);
    lemma_mag_sq(a.y as int);
    assert(mag(a.x as int) * mag(a.x as int) < cap * cap) by (nonlinear_arith)
        requires
            mag(a.x as int) * mag(a.x as int) + mag(a.y as int) * mag(a.y as int) < cap * cap,
            0 <= mag(a.y as int) * mag(a.y as int),
    ;
    assert(mag(a.y as int) * mag(a.y as int) < cap * cap) by (nonlinear_arith)
        requires
            mag(a.x as int) * mag(a.x as int) + mag(a.y as int) * mag(a.y as int) < cap * cap,
            0 <= mag(a.x as int) * mag(a.x as int),
    ;
    lemma_sq_lt(mag(a.x as int), cap);
    lemma_sq_lt(mag(a.y as int), cap);
}

/// A follower pulled by the chase rule ends up two radii from its leader,
/// at the precision of the grid: the squared gap lands within a few steps
/// under `CHASE_GAP * CHASE_GAP` and strictly under `(CHASE_GAP + 1)^2`.
/// The rule contracts a stretched link without overshooting.
pub proof fn lemma_chase_far(p: Vec2, l: Vec2)
    requires
        p.wf_within(COORD_LIMIT as int),
        l.wf_within(COORD_LIMIT as int),
        dist2(p, l) > CHASE_GAP * CHASE_GAP,
    ensures
        CHASE_GAP * CHASE_GAP - 4 * (CHASE_GAP + 1) - 2 < dist2(chase(p, l), l),
        dist2(chase(p, l), l) < (CHASE_GAP + 1) * (CHASE_GAP + 1),
{
    let dx = l.x - p.x;
    let dy = l.y - p.y;
    let d2 = dx * dx + dy * dy;
    assert(dist2(p, l) == d2) by (nonlinear_arith)
        requires
            dx == l.x - p.x,
            dy == l.y - p.y,
            d2 == dx * dx + dy * dy,
            dist2(p, l) == (p.x - l.x) * (p.x - l.x) + (p.y - l.y) * (p.y - l.y),
    ;
    let d = sqrt_floor(d2);
    lemma_gap_root(d2);
    let u = dx * CHASE_GAP;
    let v = dy * CHASE_GAP;
    assert(u * u + v * v == 6400 * d2) by (nonlinear_arith)
        requires
            u == dx * CHASE_GAP,
            v == dy * CHASE_GAP,
            d2 == dx * dx + dy * dy,
            CHASE_GAP == 80,
    ;
    assert(80 * 80 * (d * d) <= u * u + v * v) by (nonlinear_arith)
        requires
            u * u + v * v == 6400 * d2,
            d * d <= d2,
    ;
    assert(u * u + v * v < 81 * 81 * (d * d)) by (nonlinear_arith)
        requires
            u * u + v * v == 6400 * d2,
            d2 < (d + 1) * (d + 1),
            80 <= d,
    ;
    lemma_scaled_div_band(u, v, d, 80, 81);
    let tx = tdiv(u, d);
    let ty = tdiv(v, d);
    lemma_tdiv_mag(u, d);
    lemma_tdiv_mag(v, d);
    assert(chase(p, l).x == l.x - tx && chase(p, l).y == l.y - ty);
    assert(dist2(chase(p, l), l) == tx * tx + ty * ty) by (nonlinear_arith)
        requires
            chase(p, l).x == l.x - tx,
            chase(p, l).y == l.y - ty,
            dist2(chase(p, l), l) == (chase(p, l).x - l.x) * (chase(p, l).x - l.x) + (chase(
                p,
                l,
            ).y - l.y) * (chase(p, l).y - l.y),
    ;
}

/// One chase move, executably.
pub fn chase_step(p: Vec2, l: Vec2) -> (r: Vec2)
    requires
        p.wf_within(COORD_LIMIT as int),
        l.wf_within(COORD_LIMIT as int),
    ensures
        r == chase(p, l),
        between(p.x as int, l.x as int, r.x as int),
        between(p.y as int, l.y as int, r.y as int),
{
    proof {
        lemma_chase_between(p, l);
    }
    let dx = l.x - p.x;
    let dy = l.y - p.y;
    let d2 = dist2_i64(l, p);
    proof {
        assert(d2 == dx * dx + dy * dy);
    }
    if d2 <= CHASE_GAP * CHASE_GAP {
        p
    } else {
        let d = isqrt(d2);
        proof {
            lemma_gap_root(d2 as int);
        }
        let tx = div_trunc(dx * CHASE_GAP, d);
        let ty = div_trunc(dy * CHASE_GAP, d);
        Vec2 { x: l.x - tx, y: l.y - ty }
    }
}

/// A well-formed heading: its squared norm within the tolerance band of
/// five steps around `DIR_ONE`.
pub open spec fn dir_wf(dir: Vec2) -> bool {
    (DIR_ONE - 5) * (DIR_ONE - 5) <= norm2(dir) && norm2(dir) <= (DIR_ONE + 5) * (DIR_ONE + 5)
}

/// A well-formed rotation: a unit vector of the grid, with two steps of
/// tolerance for the rounding of its trigonometric components.
pub open spec fn rot_wf(rot: Vec2) -> bool {
    (DIR_ONE - 2) * (DIR_ONE - 2) <= norm2(rot) && norm2(rot) <= (DIR_ONE + 2) * (DIR_ONE + 2)
}

/// Heading rotated by `rot`: complex multiplication scaled back by
/// `DIR_ONE`, then stretched back onto the circle of radius `DIR_ONE` so
/// that rounding never makes the norm drift. Should the rounded product
/// degenerate to zero, the heading is left as it was.
pub open spec fn rotate_dir(dir: Vec2, rot: Vec2) -> Vec2 {
    let rx = tdiv(dir.x * rot.x - dir.y * rot.y, DIR_ONE as int);
    let ry = tdiv(dir.x * rot.y + dir.y * rot.x, DIR_ONE as int);
    if rx * rx + ry * ry == 0 {
        dir
    } else {
        let d = sqrt_floor(rx * rx + ry * ry);
        Vec2 {
            x: tdiv(rx * (DIR_ONE as int), d) as i64,
            y: tdiv(ry * (DIR_ONE as int), d) as i64,
        }
    }
}

/// A rotation is orthogonal: the squared norm of the complex product of
/// two vectors is the product of their squared norms.
pub proof fn lemma_rotation_norm_product(a: int, b: int, c: int, s: int)
    ensures
        (a * c - b * s) * (a * c - b * s) + (a * s + b * c) * (a * s + b * c) == (a * a + b * b)
            * (c * c + s * s),
{
    let p1 = a * c;
    let p2 = b * s;
    let p3 = a * s;
    let p4 = b * c;
    assert((p1 - p2) * (p1 - p2) == p1 * p1 - 2 * (p1 * p2) + p2 * p2) by (nonlinear_arith);
    assert((p3 + p4) * (p3 + p4) == p3 * p3 + 2 * (p3 * p4) + p4 * p4) by (nonlinear_arith);
    assert(p1 * p2 == p3 * p4) by (nonlinear_arith)
        requires
            p1 == a * c,
            p2 == b * s,
            p3 == a * s,
            p4 == b * c,
    ;
    assert(p1 * p1 == (a * a) * (c * c)) by (nonlinear_arith)
        requires
            p1 == a * c,
    ;
    assert(p2 * p2 == (b * b) * (s * s)) by (nonlinear_arith)
        requires
            p2 == b * s,
    ;
    assert(p3 * p3 == (a * a) * (s * s)) by (nonlinear_arith)
        requires
            p3 == a * s,
    ;
    assert(p4 * p4 == (b * b) * (c * c)) by (nonlinear_arith)
        requires
            p4 == b * c,
    ;
    assert((a * a + b * b) * (c * c + s * s) == (a * a) * (c * c) + (a * a) * (s * s) + (b * b) * (c
        * c) + (b * b) * (s * s)) by (nonlinear_arith);
}

/// Rotating a well-formed heading by a well-formed rotation keeps the
/// heading well formed: rotation preserves the unit norm, to the tolerance
/// of the grid.
pub proof fn lemma_rotate_keeps_norm(dir: Vec2, rot: Vec2)
    requires
        dir_wf(dir),
        rot_wf(rot),
    ensures
        dir_wf(rotate_dir(dir, rot)),
        DIR_ONE * DIR_ONE - 4 * (DIR_ONE + 2) - 2 < norm2(rotate_dir(dir, rot)),
        norm2(rotate_dir(dir, rot)) < (DIR_ONE + 2) * (DIR_ONE + 2),
{
    let a = dir.x as int;
    let b = dir.y as int;
    let c = rot.x as int;
    let s = rot.y as int;
    let u = a * c - b * s;
    let v = a * s + b * c;
    lemma_rotation_norm_product(a, b, c, s);
    assert(993_010 * 993_010 <= u * u + v * v && u * u + v * v <= 1_007_010 * 1_007_010)
        by (nonlinear_arith)
        requires
            u * u + v * v == (a * a + b * b) * (c * c + s * s),
            995 * 995 <= a * a + b * b <= 1005 * 1005,
            998 * 998 <= c * c + s * s <= 1002 * 1002,
    ;
    lemma_scaled_div_band(u, v, 1000, 993, 1008);
    let rx = tdiv(u, 1000);
    let ry = tdiv(v, 1000);
    let s1 = rx * rx + ry * ry;
    assert(982_013 < s1 < 1_016_064);
    let d1 = sqrt_floor(s1);
    lemma_sqrt_floor_bounds(s1);
    assert(990 < d1 + 1) by {
        lemma_sq_lt(990, d1 + 1);
    }
    assert(d1 < 1008) by {
        lemma_sq_lt(d1, 1008);
    }
    assert(1000 * 1000 * (d1 * d1) <= (rx * 1000) * (rx * 1000) + (ry * 1000) * (ry * 1000))
        by (nonlinear_arith)
        requires
            d1 * d1 <= rx * rx + ry * ry,
    ;
    assert((rx * 1000) * (rx * 1000) + (ry * 1000) * (ry * 1000) < 1002 * 1002 * (d1 * d1))
        by (nonlinear_arith)
        requires
            rx * rx + ry * ry < (d1 + 1) * (d1 + 1),
            990 <= d1,
    ;
    lemma_scaled_div_band(rx * 1000, ry * 1000, d1, 1000, 1002);
    let fx = tdiv(rx * 1000, d1);
    let fy = tdiv(ry * 1000, d1);
    assert(995_990 < fx * fx + fy * fy < 1_004_004);
    assert(rotate_dir(dir, rot).x == fx && rotate_dir(dir, rot).y == fy);
    assert(norm2(rotate_dir(dir, rot)) == fx * fx + fy * fy) by (nonlinear_arith)
        requires
            rotate_dir(dir, rot).x == fx,
            rotate_dir(dir, rot).y == fy,
            norm2(rotate_dir(dir, rot)) == rotate_dir(dir, rot).x * rotate_dir(dir, rot).x
                + rotate_dir(dir, rot).y * rotate_dir(dir, rot).y,
    ;
}

/// One rotation of a heading, executably.
pub fn rotate_step(dir: Vec2, rot: Vec2) -> (r: Vec2)
    requires
        dir_wf(dir),
        rot_wf(rot),
    ensures
        r == rotate_dir(dir, rot),
        dir_wf(r),
{
    proof {
        lemma_rotate_keeps_norm(dir, rot);
        lemma_comp_bound(dir, 1006);
        lemma_comp_bound(rot, 1003);
        lemma_mul_mag_bound(dir.x as int, rot.x as int, 1006, 1003);
        lemma_mul_mag_bound(dir.y as int, rot.y as int, 1006, 1003);
        lemma_mul_mag_bound(dir.x as int, rot.y as int, 1006, 1003);
        lemma_mul_mag_bound(dir.y as int, rot.x as int, 1006, 1003);
    }
    let u = dir.x * rot.x - dir.y * rot.y;
    let v = dir.x * rot.y + dir.y * rot.x;
    let rx = div_trunc(u, DIR_ONE);
    let ry = div_trunc(v, DIR_ONE);
    proof {
        lemma_tdiv_mag(u as int, DIR_ONE as int);
        lemma_tdiv_mag(v as int, DIR_ONE as int);
        lemma_mul_mag_bound(rx as int, rx as int, 2_018_036, 2_018_036);
        lemma_mul_mag_bound(ry as int, ry as int, 2_018_036, 2_018_036);
        lemma_mag_sq(rx as int);
        lemma_mag_sq(ry as int);
    }
    let s1 = rx * rx + ry * ry;
    if s1 == 0 {
        dir
    } else {
        let d = isqrt(s1);
        proof {
            assert(1 <= d) by (nonlinear_arith)
                requires
                    1 <= s1,
                    0 <= d,
                    s1 < (d + 1) * (d + 1),
            ;
        }
        let fx = div_trunc(rx * DIR_ONE, d);
        let fy = div_trunc(ry * DIR_ONE, d);
        proof {
            lemma_tdiv_mag(rx * DIR_ONE as int, d as int);
            lemma_tdiv_mag(ry * DIR_ONE as int, d as int);
        }
        Vec2 { x: fx, y: fy }
    }
}

} // verus!
