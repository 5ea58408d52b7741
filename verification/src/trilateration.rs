//! The closed-form solver and its exact model.
//!
//! With anchor 1 as origin, let `u` and `v` lead to anchors 2 and 3, and let
//! `D = u.u`, `E = u.v`, `F = v.v` and `N = D F - E E`. A point `w` at the
//! squared distances `q1`, `q2`, `q3` from the anchors has `2 w.u = q1 - q2 + D`
//! and `2 w.v = q1 - q3 + F`, which fixes its part in the anchor plane as
//! `H / 2N` for an integer vector `H`; its height above the plane is the root
//! of `Z / 4N` for an integer `Z`, taken along `u x v`. So
//! `w = (H + (u x v) sqrt(Z)) / 2N`, and the three decisions (do anchors 1 and
//! 2 coincide, are the anchors colinear, is there a real height) are the signs
//! of `D`, `N` and `Z`.
//!
//! This is the textbook solution in the orthonormal frame `ex = u / d`,
//! `ey`, `ez = ex x ey` with `d = |u|`, `i = ex.v`, `j = ey.v`, multiplied
//! out: there `x = (q1 - q2 + d d) / 2d`, `y = (q1 - q3 + i i + j j) / 2j -
//! (i / j) x` and `z z = q1 - x x - y y`, and one finds `j j = N / D`,
//! `x ex + y ey = H / 2N`, `z z = Z / 4N` and `ez = (u x v) / sqrt(N)`. The
//! non-negative root `z` is taken: of the two mirror points that share the
//! ranges, the one on the side of the plane to which `u x v` points.
//!
//! The solver computes `H`, `N` and `Z` exactly, takes the integer square
//! root of `Z`, and rounds each coordinate of the quotient to the nearest
//! grid unit. The result is less than one grid unit from the exact solution
//! in each coordinate, and is the exact solution wherever that is a grid
//! point.

use vstd::prelude::*;
use crate::algebra::{lemma_mul_bound, lemma_square_le};
use crate::arith::{int_sqrt, isqrt, lemma_int_sqrt_exists, round_div, round_quotient};
use crate::geometry::{lemma_gram_det, lemma_solution_reach};
use crate::error::PositioningError;
use crate::vector::{Point, Vector3, MAX_COORDINATE};

verus! {

/// Largest offset, along any axis, of anchor 2 or 3 from anchor 1.
pub const MAX_SPAN: i64 = 500_000;

/// Largest distance that can be measured.
pub const MAX_DISTANCE: i64 = 1_000_000;

/// The square of `MAX_DISTANCE`.
pub const MAX_SQUARED_DISTANCE: i64 = 1_000_000_000_000;

/// The Gram determinant of `u` and `v`: the squared area of the
/// parallelogram they span. It is zero when they are colinear.
pub open spec fn gram_det(u: Point, v: Point) -> int {
    u.norm_sq() * v.norm_sq() - u.dot(v) * u.dot(v)
}

/// Twice the scalar product of the sought displacement with the leg of
/// squared length `leg_sq`, from the squared ranges at its two ends.
pub open spec fn twice_projection(q_near: int, q_far: int, leg_sq: int) -> int {
    q_near - q_far + leg_sq
}

/// Coefficient of `u` in the planar part, times `2 N`.
pub open spec fn coefficient_u(u: Point, v: Point, q1: int, q2: int, q3: int) -> int {
    twice_projection(q1, q2, u.norm_sq()) * v.norm_sq() - twice_projection(q1, q3, v.norm_sq())
        * u.dot(v)
}

/// Coefficient of `v` in the planar part, times `2 N`.
pub open spec fn coefficient_v(u: Point, v: Point, q1: int, q2: int, q3: int) -> int {
    twice_projection(q1, q3, v.norm_sq()) * u.norm_sq() - twice_projection(q1, q2, u.norm_sq())
        * u.dot(v)
}

/// The part of the solution that lies in the anchor plane, times `2 N`.
pub open spec fn planar_part(u: Point, v: Point, q1: int, q2: int, q3: int) -> Point {
    u.combined(coefficient_u(u, v, q1, q2, q3), v, coefficient_v(u, v, q1, q2, q3))
}

/// The squared length of the planar part of the solution, times `4 N`.
pub open spec fn planar_norm(u: Point, v: Point, q1: int, q2: int, q3: int) -> int {
    twice_projection(q1, q2, u.norm_sq()) * coefficient_u(u, v, q1, q2, q3) + twice_projection(
        q1,
        q3,
        v.norm_sq(),
    ) * coefficient_v(u, v, q1, q2, q3)
}

/// The squared height of the solution above the anchor plane, times `4 N`.
/// The ranges meet in a real point exactly when it is not negative.
pub open spec fn height_sq(u: Point, v: Point, q1: int, q2: int, q3: int) -> int {
    4 * (gram_det(u, v) * q1) - planar_norm(u, v, q1, q2, q3)
}

/// The solution relative to anchor 1, times `2 N`, with the height taken to
/// the integer square root: `H + (u x v) * isqrt(Z)`.
pub open spec fn scaled_solution(u: Point, v: Point, q1: int, q2: int, q3: int) -> Point {
    planar_part(u, v, q1, q2, q3).plus(
        u.cross(v).scaled(int_sqrt(height_sq(u, v, q1, q2, q3))),
    )
}

/// The solution relative to anchor 1: each coordinate of the scaled
/// solution divided by `2 N` and rounded to the nearest grid unit.
pub open spec fn local_solution(u: Point, v: Point, q1: int, q2: int, q3: int) -> Point {
    let w = scaled_solution(u, v, q1, q2, q3);
    let n2 = 2 * gram_det(u, v);
    Point { x: round_div(w.x, n2), y: round_div(w.y, n2), z: round_div(w.z, n2) }
}

/// What trilateration yields for anchors `p1`, `p2`, `p3` and the squared
/// distances `q1`, `q2`, `q3` measured to them.
pub open spec fn trilateration_squared(p1: Point, p2: Point, p3: Point, q1: int, q2: int, q3: int)
    -> Result<Point, PositioningError> {
    let u = p2.minus(p1);
    let v = p3.minus(p1);
    if q1 < 0 || q2 < 0 || q3 < 0 {
        Err(PositioningError::InvalidMeasurement)
    } else if u.norm_sq() == 0 {
        Err(PositioningError::InvalidGeometry)
    } else if gram_det(u, v) == 0 {
        Err(PositioningError::DegenerateBasis)
    } else if height_sq(u, v, q1, q2, q3) < 0 {
        Err(PositioningError::NoSolution)
    } else {
        Ok(p1.plus(local_solution(u, v, q1, q2, q3)))
    }
}

/// What trilateration yields for anchors `p1`, `p2`, `p3` and the distances
/// `d1`, `d2`, `d3` measured to them.
pub open spec fn trilateration(p1: Point, p2: Point, p3: Point, d1: int, d2: int, d3: int)
    -> Result<Point, PositioningError> {
    if d1 < 0 || d2 < 0 || d3 < 0 {
        Err(PositioningError::InvalidMeasurement)
    } else {
        trilateration_squared(p1, p2, p3, d1 * d1, d2 * d2, d3 * d3)
    }
}

/// A result shifted by `t`: a position moves, a failure stays as it is.
pub open spec fn shifted(r: Result<Point, PositioningError>, t: Point) -> Result<
    Point,
    PositioningError,
> {
    match r {
        Ok(p) => Ok(p.plus(t)),
        Err(e) => Err(e),
    }
}

/// The point with the coordinates of a triple.
pub open spec fn point_of(p: (i64, i64, i64)) -> Point {
    Point { x: p.0 as int, y: p.1 as int, z: p.2 as int }
}

/// The anchors are within the solver's machine limits: anchor 1 within
/// `MAX_COORDINATE` of the origin, anchors 2 and 3 within `MAX_SPAN` of
/// anchor 1, along every axis.
pub open spec fn anchors_in_range(p1: Point, p2: Point, p3: Point) -> bool {
    &&& p1.within(MAX_COORDINATE as int)
    &&& p2.minus(p1).within(MAX_SPAN as int)
    &&& p3.minus(p1).within(MAX_SPAN as int)
}

/// The product of two bounded numbers.
fn prod(a: i128, b: i128, Ghost(ma): Ghost<int>, Ghost(mb): Ghost<int>) -> (r: i128)
    requires
        -ma <= a <= ma,
        -mb <= b <= mb,
        ma * mb <= i128::MAX,
    ensures
        r == a * b,
        -(ma * mb) <= r <= ma * mb,
{
    proof {
        lemma_mul_bound(a as int, b as int, ma, mb);
    }
    a * b
}

/// The scalar product of two vectors with coordinates bounded by `MAX_SPAN`.
fn dot3(a: (i128, i128, i128), b: (i128, i128, i128)) -> (r: i128)
    requires
        -MAX_SPAN <= a.0 <= MAX_SPAN,
        -MAX_SPAN <= a.1 <= MAX_SPAN,
        -MAX_SPAN <= a.2 <= MAX_SPAN,
        -MAX_SPAN <= b.0 <= MAX_SPAN,
        -MAX_SPAN <= b.1 <= MAX_SPAN,
        -MAX_SPAN <= b.2 <= MAX_SPAN,
    ensures
        r == a.0 * b.0 + a.1 * b.1 + a.2 * b.2,
        -750_000_000_000 <= r <= 750_000_000_000,
{
    let x = prod(a.0, b.0, Ghost(500_000), Ghost(500_000));
    let y = prod(a.1, b.1, Ghost(500_000), Ghost(500_000));
    let z = prod(a.2, b.2, Ghost(500_000), Ghost(500_000));
    x + y + z
}

/// One coordinate of a vector product: `a * d - b * c`.
fn det2(a: i128, b: i128, c: i128, d: i128) -> (r: i128)
    requires
        -MAX_SPAN <= a <= MAX_SPAN,
        -MAX_SPAN <= b <= MAX_SPAN,
        -MAX_SPAN <= c <= MAX_SPAN,
        -MAX_SPAN <= d <= MAX_SPAN,
    ensures
        r == a * d - b * c,
        -500_000_000_000 <= r <= 500_000_000_000,
{
    let x = prod(a, d, Ghost(500_000), Ghost(500_000));
    let y = prod(b, c, Ghost(500_000), Ghost(500_000));
    x - y
}

/// Locates a probe from three anchors and the distances measured to them.
///
/// A negative distance is rejected first; then coincident anchors 1 and 2;
/// then colinear anchors; then ranges that meet in no real point. Otherwise
/// the result is the solution on the side of the anchor plane to which
/// `(p2 - p1) x (p3 - p1)` points, rounded to the grid as `trilateration`
/// says. The mirror image on the other side is the second solution of the
/// same ranges; a caller who wants it reflects the result in the plane.
pub fn trilaterate_3d(anchor_positions: [(i64, i64, i64); 3], distances: [i64; 3]) -> (result:
    Result<Vector3, PositioningError>)
    requires
        anchors_in_range(
            point_of(anchor_positions[0]),
            point_of(anchor_positions[1]),
            point_of(anchor_positions[2]),
        ),
        distances[0] <= MAX_DISTANCE,
        distances[1] <= MAX_DISTANCE,
        distances[2] <= MAX_DISTANCE,
    ensures
        match result {
            Ok(p) => trilateration(
                point_of(anchor_positions[0]),
                point_of(anchor_positions[1]),
                point_of(anchor_positions[2]),
                distances[0] as int,
                distances[1] as int,
                distances[2] as int,
            ) == Ok::<Point, PositioningError>(p@),
            Err(e) => trilateration(
                point_of(anchor_positions[0]),
                point_of(anchor_positions[1]),
                point_of(anchor_positions[2]),
                distances[0] as int,
                distances[1] as int,
                distances[2] as int,
            ) == Err::<Point, PositioningError>(e),
        },
{
    let d1 = distances[0];
    let d2 = distances[1];
    let d3 = distances[2];
    if d1 < 0 || d2 < 0 || d3 < 0 {
        return Err(PositioningError::InvalidMeasurement);
    }
    proof {
        lemma_mul_bound(d1 as int, d1 as int, 1_000_000, 1_000_000);
        lemma_mul_bound(d2 as int, d2 as int, 1_000_000, 1_000_000);
        lemma_mul_bound(d3 as int, d3 as int, 1_000_000, 1_000_000);
        assert(d1 * d1 >= 0 && d2 * d2 >= 0 && d3 * d3 >= 0) by (nonlinear_arith);
    }
    trilaterate_3d_squared(anchor_positions, [d1 * d1, d2 * d2, d3 * d3])
}

/// Locates a probe from three anchors and the squares of the distances
/// measured to them. It decides and rounds as `trilaterate_3d` does, and
/// takes ranges whose squares are whole numbers though they themselves are
/// not: the squared distances of any grid point from the anchors are such.
pub fn trilaterate_3d_squared(
    anchor_positions: [(i64, i64, i64); 3],
    squared_distances: [i64; 3],
) -> (result: Result<Vector3, PositioningError>)
    requires
        anchors_in_range(
            point_of(anchor_positions[0]),
            point_of(anchor_positions[1]),
            point_of(anchor_positions[2]),
        ),
        squared_distances[0] <= MAX_SQUARED_DISTANCE,
        squared_distances[1] <= MAX_SQUARED_DISTANCE,
        squared_distances[2] <= MAX_SQUARED_DISTANCE,
    ensures
        match result {
            Ok(p) => trilateration_squared(
                point_of(anchor_positions[0]),
                point_of(anchor_positions[1]),
                point_of(anchor_positions[2]),
                squared_distances[0] as int,
                squared_distances[1] as int,
                squared_distances[2] as int,
            ) == Ok::<Point, PositioningError>(p@),
            Err(e) => trilateration_squared(
                point_of(anchor_positions[0]),
                point_of(anchor_positions[1]),
                point_of(anchor_positions[2]),
                squared_distances[0] as int,
                squared_distances[1] as int,
                squared_distances[2] as int,
            ) == Err::<Point, PositioningError>(e),
        },
{
    let (x1, y1, z1) = anchor_positions[0];
    let (x2, y2, z2) = anchor_positions[1];
    let (x3, y3, z3) = anchor_positions[2];
    if squared_distances[0] < 0 || squared_distances[1] < 0 || squared_distances[2] < 0 {
        return Err(PositioningError::InvalidMeasurement);
    }
    let q1 = squared_distances[0] as i128;
    let q2 = squared_distances[1] as i128;
    let q3 = squared_distances[2] as i128;
    let ghost pu = point_of(anchor_positions[1]).minus(point_of(anchor_positions[0]));
    let ghost pv = point_of(anchor_positions[2]).minus(point_of(anchor_positions[0]));
    let u: (i128, i128, i128) = (
        x2 as i128 - x1 as i128,
        y2 as i128 - y1 as i128,
        z2 as i128 - z1 as i128,
    );
    let v: (i128, i128, i128) = (
        x3 as i128 - x1 as i128,
        y3 as i128 - y1 as i128,
        z3 as i128 - z1 as i128,
    );
    let dd = dot3(u, u);
    let ee = dot3(u, v);
    let ff = dot3(v, v);
    assert(dd == pu.norm_sq() && ee == pu.dot(pv) && ff == pv.norm_sq());
    if dd == 0 {
        return Err(PositioningError::InvalidGeometry);
    }
    let n = prod(dd, ff, Ghost(750_000_000_000), Ghost(750_000_000_000)) - prod(
        ee,
        ee,
        Ghost(750_000_000_000),
        Ghost(750_000_000_000),
    );
    proof {
        lemma_gram_det(pu, pv);
        assert(ee * ee >= 0) by (nonlinear_arith);
    }
    assert(n == gram_det(pu, pv));
    if n == 0 {
        return Err(PositioningError::DegenerateBasis);
    }
    let al = q1 - q2 + dd;
    let be = q1 - q3 + ff;
    let s = prod(al, ff, Ghost(1_750_000_000_000), Ghost(750_000_000_000)) - prod(
        be,
        ee,
        Ghost(1_750_000_000_000),
        Ghost(750_000_000_000),
    );
    let t = prod(be, dd, Ghost(1_750_000_000_000), Ghost(750_000_000_000)) - prod(
        al,
        ee,
        Ghost(1_750_000_000_000),
        Ghost(750_000_000_000),
    );
    assert(s == coefficient_u(pu, pv, q1 as int, q2 as int, q3 as int));
    assert(t == coefficient_v(pu, pv, q1 as int, q2 as int, q3 as int));
    let g = prod(al, s, Ghost(1_750_000_000_000), Ghost(2_625_000_000_000_000_000_000_000))
        + prod(be, t, Ghost(1_750_000_000_000), Ghost(2_625_000_000_000_000_000_000_000));
    let nq = prod(n, q1, Ghost(562_500_000_000_000_000_000_000), Ghost(1_000_000_000_000));
    let z = 4 * nq - g;
    assert(z == height_sq(pu, pv, q1 as int, q2 as int, q3 as int));
    if z < 0 {
        return Err(PositioningError::NoSolution);
    }
    let r = isqrt(z as u128) as i128;
    proof {
        lemma_square_le(r as int, 4_000_000_000_000_000_000);
        // The solution is no farther from anchor 1 than the range to it.
        lemma_int_sqrt_exists(q1 as int);
        lemma_square_le(int_sqrt(q1 as int), 1_000_000);
        lemma_solution_reach(pu, pv, q1 as int, q2 as int, q3 as int, int_sqrt(q1 as int) + 1);
    }
    let cx = det2(u.1, u.2, v.1, v.2);
    let cy = det2(u.2, u.0, v.2, v.0);
    let cz = det2(u.0, u.1, v.0, v.1);
    assert(cx == pu.cross(pv).x && cy == pu.cross(pv).y && cz == pu.cross(pv).z);
    let wx = prod(s, u.0, Ghost(2_625_000_000_000_000_000_000_000), Ghost(500_000)) + prod(
        t,
        v.0,
        Ghost(2_625_000_000_000_000_000_000_000),
        Ghost(500_000),
    ) + prod(cx, r, Ghost(500_000_000_000), Ghost(4_000_000_000_000_000_000));
    let wy = prod(s, u.1, Ghost(2_625_000_000_000_000_000_000_000), Ghost(500_000)) + prod(
        t,
        v.1,
        Ghost(2_625_000_000_000_000_000_000_000),
        Ghost(500_000),
    ) + prod(cy, r, Ghost(500_000_000_000), Ghost(4_000_000_000_000_000_000));
    let wz = prod(s, u.2, Ghost(2_625_000_000_000_000_000_000_000), Ghost(500_000)) + prod(
        t,
        v.2,
        Ghost(2_625_000_000_000_000_000_000_000),
        Ghost(500_000),
    ) + prod(cz, r, Ghost(500_000_000_000), Ghost(4_000_000_000_000_000_000));
    assert(scaled_solution(pu, pv, q1 as int, q2 as int, q3 as int) == (Point {
        x: wx as int,
        y: wy as int,
        z: wz as int,
    }));
    let ox = round_quotient(wx, 2 * n);
    let oy = round_quotient(wy, 2 * n);
    let oz = round_quotient(wz, 2 * n);
    assert(local_solution(pu, pv, q1 as int, q2 as int, q3 as int) == (Point {
        x: ox as int,
        y: oy as int,
        z: oz as int,
    }));
    Ok(Vector3 { x: x1 + ox as i64, y: y1 + oy as i64, z: z1 + oz as i64 })
}

} // verus!
