//! Laws of the solver and of the frame, proved of their exact models.

use vstd::prelude::*;
use crate::algebra::{
    lemma_cancel,
    lemma_combined_dot,
    lemma_cramer,
    lemma_cross_orthogonal,
    lemma_dist3,
    lemma_lagrange,
    lemma_mul3,
    lemma_offset_dot,
    lemma_offset_norm,
    lemma_resolve,
    lemma_resolved_dot,
    lemma_scaled_dot,
    lemma_square_diff,
    lemma_square_le,
    lemma_twice,
};
use crate::arith::{
    int_sqrt,
    lemma_int_sqrt_exists,
    lemma_int_sqrt_of_square,
    lemma_root_multiple_between,
    lemma_round_div_brackets,
    lemma_round_div_exact,
    root_multiple_between,
};
use crate::error::PositioningError;
use crate::frame::Frame;
use crate::geometry::{
    lemma_gram_det,
    lemma_planar_norm,
    lemma_planar_orthogonal,
    lemma_solution_reach,
};
use crate::trilateration::{
    coefficient_u,
    coefficient_v,
    gram_det,
    height_sq,
    local_solution,
    planar_norm,
    planar_part,
    scaled_solution,
    shifted,
    trilateration,
    trilateration_squared,
    twice_projection,
};
use crate::vector::{dist_sq, Point};

verus! {

/// Shifting the three anchors by one vector shifts the solved position by
/// the same vector and changes nothing else: the same inputs fail, in the
/// same way.
pub proof fn lemma_shift_invariance(
    p1: Point,
    p2: Point,
    p3: Point,
    d1: int,
    d2: int,
    d3: int,
    t: Point,
)
    ensures
        trilateration(p1.plus(t), p2.plus(t), p3.plus(t), d1, d2, d3) == shifted(
            trilateration(p1, p2, p3, d1, d2, d3),
            t,
        ),
{
    lemma_shift_invariance_squared(p1, p2, p3, d1 * d1, d2 * d2, d3 * d3, t);
}

/// The same of squared distances.
pub proof fn lemma_shift_invariance_squared(
    p1: Point,
    p2: Point,
    p3: Point,
    q1: int,
    q2: int,
    q3: int,
    t: Point,
)
    ensures
        trilateration_squared(p1.plus(t), p2.plus(t), p3.plus(t), q1, q2, q3) == shifted(
            trilateration_squared(p1, p2, p3, q1, q2, q3),
            t,
        ),
{
    assert(p2.plus(t).minus(p1.plus(t)) == p2.minus(p1));
    assert(p3.plus(t).minus(p1.plus(t)) == p3.minus(p1));
    let w = local_solution(p2.minus(p1), p3.minus(p1), q1, q2, q3);
    assert(p1.plus(t).plus(w) == p1.plus(w).plus(t));
}

/// The squared length of a difference, written out.
pub proof fn lemma_diff_norm(w: Point, u: Point)
    ensures
        w.minus(u).norm_sq() == w.norm_sq() - 2 * w.dot(u) + u.norm_sq(),
{
    lemma_square_diff(w.x, u.x);
    lemma_square_diff(w.y, u.y);
    lemma_square_diff(w.z, u.z);
}

/// Anchors that are not colinear are distinct.
pub proof fn lemma_spanning_anchors_differ(u: Point, v: Point)
    requires
        gram_det(u, v) != 0,
    ensures
        u.norm_sq() != 0,
        gram_det(u, v) > 0,
{
    lemma_gram_det(u, v);
    assert(u.norm_sq() == 0 ==> gram_det(u, v) <= 0) by (nonlinear_arith)
        requires
            gram_det(u, v) == u.norm_sq() * v.norm_sq() - u.dot(v) * u.dot(v),
    ;
}

/// Round trip. Let the anchors not be colinear, and let `p` be any grid
/// point on the side of the anchor plane to which `(p2 - p1) x (p3 - p1)`
/// points, or in the plane. From its true squared distances to the anchors
/// the solver gives back `p` itself.
pub proof fn lemma_round_trip_squared(p1: Point, p2: Point, p3: Point, p: Point)
    requires
        gram_det(p2.minus(p1), p3.minus(p1)) != 0,
        p.minus(p1).dot(p2.minus(p1).cross(p3.minus(p1))) >= 0,
    ensures
        trilateration_squared(p1, p2, p3, dist_sq(p, p1), dist_sq(p, p2), dist_sq(p, p3)) == Ok::<
            Point,
            PositioningError,
        >(p),
{
    lemma_norm_sq_nonnegative(p.minus(p1));
    lemma_norm_sq_nonnegative(p.minus(p2));
    lemma_norm_sq_nonnegative(p.minus(p3));
    let (q1, q2, q3) = (dist_sq(p, p1), dist_sq(p, p2), dist_sq(p, p3));
    let u = p2.minus(p1);
    let v = p3.minus(p1);
    let w = p.minus(p1);
    let c = u.cross(v);
    let n = gram_det(u, v);
    let mu = w.dot(u);
    let lam = w.dot(v);
    let k = w.dot(c);
    let s_half = mu * v.norm_sq() - lam * u.dot(v);
    let t_half = lam * u.norm_sq() - mu * u.dot(v);
    let s = coefficient_u(u, v, q1, q2, q3);
    let t = coefficient_v(u, v, q1, q2, q3);
    lemma_spanning_anchors_differ(u, v);
    // The ranges give the projections of w on u and v.
    assert(p.minus(p2) == w.minus(u));
    assert(p.minus(p3) == w.minus(v));
    lemma_diff_norm(w, u);
    lemma_diff_norm(w, v);
    assert(twice_projection(q1, q2, u.norm_sq()) == 2 * mu);
    assert(twice_projection(q1, q3, v.norm_sq()) == 2 * lam);
    lemma_twice(mu, v.norm_sq());
    lemma_twice(lam, u.dot(v));
    lemma_twice(lam, u.norm_sq());
    lemma_twice(mu, u.dot(v));
    assert(s == 2 * s_half && t == 2 * t_half);
    // w resolved along u, v and c.
    lemma_resolve(u, v, w);
    lemma_resolved_dot(w, u, v, c, n, s_half, t_half, k);
    // The height is 2 k / 2 n.
    let z = height_sq(u, v, q1, q2, q3);
    lemma_twice(mu, s);
    lemma_twice(mu, s_half);
    lemma_twice(lam, t);
    lemma_twice(lam, t_half);
    lemma_twice(k, k);
    assert(z == (2 * k) * (2 * k));
    lemma_int_sqrt_of_square(2 * k);
    assert(0 <= k * k) by (nonlinear_arith);
    // The scaled solution is 2 n w.
    let h = planar_part(u, v, q1, q2, q3);
    let sol = scaled_solution(u, v, q1, q2, q3);
    lemma_twice(s_half, u.x);
    lemma_twice(t_half, v.x);
    lemma_twice(c.x, k);
    lemma_twice(n, w.x);
    lemma_twice(s_half, u.y);
    lemma_twice(t_half, v.y);
    lemma_twice(c.y, k);
    lemma_twice(n, w.y);
    lemma_twice(s_half, u.z);
    lemma_twice(t_half, v.z);
    lemma_twice(c.z, k);
    lemma_twice(n, w.z);
    assert(sol.x == (2 * n) * w.x);
    assert(sol.y == (2 * n) * w.y);
    assert(sol.z == (2 * n) * w.z);
    lemma_round_div_exact(w.x, 2 * n);
    lemma_round_div_exact(w.y, 2 * n);
    lemma_round_div_exact(w.z, 2 * n);
    assert(local_solution(u, v, q1, q2, q3) == w);
    assert(p1.plus(w) == p);
}

/// Round trip, of distances. Where the true distances of such a point `p`
/// to the anchors are whole numbers `d1`, `d2`, `d3`, the solver gives back
/// `p` from them.
pub proof fn lemma_round_trip(p1: Point, p2: Point, p3: Point, p: Point, d1: int, d2: int, d3: int)
    requires
        gram_det(p2.minus(p1), p3.minus(p1)) != 0,
        p.minus(p1).dot(p2.minus(p1).cross(p3.minus(p1))) >= 0,
        0 <= d1,
        0 <= d2,
        0 <= d3,
        d1 * d1 == dist_sq(p, p1),
        d2 * d2 == dist_sq(p, p2),
        d3 * d3 == dist_sq(p, p3),
    ensures
        trilateration(p1, p2, p3, d1, d2, d3) == Ok::<Point, PositioningError>(p),
{
    lemma_round_trip_squared(p1, p2, p3, p);
}

/// A squared length is not negative.
pub proof fn lemma_norm_sq_nonnegative(w: Point)
    ensures
        0 <= w.norm_sq(),
{
    assert(0 <= w.x * w.x && 0 <= w.y * w.y && 0 <= w.z * w.z) by (nonlinear_arith);
}

/// A solved position is no farther from anchor 1, along any axis, than the
/// distance measured to anchor 1.
pub proof fn lemma_solution_near_anchor_1(
    p1: Point,
    p2: Point,
    p3: Point,
    d1: int,
    d2: int,
    d3: int,
    p: Point,
)
    requires
        trilateration(p1, p2, p3, d1, d2, d3) == Ok::<Point, PositioningError>(p),
    ensures
        p.minus(p1).within(d1),
{
    let u = p2.minus(p1);
    let v = p3.minus(p1);
    lemma_gram_det(u, v);
    lemma_solution_reach(u, v, d1 * d1, d2 * d2, d3 * d3, d1);
    let w = local_solution(u, v, d1 * d1, d2 * d2, d3 * d3);
    assert(p1.plus(w).minus(p1) == w);
}

/// Of the two points that share the three ranges, the solver takes the one
/// on the side of the anchor plane to which `u x v` points: before rounding,
/// the solution has the scalar product `isqrt(Z) * N >= 0` with `u x v`.
pub proof fn lemma_solution_side(u: Point, v: Point, q1: int, q2: int, q3: int)
    requires
        0 <= height_sq(u, v, q1, q2, q3),
    ensures
        scaled_solution(u, v, q1, q2, q3).dot(u.cross(v)) == int_sqrt(height_sq(u, v, q1, q2, q3))
            * gram_det(u, v),
        scaled_solution(u, v, q1, q2, q3).dot(u.cross(v)) >= 0,
{
    let h = planar_part(u, v, q1, q2, q3);
    let c = u.cross(v);
    let r = int_sqrt(height_sq(u, v, q1, q2, q3));
    lemma_int_sqrt_exists(height_sq(u, v, q1, q2, q3));
    lemma_gram_det(u, v);
    lemma_planar_orthogonal(u, v, q1, q2, q3);
    lemma_mul3(c.x, r, c.x);
    lemma_mul3(c.y, r, c.y);
    lemma_mul3(c.z, r, c.z);
    lemma_dist3(c.x * c.x, c.y * c.y, c.z * c.z, r);
    assert((h.x + c.x * r) * c.x == h.x * c.x + (c.x * r) * c.x) by (nonlinear_arith);
    assert((h.y + c.y * r) * c.y == h.y * c.y + (c.y * r) * c.y) by (nonlinear_arith);
    assert((h.z + c.z * r) * c.z == h.z * c.z + (c.z * r) * c.z) by (nonlinear_arith);
    assert(r * gram_det(u, v) >= 0) by (nonlinear_arith)
        requires
            r >= 0,
            gram_det(u, v) >= 0,
    ;
}

/// Anchors on one line span no plane: whatever the distances, as long as
/// none is negative and anchors 1 and 2 differ, the solver reports a
/// degenerate basis.
pub proof fn lemma_colinear_is_degenerate(p1: Point, p2: Point, p3: Point, d1: int, d2: int, d3: int)
    requires
        p2.minus(p1).cross(p3.minus(p1)) == (Point { x: 0, y: 0, z: 0 }),
        p2 != p1,
        0 <= d1,
        0 <= d2,
        0 <= d3,
    ensures
        trilateration(p1, p2, p3, d1, d2, d3) == Err::<Point, PositioningError>(
            PositioningError::DegenerateBasis,
        ),
{
    let u = p2.minus(p1);
    let v = p3.minus(p1);
    lemma_gram_det(u, v);
    assert(u.norm_sq() != 0) by (nonlinear_arith)
        requires
            u.x != 0 || u.y != 0 || u.z != 0,
            u.norm_sq() == u.x * u.x + u.y * u.y + u.z * u.z,
    ;
}

/// The offset of a frame enters the probe position exactly once: the
/// position in a moved frame is the position in the unmoved frame, shifted
/// by the offset.
pub proof fn lemma_offset_applied_once(frame: Frame)
    ensures
        frame.probe_position() == shifted(
            (Frame { offset: Point { x: 0, y: 0, z: 0 }, ..frame }).probe_position(),
            frame.offset,
        ),
{
    let home = Frame { offset: Point { x: 0, y: 0, z: 0 }, ..frame };
    assert(home.anchor_1().plus(frame.offset) == frame.anchor_1());
    assert(home.anchor_2().plus(frame.offset) == frame.anchor_2());
    assert(home.anchor_3().plus(frame.offset) == frame.anchor_3());
    lemma_shift_invariance(
        home.anchor_1(),
        home.anchor_2(),
        home.anchor_3(),
        frame.range_1,
        frame.range_2,
        frame.range_3,
        frame.offset,
    );
}

/// The projection on `u` of a solution free of rounding is the one that the
/// ranges to the two ends of `u` demand.
proof fn lemma_exact_projection(u: Point, v: Point, w: Point, q1: int, q2: int, q3: int)
    requires
        0 < gram_det(u, v),
        scaled_solution(u, v, q1, q2, q3) == w.scaled(2 * gram_det(u, v)),
    ensures
        2 * w.dot(u) == twice_projection(q1, q2, u.norm_sq()),
        2 * w.dot(v) == twice_projection(q1, q3, v.norm_sq()),
{
    let n = gram_det(u, v);
    let h = planar_part(u, v, q1, q2, q3);
    let c = u.cross(v);
    let r = int_sqrt(height_sq(u, v, q1, q2, q3));
    let s = coefficient_u(u, v, q1, q2, q3);
    let t = coefficient_v(u, v, q1, q2, q3);
    let al = twice_projection(q1, q2, u.norm_sq());
    let be = twice_projection(q1, q3, v.norm_sq());
    lemma_cross_orthogonal(u, v);
    lemma_offset_dot(h, c, r, u);
    lemma_offset_dot(h, c, r, v);
    lemma_combined_dot(u, s, v, t, u);
    lemma_combined_dot(u, s, v, t, v);
    lemma_cramer(al, be, u.norm_sq(), u.dot(v), v.norm_sq());
    lemma_scaled_dot(w, 2 * n, u);
    lemma_scaled_dot(w, 2 * n, v);
    lemma_twice(n, w.dot(u));
    lemma_twice(n, w.dot(v));
    lemma_twice(al, n);
    lemma_twice(be, n);
    lemma_cancel(n, 2 * w.dot(u), al);
    lemma_cancel(n, 2 * w.dot(v), be);
}

/// A solution free of rounding is a true one. If the solver gives `p`, the
/// height term is a perfect square and no coordinate was rounded, then `p`
/// has exactly the squared distances `q1`, `q2`, `q3` to the three anchors.
pub proof fn lemma_exact_solution_meets_ranges(
    p1: Point,
    p2: Point,
    p3: Point,
    q1: int,
    q2: int,
    q3: int,
    p: Point,
)
    requires
        trilateration_squared(p1, p2, p3, q1, q2, q3) == Ok::<Point, PositioningError>(p),
        ({
            let u = p2.minus(p1);
            let v = p3.minus(p1);
            let z = height_sq(u, v, q1, q2, q3);
            &&& int_sqrt(z) * int_sqrt(z) == z
            &&& scaled_solution(u, v, q1, q2, q3) == p.minus(p1).scaled(2 * gram_det(u, v))
        }),
    ensures
        dist_sq(p, p1) == q1,
        dist_sq(p, p2) == q2,
        dist_sq(p, p3) == q3,
{
    let u = p2.minus(p1);
    let v = p3.minus(p1);
    let w = p.minus(p1);
    let n = gram_det(u, v);
    let h = planar_part(u, v, q1, q2, q3);
    let c = u.cross(v);
    let g = planar_norm(u, v, q1, q2, q3);
    let z = height_sq(u, v, q1, q2, q3);
    let r = int_sqrt(z);
    lemma_gram_det(u, v);
    // The squared length of the scaled solution, in two ways.
    lemma_planar_norm(u, v, q1, q2, q3);
    lemma_planar_orthogonal(u, v, q1, q2, q3);
    lemma_offset_norm(h, c, r);
    lemma_scaled_dot(w, 2 * n, w);
    assert(n * g + z * n == n * (g + z)) by (nonlinear_arith);
    lemma_twice(n, n);
    lemma_mul3(n, 4, n * q1);
    lemma_mul3(n, n, q1);
    assert(0 < (2 * n) * (2 * n)) by (nonlinear_arith)
        requires
            0 < n,
    ;
    assert(((2 * n) * (2 * n)) * q1 == 4 * ((n * n) * q1)) by (nonlinear_arith)
        requires
            (2 * n) * (2 * n) == 4 * (n * n),
    ;
    lemma_cancel((2 * n) * (2 * n), w.norm_sq(), q1);
    // The projections on u and v.
    lemma_exact_projection(u, v, w, q1, q2, q3);
    assert(p.minus(p2) == w.minus(u));
    assert(p.minus(p3) == w.minus(v));
    lemma_diff_norm(w, u);
    lemma_diff_norm(w, v);
}

/// Accuracy. Where a solution exists, every coordinate of the result is
/// less than one grid unit from the exact solution `(H + (u x v) sqrt(Z)) /
/// 2N`, however the anchors lie: with `o` the result relative to anchor 1,
/// `2N (o - 1) < H + (u x v) sqrt(Z) < 2N (o + 1)` in each coordinate.
pub proof fn lemma_solution_accuracy(u: Point, v: Point, q1: int, q2: int, q3: int)
    requires
        0 < gram_det(u, v),
        0 <= height_sq(u, v, q1, q2, q3),
    ensures
        ({
            let n2 = 2 * gram_det(u, v);
            let h = planar_part(u, v, q1, q2, q3);
            let c = u.cross(v);
            let z = height_sq(u, v, q1, q2, q3);
            let o = local_solution(u, v, q1, q2, q3);
            &&& root_multiple_between(n2 * (o.x - 1) - h.x, c.x, z, n2 * (o.x + 1) - h.x)
            &&& root_multiple_between(n2 * (o.y - 1) - h.y, c.y, z, n2 * (o.y + 1) - h.y)
            &&& root_multiple_between(n2 * (o.z - 1) - h.z, c.z, z, n2 * (o.z + 1) - h.z)
        }),
{
    let n = gram_det(u, v);
    let n2 = 2 * n;
    let h = planar_part(u, v, q1, q2, q3);
    let c = u.cross(v);
    let z = height_sq(u, v, q1, q2, q3);
    let s = int_sqrt(z);
    let w = scaled_solution(u, v, q1, q2, q3);
    let o = local_solution(u, v, q1, q2, q3);
    lemma_int_sqrt_exists(z);
    lemma_lagrange(u, v);
    assert(n <= n * n) by (nonlinear_arith)
        requires
            1 <= n,
    ;
    lemma_square_le(c.x, n);
    lemma_square_le(c.y, n);
    lemma_square_le(c.z, n);
    lemma_round_div_brackets(w.x, n2);
    lemma_round_div_brackets(w.y, n2);
    lemma_round_div_brackets(w.z, n2);
    lemma_dist3(o.x, -1, 0, n2);
    lemma_dist3(o.x, 1, 0, n2);
    lemma_dist3(o.y, -1, 0, n2);
    lemma_dist3(o.y, 1, 0, n2);
    lemma_dist3(o.z, -1, 0, n2);
    lemma_dist3(o.z, 1, 0, n2);
    lemma_root_multiple_between(n2 * (o.x - 1) - h.x, c.x, s, z, n2 * (o.x + 1) - h.x, n);
    lemma_root_multiple_between(n2 * (o.y - 1) - h.y, c.y, s, z, n2 * (o.y + 1) - h.y, n);
    lemma_root_multiple_between(n2 * (o.z - 1) - h.z, c.z, s, z, n2 * (o.z + 1) - h.z, n);
}

} // verus!
