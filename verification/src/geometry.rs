//! What holds of the solver's model: where the solution lies, and how large
//! the numbers on the way to it can get.

use vstd::prelude::*;
use crate::algebra::{
    lemma_combined_dot,
    lemma_combined_norm,
    lemma_cramer,
    lemma_cross_orthogonal,
    lemma_gram_form,
    lemma_lagrange,
    lemma_offset_norm,
    lemma_square_le,
};
use crate::arith::{int_sqrt, lemma_int_sqrt_exists, lemma_round_div_bound};
use crate::trilateration::{
    coefficient_u,
    coefficient_v,
    gram_det,
    height_sq,
    local_solution,
    planar_norm,
    planar_part,
    scaled_solution,
    twice_projection,
};
use crate::vector::Point;

verus! {

/// The Gram determinant is the squared length of the vector product, and so
/// never negative.
pub proof fn lemma_gram_det(u: Point, v: Point)
    ensures
        gram_det(u, v) == u.cross(v).norm_sq(),
        gram_det(u, v) >= 0,
{
    lemma_lagrange(u, v);
}

/// The squared length of the planar part is `N` times the planar norm.
pub proof fn lemma_planar_norm(u: Point, v: Point, q1: int, q2: int, q3: int)
    ensures
        planar_part(u, v, q1, q2, q3).norm_sq() == gram_det(u, v) * planar_norm(u, v, q1, q2, q3),
        planar_part(u, v, q1, q2, q3).norm_sq() >= 0,
{
    let al = twice_projection(q1, q2, u.norm_sq());
    let be = twice_projection(q1, q3, v.norm_sq());
    let s = coefficient_u(u, v, q1, q2, q3);
    let t = coefficient_v(u, v, q1, q2, q3);
    lemma_combined_norm(u, s, v, t);
    lemma_cramer(al, be, u.norm_sq(), u.dot(v), v.norm_sq());
    lemma_gram_form(s, t, u.norm_sq(), u.dot(v), v.norm_sq(), al, be, gram_det(u, v));
}

/// The planar part is orthogonal to `u x v`.
pub proof fn lemma_planar_orthogonal(u: Point, v: Point, q1: int, q2: int, q3: int)
    ensures
        planar_part(u, v, q1, q2, q3).dot(u.cross(v)) == 0,
{
    let s = coefficient_u(u, v, q1, q2, q3);
    let t = coefficient_v(u, v, q1, q2, q3);
    lemma_combined_dot(u, s, v, t, u.cross(v));
    lemma_cross_orthogonal(u, v);
    assert(s * u.dot(u.cross(v)) == 0) by (nonlinear_arith)
        requires
            u.dot(u.cross(v)) == 0,
    ;
    assert(t * v.dot(u.cross(v)) == 0) by (nonlinear_arith)
        requires
            v.dot(u.cross(v)) == 0,
    ;
}

/// Where a solution exists, the scaled solution is no longer than `2 N d1`:
/// the solved point is no farther from anchor 1 than the range measured to
/// it.
pub proof fn lemma_scaled_solution_norm(u: Point, v: Point, q1: int, q2: int, q3: int)
    requires
        gram_det(u, v) > 0,
        height_sq(u, v, q1, q2, q3) >= 0,
    ensures
        scaled_solution(u, v, q1, q2, q3).norm_sq() <= gram_det(u, v) * (4 * (gram_det(u, v)
            * q1)),
{
    let n = gram_det(u, v);
    let h = planar_part(u, v, q1, q2, q3);
    let c = u.cross(v);
    let g = planar_norm(u, v, q1, q2, q3);
    let z = height_sq(u, v, q1, q2, q3);
    let r = int_sqrt(z);
    lemma_int_sqrt_exists(z);
    lemma_gram_det(u, v);
    lemma_planar_norm(u, v, q1, q2, q3);
    lemma_planar_orthogonal(u, v, q1, q2, q3);
    lemma_offset_norm(h, c, r);
    assert(r * h.dot(c) == 0) by (nonlinear_arith)
        requires
            h.dot(c) == 0,
    ;
    assert((r * r) * n <= z * n) by (nonlinear_arith)
        requires
            r * r <= z,
            n > 0,
    ;
    assert(n * g + z * n == n * (g + z)) by (nonlinear_arith);
}

/// Where a solution exists, each coordinate of the solution relative to
/// anchor 1 has magnitude at most `d`, for any `d` that is no shorter than
/// the range to anchor 1.
pub proof fn lemma_solution_reach(u: Point, v: Point, q1: int, q2: int, q3: int, d: int)
    requires
        0 <= d,
        q1 <= d * d,
        gram_det(u, v) > 0,
        height_sq(u, v, q1, q2, q3) >= 0,
    ensures
        scaled_solution(u, v, q1, q2, q3).within(2 * gram_det(u, v) * d),
        local_solution(u, v, q1, q2, q3).within(d),
{
    let n = gram_det(u, v);
    let w = scaled_solution(u, v, q1, q2, q3);
    let h = planar_part(u, v, q1, q2, q3);
    let c = u.cross(v);
    let r = int_sqrt(height_sq(u, v, q1, q2, q3));
    let m = 2 * n * d;
    lemma_scaled_solution_norm(u, v, q1, q2, q3);
    lemma_offset_norm(h, c, r);
    assert(n * q1 <= n * (d * d)) by (nonlinear_arith)
        requires
            q1 <= d * d,
            n > 0,
    ;
    assert(n * (4 * (n * q1)) <= n * (4 * (n * (d * d)))) by (nonlinear_arith)
        requires
            n * q1 <= n * (d * d),
            n > 0,
    ;
    assert(n * (4 * (n * (d * d))) == m * m) by (nonlinear_arith)
        requires
            m == 2 * n * d,
    ;
    assert(0 <= m) by (nonlinear_arith)
        requires
            m == 2 * n * d,
            n > 0,
            d >= 0,
    ;
    assert(w.y * w.y >= 0 && w.x * w.x >= 0 && w.z * w.z >= 0) by (nonlinear_arith);
    lemma_square_le(w.x, m);
    lemma_square_le(w.y, m);
    lemma_square_le(w.z, m);
    assert(m == (2 * n) * d) by (nonlinear_arith)
        requires
            m == 2 * n * d,
    ;
    lemma_round_div_bound(w.x, 2 * n, d);
    lemma_round_div_bound(w.y, 2 * n, d);
    lemma_round_div_bound(w.z, 2 * n, d);
}

} // verus!
