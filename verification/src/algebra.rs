//! Polynomial identities and bounds behind the solver.
//!
//! The identities are assembled from distributivity and from reorderings of
//! products of three or four factors, so that no step asks the solver for
//! more than one small fact about multiplication.

use vstd::prelude::*;
use crate::vector::Point;

verus! {

/// A product is bounded by the product of the bounds of its factors.
pub proof fn lemma_mul_bound(a: int, b: int, ma: int, mb: int)
    by (nonlinear_arith)
    requires
        -ma <= a <= ma,
        -mb <= b <= mb,
    ensures
        -(ma * mb) <= a * b <= ma * mb,
{
}

/// A product of three factors does not depend on their order or grouping.
pub proof fn lemma_mul3(x: int, y: int, z: int)
    by (nonlinear_arith)
    ensures
        x * (y * z) == (x * y) * z,
        x * (y * z) == (x * z) * y,
        x * (y * z) == (y * z) * x,
        x * (y * z) == (y * x) * z,
        x * (y * z) == (z * x) * y,
        x * (y * z) == (z * y) * x,
        x * (y * z) == x * (z * y),
        x * (y * z) == y * (x * z),
        x * (y * z) == y * (z * x),
        x * (y * z) == z * (x * y),
        x * (y * z) == z * (y * x),
{
}

/// A factor of two moves out of a product.
pub proof fn lemma_twice(x: int, y: int)
    by (nonlinear_arith)
    ensures
        (2 * x) * y == 2 * (x * y),
        x * (2 * y) == 2 * (x * y),
        (2 * x) * (2 * y) == 4 * (x * y),
        x * y == y * x,
{
}

/// Reorderings of a product of four factors.
pub proof fn lemma_mul4(x: int, y: int, z: int, w: int)
    by (nonlinear_arith)
    ensures
        (x * y) * (z * w) == (x * z) * (y * w),
        (x * y) * (z * w) == (x * w) * (z * y),
{
}

/// Distribution over a sum of three terms, from either side.
pub proof fn lemma_dist3(x1: int, x2: int, x3: int, y: int)
    by (nonlinear_arith)
    ensures
        (x1 + x2 + x3) * y == x1 * y + x2 * y + x3 * y,
        y * (x1 + x2 + x3) == y * x1 + y * x2 + y * x3,
{
}

/// Distribution over a difference, from either side.
pub proof fn lemma_dist_sub(x1: int, x2: int, y: int)
    by (nonlinear_arith)
    ensures
        (x1 - x2) * y == x1 * y - x2 * y,
        y * (x1 - x2) == y * x1 - y * x2,
{
}

/// The product of two sums of three terms, written out.
pub proof fn lemma_expand_3x3(x1: int, x2: int, x3: int, y1: int, y2: int, y3: int)
    ensures
        (x1 + x2 + x3) * (y1 + y2 + y3) == x1 * y1 + x1 * y2 + x1 * y3 + x2 * y1 + x2 * y2 + x2
            * y3 + x3 * y1 + x3 * y2 + x3 * y3,
{
    let y = y1 + y2 + y3;
    lemma_dist3(x1, x2, x3, y);
    lemma_dist3(y1, y2, y3, x1);
    lemma_dist3(y1, y2, y3, x2);
    lemma_dist3(y1, y2, y3, x3);
}

/// The square of a difference, written out.
pub proof fn lemma_square_diff(x: int, y: int)
    by (nonlinear_arith)
    ensures
        (x - y) * (x - y) == x * x - 2 * (x * y) + y * y,
        (x - y) * (x - y) >= 0,
{
}

/// The square of a sum, written out.
pub proof fn lemma_square_sum(x: int, y: int)
    by (nonlinear_arith)
    ensures
        (x + y) * (x + y) == x * x + 2 * (x * y) + y * y,
        (x + y) * (x + y) >= 0,
{
}

/// A number whose square is at most `y * y` lies between `-y` and `y`.
pub proof fn lemma_square_le(x: int, y: int)
    by (nonlinear_arith)
    requires
        0 <= y,
        x * x <= y * y,
    ensures
        -y <= x <= y,
{
}

/// The square of the `x` coordinate of `(a, b, c) x (d, e, f)`, written out
/// in products of squares and of the terms of the scalar product.
proof fn lemma_cross_square(b: int, c: int, e: int, f: int)
    ensures
        (b * f - c * e) * (b * f - c * e) == (b * b) * (f * f) - 2 * ((b * e) * (c * f)) + (c * c)
            * (e * e),
{
    lemma_square_diff(b * f, c * e);
    lemma_mul4(b, f, b, f);
    lemma_mul4(b, f, c, e);
    lemma_mul4(c, e, c, e);
}

/// Lagrange's identity: the squared length of a vector product is the Gram
/// determinant of its factors.
pub proof fn lemma_lagrange(u: Point, v: Point)
    ensures
        u.cross(v).norm_sq() == u.norm_sq() * v.norm_sq() - u.dot(v) * u.dot(v),
        u.cross(v).norm_sq() >= 0,
        u.cross(v).x * u.cross(v).x <= u.cross(v).norm_sq(),
        u.cross(v).y * u.cross(v).y <= u.cross(v).norm_sq(),
        u.cross(v).z * u.cross(v).z <= u.cross(v).norm_sq(),
{
    let (a, b, c, d, e, f) = (u.x, u.y, u.z, v.x, v.y, v.z);
    lemma_cross_square(b, c, e, f);
    lemma_cross_square(c, a, f, d);
    lemma_cross_square(a, b, d, e);
    lemma_expand_3x3(a * a, b * b, c * c, d * d, e * e, f * f);
    lemma_expand_3x3(a * d, b * e, c * f, a * d, b * e, c * f);
    lemma_mul4(a, d, a, d);
    lemma_mul4(b, e, b, e);
    lemma_mul4(c, f, c, f);
    assert((a * d) * (b * e) == (b * e) * (a * d)) by (nonlinear_arith);
    assert((a * d) * (c * f) == (c * f) * (a * d)) by (nonlinear_arith);
    assert((b * e) * (c * f) == (c * f) * (b * e)) by (nonlinear_arith);
    lemma_square_diff(b * f, c * e);
    lemma_square_diff(c * d, a * f);
    lemma_square_diff(a * e, b * d);
}

/// One term of `(u x v) . u`, regrouped.
proof fn lemma_cross_dot_term(a: int, b: int, c: int, e: int, f: int)
    ensures
        (b * f - c * e) * a == (a * b) * f - (a * c) * e,
{
    lemma_dist_sub(b * f, c * e, a);
    lemma_mul3(b, f, a);
    lemma_mul3(a, b, f);
    lemma_mul3(c, e, a);
    lemma_mul3(a, c, e);
}

/// A vector product is orthogonal to both of its factors.
pub proof fn lemma_cross_orthogonal(u: Point, v: Point)
    ensures
        u.cross(v).dot(u) == 0,
        u.cross(v).dot(v) == 0,
        u.dot(u.cross(v)) == 0,
        v.dot(u.cross(v)) == 0,
{
    let (a, b, c, d, e, f) = (u.x, u.y, u.z, v.x, v.y, v.z);
    // (bf - ce) a + (cd - af) b + (ae - bd) c
    lemma_cross_dot_term(a, b, c, e, f);
    lemma_cross_dot_term(b, c, a, f, d);
    lemma_cross_dot_term(c, a, b, d, e);
    assert((b * c) * d == (c * b) * d && (b * a) * f == (a * b) * f && (c * a) * e == (a * c) * e)
        by (nonlinear_arith);
    // (bf - ce) d + (cd - af) e + (ae - bd) f
    lemma_dist_sub(b * f, c * e, d);
    lemma_dist_sub(c * d, a * f, e);
    lemma_dist_sub(a * e, b * d, f);
    lemma_mul3(b, f, d);
    lemma_mul3(b, d, f);
    lemma_mul3(c, e, d);
    lemma_mul3(c, d, e);
    lemma_mul3(a, f, e);
    lemma_mul3(a, e, f);
    assert(u.cross(v).dot(u) == u.dot(u.cross(v)) && u.cross(v).dot(v) == v.dot(u.cross(v)))
        by (nonlinear_arith)
        requires
            u.cross(v).dot(u) == u.cross(v).x * u.x + u.cross(v).y * u.y + u.cross(v).z * u.z,
            u.dot(u.cross(v)) == u.x * u.cross(v).x + u.y * u.cross(v).y + u.z * u.cross(v).z,
            u.cross(v).dot(v) == u.cross(v).x * v.x + u.cross(v).y * v.y + u.cross(v).z * v.z,
            v.dot(u.cross(v)) == v.x * u.cross(v).x + v.y * u.cross(v).y + v.z * u.cross(v).z,
    ;
}

/// The square of one coordinate of a combination, written out.
proof fn lemma_combined_square(s: int, a: int, t: int, d: int)
    ensures
        (s * a + t * d) * (s * a + t * d) == (s * s) * (a * a) + 2 * ((s * t) * (a * d)) + (t * t)
            * (d * d),
        (s * a + t * d) * (s * a + t * d) >= 0,
{
    lemma_square_sum(s * a, t * d);
    lemma_mul4(s, a, s, a);
    lemma_mul4(s, a, t, d);
    lemma_mul4(t, d, t, d);
}

/// The squared length of a combination of two vectors, from their Gram
/// matrix.
pub proof fn lemma_combined_norm(u: Point, s: int, v: Point, t: int)
    ensures
        u.combined(s, v, t).norm_sq() == (s * s) * u.norm_sq() + 2 * ((s * t) * u.dot(v)) + (t
            * t) * v.norm_sq(),
        u.combined(s, v, t).norm_sq() >= 0,
{
    lemma_combined_square(s, u.x, t, v.x);
    lemma_combined_square(s, u.y, t, v.y);
    lemma_combined_square(s, u.z, t, v.z);
    lemma_dist3(u.x * u.x, u.y * u.y, u.z * u.z, s * s);
    lemma_dist3(u.x * v.x, u.y * v.y, u.z * v.z, s * t);
    lemma_dist3(v.x * v.x, v.y * v.y, v.z * v.z, t * t);
}

/// One term of the scalar product of a combination with a third vector.
proof fn lemma_combined_dot_term(s: int, a: int, t: int, d: int, c: int)
    ensures
        (s * a + t * d) * c == s * (a * c) + t * (d * c),
{
    assert((s * a + t * d) * c == (s * a) * c + (t * d) * c) by (nonlinear_arith);
    lemma_mul3(s, a, c);
    lemma_mul3(t, d, c);
}

/// The scalar product is linear in a combination.
pub proof fn lemma_combined_dot(u: Point, s: int, v: Point, t: int, c: Point)
    ensures
        u.combined(s, v, t).dot(c) == s * u.dot(c) + t * v.dot(c),
{
    lemma_combined_dot_term(s, u.x, t, v.x, c.x);
    lemma_combined_dot_term(s, u.y, t, v.y, c.y);
    lemma_combined_dot_term(s, u.z, t, v.z, c.z);
    lemma_dist3(u.x * c.x, u.y * c.y, u.z * c.z, s);
    lemma_dist3(v.x * c.x, v.y * c.y, v.z * c.z, t);
}

/// The square of one coordinate of `h + r c`, written out.
proof fn lemma_offset_square(h: int, c: int, r: int)
    ensures
        (h + c * r) * (h + c * r) == h * h + 2 * (r * (h * c)) + (r * r) * (c * c),
        (h + c * r) * (h + c * r) >= 0,
{
    lemma_square_sum(h, c * r);
    lemma_mul3(h, c, r);
    lemma_mul3(r, h, c);
    assert(h * (c * r) == r * (h * c)) by (nonlinear_arith);
    lemma_mul4(c, r, c, r);
    assert((c * c) * (r * r) == (r * r) * (c * c)) by (nonlinear_arith);
}

/// The squared length of `h + r c`, and the share of each coordinate in it.
pub proof fn lemma_offset_norm(h: Point, c: Point, r: int)
    ensures
        h.plus(c.scaled(r)).norm_sq() == h.norm_sq() + 2 * (r * h.dot(c)) + (r * r) * c.norm_sq(),
        h.plus(c.scaled(r)).x * h.plus(c.scaled(r)).x <= h.plus(c.scaled(r)).norm_sq(),
        h.plus(c.scaled(r)).y * h.plus(c.scaled(r)).y <= h.plus(c.scaled(r)).norm_sq(),
        h.plus(c.scaled(r)).z * h.plus(c.scaled(r)).z <= h.plus(c.scaled(r)).norm_sq(),
{
    lemma_offset_square(h.x, c.x, r);
    lemma_offset_square(h.y, c.y, r);
    lemma_offset_square(h.z, c.z, r);
    lemma_dist3(h.x * c.x, h.y * c.y, h.z * c.z, r);
    lemma_dist3(c.x * c.x, c.y * c.y, c.z * c.z, r * r);
}

/// The Gram system solved by Cramer's rule: with `s = al ff - be ee`,
/// `t = be dd - al ee` and `n = dd ff - ee ee`, the combination `s u + t v`
/// has the scalar products `al n` and `be n` with `u` and `v`.
pub proof fn lemma_cramer(al: int, be: int, dd: int, ee: int, ff: int)
    by (nonlinear_arith)
    ensures
        (al * ff - be * ee) * dd + (be * dd - al * ee) * ee == al * (dd * ff - ee * ee),
        (al * ff - be * ee) * ee + (be * dd - al * ee) * ff == be * (dd * ff - ee * ee),
{
}

/// The quadratic form of the Gram matrix at `(s, t)`, from its two rows.
pub proof fn lemma_gram_form(s: int, t: int, dd: int, ee: int, ff: int, al: int, be: int, n: int)
    requires
        s * dd + t * ee == al * n,
        s * ee + t * ff == be * n,
    ensures
        (s * s) * dd + 2 * ((s * t) * ee) + (t * t) * ff == n * (al * s + be * t),
{
    lemma_mul3(s, s, dd);
    lemma_mul3(s, t, ee);
    lemma_mul3(t, t, ff);
    assert(s * (s * dd + t * ee) == s * (s * dd) + s * (t * ee)) by (nonlinear_arith);
    assert(t * (s * ee + t * ff) == t * (s * ee) + t * (t * ff)) by (nonlinear_arith);
    assert(t * (s * ee) == (s * t) * ee) by (nonlinear_arith);
    assert(s * (al * n) == n * (al * s)) by (nonlinear_arith);
    assert(t * (be * n) == n * (be * t)) by (nonlinear_arith);
    assert(n * (al * s + be * t) == n * (al * s) + n * (be * t)) by (nonlinear_arith);
}

/// One coordinate of the expansion of a triple vector product. Here `o`,
/// `p`, `q` are the coordinates of the first vector, beginning at the one
/// computed, and `e1..e3`, `f1..f3` those of the second and third.
proof fn lemma_triple_term(
    o: int,
    p: int,
    q: int,
    e1: int,
    e2: int,
    e3: int,
    f1: int,
    f2: int,
    f3: int,
    dxz: int,
    dxy: int,
)
    requires
        dxz == o * f1 + p * f2 + q * f3,
        dxy == o * e1 + p * e2 + q * e3,
    ensures
        p * (e1 * f2 - e2 * f1) - q * (e3 * f1 - e1 * f3) == e1 * dxz - f1 * dxy,
{
    lemma_dist_sub(e1 * f2, e2 * f1, p);
    lemma_dist_sub(e3 * f1, e1 * f3, q);
    lemma_dist3(o * f1, p * f2, q * f3, e1);
    lemma_dist3(o * e1, p * e2, q * e3, f1);
    lemma_mul3(p, e1, f2);
    lemma_mul3(p, e2, f1);
    lemma_mul3(q, e3, f1);
    lemma_mul3(q, e1, f3);
    lemma_mul3(e1, o, f1);
}

/// The triple vector product: `x x (y x z) == y (x.z) - z (x.y)`.
pub proof fn lemma_triple_product(x: Point, y: Point, z: Point)
    ensures
        x.cross(y.cross(z)) == y.scaled(x.dot(z)).minus(z.scaled(x.dot(y))),
{
    lemma_triple_term(x.x, x.y, x.z, y.x, y.y, y.z, z.x, z.y, z.z, x.dot(z), x.dot(y));
    lemma_triple_term(x.y, x.z, x.x, y.y, y.z, y.x, z.y, z.z, z.x, x.dot(z), x.dot(y));
    lemma_triple_term(x.z, x.x, x.y, y.z, y.x, y.y, z.z, z.x, z.y, x.dot(z), x.dot(y));
}

/// One coordinate of `c x m` for `m = u lam - v mu`, in terms of the same
/// coordinate `a` of `u x c` and `b` of `v x c`.
proof fn lemma_resolve_term(
    cy: int,
    cz: int,
    mz: int,
    my: int,
    uy: int,
    uz: int,
    vy: int,
    vz: int,
    lam: int,
    mu: int,
    a: int,
    b: int,
)
    requires
        mz == uz * lam - vz * mu,
        my == uy * lam - vy * mu,
        a == uy * cz - uz * cy,
        b == vy * cz - vz * cy,
    ensures
        cy * mz - cz * my == mu * b - lam * a,
{
    lemma_dist_sub(uz * lam, vz * mu, cy);
    lemma_dist_sub(uy * lam, vy * mu, cz);
    lemma_dist_sub(uy * cz, uz * cy, lam);
    lemma_dist_sub(vy * cz, vz * cy, mu);
    lemma_mul3(cy, uz, lam);
    lemma_mul3(cy, vz, mu);
    lemma_mul3(cz, uy, lam);
    lemma_mul3(cz, vy, mu);
    lemma_mul3(lam, uy, cz);
    lemma_mul3(lam, uz, cy);
    lemma_mul3(mu, vy, cz);
    lemma_mul3(mu, vz, cy);
}

/// The last step of the resolution, for one coordinate: the terms are
/// gathered by `u` and by `v`.
proof fn lemma_resolve_gather(
    wx: int,
    n: int,
    cx: int,
    k: int,
    mu: int,
    lam: int,
    ux: int,
    vx: int,
    dd: int,
    ee: int,
    ff: int,
)
    requires
        wx * n - cx * k == mu * (ux * ff - vx * ee) - lam * (ux * ee - vx * dd),
    ensures
        n * wx == (mu * ff - lam * ee) * ux + (lam * dd - mu * ee) * vx + k * cx,
{
    lemma_dist_sub(ux * ff, vx * ee, mu);
    lemma_dist_sub(ux * ee, vx * dd, lam);
    lemma_dist_sub(mu * ff, lam * ee, ux);
    lemma_dist_sub(lam * dd, mu * ee, vx);
    lemma_mul3(mu, ux, ff);
    lemma_mul3(mu, vx, ee);
    lemma_mul3(lam, ux, ee);
    lemma_mul3(lam, vx, dd);
    assert(wx * n == n * wx && cx * k == k * cx) by (nonlinear_arith);
}

/// Resolution of a vector `w` along `u`, `v` and `c = u x v`, scaled by the
/// Gram determinant `n` so that every coefficient is an integer:
/// `n w == (mu F - lam E) u + (lam D - mu E) v + (w.c) c`, with `mu = w.u`
/// and `lam = w.v`.
pub proof fn lemma_resolve(u: Point, v: Point, w: Point)
    ensures
        ({
            let n = u.norm_sq() * v.norm_sq() - u.dot(v) * u.dot(v);
            let c = u.cross(v);
            let s = w.dot(u) * v.norm_sq() - w.dot(v) * u.dot(v);
            let t = w.dot(v) * u.norm_sq() - w.dot(u) * u.dot(v);
            let k = w.dot(c);
            &&& n * w.x == s * u.x + t * v.x + k * c.x
            &&& n * w.y == s * u.y + t * v.y + k * c.y
            &&& n * w.z == s * u.z + t * v.z + k * c.z
        }),
{
    let c = u.cross(v);
    let m = w.cross(c);
    let n = c.norm_sq();
    let lam = w.dot(v);
    let mu = w.dot(u);
    let k = w.dot(c);
    let dd = u.norm_sq();
    let ee = u.dot(v);
    let ff = v.norm_sq();
    lemma_lagrange(u, v);
    lemma_triple_product(c, w, c);
    lemma_triple_product(w, u, v);
    lemma_triple_product(u, u, v);
    lemma_triple_product(v, u, v);
    let a = u.cross(c);
    let b = v.cross(c);
    assert(v.dot(u) == ee && c.dot(w) == k) by (nonlinear_arith)
        requires
            v.dot(u) == v.x * u.x + v.y * u.y + v.z * u.z,
            ee == u.x * v.x + u.y * v.y + u.z * v.z,
            c.dot(w) == c.x * w.x + c.y * w.y + c.z * w.z,
            k == w.x * c.x + w.y * c.y + w.z * c.z,
    ;
    lemma_resolve_term(c.y, c.z, m.z, m.y, u.y, u.z, v.y, v.z, lam, mu, a.x, b.x);
    lemma_resolve_term(c.z, c.x, m.x, m.z, u.z, u.x, v.z, v.x, lam, mu, a.y, b.y);
    lemma_resolve_term(c.x, c.y, m.y, m.x, u.x, u.y, v.x, v.y, lam, mu, a.z, b.z);
    lemma_resolve_gather(w.x, n, c.x, k, mu, lam, u.x, v.x, dd, ee, ff);
    lemma_resolve_gather(w.y, n, c.y, k, mu, lam, u.y, v.y, dd, ee, ff);
    lemma_resolve_gather(w.z, n, c.z, k, mu, lam, u.z, v.z, dd, ee, ff);
}

/// The scalar product of `w` with a vector resolved along `u`, `v` and `c`.
pub proof fn lemma_resolved_dot(w: Point, u: Point, v: Point, c: Point, n: int, s: int, t: int, k: int)
    requires
        n * w.x == s * u.x + t * v.x + k * c.x,
        n * w.y == s * u.y + t * v.y + k * c.y,
        n * w.z == s * u.z + t * v.z + k * c.z,
    ensures
        n * w.norm_sq() == s * w.dot(u) + t * w.dot(v) + k * w.dot(c),
{
    lemma_dist3(w.x * w.x, w.y * w.y, w.z * w.z, n);
    lemma_dist3(w.x * u.x, w.y * u.y, w.z * u.z, s);
    lemma_dist3(w.x * v.x, w.y * v.y, w.z * v.z, t);
    lemma_dist3(w.x * c.x, w.y * c.y, w.z * c.z, k);
    lemma_resolved_dot_term(w.x, u.x, v.x, c.x, n, s, t, k);
    lemma_resolved_dot_term(w.y, u.y, v.y, c.y, n, s, t, k);
    lemma_resolved_dot_term(w.z, u.z, v.z, c.z, n, s, t, k);
}

/// One coordinate of `lemma_resolved_dot`.
proof fn lemma_resolved_dot_term(wx: int, ux: int, vx: int, cx: int, n: int, s: int, t: int, k: int)
    requires
        n * wx == s * ux + t * vx + k * cx,
    ensures
        n * (wx * wx) == s * (wx * ux) + t * (wx * vx) + k * (wx * cx),
{
    lemma_mul3(n, wx, wx);
    lemma_dist3(s * ux, t * vx, k * cx, wx);
    lemma_mul3(s, wx, ux);
    lemma_mul3(t, wx, vx);
    lemma_mul3(k, wx, cx);
    assert((n * wx) * wx == (s * ux + t * vx + k * cx) * wx);
}

/// The scalar product of `h + r c` with a third vector.
pub proof fn lemma_offset_dot(h: Point, c: Point, r: int, u: Point)
    ensures
        h.plus(c.scaled(r)).dot(u) == h.dot(u) + r * c.dot(u),
{
    lemma_dist3(c.x * u.x, c.y * u.y, c.z * u.z, r);
    assert((h.x + c.x * r) * u.x == h.x * u.x + (c.x * r) * u.x) by (nonlinear_arith);
    assert((h.y + c.y * r) * u.y == h.y * u.y + (c.y * r) * u.y) by (nonlinear_arith);
    assert((h.z + c.z * r) * u.z == h.z * u.z + (c.z * r) * u.z) by (nonlinear_arith);
    lemma_mul3(r, c.x, u.x);
    lemma_mul3(r, c.y, u.y);
    lemma_mul3(r, c.z, u.z);
}

/// Scalar products and squared length of a stretched vector.
pub proof fn lemma_scaled_dot(w: Point, m: int, u: Point)
    ensures
        w.scaled(m).dot(u) == m * w.dot(u),
        w.scaled(m).norm_sq() == (m * m) * w.norm_sq(),
{
    lemma_dist3(w.x * u.x, w.y * u.y, w.z * u.z, m);
    lemma_mul3(m, w.x, u.x);
    lemma_mul3(m, w.y, u.y);
    lemma_mul3(m, w.z, u.z);
    lemma_dist3(w.x * w.x, w.y * w.y, w.z * w.z, m * m);
    lemma_mul4(w.x, m, w.x, m);
    lemma_mul4(w.y, m, w.y, m);
    lemma_mul4(w.z, m, w.z, m);
    assert((w.x * w.x) * (m * m) == (m * m) * (w.x * w.x)) by (nonlinear_arith);
    assert((w.y * w.y) * (m * m) == (m * m) * (w.y * w.y)) by (nonlinear_arith);
    assert((w.z * w.z) * (m * m) == (m * m) * (w.z * w.z)) by (nonlinear_arith);
}

/// A positive factor cancels from an equation.
pub proof fn lemma_cancel(m: int, a: int, b: int)
    by (nonlinear_arith)
    requires
        0 < m,
        m * a == m * b,
    ensures
        a == b,
{
}

} // verus!
