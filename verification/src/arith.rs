//! Exact integer arithmetic: floor division, rounding and square roots.

use vstd::prelude::*;
use vstd::arithmetic::div_mod::lemma_fundamental_div_mod_converse;

verus! {

/// `r` is the integer square root of `n`: the largest `r >= 0` with
/// `r * r <= n`.
pub open spec fn is_int_sqrt(n: int, r: int) -> bool {
    &&& 0 <= r
    &&& r * r <= n
    &&& n < (r + 1) * (r + 1)
}

/// The integer square root of `n`, for `n >= 0`.
pub open spec fn int_sqrt(n: int) -> int {
    choose|r: int| is_int_sqrt(n, r)
}

/// The quotient `n / d` rounded to the nearest integer, a tie going up.
pub open spec fn round_div(n: int, d: int) -> int {
    (2 * n + d) / (2 * d)
}

/// `lo < c * sqrt(z) < hi` for whole `lo`, `c`, `hi` and `z >= 0`, said
/// without the root: each side is squared where its sign allows.
pub open spec fn root_multiple_between(lo: int, c: int, z: int, hi: int) -> bool {
    &&& if c >= 0 {
        lo < 0 || lo * lo < (c * c) * z
    } else {
        lo < 0 && (c * c) * z < lo * lo
    }
    &&& if c >= 0 {
        0 < hi && (c * c) * z < hi * hi
    } else {
        0 < hi || hi * hi < (c * c) * z
    }
}

/// What `round_div` means: the quotient lies within half a unit of the
/// result, the upper end excluded.
pub proof fn lemma_round_div_brackets(n: int, d: int)
    requires
        0 < d,
    ensures
        2 * (d * round_div(n, d)) - d <= 2 * n < 2 * (d * round_div(n, d)) + d,
{
    let x = 2 * n + d;
    let q = x / (2 * d);
    assert((2 * d) * q <= x < (2 * d) * q + 2 * d) by (nonlinear_arith)
        requires
            q == x / (2 * d),
            d > 0,
    ;
    assert((2 * d) * q == 2 * (d * q)) by (nonlinear_arith);
}

/// If `c * s` is bracketed with a margin of `m >= |c|` on either side, and
/// `s` is the integer square root of `z`, then `c * sqrt(z)` lies strictly
/// within the brackets.
pub proof fn lemma_root_multiple_between(lo: int, c: int, s: int, z: int, hi: int, m: int)
    requires
        is_int_sqrt(z, s),
        -m <= c <= m,
        1 <= m,
        lo <= c * s - m,
        c * s + m < hi,
    ensures
        root_multiple_between(lo, c, z, hi),
{
    let cs = c * s;
    let cc = c * c;
    assert(cs * cs == cc * (s * s)) by (nonlinear_arith)
        requires
            cs == c * s,
            cc == c * c,
    ;
    assert(0 <= cc) by (nonlinear_arith)
        requires
            cc == c * c,
    ;
    assert(cc * (s * s) <= cc * z) by (nonlinear_arith)
        requires
            0 <= cc,
            s * s <= z,
    ;
    let cs1 = c * (s + 1);
    assert(cs1 == cs + c) by (nonlinear_arith)
        requires
            cs1 == c * (s + 1),
            cs == c * s,
    ;
    assert(cs1 * cs1 == cc * ((s + 1) * (s + 1))) by (nonlinear_arith)
        requires
            cs1 == c * (s + 1),
            cc == c * c,
    ;
    assert(cc * z <= cc * ((s + 1) * (s + 1))) by (nonlinear_arith)
        requires
            0 <= cc,
            z < (s + 1) * (s + 1),
    ;
    if c >= 0 {
        assert(0 <= cs) by (nonlinear_arith)
            requires
                cs == c * s,
                0 <= c,
                0 <= s,
        ;
        if lo >= 0 {
            assert(lo * lo < cs * cs) by (nonlinear_arith)
                requires
                    0 <= lo < cs,
            ;
        }
        assert(cs1 * cs1 < hi * hi) by (nonlinear_arith)
            requires
                0 <= cs1 < hi,
        ;
    } else {
        assert(cs <= 0) by (nonlinear_arith)
            requires
                cs == c * s,
                c < 0,
                0 <= s,
        ;
        assert(0 < cc) by (nonlinear_arith)
            requires
                cc == c * c,
                c < 0,
        ;
        assert(cc * z < cc * ((s + 1) * (s + 1))) by (nonlinear_arith)
            requires
                0 < cc,
                z < (s + 1) * (s + 1),
        ;
        assert(cs1 * cs1 <= lo * lo) by (nonlinear_arith)
            requires
                lo <= cs1 <= 0,
        ;
        if hi <= 0 {
            assert(hi * hi < cs * cs) by (nonlinear_arith)
                requires
                    cs < hi <= 0,
            ;
        }
    }
}

/// A number has at most one integer square root.
pub proof fn lemma_int_sqrt_unique(n: int, r1: int, r2: int)
    requires
        is_int_sqrt(n, r1),
        is_int_sqrt(n, r2),
    ensures
        r1 == r2,
{
    if r1 < r2 {
        assert((r1 + 1) * (r1 + 1) <= r2 * r2) by (nonlinear_arith)
            requires
                0 <= r1,
                r1 + 1 <= r2,
        ;
    } else if r2 < r1 {
        assert((r2 + 1) * (r2 + 1) <= r1 * r1) by (nonlinear_arith)
            requires
                0 <= r2,
                r2 + 1 <= r1,
        ;
    }
}

/// Whatever meets the defining inequalities is the integer square root.
pub proof fn lemma_int_sqrt_is(n: int, r: int)
    requires
        is_int_sqrt(n, r),
    ensures
        int_sqrt(n) == r,
{
    lemma_int_sqrt_unique(n, r, int_sqrt(n));
}

/// The integer square root of a square.
pub proof fn lemma_int_sqrt_of_square(r: int)
    requires
        0 <= r,
    ensures
        int_sqrt(r * r) == r,
{
    assert(r * r < (r + 1) * (r + 1)) by (nonlinear_arith)
        requires
            0 <= r,
    ;
    lemma_int_sqrt_is(r * r, r);
}

/// Every number from zero on has an integer square root.
pub proof fn lemma_int_sqrt_exists(n: int)
    requires
        0 <= n,
    ensures
        is_int_sqrt(n, int_sqrt(n)),
    decreases n,
{
    if n == 0 {
        assert(is_int_sqrt(0, 0));
    } else {
        lemma_int_sqrt_exists(n - 1);
        let r = int_sqrt(n - 1);
        if n < (r + 1) * (r + 1) {
            assert(is_int_sqrt(n, r));
        } else {
            assert((r + 1) * (r + 1) < (r + 2) * (r + 2)) by (nonlinear_arith)
                requires
                    0 <= r,
            ;
            assert(is_int_sqrt(n, r + 1));
        }
    }
}

/// A quotient whose magnitude is at most `m` rounds to within `m`.
pub proof fn lemma_round_div_bound(t: int, d: int, m: int)
    requires
        0 < d,
        0 <= m,
        -(d * m) <= t <= d * m,
    ensures
        -m <= round_div(t, d) <= m,
{
    let x = 2 * t + d;
    let q = x / (2 * d);
    assert((2 * d) * q <= x < (2 * d) * q + 2 * d) by (nonlinear_arith)
        requires
            q == x / (2 * d),
            d > 0,
    ;
    assert(q <= m) by (nonlinear_arith)
        requires
            (2 * d) * q <= x,
            x <= 2 * (d * m) + d,
            d > 0,
    ;
    assert(-m <= q) by (nonlinear_arith)
        requires
            x < (2 * d) * q + 2 * d,
            d - 2 * (d * m) <= x,
            d > 0,
    ;
}

/// Rounding an exact multiple gives the factor back.
pub proof fn lemma_round_div_exact(k: int, d: int)
    requires
        0 < d,
    ensures
        round_div(d * k, d) == k,
{
    let x = 2 * (d * k) + d;
    assert(x == k * (2 * d) + d) by (nonlinear_arith)
        requires
            x == 2 * (d * k) + d,
    ;
    vstd::arithmetic::div_mod::lemma_fundamental_div_mod_converse(x, 2 * d, k, d);
}

/// Integer square root by bisection.
pub fn isqrt(n: u128) -> (r: u128)
    ensures
        is_int_sqrt(n as int, r as int),
        r == int_sqrt(n as int),
        r <= 0xFFFF_FFFF_FFFF_FFFF,
{
    let mut lo: u128 = 0;
    let mut hi: u128 = 0x1_0000_0000_0000_0000;
    assert(n < hi * hi) by (nonlinear_arith)
        requires
            hi == 0x1_0000_0000_0000_0000,
            n <= u128::MAX,
    ;
    assert(lo * lo <= n) by (nonlinear_arith)
        requires
            lo == 0,
            n >= 0,
    ;
    while hi - lo > 1
        invariant
            lo < hi <= 0x1_0000_0000_0000_0000,
            lo * lo <= n,
            n < hi * hi,
        decreases hi - lo,
    {
        let mid: u128 = lo + (hi - lo) / 2;
        assert(mid * mid <= 0xFFFF_FFFF_FFFF_FFFF * 0xFFFF_FFFF_FFFF_FFFF) by (nonlinear_arith)
            requires
                0 <= mid <= 0xFFFF_FFFF_FFFF_FFFF,
        ;
        if mid * mid <= n {
            lo = mid;
        } else {
            hi = mid;
        }
    }
    proof {
        assert(hi == lo + 1);
        lemma_int_sqrt_is(n as int, lo as int);
    }
    lo
}

/// Floor of the quotient `n / d` for a positive divisor.
pub fn div_floor(n: i128, d: i128) -> (q: i128)
    requires
        d > 0,
        n > i128::MIN,
    ensures
        q == n / d,
{
    if n >= 0 {
        n / d
    } else {
        let m: i128 = -n;
        let t: i128 = (m - 1) / d;
        proof {
            let r = (m - 1) % (d as int);
            let q = -(t as int) - 1;
            let rr = d - 1 - r;
            assert(m - 1 == d * t + r && 0 <= r < d) by (nonlinear_arith)
                requires
                    t == (m - 1) / (d as int),
                    r == (m - 1) % (d as int),
                    d > 0,
                    m - 1 >= 0,
            ;
            assert(n == q * d + rr) by (nonlinear_arith)
                requires
                    m - 1 == d * t + r,
                    q == -t - 1,
                    rr == d - 1 - r,
                    n == -m,
            ;
            lemma_fundamental_div_mod_converse(n as int, d as int, q, rr);
        }
        -t - 1
    }
}

/// The quotient `w / d` rounded to the nearest integer, a tie going up.
pub fn round_quotient(w: i128, d: i128) -> (r: i128)
    requires
        0 < d <= 0x1000_0000_0000_0000_0000_0000_0000_0000,
        -0x1000_0000_0000_0000_0000_0000_0000_0000 <= w <= 0x1000_0000_0000_0000_0000_0000_0000_0000,
    ensures
        r == round_div(w as int, d as int),
{
    div_floor(2 * w + d, 2 * d)
}

} // verus!
