//! The anchor frame: three anchors laid out from their mutual distances.
//!
//! Anchor 1 sits at the frame's offset, anchor 2 on the positive x axis
//! through it, and anchor 3 in the xy plane with non-negative coordinates
//! relative to anchor 1. The offset enters the anchor positions and nowhere
//! else, so a probe position is shifted by it exactly once.

use vstd::prelude::*;
use crate::algebra::{lemma_dist3, lemma_mul4, lemma_mul_bound, lemma_square_le, lemma_twice};
use crate::arith::{
    int_sqrt,
    isqrt,
    lemma_int_sqrt_exists,
    lemma_round_div_bound,
    lemma_round_div_brackets,
    round_div,
    round_quotient,
};
use crate::error::PositioningError;
use crate::trilateration::{gram_det, trilaterate_3d, trilateration, MAX_DISTANCE, MAX_SPAN};
use crate::vector::{Point, Vector3, MAX_COORDINATE};

verus! {

/// The sides `a`, `b`, `c` are positive and each is shorter than the other
/// two together.
pub open spec fn valid_triangle(a: int, b: int, c: int) -> bool {
    &&& 0 < a
    &&& 0 < b
    &&& 0 < c
    &&& a < b + c
    &&& b < a + c
    &&& c < a + b
}

/// Sixteen times the squared area of the triangle with sides `a`, `b`, `c`,
/// by Heron's formula.
pub open spec fn heron16(a: int, b: int, c: int) -> int {
    ((a + b + c) * (a + b - c)) * ((c + a - b) * (c - a + b))
}

/// Twice `a b` times the cosine of the angle between the sides `a` and `b`.
pub open spec fn cosine_term(a: int, b: int, c: int) -> int {
    a * a + b * b - c * c
}

/// The height of the triangle over its side `a`, which is `sqrt(heron16) /
/// 2a`, rounded to the nearest grid unit.
pub open spec fn triangle_height(a: int, b: int, c: int) -> int {
    round_div(int_sqrt(heron16(a, b, c)), 2 * a)
}

/// The length along side `a` of the foot of that height, measured from the
/// corner where `a` and `b` meet: the root of `b * b` less the squared
/// height, which is `|cosine_term| / 2a`, rounded to the nearest grid unit.
/// Being a length it is never negative, also where the angle at that corner
/// is obtuse and the foot lies beyond it.
pub open spec fn triangle_foot(a: int, b: int, c: int) -> int {
    round_div(
        if cosine_term(a, b, c) >= 0 {
            cosine_term(a, b, c)
        } else {
            -cosine_term(a, b, c)
        },
        2 * a,
    )
}

/// What a `PosSystem` holds.
pub struct Frame {
    /// Distance between anchors 1 and 2.
    pub side_12: int,
    /// Distance between anchors 1 and 3.
    pub side_13: int,
    /// Distance between anchors 2 and 3.
    pub side_23: int,
    /// Distance last measured from the probe to anchor 1.
    pub range_1: int,
    /// Distance last measured from the probe to anchor 2.
    pub range_2: int,
    /// Distance last measured from the probe to anchor 3.
    pub range_3: int,
    /// Where the frame's origin lies in the surrounding coordinates.
    pub offset: Point,
}

impl Frame {
    /// The three sides form a triangle.
    pub open spec fn valid(self) -> bool {
        valid_triangle(self.side_12, self.side_13, self.side_23)
    }

    /// Every number is within the machine limits of the frame.
    pub open spec fn in_range(self) -> bool {
        &&& -MAX_SPAN <= self.side_12 <= MAX_SPAN
        &&& -MAX_SPAN <= self.side_13 <= MAX_SPAN
        &&& -MAX_SPAN <= self.side_23 <= MAX_SPAN
        &&& self.range_1 <= MAX_DISTANCE
        &&& self.range_2 <= MAX_DISTANCE
        &&& self.range_3 <= MAX_DISTANCE
        &&& self.offset.within(MAX_COORDINATE as int)
    }

    /// Position of anchor 1.
    pub open spec fn anchor_1(self) -> Point {
        self.offset
    }

    /// Position of anchor 2.
    pub open spec fn anchor_2(self) -> Point {
        self.offset.plus(Point { x: self.side_12, y: 0, z: 0 })
    }

    /// Position of anchor 3, for a valid triangle.
    pub open spec fn anchor_3(self) -> Point {
        self.offset.plus(
            Point {
                x: triangle_foot(self.side_12, self.side_13, self.side_23),
                y: triangle_height(self.side_12, self.side_13, self.side_23),
                z: 0,
            },
        )
    }

    /// Position of the probe at the stored ranges.
    pub open spec fn probe_position(self) -> Result<Point, PositioningError> {
        if !self.valid() {
            Err(PositioningError::InvalidGeometry)
        } else {
            trilateration(
                self.anchor_1(),
                self.anchor_2(),
                self.anchor_3(),
                self.range_1,
                self.range_2,
                self.range_3,
            )
        }
    }
}

/// Heron's product is the difference of two squares:
/// `heron16 + cosine_term^2 == (2 a b)^2`. So the exact height `y` and foot
/// `x` over side `a` satisfy `x^2 + y^2 == b^2`.
pub proof fn lemma_heron(a: int, b: int, c: int)
    ensures
        heron16(a, b, c) + cosine_term(a, b, c) * cosine_term(a, b, c) == (2 * (a * b)) * (2 * (a
            * b)),
{
    let x = a * a + b * b;
    let y = 2 * (a * b);
    let w = c * c;
    assert((a + b + c) * (a + b - c) == x + y - w) by (nonlinear_arith)
        requires
            x == a * a + b * b,
            y == 2 * (a * b),
            w == c * c,
    ;
    assert((c + a - b) * (c - a + b) == w - x + y) by (nonlinear_arith)
        requires
            x == a * a + b * b,
            y == 2 * (a * b),
            w == c * c,
    ;
    assert((x + y - w) * (w - x + y) + (x - w) * (x - w) == y * y) by (nonlinear_arith);
}

/// In a valid triangle Heron's product is positive, and height and foot
/// over side `a` lie between zero and `b`.
pub proof fn lemma_anchor_3_bounds(a: int, b: int, c: int)
    requires
        valid_triangle(a, b, c),
    ensures
        0 < heron16(a, b, c),
        -(2 * a * b) <= cosine_term(a, b, c) <= 2 * a * b,
        0 <= triangle_foot(a, b, c) <= b,
        0 <= triangle_height(a, b, c) <= b,
{
    let q = heron16(a, b, c);
    let t = cosine_term(a, b, c);
    let m = 2 * (a * b);
    lemma_heron(a, b, c);
    assert(0 < (a + b + c) * (a + b - c)) by (nonlinear_arith)
        requires
            0 < a + b + c,
            0 < a + b - c,
    ;
    assert(0 < (c + a - b) * (c - a + b)) by (nonlinear_arith)
        requires
            0 < c + a - b,
            0 < c - a + b,
    ;
    assert(0 < q) by (nonlinear_arith)
        requires
            q == ((a + b + c) * (a + b - c)) * ((c + a - b) * (c - a + b)),
            0 < (a + b + c) * (a + b - c),
            0 < (c + a - b) * (c - a + b),
    ;
    assert(0 <= m && m == (2 * a) * b && m == 2 * a * b) by (nonlinear_arith)
        requires
            m == 2 * (a * b),
            0 < a,
            0 < b,
    ;
    lemma_square_le(t, m);
    let r = int_sqrt(q);
    lemma_int_sqrt_exists(q);
    assert(0 <= t * t) by (nonlinear_arith);
    lemma_square_le(r, m);
    lemma_round_div_bound(r, 2 * a, b);
    lemma_round_div_bound(if t >= 0 { t } else { -t }, 2 * a, b);
    assert(0 <= round_div(r, 2 * a)) by (nonlinear_arith)
        requires
            0 <= r,
            0 < a,
    ;
    assert(0 <= round_div(if t >= 0 { t } else { -t }, 2 * a)) by (nonlinear_arith)
        requires
            0 < a,
    ;
}

/// Heron's product of a valid triangle with whole sides is at least the
/// square of any one side, here `a`.
pub proof fn lemma_heron_floor(a: int, b: int, c: int)
    requires
        valid_triangle(a, b, c),
    ensures
        a * a <= heron16(a, b, c),
{
    let x = c - a + b;
    let y = c + a - b;
    let z = a + b - c;
    let p = a + b + c;
    assert(y <= y * x) by (nonlinear_arith)
        requires
            1 <= x,
            1 <= y,
    ;
    assert(y + z - 1 <= z * y) by (nonlinear_arith)
        requires
            1 <= z,
            1 <= y,
    ;
    assert(p * (y + z - 1) <= p * (z * y)) by (nonlinear_arith)
        requires
            0 < p,
            y + z - 1 <= z * y,
    ;
    assert(p * (z * y) == (p * z) * y) by (nonlinear_arith);
    assert((p * z) * y <= (p * z) * (y * x)) by (nonlinear_arith)
        requires
            0 < p,
            1 <= z,
            y <= y * x,
    ;
    assert((2 * a) * (2 * a) - 1 <= p * (y + z - 1)) by (nonlinear_arith)
        requires
            y + z == 2 * a,
            p >= 2 * a + 1,
            0 < a,
    ;
    assert(a * a <= (2 * a) * (2 * a) - 1) by (nonlinear_arith)
        requires
            1 <= a,
    ;
}

/// The third anchor of a valid triangle with whole sides stands at least
/// one grid unit off the line through the first two.
pub proof fn lemma_triangle_height_positive(a: int, b: int, c: int)
    requires
        valid_triangle(a, b, c),
    ensures
        1 <= triangle_height(a, b, c),
{
    let q = heron16(a, b, c);
    let r = int_sqrt(q);
    lemma_heron_floor(a, b, c);
    lemma_int_sqrt_exists(q);
    assert(a <= r) by (nonlinear_arith)
        requires
            0 <= r,
            0 < a,
            a * a <= q,
            q < (r + 1) * (r + 1),
    ;
    assert(1 <= (2 * r + 2 * a) / (2 * (2 * a))) by (nonlinear_arith)
        requires
            0 < a,
            a <= r,
    ;
}

/// The third anchor is laid out to the nearest grid unit: with `y` the
/// height and `x` the foot, `y - 1/2 <= sqrt(heron16) / 2a < y + 1/2` and
/// `x - 1/2 <= |cosine_term| / 2a < x + 1/2`, here cleared of fractions and
/// roots.
pub proof fn lemma_anchor_3_nearest(a: int, b: int, c: int)
    requires
        valid_triangle(a, b, c),
    ensures
        ({
            let y = triangle_height(a, b, c);
            let lo = 2 * (a * y) - a;
            let hi = 2 * (a * y) + a;
            0 < lo && lo * lo <= heron16(a, b, c) < hi * hi
        }),
        ({
            let x = triangle_foot(a, b, c);
            let t = cosine_term(a, b, c);
            ||| 2 * (a * x) - a <= t < 2 * (a * x) + a
            ||| 2 * (a * x) - a <= -t < 2 * (a * x) + a
        }),
{
    let q = heron16(a, b, c);
    let r = int_sqrt(q);
    let y = triangle_height(a, b, c);
    let x = triangle_foot(a, b, c);
    let t = cosine_term(a, b, c);
    let lo = 2 * (a * y) - a;
    let hi = 2 * (a * y) + a;
    lemma_anchor_3_bounds(a, b, c);
    lemma_triangle_height_positive(a, b, c);
    lemma_int_sqrt_exists(q);
    lemma_round_div_brackets(r, 2 * a);
    lemma_round_div_brackets(if t >= 0 { t } else { -t }, 2 * a);
    lemma_twice(a, y);
    lemma_twice(a, x);
    assert(a <= a * y) by (nonlinear_arith)
        requires
            0 < a,
            1 <= y,
    ;
    assert(lo * lo <= r * r) by (nonlinear_arith)
        requires
            0 <= lo <= r,
    ;
    assert((r + 1) * (r + 1) <= hi * hi) by (nonlinear_arith)
        requires
            0 <= r + 1 <= hi,
    ;
}

/// The anchors of a valid frame span a plane: they are distinct and not
/// colinear, so a valid frame never fails for its geometry.
pub proof fn lemma_valid_frame_spans(frame: Frame)
    requires
        frame.valid(),
    ensures
        frame.anchor_2().minus(frame.anchor_1()).norm_sq() > 0,
        gram_det(
            frame.anchor_2().minus(frame.anchor_1()),
            frame.anchor_3().minus(frame.anchor_1()),
        ) > 0,
        frame.probe_position() != Err::<Point, PositioningError>(PositioningError::InvalidGeometry),
        frame.probe_position() != Err::<Point, PositioningError>(PositioningError::DegenerateBasis),
{
    let a = frame.side_12;
    let x = triangle_foot(frame.side_12, frame.side_13, frame.side_23);
    let y = triangle_height(frame.side_12, frame.side_13, frame.side_23);
    let u = frame.anchor_2().minus(frame.anchor_1());
    let v = frame.anchor_3().minus(frame.anchor_1());
    lemma_triangle_height_positive(frame.side_12, frame.side_13, frame.side_23);
    assert(u == Point { x: a, y: 0, z: 0 });
    assert(v == Point { x: x, y: y, z: 0 });
    assert(u.norm_sq() == a * a);
    assert(v.norm_sq() == x * x + y * y);
    assert(u.dot(v) == a * x);
    lemma_dist3(x * x, y * y, 0, a * a);
    lemma_mul4(a, x, a, x);
    assert(0 < a * a) by (nonlinear_arith)
        requires
            0 < a,
    ;
    assert(0 < (a * a) * (y * y)) by (nonlinear_arith)
        requires
            0 < a * a,
            1 <= y,
    ;
    assert((a * a) * 0 == 0);
}

/// Three anchors given by their mutual distances, the distances last
/// measured from a probe to each of them, and the frame's offset in the
/// surrounding coordinates.
#[derive(Clone, Copy, Debug)]
pub struct PosSystem {
    dist_anchor_1_2: i64,
    dist_anchor_1_3: i64,
    dist_anchor_2_3: i64,
    dist_probe_anchor_1: i64,
    dist_probe_anchor_2: i64,
    dist_probe_anchor_3: i64,
    system_offset: Vector3,
}

impl View for PosSystem {
    type V = Frame;

    closed spec fn view(&self) -> Frame {
        Frame {
            side_12: self.dist_anchor_1_2 as int,
            side_13: self.dist_anchor_1_3 as int,
            side_23: self.dist_anchor_2_3 as int,
            range_1: self.dist_probe_anchor_1 as int,
            range_2: self.dist_probe_anchor_2 as int,
            range_3: self.dist_probe_anchor_3 as int,
            offset: self.system_offset@,
        }
    }
}

impl PosSystem {
    /// Every stored number is within the machine limits of the frame.
    pub open spec fn wf(&self) -> bool {
        self@.in_range()
    }

    /// A frame with the given sides, zero ranges and zero offset. The sides
    /// are taken as they are: whether they form a triangle shows when anchor
    /// 3 is asked for.
    pub fn new(dist_anchor_1_2: i64, dist_anchor_1_3: i64, dist_anchor_2_3: i64) -> (frame: Self)
        requires
            -MAX_SPAN <= dist_anchor_1_2 <= MAX_SPAN,
            -MAX_SPAN <= dist_anchor_1_3 <= MAX_SPAN,
            -MAX_SPAN <= dist_anchor_2_3 <= MAX_SPAN,
        ensures
            frame.wf(),
            frame@ == (Frame {
                side_12: dist_anchor_1_2 as int,
                side_13: dist_anchor_1_3 as int,
                side_23: dist_anchor_2_3 as int,
                range_1: 0,
                range_2: 0,
                range_3: 0,
                offset: Point { x: 0, y: 0, z: 0 },
            }),
    {
        PosSystem {
            dist_anchor_1_2,
            dist_anchor_1_3,
            dist_anchor_2_3,
            dist_probe_anchor_1: 0,
            dist_probe_anchor_2: 0,
            dist_probe_anchor_3: 0,
            system_offset: Vector3::zero(),
        }
    }

    /// As `new`, but sides that form no triangle are rejected.
    pub fn try_new(dist_anchor_1_2: i64, dist_anchor_1_3: i64, dist_anchor_2_3: i64) -> (result:
        Result<Self, PositioningError>)
        requires
            -MAX_SPAN <= dist_anchor_1_2 <= MAX_SPAN,
            -MAX_SPAN <= dist_anchor_1_3 <= MAX_SPAN,
            -MAX_SPAN <= dist_anchor_2_3 <= MAX_SPAN,
        ensures
            match result {
                Ok(frame) => {
                    &&& valid_triangle(
                        dist_anchor_1_2 as int,
                        dist_anchor_1_3 as int,
                        dist_anchor_2_3 as int,
                    )
                    &&& frame.wf()
                    &&& frame@ == (Frame {
                        side_12: dist_anchor_1_2 as int,
                        side_13: dist_anchor_1_3 as int,
                        side_23: dist_anchor_2_3 as int,
                        range_1: 0,
                        range_2: 0,
                        range_3: 0,
                        offset: Point { x: 0, y: 0, z: 0 },
                    })
                },
                Err(e) => {
                    &&& !valid_triangle(
                        dist_anchor_1_2 as int,
                        dist_anchor_1_3 as int,
                        dist_anchor_2_3 as int,
                    )
                    &&& e == PositioningError::InvalidGeometry
                },
            },
    {
        let frame = PosSystem::new(dist_anchor_1_2, dist_anchor_1_3, dist_anchor_2_3);
        if frame.is_valid() {
            Ok(frame)
        } else {
            Err(PositioningError::InvalidGeometry)
        }
    }

    /// Whether the three sides form a triangle.
    pub fn is_valid(&self) -> (valid: bool)
        requires
            self.wf(),
        ensures
            valid == self@.valid(),
    {
        let a = self.dist_anchor_1_2;
        let b = self.dist_anchor_1_3;
        let c = self.dist_anchor_2_3;
        0 < a && 0 < b && 0 < c && a < b + c && b < a + c && c < a + b
    }

    /// Position of anchor 1: the offset.
    pub fn get_pos_anchor_1(&self) -> (pos: Vector3)
        ensures
            pos@ == self@.anchor_1(),
    {
        self.system_offset
    }

    /// Position of anchor 2: the length of side 1-2 along x from anchor 1.
    pub fn get_pos_anchor_2(&self) -> (pos: Vector3)
        requires
            self.wf(),
        ensures
            pos@ == self@.anchor_2(),
    {
        Vector3 {
            x: self.system_offset.x + self.dist_anchor_1_2,
            y: self.system_offset.y,
            z: self.system_offset.z,
        }
    }

    /// Position of anchor 3, each coordinate rounded to the nearest grid
    /// unit; `InvalidGeometry` when the sides form no triangle.
    pub fn get_pos_anchor_3(&self) -> (result: Result<Vector3, PositioningError>)
        requires
            self.wf(),
        ensures
            match result {
                Ok(pos) => self@.valid() && pos@ == self@.anchor_3(),
                Err(e) => !self@.valid() && e == PositioningError::InvalidGeometry,
            },
    {
        if !self.is_valid() {
            return Err(PositioningError::InvalidGeometry);
        }
        let a = self.dist_anchor_1_2 as i128;
        let b = self.dist_anchor_1_3 as i128;
        let c = self.dist_anchor_2_3 as i128;
        proof {
            lemma_anchor_3_bounds(a as int, b as int, c as int);
        }
        let y = round_quotient(self.get_area(), 2 * a);
        let aa = prod_side(a, a);
        let bb = prod_side(b, b);
        let cc = prod_side(c, c);
        let t = aa + bb - cc;
        let x = round_quotient(if t >= 0 { t } else { -t }, 2 * a);
        Ok(
            Vector3 {
                x: self.system_offset.x + x as i64,
                y: self.system_offset.y + y as i64,
                z: self.system_offset.z,
            },
        )
    }

    /// Stores the distances measured from the probe to the three anchors.
    pub fn set_probe_distances(&mut self, dist_anchor_1: i64, dist_anchor_2: i64, dist_anchor_3: i64)
        requires
            dist_anchor_1 <= MAX_DISTANCE,
            dist_anchor_2 <= MAX_DISTANCE,
            dist_anchor_3 <= MAX_DISTANCE,
        ensures
            final(self)@ == (Frame {
                range_1: dist_anchor_1 as int,
                range_2: dist_anchor_2 as int,
                range_3: dist_anchor_3 as int,
                ..old(self)@
            }),
            old(self).wf() ==> final(self).wf(),
    {
        self.dist_probe_anchor_1 = dist_anchor_1;
        self.dist_probe_anchor_2 = dist_anchor_2;
        self.dist_probe_anchor_3 = dist_anchor_3;
    }

    /// Moves the frame: anchor 1 now lies at `offset`.
    pub fn set_system_offset(&mut self, offset: Vector3)
        requires
            offset.in_range(),
        ensures
            final(self)@ == (Frame { offset: offset@, ..old(self)@ }),
            old(self).wf() ==> final(self).wf(),
    {
        self.system_offset = offset;
    }

    /// Position of the probe at the stored distances: the anchors are laid
    /// out, offset included, and handed to the solver. A frame whose sides
    /// form no triangle gives `InvalidGeometry` whatever the distances are.
    pub fn get_probe_position(&self) -> (result: Result<Vector3, PositioningError>)
        requires
            self.wf(),
        ensures
            match result {
                Ok(pos) => self@.probe_position() == Ok::<Point, PositioningError>(pos@),
                Err(e) => self@.probe_position() == Err::<Point, PositioningError>(e),
            },
            result == Err::<Vector3, PositioningError>(PositioningError::InvalidGeometry)
                <==> !self@.valid(),
            result != Err::<Vector3, PositioningError>(PositioningError::DegenerateBasis),
    {
        let anchor_3 = match self.get_pos_anchor_3() {
            Ok(pos) => pos,
            Err(e) => {
                return Err(e);
            },
        };
        let anchor_1 = self.get_pos_anchor_1();
        let anchor_2 = self.get_pos_anchor_2();
        proof {
            lemma_anchor_3_bounds(self@.side_12, self@.side_13, self@.side_23);
            lemma_valid_frame_spans(self@);
        }
        let anchor_positions = [
            (anchor_1.x, anchor_1.y, anchor_1.z),
            (anchor_2.x, anchor_2.y, anchor_2.z),
            (anchor_3.x, anchor_3.y, anchor_3.z),
        ];
        let distances = [
            self.dist_probe_anchor_1,
            self.dist_probe_anchor_2,
            self.dist_probe_anchor_3,
        ];
        trilaterate_3d(anchor_positions, distances)
    }

    /// The sum of the three sides.
    fn get_perimeter(&self) -> (perimeter: i128)
        requires
            self.wf(),
        ensures
            perimeter == self@.side_12 + self@.side_13 + self@.side_23,
    {
        self.dist_anchor_1_2 as i128 + self.dist_anchor_1_3 as i128 + self.dist_anchor_2_3 as i128
    }

    /// The area of the anchor triangle in quarter units: four times the
    /// area, rounded down, which is the integer square root of Heron's
    /// product.
    fn get_area(&self) -> (root: i128)
        requires
            self.wf(),
            self@.valid(),
        ensures
            root == int_sqrt(heron16(self@.side_12, self@.side_13, self@.side_23)),
            0 <= root <= 0xFFFF_FFFF_FFFF_FFFF,
    {
        let a = self.dist_anchor_1_2 as i128;
        let b = self.dist_anchor_1_3 as i128;
        let c = self.dist_anchor_2_3 as i128;
        let p = self.get_perimeter();
        proof {
            lemma_mul_bound(p as int, a + b - c, 1_500_000, 1_000_000);
            lemma_mul_bound(c + a - b, c - a + b, 1_000_000, 1_000_000);
            lemma_mul_bound(
                p * (a + b - c),
                (c + a - b) * (c - a + b),
                1_500_000_000_000,
                1_000_000_000_000,
            );
            lemma_anchor_3_bounds(a as int, b as int, c as int);
        }
        let q = (p * (a + b - c)) * ((c + a - b) * (c - a + b));
        isqrt(q as u128) as i128
    }
}

/// The product of two numbers bounded by `MAX_SPAN`.
fn prod_side(a: i128, b: i128) -> (r: i128)
    requires
        -MAX_SPAN <= a <= MAX_SPAN,
        -MAX_SPAN <= b <= MAX_SPAN,
    ensures
        r == a * b,
        -250_000_000_000 <= r <= 250_000_000_000,
{
    proof {
        lemma_mul_bound(a as int, b as int, 500_000, 500_000);
    }
    a * b
}

} // verus!
