//! Grid vectors: the executable `Vector3` and its exact model `Point`.

use vstd::prelude::*;

verus! {

/// Largest magnitude of a coordinate that a `Vector3` may carry into the
/// library. It leaves room to add any displacement the solver produces.
pub const MAX_COORDINATE: i64 = 0x4000_0000_0000_0000;

/// A point, or a displacement, with unbounded integer coordinates.
pub struct Point {
    pub x: int,
    pub y: int,
    pub z: int,
}

impl Point {
    /// Componentwise sum.
    pub open spec fn plus(self, other: Point) -> Point {
        Point { x: self.x + other.x, y: self.y + other.y, z: self.z + other.z }
    }

    /// Componentwise difference.
    pub open spec fn minus(self, other: Point) -> Point {
        Point { x: self.x - other.x, y: self.y - other.y, z: self.z - other.z }
    }

    /// Scalar product.
    pub open spec fn dot(self, other: Point) -> int {
        self.x * other.x + self.y * other.y + self.z * other.z
    }

    /// Vector product, right-handed.
    pub open spec fn cross(self, other: Point) -> Point {
        Point {
            x: self.y * other.z - self.z * other.y,
            y: self.z * other.x - self.x * other.z,
            z: self.x * other.y - self.y * other.x,
        }
    }

    /// The vector stretched by the factor `k`.
    pub open spec fn scaled(self, k: int) -> Point {
        Point { x: self.x * k, y: self.y * k, z: self.z * k }
    }

    /// The combination `s * self + t * other`.
    pub open spec fn combined(self, s: int, other: Point, t: int) -> Point {
        Point {
            x: s * self.x + t * other.x,
            y: s * self.y + t * other.y,
            z: s * self.z + t * other.z,
        }
    }

    /// Squared Euclidean length.
    pub open spec fn norm_sq(self) -> int {
        self.dot(self)
    }

    /// Every coordinate has magnitude at most `bound`.
    pub open spec fn within(self, bound: int) -> bool {
        &&& -bound <= self.x <= bound
        &&& -bound <= self.y <= bound
        &&& -bound <= self.z <= bound
    }
}

/// Squared Euclidean distance between two points.
pub open spec fn dist_sq(a: Point, b: Point) -> int {
    a.minus(b).norm_sq()
}

/// A point, or a displacement, in whole grid units.
#[derive(Clone, Copy, Debug, PartialEq, Eq, Structural)]
pub struct Vector3 {
    pub x: i64,
    pub y: i64,
    pub z: i64,
}

impl View for Vector3 {
    type V = Point;

    open spec fn view(&self) -> Point {
        Point { x: self.x as int, y: self.y as int, z: self.z as int }
    }
}

impl Vector3 {
    /// The vector with the given coordinates.
    pub fn new(x: i64, y: i64, z: i64) -> (v: Vector3)
        ensures
            v.x == x,
            v.y == y,
            v.z == z,
    {
        Vector3 { x, y, z }
    }

    /// The origin.
    pub fn zero() -> (v: Vector3)
        ensures
            v.x == 0,
            v.y == 0,
            v.z == 0,
    {
        Vector3 { x: 0, y: 0, z: 0 }
    }

    /// Every coordinate has magnitude at most `MAX_COORDINATE`.
    pub open spec fn in_range(self) -> bool {
        self@.within(MAX_COORDINATE as int)
    }
}

} // verus!
