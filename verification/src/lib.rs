//! Trilateration on an integer grid.
//!
//! A probe is located from its distances to three anchors. All lengths and
//! coordinates are whole numbers of one grid unit (a millimetre, say), so
//! every decision the solver takes is exact: whether two anchors coincide,
//! whether the three are colinear, and whether the three ranges meet in a
//! real point are settled by integer arithmetic without rounding. Only the
//! coordinates handed back are rounded to the grid.
//!
//! Machine limits are preconditions; faults of geometry or measurement are
//! reported as [`PositioningError`](error::PositioningError).
//!
//! - [`trilateration`] holds the solver and its exact model;
//! - [`frame`] lays three anchors out from their mutual distances;
//! - [`laws`] states what holds of both;
//! - [`geometry`], [`algebra`] and [`arith`] carry the proofs.

pub mod algebra;
pub mod arith;
pub mod error;
pub mod frame;
pub mod geometry;
pub mod laws;
pub mod vector;
pub mod trilateration;

pub use error::PositioningError;
pub use frame::PosSystem;
pub use trilateration::{
    trilaterate_3d, trilaterate_3d_squared, MAX_DISTANCE, MAX_SPAN, MAX_SQUARED_DISTANCE,
};
pub use vector::{Vector3, MAX_COORDINATE};
