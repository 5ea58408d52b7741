//! Why a position could not be computed.

use vstd::prelude::*;

verus! {

/// The ways in which a frame or a solve can fail. None of them is fatal.
#[derive(Clone, Copy, Debug, PartialEq, Eq, Structural)]
pub enum PositioningError {
    /// The anchor triangle breaks the triangle inequality, or a length that
    /// must be positive is not.
    InvalidGeometry,
    /// The anchors lie on one line and span no plane.
    DegenerateBasis,
    /// The three ranges are each admissible but meet in no real point.
    NoSolution,
    /// A measured distance is negative.
    InvalidMeasurement,
}

} // verus!
