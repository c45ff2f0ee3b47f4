//! Points and displacements in the plane.

use vstd::prelude::*;
use crate::fixed::{clamp, saturate, LIMIT};

verus! {

/// The largest magnitude of a coordinate that the intersection tests accept.
/// It leaves room for the corners of every rectangle whose centre and extent
/// lie within the saturation bounds.
pub const COORD_LIMIT: i64 = 1_000_000_000_000_000_000;

/// A pair of fixed-point coordinates: a position, a velocity or a force.
#[derive(Clone, Copy, Debug, PartialEq, Eq, Structural)]
pub struct Vector2 {
    pub x: i64,
    pub y: i64,
}

impl Vector2 {
    /// Both coordinates lie within the saturation bounds.
    pub open spec fn in_range(self) -> bool {
        -LIMIT <= self.x <= LIMIT && -LIMIT <= self.y <= LIMIT
    }

    /// Both coordinates are small enough for the intersection tests.
    pub open spec fn in_reach(self) -> bool {
        -COORD_LIMIT <= self.x <= COORD_LIMIT && -COORD_LIMIT <= self.y <= COORD_LIMIT
    }

    /// The vector with both coordinates saturated.
    pub open spec fn spec_saturated(self) -> Vector2 {
        Vector2 { x: clamp(self.x as int) as i64, y: clamp(self.y as int) as i64 }
    }

    /// The vector with both coordinates saturated.
    pub fn saturated(&self) -> (v: Vector2)
        ensures
            v == self.spec_saturated(),
            v.in_range(),
    {
        Vector2 { x: saturate(self.x as i128), y: saturate(self.y as i128) }
    }

    /// The vector with the given coordinates.
    pub fn new(x: i64, y: i64) -> (v: Vector2)
        ensures
            v.x == x,
            v.y == y,
    {
        Vector2 { x, y }
    }

    /// Tests whether both coordinates lie within the saturation bounds.
    pub fn is_in_range(&self) -> (ok: bool)
        ensures
            ok == self.in_range(),
    {
        -LIMIT <= self.x && self.x <= LIMIT && -LIMIT <= self.y && self.y <= LIMIT
    }

    /// Tests whether both coordinates are small enough for the intersection
    /// tests.
    pub fn is_in_reach(&self) -> (ok: bool)
        ensures
            ok == self.in_reach(),
    {
        -COORD_LIMIT <= self.x && self.x <= COORD_LIMIT && -COORD_LIMIT <= self.y && self.y
            <= COORD_LIMIT
    }
}

/// The vector with the given coordinates.
pub fn vec2(x: i64, y: i64) -> (v: Vector2)
    ensures
        v.x == x,
        v.y == y,
{
    Vector2 { x, y }
}

} // verus!
