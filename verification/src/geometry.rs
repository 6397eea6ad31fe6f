//! The value types of a sketch: points, lines, circles and arcs.

use vstd::prelude::*;

verus! {

/// A real number that the library carries and never computes with: the bit pattern of
/// an IEEE 754 binary64 value.
#[derive(Clone, Copy, Debug, PartialEq, Eq, Structural)]
pub struct Scalar {
    pub bits: u64,
}

/// A point of the plane.
#[derive(Clone, Copy, Debug, PartialEq, Eq, Structural)]
pub struct Point2 {
    pub x: Scalar,
    pub y: Scalar,
}

/// A line segment between two points of the owning sketch, named by their ids.
#[derive(Clone, Copy, Debug, PartialEq, Eq, Structural)]
pub struct Line2 {
    pub start: u64,
    pub end: u64,
}

/// A circle: the id of its center, its radius, and the id of a point on it from which
/// angles are counted once the circle is split.
#[derive(Clone, Copy, Debug, PartialEq, Eq, Structural)]
pub struct Circle2 {
    pub center: u64,
    pub radius: Scalar,
    pub top: u64,
}

/// An arc around `center` from `start` to `end`. Its radius is the distance from the
/// center to `start`. An arc whose `start` and `end` are one point is degenerate: a full
/// circle that has been cut at that point.
#[derive(Clone, Copy, Debug, PartialEq, Eq, Structural)]
pub struct Arc2 {
    pub center: u64,
    pub start: u64,
    pub end: u64,
    pub clockwise: bool,
}

impl Scalar {
    /// The scalar with the bit pattern `bits`.
    pub fn from_bits(bits: u64) -> (r: Scalar)
        ensures
            r.bits == bits,
    {
        Scalar { bits }
    }

    /// The bit pattern of the scalar.
    pub fn to_bits(&self) -> (r: u64)
        ensures
            r == self.bits,
    {
        self.bits
    }
}

impl Point2 {
    /// The point with the coordinates `x` and `y`.
    pub fn new(x: Scalar, y: Scalar) -> (r: Point2)
        ensures
            r == (Point2 { x, y }),
    {
        Point2 { x, y }
    }
}

impl Line2 {
    /// A segment is legal when its two ends are different points.
    pub open spec fn legal(self) -> bool {
        self.start != self.end
    }
}

impl Arc2 {
    /// Whether the arc is a full circle cut at one point.
    pub open spec fn degenerate(self) -> bool {
        self.start == self.end
    }

    /// The same set of points, described counter-clockwise.
    pub open spec fn spec_counter_clockwise(self) -> Arc2 {
        if self.clockwise {
            Arc2 { center: self.center, start: self.end, end: self.start, clockwise: false }
        } else {
            self
        }
    }

    /// The arc run through in the other direction: the ends change places and so does the
    /// sense of rotation.
    pub open spec fn spec_reversed(self) -> Arc2 {
        Arc2 { center: self.center, start: self.end, end: self.start, clockwise: !self.clockwise }
    }

    /// Describes the arc counter-clockwise, which is how a point is tested against it: a
    /// clockwise arc from `start` to `end` covers what the counter-clockwise arc from `end`
    /// to `start` covers.
    #[verifier::when_used_as_spec(spec_counter_clockwise)]
    pub fn counter_clockwise(self) -> (r: Arc2)
        ensures
            r == self.spec_counter_clockwise(),
    {
        if self.clockwise {
            Arc2 { center: self.center, start: self.end, end: self.start, clockwise: false }
        } else {
            self
        }
    }

    /// Runs through the arc in the other direction.
    #[verifier::when_used_as_spec(spec_reversed)]
    pub fn reversed(self) -> (r: Arc2)
        ensures
            r == self.spec_reversed(),
    {
        Arc2 { center: self.center, start: self.end, end: self.start, clockwise: !self.clockwise }
    }
}

/// An arc and its reverse, with the ends exchanged and the sense of rotation turned, are
/// tested as one and the same counter-clockwise arc: a point lies within both or within
/// neither.
pub proof fn law_reversed_arc_covers_the_same(arc: Arc2)
    ensures
        arc.spec_reversed().spec_counter_clockwise() == arc.spec_counter_clockwise(),
        arc.spec_reversed().spec_reversed() == arc,
{
}

} // verus!
