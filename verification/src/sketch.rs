//! The sketch: a point map and the lines, circles and arcs drawn between its points.

use crate::geometry::{Arc2, Circle2, Line2, Point2, Scalar};
use crate::incrementing_map::IncrementingMap;
use vstd::prelude::*;

verus! {

/// Points by id, and the shapes that name them. Every pool gives out ids one above its
/// highest so far, so an id is never used twice.
#[derive(Debug)]
pub struct Sketch {
    pub points: IncrementingMap<Point2>,
    pub line_segments: IncrementingMap<Line2>,
    pub circles: IncrementingMap<Circle2>,
    pub arcs: IncrementingMap<Arc2>,
}

impl Sketch {
    /// Whether the point map holds `id`.
    pub open spec fn has_point(&self, id: u64) -> bool {
        self.points.contains(id)
    }

    /// Whether both ends of `line` resolve in the point map and are different points.
    pub open spec fn holds_line(&self, line: Line2) -> bool {
        &&& self.has_point(line.start)
        &&& self.has_point(line.end)
        &&& line.legal()
    }

    /// Whether the center and the top of `circle` resolve in the point map.
    pub open spec fn holds_circle(&self, circle: Circle2) -> bool {
        &&& self.has_point(circle.center)
        &&& self.has_point(circle.top)
    }

    /// Whether the center and both ends of `arc` resolve in the point map.
    pub open spec fn holds_arc(&self, arc: Arc2) -> bool {
        &&& self.has_point(arc.center)
        &&& self.has_point(arc.start)
        &&& self.has_point(arc.end)
    }

    /// Whether the four pools are in order.
    pub open spec fn pools_wf(&self) -> bool {
        &&& self.points.wf()
        &&& self.line_segments.wf()
        &&& self.circles.wf()
        &&& self.arcs.wf()
    }

    /// Every point id that a line, a circle or an arc names resolves in the point map,
    /// and no line joins a point to itself.
    pub open spec fn wf(&self) -> bool {
        &&& self.pools_wf()
        &&& forall|i: int|
            0 <= i < self.line_segments.entries().len() ==> self.holds_line(
                (#[trigger] self.line_segments.entries()[i]).1,
            )
        &&& forall|i: int|
            0 <= i < self.circles.entries().len() ==> self.holds_circle(
                (#[trigger] self.circles.entries()[i]).1,
            )
        &&& forall|i: int|
            0 <= i < self.arcs.entries().len() ==> self.holds_arc(
                (#[trigger] self.arcs.entries()[i]).1,
            )
    }

    /// Whether `other` has every point of this sketch.
    pub open spec fn points_within(&self, other: &Sketch) -> bool {
        forall|id: u64| self.has_point(id) ==> other.has_point(id)
    }

    /// Whether the sketch is well-formed.
    pub fn is_wf(&self) -> (r: bool)
        ensures
            r == self.wf(),
    {
        if !(self.points.is_wf() && self.line_segments.is_wf() && self.circles.is_wf()
            && self.arcs.is_wf()) {
            return false;
        }
        let mut i: usize = 0;
        while i < self.line_segments.len()
            invariant
                i <= self.line_segments.entries().len(),
                self.pools_wf(),
                forall|j: int|
                    0 <= j < i ==> self.holds_line((#[trigger] self.line_segments.entries()[j]).1),
            decreases self.line_segments.entries().len() - i,
        {
            let line = self.line_segments.item_at(i);
            if !(self.points.contains_key(line.start) && self.points.contains_key(line.end)
                && line.start != line.end) {
                proof {
                    assert(!self.holds_line(self.line_segments.entries()[i as int].1));
                }
                return false;
            }
            i = i + 1;
        }
        let mut j: usize = 0;
        while j < self.circles.len()
            invariant
                j <= self.circles.entries().len(),
                self.pools_wf(),
                forall|k: int|
                    0 <= k < j ==> self.holds_circle((#[trigger] self.circles.entries()[k]).1),
            decreases self.circles.entries().len() - j,
        {
            let circle = self.circles.item_at(j);
            if !(self.points.contains_key(circle.center) && self.points.contains_key(circle.top)) {
                proof {
                    assert(!self.holds_circle(self.circles.entries()[j as int].1));
                }
                return false;
            }
            j = j + 1;
        }
        let mut k: usize = 0;
        while k < self.arcs.len()
            invariant
                k <= self.arcs.entries().len(),
                self.pools_wf(),
                forall|m: int| 0 <= m < k ==> self.holds_arc((#[trigger] self.arcs.entries()[m]).1),
            decreases self.arcs.entries().len() - k,
        {
            let arc = self.arcs.item_at(k);
            if !(self.points.contains_key(arc.center) && self.points.contains_key(arc.start)
                && self.points.contains_key(arc.end)) {
                proof {
                    assert(!self.holds_arc(self.arcs.entries()[k as int].1));
                }
                return false;
            }
            k = k + 1;
        }
        true
    }

    /// An empty sketch.
    pub fn new() -> (r: Sketch)
        ensures
            r.wf(),
            r.points.entries().len() == 0,
            r.line_segments.entries().len() == 0,
            r.circles.entries().len() == 0,
            r.arcs.entries().len() == 0,
            r.points.highest() == 0,
            r.line_segments.highest() == 0,
            r.circles.highest() == 0,
            r.arcs.highest() == 0,
    {
        Sketch {
            points: IncrementingMap::new(),
            line_segments: IncrementingMap::new(),
            circles: IncrementingMap::new(),
            arcs: IncrementingMap::new(),
        }
    }

    /// Adds the point `(x, y)` under a fresh id and returns the id.
    pub fn add_point(&mut self, x: Scalar, y: Scalar) -> (id: u64)
        requires
            old(self).wf(),
            old(self).points.highest() < u64::MAX,
        ensures
            final(self).wf(),
            id == old(self).points.highest() + 1,
            final(self).points.highest() == id,
            final(self).points.entries() == old(self).points.entries().push(
                (id, Point2 { x, y }),
            ),
            !old(self).has_point(id),
            final(self).has_point(id),
            old(self).points_within(final(self)),
            final(self).line_segments == old(self).line_segments,
            final(self).circles == old(self).circles,
            final(self).arcs == old(self).arcs,
    {
        let id = self.points.add_item(Point2 { x, y });
        id
    }

    /// Adds the segment from `start` to `end` under a fresh id and returns the id.
    pub fn add_segment(&mut self, start: u64, end: u64) -> (id: u64)
        requires
            old(self).wf(),
            old(self).holds_line(Line2 { start, end }),
            old(self).line_segments.highest() < u64::MAX,
        ensures
            final(self).wf(),
            id == old(self).line_segments.highest() + 1,
            final(self).line_segments.highest() == id,
            final(self).line_segments.entries() == old(self).line_segments.entries().push(
                (id, Line2 { start, end }),
            ),
            final(self).points == old(self).points,
            final(self).circles == old(self).circles,
            final(self).arcs == old(self).arcs,
    {
        let id = self.line_segments.add_item(Line2 { start, end });
        proof {
            let s = self.line_segments.entries();
            assert forall|i: int| 0 <= i < s.len() implies self.holds_line((#[trigger] s[i]).1) by {
                if i < s.len() - 1 {
                    assert(s[i] == old(self).line_segments.entries()[i]);
                }
            }
        }
        id
    }

    /// Adds the circle around `center` with the given radius under a fresh id and returns
    /// the id. `top` names the point of the circle from which angles are counted.
    pub fn add_circle(&mut self, center: u64, radius: Scalar, top: u64) -> (id: u64)
        requires
            old(self).wf(),
            old(self).holds_circle(Circle2 { center, radius, top }),
            old(self).circles.highest() < u64::MAX,
        ensures
            final(self).wf(),
            id == old(self).circles.highest() + 1,
            final(self).circles.highest() == id,
            final(self).circles.entries() == old(self).circles.entries().push(
                (id, Circle2 { center, radius, top }),
            ),
            final(self).points == old(self).points,
            final(self).line_segments == old(self).line_segments,
            final(self).arcs == old(self).arcs,
    {
        let id = self.circles.add_item(Circle2 { center, radius, top });
        proof {
            let s = self.circles.entries();
            assert forall|i: int| 0 <= i < s.len() implies self.holds_circle(
                (#[trigger] s[i]).1,
            ) by {
                if i < s.len() - 1 {
                    assert(s[i] == old(self).circles.entries()[i]);
                }
            }
        }
        id
    }

    /// Adds the arc around `center` from `start` to `end` under a fresh id and returns
    /// the id.
    pub fn add_arc(&mut self, center: u64, start: u64, end: u64, clockwise: bool) -> (id: u64)
        requires
            old(self).wf(),
            old(self).holds_arc(Arc2 { center, start, end, clockwise }),
            old(self).arcs.highest() < u64::MAX,
        ensures
            final(self).wf(),
            id == old(self).arcs.highest() + 1,
            final(self).arcs.highest() == id,
            final(self).arcs.entries() == old(self).arcs.entries().push(
                (id, Arc2 { center, start, end, clockwise }),
            ),
            final(self).points == old(self).points,
            final(self).line_segments == old(self).line_segments,
            final(self).circles == old(self).circles,
    {
        let id = self.arcs.add_item(Arc2 { center, start, end, clockwise });
        proof {
            let s = self.arcs.entries();
            assert forall|i: int| 0 <= i < s.len() implies self.holds_arc((#[trigger] s[i]).1) by {
                if i < s.len() - 1 {
                    assert(s[i] == old(self).arcs.entries()[i]);
                }
            }
        }
        id
    }

    /// Adds the two points `(x0, y0)` and `(x1, y1)` and the segment between them, and
    /// returns the id of the segment.
    pub fn add_line_segment(&mut self, x0: Scalar, y0: Scalar, x1: Scalar, y1: Scalar) -> (id:
        u64)
        requires
            old(self).wf(),
            old(self).points.highest() < u64::MAX - 1,
            old(self).line_segments.highest() < u64::MAX,
        ensures
            final(self).wf(),
            id == old(self).line_segments.highest() + 1,
            final(self).points.entries() == old(self).points.entries().push(
                ((old(self).points.highest() + 1) as u64, Point2 { x: x0, y: y0 }),
            ).push(((old(self).points.highest() + 2) as u64, Point2 { x: x1, y: y1 })),
            final(self).points.highest() == old(self).points.highest() + 2,
            final(self).line_segments.entries() == old(self).line_segments.entries().push(
                (
                    id,
                    Line2 {
                        start: (old(self).points.highest() + 1) as u64,
                        end: (old(self).points.highest() + 2) as u64,
                    },
                ),
            ),
            final(self).line_segments.highest() == id,
            final(self).circles == old(self).circles,
            final(self).arcs == old(self).arcs,
    {
        let start = self.add_point(x0, y0);
        let end = self.add_point(x1, y1);
        self.add_segment(start, end)
    }
}

/// What the contracts read of a [`Sketch`]: the entries of its four pools and the highest
/// id that each has given out.
pub struct SketchView {
    pub points: Seq<(u64, Point2)>,
    pub highest_point_id: u64,
    pub line_segments: Seq<(u64, Line2)>,
    pub highest_line_segment_id: u64,
    pub circles: Seq<(u64, Circle2)>,
    pub highest_circle_id: u64,
    pub arcs: Seq<(u64, Arc2)>,
    pub highest_arc_id: u64,
}

impl View for Sketch {
    type V = SketchView;

    open spec fn view(&self) -> SketchView {
        SketchView {
            points: self.points.entries(),
            highest_point_id: self.points.highest(),
            line_segments: self.line_segments.entries(),
            highest_line_segment_id: self.line_segments.highest(),
            circles: self.circles.entries(),
            highest_circle_id: self.circles.highest(),
            arcs: self.arcs.entries(),
            highest_arc_id: self.arcs.highest(),
        }
    }
}

impl SketchView {
    /// The sketch without points and shapes.
    pub open spec fn empty() -> SketchView {
        SketchView {
            points: Seq::empty(),
            highest_point_id: 0,
            line_segments: Seq::empty(),
            highest_line_segment_id: 0,
            circles: Seq::empty(),
            highest_circle_id: 0,
            arcs: Seq::empty(),
            highest_arc_id: 0,
        }
    }

    /// Whether two more points and one more segment can get ids.
    pub open spec fn room_for_line(self) -> bool {
        self.highest_point_id < u64::MAX - 1 && self.highest_line_segment_id < u64::MAX
    }

    /// The sketch with two new points and the segment between them.
    pub open spec fn with_line_segment(self, x0: Scalar, y0: Scalar, x1: Scalar, y1: Scalar)
        -> SketchView {
        let start = (self.highest_point_id + 1) as u64;
        let end = (self.highest_point_id + 2) as u64;
        let id = (self.highest_line_segment_id + 1) as u64;
        SketchView {
            points: self.points.push((start, Point2 { x: x0, y: y0 })).push(
                (end, Point2 { x: x1, y: y1 }),
            ),
            highest_point_id: end,
            line_segments: self.line_segments.push((id, Line2 { start, end })),
            highest_line_segment_id: id,
            ..self
        }
    }
}

} // verus!
