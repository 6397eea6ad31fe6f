//! Where two shapes of a sketch collide, decided on what a numeric kernel measured.
//!
//! A kernel looks at the carriers of two shapes: the line through a segment, a circle
//! itself, the full circle of an arc. It reports the points where the carriers meet and,
//! of each point, whether it lies within either shape and whether it lies on an end of
//! the first. Which of these points are collisions is decided here.

use crate::geometry::{Arc2, Circle2, Line2, Point2};
use crate::incrementing_map::{slot, IncrementingMap};
use crate::sketch::Sketch;
use vstd::prelude::*;

verus! {

/// A shape in the pool of the splitter.
#[derive(Clone, Copy, Debug, PartialEq, Eq, Structural)]
pub enum Shape {
    Circle(Circle2),
    Arc(Arc2),
    Line(Line2),
}

/// A point at which two shapes of the pool collide, and their keys.
#[derive(Clone, Copy, Debug, PartialEq, Eq, Structural)]
pub struct Collision {
    pub point: Point2,
    pub shape_a: u64,
    pub shape_b: u64,
}

/// What two shapes have in common. With each point stands whether it is degenerate.
#[derive(Clone, Copy, Debug, PartialEq, Eq, Structural)]
pub enum Intersection {
    Empty,
    OnePoint(Point2, bool),
    TwoPoints(Point2, bool, Point2, bool),
    Line(Point2, Point2),
    Arc(Arc2),
    Circle(Circle2),
}

/// A point where the carriers of two shapes meet, and what the kernel measured of it.
#[derive(Clone, Copy, Debug, PartialEq, Eq, Structural)]
pub struct Candidate {
    /// The point.
    pub point: Point2,
    /// Whether the point lies within the first shape.
    pub within_first: bool,
    /// Whether the point lies within the second shape.
    pub within_second: bool,
    /// Whether the point is almost equal to the start of the first shape.
    pub at_first_start: bool,
    /// Whether the point is almost equal to the end of the first shape.
    pub at_first_end: bool,
}

/// The points where the carriers of two shapes meet: none, one or two.
#[derive(Clone, Copy, Debug, PartialEq, Eq, Structural)]
pub enum Contact {
    Apart,
    Once(Candidate),
    Twice(Candidate, Candidate),
}

impl Candidate {
    /// The collision of the shapes `shape_a` and `shape_b` at the point of the candidate.
    pub open spec fn collision(self, shape_a: u64, shape_b: u64) -> Collision {
        Collision { point: self.point, shape_a, shape_b }
    }

    /// Whether the candidate lies on an end that the first shape shares with the second.
    pub open spec fn forbidden(self, start_shared: bool, end_shared: bool) -> bool {
        (start_shared && self.at_first_start) || (end_shared && self.at_first_end)
    }

    /// Whether the candidate collides two lines or two arcs: it lies within both and not
    /// on an end that they share.
    pub open spec fn within_both_open(self, start_shared: bool, end_shared: bool) -> bool {
        self.within_first && self.within_second && !self.forbidden(start_shared, end_shared)
    }
}

impl Contact {
    /// The candidates, in the order in which the kernel found them.
    pub open spec fn candidates(self) -> Seq<Candidate> {
        match self {
            Contact::Apart => Seq::empty(),
            Contact::Once(c) => seq![c],
            Contact::Twice(c, d) => seq![c, d],
        }
    }
}

/// The collisions of `shape_a` and `shape_b` at those of `candidates` that `keep` lets
/// through, in their order.
pub open spec fn collisions_at(
    candidates: Seq<Candidate>,
    keep: spec_fn(Candidate) -> bool,
    shape_a: u64,
    shape_b: u64,
) -> Seq<Collision>
    decreases candidates.len(),
{
    if candidates.len() == 0 {
        Seq::empty()
    } else if keep(candidates.last()) {
        collisions_at(candidates.drop_last(), keep, shape_a, shape_b).push(
            candidates.last().collision(shape_a, shape_b),
        )
    } else {
        collisions_at(candidates.drop_last(), keep, shape_a, shape_b)
    }
}

/// Whether the start of `a` is an end of `b`, by id.
pub open spec fn lines_share_start(a: Line2, b: Line2) -> bool {
    a.start == b.start || a.start == b.end
}

/// Whether the end of `a` is an end of `b`, by id.
pub open spec fn lines_share_end(a: Line2, b: Line2) -> bool {
    a.end == b.end || a.end == b.start
}

/// Whether the start of `a` is an end of `b`, by id.
pub open spec fn arcs_share_start(a: Arc2, b: Arc2) -> bool {
    a.start == b.start || a.start == b.end
}

/// Whether the end of `a` is an end of `b`, by id.
pub open spec fn arcs_share_end(a: Arc2, b: Arc2) -> bool {
    a.end == b.end || a.end == b.start
}

/// The collisions of two lines: a candidate collides them if it lies within both
/// segments and not on an end that they share by id.
pub open spec fn line_line(a: Line2, a_id: u64, b: Line2, b_id: u64, contact: Contact) -> Seq<
    Collision,
> {
    collisions_at(
        contact.candidates(),
        |c: Candidate| c.within_both_open(lines_share_start(a, b), lines_share_end(a, b)),
        a_id,
        b_id,
    )
}

/// The collisions of two circles: every candidate.
pub open spec fn circle_circle(a_id: u64, b_id: u64, contact: Contact) -> Seq<Collision> {
    collisions_at(contact.candidates(), |c: Candidate| true, a_id, b_id)
}

/// The collisions of a circle, as the first shape, and an arc: the candidates within
/// the arc.
pub open spec fn circle_arc(circle_id: u64, arc_id: u64, contact: Contact) -> Seq<Collision> {
    collisions_at(contact.candidates(), |c: Candidate| c.within_second, circle_id, arc_id)
}

/// The collisions of an arc, as the first shape, and a circle: the candidates within
/// the arc.
pub open spec fn arc_circle(arc_id: u64, circle_id: u64, contact: Contact) -> Seq<Collision> {
    collisions_at(contact.candidates(), |c: Candidate| c.within_first, arc_id, circle_id)
}

/// The collisions of two arcs: a candidate collides them if it lies within both arcs and
/// not on an end that they share by id.
pub open spec fn arc_arc(a: Arc2, a_id: u64, b: Arc2, b_id: u64, contact: Contact) -> Seq<
    Collision,
> {
    collisions_at(
        contact.candidates(),
        |c: Candidate| c.within_both_open(arcs_share_start(a, b), arcs_share_end(a, b)),
        a_id,
        b_id,
    )
}

/// What two circles have in common.
pub open spec fn circles_meet(contact: Contact) -> Intersection {
    match contact {
        Contact::Apart => Intersection::Empty,
        Contact::Once(c) => Intersection::OnePoint(c.point, false),
        Contact::Twice(c, d) => Intersection::TwoPoints(c.point, false, d.point, false),
    }
}

/// What a circle, as the first shape, and an arc have in common: of the two points
/// where the circle meets the full circle of the arc, those within the arc.
pub open spec fn circle_meets_arc(contact: Contact) -> Intersection {
    match contact {
        Contact::Twice(c, d) => if c.within_second && d.within_second {
            Intersection::TwoPoints(c.point, false, d.point, false)
        } else if c.within_second {
            Intersection::OnePoint(c.point, false)
        } else if d.within_second {
            Intersection::OnePoint(d.point, false)
        } else {
            Intersection::Empty
        },
        _ => Intersection::Empty,
    }
}

/// Adds the collision of `shape_a` and `shape_b` at `candidate` to `out` if `keep` holds.
fn keep_if(out: &mut Vec<Collision>, keep: bool, candidate: &Candidate, shape_a: u64, shape_b: u64)
    ensures
        final(out)@ == if keep {
            old(out)@.push(candidate.collision(shape_a, shape_b))
        } else {
            old(out)@
        },
{
    if keep {
        out.push(Collision { point: candidate.point, shape_a, shape_b });
    }
}

/// The collisions over no candidate, one candidate or two.
pub proof fn lemma_collisions_at(
    contact: Contact,
    keep: spec_fn(Candidate) -> bool,
    shape_a: u64,
    shape_b: u64,
)
    ensures
        collisions_at(contact.candidates(), keep, shape_a, shape_b) == match contact {
            Contact::Apart => Seq::<Collision>::empty(),
            Contact::Once(c) => if keep(c) {
                Seq::<Collision>::empty().push(c.collision(shape_a, shape_b))
            } else {
                Seq::<Collision>::empty()
            },
            Contact::Twice(c, d) => {
                let first = if keep(c) {
                    Seq::<Collision>::empty().push(c.collision(shape_a, shape_b))
                } else {
                    Seq::<Collision>::empty()
                };
                if keep(d) {
                    first.push(d.collision(shape_a, shape_b))
                } else {
                    first
                }
            },
        },
{
    reveal_with_fuel(collisions_at, 3);
    match contact {
        Contact::Apart => {},
        Contact::Once(c) => {
            assert(seq![c].drop_last() =~= Seq::<Candidate>::empty());
        },
        Contact::Twice(c, d) => {
            assert(seq![c, d].drop_last() =~= seq![c]);
            assert(seq![c].drop_last() =~= Seq::<Candidate>::empty());
        },
    }
}

impl Shape {
    /// Whether a pair of this shape, as the first, and `other` can be tested for
    /// collisions: two lines, or two shapes of which each is a circle or an arc.
    pub open spec fn pairs_with(self, other: Shape) -> bool {
        (self is Line) == (other is Line)
    }

    /// Whether a collision of this shape, as the first, and `other` can be split at: two
    /// lines, or two shapes of which each is a circle or an arc.
    pub open spec fn splits_with(self, other: Shape) -> bool {
        match (self, other) {
            (Shape::Circle(_), Shape::Circle(_)) => true,
            (Shape::Circle(_), Shape::Arc(_)) => true,
            (Shape::Arc(_), Shape::Circle(_)) => true,
            (Shape::Arc(_), Shape::Arc(_)) => true,
            (Shape::Line(_), Shape::Line(_)) => true,
            _ => false,
        }
    }

    /// Cuts a line at the point `new_point_id` into the part before it and the part
    /// behind it.
    pub fn split_at_point_id(&self, new_point_id: u64) -> (r: (Shape, Shape))
        requires
            self is Line,
        ensures
            r.0 == Shape::Line(Line2 { start: self->Line_0.start, end: new_point_id }),
            r.1 == Shape::Line(Line2 { start: new_point_id, end: self->Line_0.end }),
    {
        match self {
            Shape::Line(line) => {
                let new_line_1 = Line2 { start: line.start, end: new_point_id };
                let new_line_2 = Line2 { start: new_point_id, end: line.end };
                (Shape::Line(new_line_1), Shape::Line(new_line_2))
            },
            Shape::Circle(_) => (*self, *self),
            Shape::Arc(_) => (*self, *self),
        }
    }
}

impl Sketch {
    /// Whether every point id that `shape` names resolves in the point map.
    pub open spec fn holds(&self, shape: Shape) -> bool {
        match shape {
            Shape::Circle(circle) => self.holds_circle(circle),
            Shape::Arc(arc) => self.holds_arc(arc),
            Shape::Line(line) => self.holds_line(line),
        }
    }

    /// Whether every point id that a shape of `pool` names resolves in the point map.
    pub open spec fn holds_all(&self, pool: Seq<(u64, Shape)>) -> bool {
        forall|i: int| 0 <= i < pool.len() ==> self.holds((#[trigger] pool[i]).1)
    }

    /// The collisions of the lines `line_a` and `line_b`, given where their carriers
    /// meet: the candidate if it lies within both segments, unless it lies on an end that
    /// the two share by id.
    pub fn line_line_collisions(
        &self,
        line_a: &Line2,
        line_a_id: u64,
        line_b: &Line2,
        line_b_id: u64,
        contact: &Contact,
    ) -> (r: Vec<Collision>)
        requires
            self.holds_line(*line_a),
            self.holds_line(*line_b),
        ensures
            r@ == line_line(*line_a, line_a_id, *line_b, line_b_id, *contact),
    {
        let start_shared = line_a.start == line_b.start || line_a.start == line_b.end;
        let end_shared = line_a.end == line_b.end || line_a.end == line_b.start;
        let mut out: Vec<Collision> = Vec::new();
        proof {
            lemma_collisions_at(
                *contact,
                |c: Candidate|
                    c.within_both_open(
                        lines_share_start(*line_a, *line_b),
                        lines_share_end(*line_a, *line_b),
                    ),
                line_a_id,
                line_b_id,
            );
        }
        match contact {
            Contact::Apart => {},
            Contact::Once(c) => {
                keep_if(
                    &mut out,
                    open_hit(c, start_shared, end_shared),
                    c,
                    line_a_id,
                    line_b_id,
                );
            },
            Contact::Twice(c, d) => {
                keep_if(
                    &mut out,
                    open_hit(c, start_shared, end_shared),
                    c,
                    line_a_id,
                    line_b_id,
                );
                keep_if(
                    &mut out,
                    open_hit(d, start_shared, end_shared),
                    d,
                    line_a_id,
                    line_b_id,
                );
            },
        }
        out
    }

    /// The collisions of the circles `circle_a` and `circle_b`, given where they meet:
    /// every candidate, in the order of the kernel.
    pub fn circle_circle_collisions(
        &self,
        circle_a: &Circle2,
        circle_a_id: u64,
        circle_b: &Circle2,
        circle_b_id: u64,
        contact: &Contact,
    ) -> (r: Vec<Collision>)
        requires
            self.has_point(circle_a.center),
            self.has_point(circle_b.center),
        ensures
            r@ == circle_circle(circle_a_id, circle_b_id, *contact),
    {
        let mut out: Vec<Collision> = Vec::new();
        proof {
            lemma_collisions_at(*contact, |c: Candidate| true, circle_a_id, circle_b_id);
        }
        match contact {
            Contact::Apart => {},
            Contact::Once(c) => {
                keep_if(&mut out, true, c, circle_a_id, circle_b_id);
            },
            Contact::Twice(c, d) => {
                keep_if(&mut out, true, c, circle_a_id, circle_b_id);
                keep_if(&mut out, true, d, circle_a_id, circle_b_id);
            },
        }
        out
    }

    /// What the circles `circle_a` and `circle_b` have in common, given where they meet.
    pub fn circle_circle_intersection(
        &self,
        circle_a: &Circle2,
        circle_b: &Circle2,
        contact: &Contact,
    ) -> (r: Intersection)
        requires
            self.has_point(circle_a.center),
            self.has_point(circle_b.center),
        ensures
            r == circles_meet(*contact),
    {
        match contact {
            Contact::Apart => Intersection::Empty,
            Contact::Once(c) => Intersection::OnePoint(c.point, false),
            Contact::Twice(c, d) => Intersection::TwoPoints(c.point, false, d.point, false),
        }
    }

    /// The collisions of `circle` and `arc`, given where the circle, as the first shape,
    /// meets the full circle of the arc: the candidates within the arc.
    pub fn circle_arc_collisions(
        &self,
        temp_sketch: &Sketch,
        circle: &Circle2,
        circle_id: u64,
        arc: &Arc2,
        arc_id: u64,
        contact: &Contact,
    ) -> (r: Vec<Collision>)
        requires
            temp_sketch.has_point(circle.center),
            temp_sketch.holds_arc(*arc),
        ensures
            r@ == circle_arc(circle_id, arc_id, *contact),
    {
        let mut out: Vec<Collision> = Vec::new();
        proof {
            lemma_collisions_at(*contact, |c: Candidate| c.within_second, circle_id, arc_id);
        }
        match contact {
            Contact::Apart => {},
            Contact::Once(c) => {
                keep_if(&mut out, c.within_second, c, circle_id, arc_id);
            },
            Contact::Twice(c, d) => {
                keep_if(&mut out, c.within_second, c, circle_id, arc_id);
                keep_if(&mut out, d.within_second, d, circle_id, arc_id);
            },
        }
        out
    }

    /// The collisions of `arc` and `circle`, given where the full circle of the arc, as
    /// the first shape, meets the circle: the candidates within the arc.
    pub fn arc_circle_collisions(
        &self,
        temp_sketch: &Sketch,
        arc: &Arc2,
        arc_id: u64,
        circle: &Circle2,
        circle_id: u64,
        contact: &Contact,
    ) -> (r: Vec<Collision>)
        requires
            temp_sketch.holds_arc(*arc),
            temp_sketch.has_point(circle.center),
        ensures
            r@ == arc_circle(arc_id, circle_id, *contact),
    {
        let mut out: Vec<Collision> = Vec::new();
        proof {
            lemma_collisions_at(*contact, |c: Candidate| c.within_first, arc_id, circle_id);
        }
        match contact {
            Contact::Apart => {},
            Contact::Once(c) => {
                keep_if(&mut out, c.within_first, c, arc_id, circle_id);
            },
            Contact::Twice(c, d) => {
                keep_if(&mut out, c.within_first, c, arc_id, circle_id);
                keep_if(&mut out, d.within_first, d, arc_id, circle_id);
            },
        }
        out
    }

    /// What `circle` and `arc` have in common, given where the circle, as the first
    /// shape, meets the full circle of the arc. A single point of contact between the two
    /// circles is not handled.
    pub fn circle_arc_intersection(
        &self,
        temp_sketch: &Sketch,
        circle: &Circle2,
        arc: &Arc2,
        contact: &Contact,
    ) -> (r: Intersection)
        requires
            self.has_point(circle.center),
            self.holds_arc(*arc),
            !(contact is Once),
        ensures
            r == circle_meets_arc(*contact),
    {
        match contact {
            Contact::Twice(c, d) => {
                if c.within_second && d.within_second {
                    Intersection::TwoPoints(c.point, false, d.point, false)
                } else if c.within_second {
                    Intersection::OnePoint(c.point, false)
                } else if d.within_second {
                    Intersection::OnePoint(d.point, false)
                } else {
                    Intersection::Empty
                }
            },
            _ => Intersection::Empty,
        }
    }

    /// The collisions of the arcs `arc_a` and `arc_b`, given where their full circles
    /// meet: the candidates within both arcs, but for one on an end that the two share
    /// by id.
    pub fn arc_arc_collisions(
        &self,
        temp_sketch: &Sketch,
        arc_a: &Arc2,
        arc_a_id: u64,
        arc_b: &Arc2,
        arc_b_id: u64,
        contact: &Contact,
    ) -> (r: Vec<Collision>)
        requires
            temp_sketch.holds_arc(*arc_a),
            temp_sketch.holds_arc(*arc_b),
        ensures
            r@ == arc_arc(*arc_a, arc_a_id, *arc_b, arc_b_id, *contact),
    {
        let start_shared = arc_a.start == arc_b.start || arc_a.start == arc_b.end;
        let end_shared = arc_a.end == arc_b.end || arc_a.end == arc_b.start;
        let mut out: Vec<Collision> = Vec::new();
        proof {
            lemma_collisions_at(
                *contact,
                |c: Candidate|
                    c.within_both_open(
                        arcs_share_start(*arc_a, *arc_b),
                        arcs_share_end(*arc_a, *arc_b),
                    ),
                arc_a_id,
                arc_b_id,
            );
        }
        match contact {
            Contact::Apart => {},
            Contact::Once(c) => {
                keep_if(&mut out, open_hit(c, start_shared, end_shared), c, arc_a_id, arc_b_id);
            },
            Contact::Twice(c, d) => {
                keep_if(&mut out, open_hit(c, start_shared, end_shared), c, arc_a_id, arc_b_id);
                keep_if(&mut out, open_hit(d, start_shared, end_shared), d, arc_a_id, arc_b_id);
            },
        }
        out
    }

    /// Turns a circle that is cut at the point `point_id` into the degenerate arc that
    /// starts and ends there.
    pub fn split_circle_at_point(&self, circle: &Circle2, point_id: &u64, point: &Point2) -> (r:
        Arc2)
        ensures
            r == (Arc2 {
                center: circle.center,
                start: *point_id,
                end: *point_id,
                clockwise: false,
            }),
            r.degenerate(),
    {
        Arc2 { center: circle.center, start: *point_id, end: *point_id, clockwise: false }
    }

    /// Cuts an arc at the point `point_id` into the arc up to it and the arc from it on.
    pub fn split_arc_at_point(&self, arc: &Arc2, point_id: &u64, point: &Point2) -> (r: (
        Arc2,
        Arc2,
    ))
        ensures
            r.0 == (Arc2 { end: *point_id, ..*arc }),
            r.1 == (Arc2 { start: *point_id, ..*arc }),
    {
        let new_arc_1 = Arc2 {
            center: arc.center,
            start: arc.start,
            end: *point_id,
            clockwise: arc.clockwise,
        };
        let new_arc_2 = Arc2 {
            center: arc.center,
            start: *point_id,
            end: arc.end,
            clockwise: arc.clockwise,
        };
        (new_arc_1, new_arc_2)
    }

    /// Cuts a line at the point `point_id` into the part up to it and the part from it on.
    pub fn split_line_at_point(&self, line: &Line2, point_id: &u64, point: &Point2) -> (r: (
        Line2,
        Line2,
    ))
        ensures
            r.0 == (Line2 { start: line.start, end: *point_id }),
            r.1 == (Line2 { start: *point_id, end: line.end }),
    {
        let new_line_1 = Line2 { start: line.start, end: *point_id };
        let new_line_2 = Line2 { start: *point_id, end: line.end };
        (new_line_1, new_line_2)
    }

    /// The collisions of the shapes under `shape_a_id` and `shape_b_id`, given where
    /// their carriers meet. The findings speak of the shape under `shape_a_id` as the
    /// first shape, and every collision carries the two keys in the order given.
    pub fn identify_collisions(
        &self,
        temp_sketch: &Sketch,
        all_shapes: &IncrementingMap<Shape>,
        shape_a_id: u64,
        shape_b_id: u64,
        contact: &Contact,
    ) -> (r: Vec<Collision>)
        requires
            all_shapes.wf(),
            all_shapes.contains(shape_a_id),
            all_shapes.contains(shape_b_id),
            all_shapes.item(shape_a_id).pairs_with(all_shapes.item(shape_b_id)),
            temp_sketch.holds_all(all_shapes.entries()),
        ensures
            r@ == identified(
                all_shapes.item(shape_a_id),
                shape_a_id,
                all_shapes.item(shape_b_id),
                shape_b_id,
                *contact,
            ),
            r@.len() <= 2,
            forall|i: int|
                0 <= i < r@.len() ==> (#[trigger] r@[i]).shape_a == shape_a_id && r@[i].shape_b
                    == shape_b_id,
    {
        proof {
            lemma_identified(
                all_shapes.item(shape_a_id),
                shape_a_id,
                all_shapes.item(shape_b_id),
                shape_b_id,
                *contact,
            );
        }
        let found_a = all_shapes.get_item(shape_a_id);
        let found_b = all_shapes.get_item(shape_b_id);
        let shape_a = found_a.unwrap();
        let shape_b = found_b.unwrap();
        proof {
            let s = all_shapes.entries();
            let i = slot(s, shape_a_id);
            let j = slot(s, shape_b_id);
            assert(temp_sketch.holds(s[i].1));
            assert(temp_sketch.holds(s[j].1));
        }
        match (shape_a, shape_b) {
            (Shape::Circle(circle_a), Shape::Circle(circle_b)) => {
                temp_sketch.circle_circle_collisions(
                    circle_a,
                    shape_a_id,
                    circle_b,
                    shape_b_id,
                    contact,
                )
            },
            (Shape::Circle(circle_a), Shape::Arc(arc_b)) => temp_sketch.circle_arc_collisions(
                temp_sketch,
                circle_a,
                shape_a_id,
                arc_b,
                shape_b_id,
                contact,
            ),
            (Shape::Arc(arc_a), Shape::Circle(circle_b)) => temp_sketch.arc_circle_collisions(
                temp_sketch,
                arc_a,
                shape_a_id,
                circle_b,
                shape_b_id,
                contact,
            ),
            (Shape::Arc(arc_a), Shape::Arc(arc_b)) => {
                temp_sketch.arc_arc_collisions(
                    temp_sketch,
                    arc_a,
                    shape_a_id,
                    arc_b,
                    shape_b_id,
                    contact,
                )
            },
            (Shape::Line(line_a), Shape::Line(line_b)) => {
                temp_sketch.line_line_collisions(line_a, shape_a_id, line_b, shape_b_id, contact)
            },
            _ => Vec::new(),
        }
    }
}

/// Whether the candidate collides two lines or two arcs.
fn open_hit(c: &Candidate, start_shared: bool, end_shared: bool) -> (r: bool)
    ensures
        r == c.within_both_open(start_shared, end_shared),
{
    c.within_first && c.within_second && !((start_shared && c.at_first_start) || (end_shared
        && c.at_first_end))
}

/// The collisions of the shapes `a` and `b`, by their kinds.
pub open spec fn identified(a: Shape, a_id: u64, b: Shape, b_id: u64, contact: Contact) -> Seq<
    Collision,
> {
    match (a, b) {
        (Shape::Circle(_), Shape::Circle(_)) => circle_circle(a_id, b_id, contact),
        (Shape::Circle(_), Shape::Arc(_)) => circle_arc(a_id, b_id, contact),
        (Shape::Arc(_), Shape::Circle(_)) => arc_circle(a_id, b_id, contact),
        (Shape::Arc(arc_a), Shape::Arc(arc_b)) => arc_arc(arc_a, a_id, arc_b, b_id, contact),
        (Shape::Line(line_a), Shape::Line(line_b)) => line_line(
            line_a,
            a_id,
            line_b,
            b_id,
            contact,
        ),
        _ => Seq::empty(),
    }
}

/// A tested pair has at most two collisions, and each carries the two keys of the pair
/// in the order in which the pair was tested.
pub proof fn lemma_identified(a: Shape, a_id: u64, b: Shape, b_id: u64, contact: Contact)
    ensures
        identified(a, a_id, b, b_id, contact).len() <= contact.candidates().len() <= 2,
        forall|i: int|
            0 <= i < identified(a, a_id, b, b_id, contact).len() ==> (#[trigger] identified(
                a,
                a_id,
                b,
                b_id,
                contact,
            )[i]).shape_a == a_id && identified(a, a_id, b, b_id, contact)[i].shape_b == b_id,
{
    lemma_collisions_at(contact, |c: Candidate| true, a_id, b_id);
    lemma_collisions_at(contact, |c: Candidate| c.within_second, a_id, b_id);
    lemma_collisions_at(contact, |c: Candidate| c.within_first, a_id, b_id);
    match (a, b) {
        (Shape::Arc(arc_a), Shape::Arc(arc_b)) => {
            lemma_collisions_at(
                contact,
                |c: Candidate|
                    c.within_both_open(
                        arcs_share_start(arc_a, arc_b),
                        arcs_share_end(arc_a, arc_b),
                    ),
                a_id,
                b_id,
            );
        },
        (Shape::Line(line_a), Shape::Line(line_b)) => {
            lemma_collisions_at(
                contact,
                |c: Candidate|
                    c.within_both_open(
                        lines_share_start(line_a, line_b),
                        lines_share_end(line_a, line_b),
                    ),
                a_id,
                b_id,
            );
        },
        _ => {},
    }
}

/// `collisions` with the two shapes of each collision in the other order.
pub open spec fn flipped(collisions: Seq<Collision>) -> Seq<Collision> {
    Seq::new(
        collisions.len(),
        |i: int|
            Collision {
                point: collisions[i].point,
                shape_a: collisions[i].shape_b,
                shape_b: collisions[i].shape_a,
            },
    )
}

/// Whether `d` says of the lines `b` and `a`, in that order, what `c` says of `a` and
/// `b`: the same point, within the same segments, and on the same ends wherever an end
/// of `b` is, by id, an end of `a`.
pub open spec fn mirrors(a: Line2, b: Line2, c: Candidate, d: Candidate) -> bool {
    &&& d.point == c.point
    &&& d.within_first == c.within_second
    &&& d.within_second == c.within_first
    &&& (b.start == a.start ==> d.at_first_start == c.at_first_start)
    &&& (b.start == a.end ==> d.at_first_start == c.at_first_end)
    &&& (b.end == a.start ==> d.at_first_end == c.at_first_start)
    &&& (b.end == a.end ==> d.at_first_end == c.at_first_end)
}

/// Whether the findings `back` on the lines `b` and `a` say what `forth` says on `a` and
/// `b`, candidate by candidate.
pub open spec fn contact_mirrors(a: Line2, b: Line2, forth: Contact, back: Contact) -> bool {
    match (forth, back) {
        (Contact::Apart, Contact::Apart) => true,
        (Contact::Once(c), Contact::Once(d)) => mirrors(a, b, c, d),
        (Contact::Twice(c1, c2), Contact::Twice(d1, d2)) => mirrors(a, b, c1, d1) && mirrors(
            a,
            b,
            c2,
            d2,
        ),
        _ => false,
    }
}

/// The collisions of two lines do not depend on their order: tested as `b` and `a` on
/// findings that say the same of the same points, the lines collide where they do as `a`
/// and `b`, with the two keys of each collision in the other order.
pub proof fn law_line_line_symmetric(
    a: Line2,
    a_id: u64,
    b: Line2,
    b_id: u64,
    forth: Contact,
    back: Contact,
)
    requires
        a.legal(),
        b.legal(),
        contact_mirrors(a, b, forth, back),
    ensures
        line_line(b, b_id, a, a_id, back) == flipped(line_line(a, a_id, b, b_id, forth)),
{
    let keep_forth = |c: Candidate|
        c.within_both_open(lines_share_start(a, b), lines_share_end(a, b));
    let keep_back = |c: Candidate|
        c.within_both_open(lines_share_start(b, a), lines_share_end(b, a));
    lemma_collisions_at(forth, keep_forth, a_id, b_id);
    lemma_collisions_at(back, keep_back, b_id, a_id);
    assert(line_line(b, b_id, a, a_id, back) =~= flipped(line_line(a, a_id, b, b_id, forth)));
}

/// No collision of two lines lies on an end that they share by id: every collision
/// stems from a candidate that lies within both segments and on no shared end.
pub proof fn law_endpoint_exclusion(
    a: Line2,
    a_id: u64,
    b: Line2,
    b_id: u64,
    contact: Contact,
    i: int,
)
    requires
        0 <= i < line_line(a, a_id, b, b_id, contact).len(),
    ensures
        exists|k: int|
            {
                &&& 0 <= k < contact.candidates().len()
                &&& line_line(a, a_id, b, b_id, contact)[i] == (
                #[trigger] contact.candidates()[k]).collision(a_id, b_id)
                &&& contact.candidates()[k].within_first
                &&& contact.candidates()[k].within_second
                &&& !(lines_share_start(a, b) && contact.candidates()[k].at_first_start)
                &&& !(lines_share_end(a, b) && contact.candidates()[k].at_first_end)
            },
{
    let keep = |c: Candidate| c.within_both_open(lines_share_start(a, b), lines_share_end(a, b));
    lemma_collisions_at(contact, keep, a_id, b_id);
    let found = line_line(a, a_id, b, b_id, contact);
    let cands = contact.candidates();
    match contact {
        Contact::Apart => {},
        Contact::Once(c) => {
            assert(found[i] == cands[0].collision(a_id, b_id));
        },
        Contact::Twice(c, d) => {
            if keep(c) && i == 0 {
                assert(found[i] == cands[0].collision(a_id, b_id));
            } else {
                assert(found[i] == cands[1].collision(a_id, b_id));
            }
        },
    }
}

} // verus!
