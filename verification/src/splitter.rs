//! The worklist that splits the shapes of a sketch at their collisions.
//!
//! The state of the work is a working sketch, the pool of shapes, a queue of pairs that
//! are still to be tested, a queue of collisions that are still to be split at, and three
//! lists: the keys whose partners were replaced, the keys made in the last split, and the
//! keys retired in it. One step does one thing to this state. What a step that tests a
//! pair needs from the numeric kernel, it is handed.

use crate::geometry::{Arc2, Circle2, Line2, Point2};
use crate::incrementing_map::{
    has_key, keys_of, lemma_without_within, slot, without, IncrementingMap,
};
use crate::intersections::{identified, Collision, Contact, Shape};
use crate::sketch::{Sketch, SketchView};
use std::collections::VecDeque;
use vstd::prelude::*;

verus! {

/// The degenerate arc that a circle around `center` becomes when it is cut at `point`.
pub open spec fn cut_circle(center: u64, point: u64) -> Shape {
    Shape::Arc(Arc2 { center, start: point, end: point, clockwise: false })
}

/// The part of an arc or a line up to `point`.
pub open spec fn first_half(shape: Shape, point: u64) -> Shape {
    match shape {
        Shape::Arc(arc) => Shape::Arc(Arc2 { end: point, ..arc }),
        Shape::Line(line) => Shape::Line(Line2 { start: line.start, end: point }),
        Shape::Circle(_) => shape,
    }
}

/// The part of an arc or a line from `point` on.
pub open spec fn second_half(shape: Shape, point: u64) -> Shape {
    match shape {
        Shape::Arc(arc) => Shape::Arc(Arc2 { start: point, ..arc }),
        Shape::Line(line) => Shape::Line(Line2 { start: point, end: line.end }),
        Shape::Circle(_) => shape,
    }
}

/// The pool with the shape under `key` cut at `point` in place: a circle becomes a
/// degenerate arc and keeps its key.
pub open spec fn cut_in_place(pool: Seq<(u64, Shape)>, key: u64, point: u64) -> Seq<(u64, Shape)> {
    match pool[slot(pool, key)].1 {
        Shape::Circle(circle) => pool.update(
            slot(pool, key),
            (key, cut_circle(circle.center, point)),
        ),
        _ => pool,
    }
}

/// The pool with the two halves of `shape` under the two keys above `highest`.
pub open spec fn with_halves(pool: Seq<(u64, Shape)>, highest: u64, shape: Shape, point: u64)
    -> Seq<(u64, Shape)> {
    pool.push(((highest + 1) as u64, first_half(shape, point))).push(
        ((highest + 2) as u64, second_half(shape, point)),
    )
}

/// The pool after a split at `point` of the shapes under `a` and `b`.
///
/// Two circles are each cut in place. Of a circle and an arc, in either order, the
/// circle is cut in place, and the arc leaves for its two halves. Two arcs, or two lines,
/// leave for their four halves, those of the first before those of the second.
pub open spec fn split_pool(pool: Seq<(u64, Shape)>, highest: u64, a: u64, b: u64, point: u64)
    -> Seq<(u64, Shape)> {
    let shape_a = pool[slot(pool, a)].1;
    let shape_b = pool[slot(pool, b)].1;
    match (shape_a, shape_b) {
        (Shape::Circle(_), Shape::Circle(circle_b)) => {
            let once = cut_in_place(pool, a, point);
            once.update(slot(once, b), (b, cut_circle(circle_b.center, point)))
        },
        (Shape::Circle(_), Shape::Arc(_)) => without(
            with_halves(cut_in_place(pool, a, point), highest, shape_b, point),
            b,
        ),
        (Shape::Arc(_), Shape::Circle(_)) => without(
            with_halves(cut_in_place(pool, b, point), highest, shape_a, point),
            a,
        ),
        (Shape::Arc(_), Shape::Arc(_)) | (Shape::Line(_), Shape::Line(_)) => without(
            without(
                with_halves(
                    with_halves(pool, highest, shape_a, point),
                    (highest + 2) as u64,
                    shape_b,
                    point,
                ),
                a,
            ),
            b,
        ),
        _ => pool,
    }
}

/// The keys that a split of the shapes `shape_a` and `shape_b` makes.
pub open spec fn born(shape_a: Shape, shape_b: Shape, highest: u64) -> Seq<u64> {
    match (shape_a, shape_b) {
        (Shape::Circle(_), Shape::Arc(_)) | (Shape::Arc(_), Shape::Circle(_)) => seq![
            (highest + 1) as u64,
            (highest + 2) as u64,
        ],
        (Shape::Arc(_), Shape::Arc(_)) | (Shape::Line(_), Shape::Line(_)) => seq![
            (highest + 1) as u64,
            (highest + 2) as u64,
            (highest + 3) as u64,
            (highest + 4) as u64,
        ],
        _ => Seq::empty(),
    }
}

/// The keys that a split of the shapes `shape_a`, under `a`, and `shape_b`, under `b`,
/// retires.
pub open spec fn retired(shape_a: Shape, shape_b: Shape, a: u64, b: u64) -> Seq<u64> {
    match (shape_a, shape_b) {
        (Shape::Circle(_), Shape::Arc(_)) => seq![b],
        (Shape::Arc(_), Shape::Circle(_)) => seq![a],
        (Shape::Arc(_), Shape::Arc(_)) | (Shape::Line(_), Shape::Line(_)) => seq![a, b],
        _ => Seq::empty(),
    }
}

/// A sketch with more points still holds the shapes that it held.
proof fn lemma_holds_more(before: &Sketch, after: &Sketch, pool: Seq<(u64, Shape)>)
    requires
        before.holds_all(pool),
        before.points_within(after),
    ensures
        after.holds_all(pool),
{
    assert forall|i: int| 0 <= i < pool.len() implies after.holds((#[trigger] pool[i]).1) by {
        assert(before.holds(pool[i].1));
    }
}

/// A sketch holds a pool with one more shape that it holds.
proof fn lemma_holds_push(sketch: &Sketch, pool: Seq<(u64, Shape)>, key: u64, shape: Shape)
    requires
        sketch.holds_all(pool),
        sketch.holds(shape),
    ensures
        sketch.holds_all(pool.push((key, shape))),
{
    let next = pool.push((key, shape));
    assert forall|i: int| 0 <= i < next.len() implies sketch.holds((#[trigger] next[i]).1) by {
        if i < pool.len() {
            assert(next[i] == pool[i]);
        }
    }
}

/// A sketch holds a pool in which a shape that it holds took the place of another.
proof fn lemma_holds_update(
    sketch: &Sketch,
    pool: Seq<(u64, Shape)>,
    i: int,
    key: u64,
    shape: Shape,
)
    requires
        sketch.holds_all(pool),
        sketch.holds(shape),
        0 <= i < pool.len(),
    ensures
        sketch.holds_all(pool.update(i, (key, shape))),
{
    let next = pool.update(i, (key, shape));
    assert forall|n: int| 0 <= n < next.len() implies sketch.holds((#[trigger] next[n]).1) by {
        if n != i {
            assert(next[n] == pool[n]);
        }
    }
}

/// A sketch holds a pool from which a shape has left.
proof fn lemma_holds_without(sketch: &Sketch, pool: Seq<(u64, Shape)>, key: u64)
    requires
        sketch.holds_all(pool),
    ensures
        sketch.holds_all(without(pool, key)),
{
    lemma_without_within(pool, key);
    let next = without(pool, key);
    assert forall|n: int| 0 <= n < next.len() implies sketch.holds((#[trigger] next[n]).1) by {
        assert(pool.contains(next[n]));
        let m = choose|m: int| 0 <= m < pool.len() && pool[m] == next[n];
        assert(sketch.holds(pool[m].1));
    }
}

impl Sketch {
    /// Splits the two shapes of `collision` at its point.
    ///
    /// The point joins the working sketch under a fresh id. Two circles become
    /// degenerate arcs in place and keep their keys. Of a circle and an arc, in either
    /// order, the circle becomes a degenerate arc in place, and the arc is retired for its
    /// two halves. Two
    /// arcs, or two lines, are retired for their four halves. The keys of the halves are
    /// added to `new_shapes`, the retired keys to `recently_deleted`.
    pub fn process_collision(
        &self,
        temp_sketch: &mut Sketch,
        all_shapes: &mut IncrementingMap<Shape>,
        possible_shape_collisions: &mut Vec<u64>,
        new_shapes: &mut Vec<u64>,
        recently_deleted: &mut Vec<u64>,
        collision: Collision,
    )
        requires
            old(temp_sketch).wf(),
            old(all_shapes).wf(),
            old(temp_sketch).holds_all(old(all_shapes).entries()),
            old(all_shapes).contains(collision.shape_a),
            old(all_shapes).contains(collision.shape_b),
            old(all_shapes).item(collision.shape_a).splits_with(
                old(all_shapes).item(collision.shape_b),
            ),
            old(temp_sketch).points.highest() < u64::MAX,
            old(all_shapes).highest() <= u64::MAX - 4,
        ensures
            final(temp_sketch).wf(),
            final(all_shapes).wf(),
            final(temp_sketch).holds_all(final(all_shapes).entries()),
            final(temp_sketch)@ == (SketchView {
                points: old(temp_sketch)@.points.push(
                    ((old(temp_sketch)@.highest_point_id + 1) as u64, collision.point),
                ),
                highest_point_id: (old(temp_sketch)@.highest_point_id + 1) as u64,
                ..old(temp_sketch)@
            }),
            final(all_shapes).entries() == split_pool(
                old(all_shapes).entries(),
                old(all_shapes).highest(),
                collision.shape_a,
                collision.shape_b,
                (old(temp_sketch)@.highest_point_id + 1) as u64,
            ),
            final(all_shapes).highest() == old(all_shapes).highest() + born(
                old(all_shapes).item(collision.shape_a),
                old(all_shapes).item(collision.shape_b),
                old(all_shapes).highest(),
            ).len(),
            final(new_shapes)@ == old(new_shapes)@ + born(
                old(all_shapes).item(collision.shape_a),
                old(all_shapes).item(collision.shape_b),
                old(all_shapes).highest(),
            ),
            final(recently_deleted)@ == old(recently_deleted)@ + retired(
                old(all_shapes).item(collision.shape_a),
                old(all_shapes).item(collision.shape_b),
                collision.shape_a,
                collision.shape_b,
            ),
            final(possible_shape_collisions)@ == old(possible_shape_collisions)@,
    {
        let point = collision.point;
        let ghost pool = all_shapes.entries();
        let new_point_id = temp_sketch.add_point(point.x, point.y);
        proof {
            lemma_holds_more(old(temp_sketch), temp_sketch, pool);
        }
        self.split_shapes(
            temp_sketch,
            all_shapes,
            new_shapes,
            recently_deleted,
            collision.shape_a,
            collision.shape_b,
            new_point_id,
            &point,
        );
    }

    /// Splits the shapes under `shape_a_id` and `shape_b_id` at the point `new_point_id`
    /// of the working sketch.
    fn split_shapes(
        &self,
        temp_sketch: &Sketch,
        all_shapes: &mut IncrementingMap<Shape>,
        new_shapes: &mut Vec<u64>,
        recently_deleted: &mut Vec<u64>,
        shape_a_id: u64,
        shape_b_id: u64,
        new_point_id: u64,
        point: &Point2,
    )
        requires
            old(all_shapes).wf(),
            temp_sketch.holds_all(old(all_shapes).entries()),
            temp_sketch.has_point(new_point_id),
            forall|i: int|
                0 <= i < old(all_shapes).entries().len() ==> match (
                #[trigger] old(all_shapes).entries()[i]).1 {
                    Shape::Line(line) => line.start != new_point_id && line.end != new_point_id,
                    _ => true,
                },
            old(all_shapes).contains(shape_a_id),
            old(all_shapes).contains(shape_b_id),
            old(all_shapes).item(shape_a_id).splits_with(old(all_shapes).item(shape_b_id)),
            old(all_shapes).highest() <= u64::MAX - 4,
        ensures
            final(all_shapes).wf(),
            temp_sketch.holds_all(final(all_shapes).entries()),
            final(all_shapes).entries() == split_pool(
                old(all_shapes).entries(),
                old(all_shapes).highest(),
                shape_a_id,
                shape_b_id,
                new_point_id,
            ),
            final(all_shapes).highest() == old(all_shapes).highest() + born(
                old(all_shapes).item(shape_a_id),
                old(all_shapes).item(shape_b_id),
                old(all_shapes).highest(),
            ).len(),
            final(new_shapes)@ == old(new_shapes)@ + born(
                old(all_shapes).item(shape_a_id),
                old(all_shapes).item(shape_b_id),
                old(all_shapes).highest(),
            ),
            final(recently_deleted)@ == old(recently_deleted)@ + retired(
                old(all_shapes).item(shape_a_id),
                old(all_shapes).item(shape_b_id),
                shape_a_id,
                shape_b_id,
            ),
    {
        let found_a = all_shapes.get_item(shape_a_id);
        let shape_a: Shape = *found_a.unwrap();
        let found_b = all_shapes.get_item(shape_b_id);
        let shape_b: Shape = *found_b.unwrap();
        let ghost pool = all_shapes.entries();
        proof {
            assert(temp_sketch.holds(pool[slot(pool, shape_a_id)].1));
            assert(temp_sketch.holds(pool[slot(pool, shape_b_id)].1));
        }
        match (shape_a, shape_b) {
            (Shape::Circle(circle_a), Shape::Circle(circle_b)) => {
                let arc_a = self.split_circle_at_point(&circle_a, &new_point_id, point);
                let arc_b = self.split_circle_at_point(&circle_b, &new_point_id, point);
                self.substitute(temp_sketch, all_shapes, shape_a_id, Shape::Arc(arc_a));
                self.substitute(temp_sketch, all_shapes, shape_b_id, Shape::Arc(arc_b));
                proof {
                    assert(new_shapes@ =~= old(new_shapes)@ + Seq::<u64>::empty());
                    assert(recently_deleted@ =~= old(recently_deleted)@ + Seq::<u64>::empty());
                }
            },
            (Shape::Circle(circle_a), Shape::Arc(arc_b)) => {
                let arc_a = self.split_circle_at_point(&circle_a, &new_point_id, point);
                let (arc_b1, arc_b2) = self.split_arc_at_point(&arc_b, &new_point_id, point);
                self.substitute(temp_sketch, all_shapes, shape_a_id, Shape::Arc(arc_a));
                self.replace_one(
                    temp_sketch,
                    all_shapes,
                    new_shapes,
                    recently_deleted,
                    shape_b_id,
                    (Shape::Arc(arc_b1), Shape::Arc(arc_b2)),
                );
            },
            (Shape::Arc(arc_a), Shape::Circle(circle_b)) => {
                let (arc_a1, arc_a2) = self.split_arc_at_point(&arc_a, &new_point_id, point);
                let arc_b = self.split_circle_at_point(&circle_b, &new_point_id, point);
                self.substitute(temp_sketch, all_shapes, shape_b_id, Shape::Arc(arc_b));
                self.replace_one(
                    temp_sketch,
                    all_shapes,
                    new_shapes,
                    recently_deleted,
                    shape_a_id,
                    (Shape::Arc(arc_a1), Shape::Arc(arc_a2)),
                );
            },
            (Shape::Arc(arc_a), Shape::Arc(arc_b)) => {
                let (arc_a1, arc_a2) = self.split_arc_at_point(&arc_a, &new_point_id, point);
                let (arc_b1, arc_b2) = self.split_arc_at_point(&arc_b, &new_point_id, point);
                self.replace_pair(
                    temp_sketch,
                    all_shapes,
                    new_shapes,
                    recently_deleted,
                    shape_a_id,
                    shape_b_id,
                    (Shape::Arc(arc_a1), Shape::Arc(arc_a2)),
                    (Shape::Arc(arc_b1), Shape::Arc(arc_b2)),
                );
            },
            (Shape::Line(line_a), Shape::Line(line_b)) => {
                let (line_a1, line_a2) = self.split_line_at_point(&line_a, &new_point_id, point);
                let (line_b1, line_b2) = self.split_line_at_point(&line_b, &new_point_id, point);
                proof {
                    assert(pool[slot(pool, shape_a_id)].1 == shape_a);
                    assert(pool[slot(pool, shape_b_id)].1 == shape_b);
                }
                self.replace_pair(
                    temp_sketch,
                    all_shapes,
                    new_shapes,
                    recently_deleted,
                    shape_a_id,
                    shape_b_id,
                    (Shape::Line(line_a1), Shape::Line(line_a2)),
                    (Shape::Line(line_b1), Shape::Line(line_b2)),
                );
            },
            _ => {},
        }
    }

    /// Puts `shape` in the place of the shape under `key`.
    fn substitute(
        &self,
        temp_sketch: &Sketch,
        all_shapes: &mut IncrementingMap<Shape>,
        key: u64,
        shape: Shape,
    )
        requires
            old(all_shapes).wf(),
            old(all_shapes).contains(key),
            temp_sketch.holds_all(old(all_shapes).entries()),
            temp_sketch.holds(shape),
        ensures
            final(all_shapes).wf(),
            temp_sketch.holds_all(final(all_shapes).entries()),
            final(all_shapes).highest() == old(all_shapes).highest(),
            final(all_shapes).entries() == old(all_shapes).entries().update(
                slot(old(all_shapes).entries(), key),
                (key, shape),
            ),
            final(all_shapes).contains(key),
            final(all_shapes).item(key) == shape,
            final(all_shapes).same_but(old(all_shapes), key),
    {
        proof {
            let pool = all_shapes.entries();
            let i = slot(pool, key);
            assert(0 <= i < pool.len() && pool[i].0 == key);
            lemma_holds_update(temp_sketch, pool, i, key, shape);
        }
        all_shapes.replace_item(key, shape);
    }

    /// Adds the two halves of a shape to the pool.
    fn add_halves(
        &self,
        temp_sketch: &Sketch,
        all_shapes: &mut IncrementingMap<Shape>,
        new_shapes: &mut Vec<u64>,
        halves: (Shape, Shape),
    )
        requires
            old(all_shapes).wf(),
            old(all_shapes).highest() <= u64::MAX - 2,
            temp_sketch.holds_all(old(all_shapes).entries()),
            temp_sketch.holds(halves.0),
            temp_sketch.holds(halves.1),
        ensures
            final(all_shapes).wf(),
            temp_sketch.holds_all(final(all_shapes).entries()),
            final(all_shapes).highest() == old(all_shapes).highest() + 2,
            final(all_shapes).entries() == old(all_shapes).entries().push(
                ((old(all_shapes).highest() + 1) as u64, halves.0),
            ).push(((old(all_shapes).highest() + 2) as u64, halves.1)),
            final(new_shapes)@ == old(new_shapes)@.push(
                (old(all_shapes).highest() + 1) as u64,
            ).push((old(all_shapes).highest() + 2) as u64),
    {
        let ghost s0 = all_shapes.entries();
        let k1 = all_shapes.add_item(halves.0);
        new_shapes.push(k1);
        let ghost s1 = all_shapes.entries();
        let k2 = all_shapes.add_item(halves.1);
        new_shapes.push(k2);
        proof {
            lemma_holds_push(temp_sketch, s0, k1, halves.0);
            lemma_holds_push(temp_sketch, s1, k2, halves.1);
        }
    }

    /// Takes the shape under `key` out of the pool and enters the key as retired.
    fn retire(
        &self,
        temp_sketch: &Sketch,
        all_shapes: &mut IncrementingMap<Shape>,
        recently_deleted: &mut Vec<u64>,
        key: u64,
    )
        requires
            old(all_shapes).wf(),
            temp_sketch.holds_all(old(all_shapes).entries()),
        ensures
            final(all_shapes).wf(),
            temp_sketch.holds_all(final(all_shapes).entries()),
            final(all_shapes).highest() == old(all_shapes).highest(),
            final(all_shapes).entries() == without(old(all_shapes).entries(), key),
            final(recently_deleted)@ == old(recently_deleted)@.push(key),
    {
        proof {
            lemma_holds_without(temp_sketch, all_shapes.entries(), key);
        }
        let gone = all_shapes.remove_item(key);
        recently_deleted.push(gone);
    }

    /// Adds the two halves of a shape to the pool and retires the shape.
    fn replace_one(
        &self,
        temp_sketch: &Sketch,
        all_shapes: &mut IncrementingMap<Shape>,
        new_shapes: &mut Vec<u64>,
        recently_deleted: &mut Vec<u64>,
        shape_id: u64,
        halves: (Shape, Shape),
    )
        requires
            old(all_shapes).wf(),
            old(all_shapes).highest() <= u64::MAX - 2,
            temp_sketch.holds_all(old(all_shapes).entries()),
            temp_sketch.holds(halves.0),
            temp_sketch.holds(halves.1),
        ensures
            final(all_shapes).wf(),
            temp_sketch.holds_all(final(all_shapes).entries()),
            final(all_shapes).highest() == old(all_shapes).highest() + 2,
            final(all_shapes).entries() == without(
                old(all_shapes).entries().push(
                    ((old(all_shapes).highest() + 1) as u64, halves.0),
                ).push(((old(all_shapes).highest() + 2) as u64, halves.1)),
                shape_id,
            ),
            final(new_shapes)@ == old(new_shapes)@ + seq![
                (old(all_shapes).highest() + 1) as u64,
                (old(all_shapes).highest() + 2) as u64,
            ],
            final(recently_deleted)@ == old(recently_deleted)@ + seq![shape_id],
    {
        self.add_halves(temp_sketch, all_shapes, new_shapes, halves);
        self.retire(temp_sketch, all_shapes, recently_deleted, shape_id);
        proof {
            let h = old(all_shapes).highest();
            assert(new_shapes@ =~= old(new_shapes)@ + seq![(h + 1) as u64, (h + 2) as u64]);
            assert(recently_deleted@ =~= old(recently_deleted)@ + seq![shape_id]);
        }
    }

    /// Adds the four halves of two shapes to the pool and retires the two.
    fn replace_pair(
        &self,
        temp_sketch: &Sketch,
        all_shapes: &mut IncrementingMap<Shape>,
        new_shapes: &mut Vec<u64>,
        recently_deleted: &mut Vec<u64>,
        shape_a_id: u64,
        shape_b_id: u64,
        halves_a: (Shape, Shape),
        halves_b: (Shape, Shape),
    )
        requires
            old(all_shapes).wf(),
            old(all_shapes).highest() <= u64::MAX - 4,
            temp_sketch.holds_all(old(all_shapes).entries()),
            temp_sketch.holds(halves_a.0),
            temp_sketch.holds(halves_a.1),
            temp_sketch.holds(halves_b.0),
            temp_sketch.holds(halves_b.1),
        ensures
            final(all_shapes).wf(),
            temp_sketch.holds_all(final(all_shapes).entries()),
            final(all_shapes).highest() == old(all_shapes).highest() + 4,
            final(all_shapes).entries() == without(
                without(
                    old(all_shapes).entries().push(
                        ((old(all_shapes).highest() + 1) as u64, halves_a.0),
                    ).push(((old(all_shapes).highest() + 2) as u64, halves_a.1)).push(
                        ((old(all_shapes).highest() + 3) as u64, halves_b.0),
                    ).push(((old(all_shapes).highest() + 4) as u64, halves_b.1)),
                    shape_a_id,
                ),
                shape_b_id,
            ),
            final(new_shapes)@ == old(new_shapes)@ + seq![
                (old(all_shapes).highest() + 1) as u64,
                (old(all_shapes).highest() + 2) as u64,
                (old(all_shapes).highest() + 3) as u64,
                (old(all_shapes).highest() + 4) as u64,
            ],
            final(recently_deleted)@ == old(recently_deleted)@ + seq![shape_a_id, shape_b_id],
    {
        self.add_halves(temp_sketch, all_shapes, new_shapes, halves_a);
        self.add_halves(temp_sketch, all_shapes, new_shapes, halves_b);
        self.retire(temp_sketch, all_shapes, recently_deleted, shape_a_id);
        self.retire(temp_sketch, all_shapes, recently_deleted, shape_b_id);
        proof {
            let h = old(all_shapes).highest();
            assert(new_shapes@ =~= old(new_shapes)@ + seq![
                (h + 1) as u64,
                (h + 2) as u64,
                (h + 3) as u64,
                (h + 4) as u64,
            ]);
            assert(recently_deleted@ =~= old(recently_deleted)@ + seq![shape_a_id, shape_b_id]);
        }
    }
}

/// The state of the work as the contracts read it.
pub struct SplitView {
    /// The working sketch.
    pub sketch: SketchView,
    /// The pool of shapes, by ascending key.
    pub pool: Seq<(u64, Shape)>,
    /// The highest key that the pool has given out.
    pub highest: u64,
    /// The pairs that are still to be tested, the next one first.
    pub pairs: Seq<(u64, u64)>,
    /// The collisions that are still to be split at, the next one first.
    pub collisions: Seq<Collision>,
    /// The keys whose partner in a pair or a collision was retired.
    pub possible: Seq<u64>,
    /// The keys made by the last split.
    pub fresh: Seq<u64>,
    /// The keys retired by the last split.
    pub deleted: Seq<u64>,
}

/// What a step does, by what the state holds.
#[derive(Clone, Copy, Debug, PartialEq, Eq, Structural)]
pub enum Phase {
    /// Keys were retired: what names them is dropped.
    CleanUp,
    /// Keys were made or lost their partner: they are paired for testing.
    Schedule,
    /// A collision waits: it is split at.
    Materialize,
    /// A pair waits: it is tested.
    Detect,
    /// Nothing is left to do.
    Idle,
}

/// `possible` with the partner that survives, if one of `a` and `b` is retired and the
/// other is not. A key is not entered twice.
pub open spec fn remember(possible: Seq<u64>, deleted: Seq<u64>, a: u64, b: u64) -> Seq<u64> {
    let survivor = if deleted.contains(a) && !deleted.contains(b) {
        Some(b)
    } else if deleted.contains(b) && !deleted.contains(a) {
        Some(a)
    } else {
        None
    };
    match survivor {
        Some(k) => if possible.contains(k) {
            possible
        } else {
            possible.push(k)
        },
        None => possible,
    }
}

/// `possible` with the surviving partners of `pairs`, taken in order.
pub open spec fn remembered(pairs: Seq<(u64, u64)>, possible: Seq<u64>, deleted: Seq<u64>) -> Seq<
    u64,
>
    decreases pairs.len(),
{
    if pairs.len() == 0 {
        possible
    } else {
        remember(
            remembered(pairs.drop_last(), possible, deleted),
            deleted,
            pairs.last().0,
            pairs.last().1,
        )
    }
}

/// Those of `pairs` that name no retired key.
pub open spec fn live_pairs(pairs: Seq<(u64, u64)>, deleted: Seq<u64>) -> Seq<(u64, u64)>
    decreases pairs.len(),
{
    if pairs.len() == 0 {
        Seq::empty()
    } else if deleted.contains(pairs.last().0) || deleted.contains(pairs.last().1) {
        live_pairs(pairs.drop_last(), deleted)
    } else {
        live_pairs(pairs.drop_last(), deleted).push(pairs.last())
    }
}

/// Those of `collisions` that name no retired key.
pub open spec fn live_collisions(collisions: Seq<Collision>, deleted: Seq<u64>) -> Seq<Collision>
    decreases collisions.len(),
{
    if collisions.len() == 0 {
        Seq::empty()
    } else if deleted.contains(collisions.last().shape_a) || deleted.contains(
        collisions.last().shape_b,
    ) {
        live_collisions(collisions.drop_last(), deleted)
    } else {
        live_collisions(collisions.drop_last(), deleted).push(collisions.last())
    }
}

/// The two keys of each collision.
pub open spec fn keys_in(collisions: Seq<Collision>) -> Seq<(u64, u64)> {
    Seq::new(collisions.len(), |i: int| (collisions[i].shape_a, collisions[i].shape_b))
}

/// `key` paired with each of `fresh`, in order.
pub open spec fn row(key: u64, fresh: Seq<u64>) -> Seq<(u64, u64)> {
    Seq::new(fresh.len(), |j: int| (key, fresh[j]))
}

/// Each of `possible` paired with each of `fresh`: the pairs of the first key, then those
/// of the second, and so on.
pub open spec fn product(possible: Seq<u64>, fresh: Seq<u64>) -> Seq<(u64, u64)>
    decreases possible.len(),
{
    if possible.len() == 0 {
        Seq::empty()
    } else {
        product(possible.drop_last(), fresh) + row(possible.last(), fresh)
    }
}

/// `pairs` after each of `items`, in order, was put at its front: the last of them
/// stands first.
pub open spec fn pushed_front(pairs: Seq<(u64, u64)>, items: Seq<(u64, u64)>) -> Seq<(u64, u64)>
    decreases items.len(),
{
    if items.len() == 0 {
        pairs
    } else {
        seq![items.last()] + pushed_front(pairs, items.drop_last())
    }
}

impl SplitView {
    /// What the next step does. Cleaning up comes before scheduling, scheduling before
    /// splitting, splitting before testing.
    pub open spec fn phase(self) -> Phase {
        if self.deleted.len() > 0 {
            Phase::CleanUp
        } else if self.possible.len() > 0 || self.fresh.len() > 0 {
            Phase::Schedule
        } else if self.collisions.len() > 0 {
            Phase::Materialize
        } else if self.pairs.len() > 0 {
            Phase::Detect
        } else {
            Phase::Idle
        }
    }

    /// The shape under `key`.
    pub open spec fn shape(self, key: u64) -> Shape {
        self.pool[slot(self.pool, key)].1
    }

    /// Whether the next step can be taken: the collision to split at, or the pair to
    /// test, names two shapes of the pool that can be split, or tested, together, and a
    /// split finds the ids and keys that it needs.
    pub open spec fn ready(self) -> bool {
        match self.phase() {
            Phase::Materialize => {
                let c = self.collisions[0];
                &&& has_key(self.pool, c.shape_a)
                &&& has_key(self.pool, c.shape_b)
                &&& self.shape(c.shape_a).splits_with(self.shape(c.shape_b))
                &&& self.sketch.highest_point_id < u64::MAX
                &&& self.highest <= u64::MAX - 4
            },
            Phase::Detect => {
                let pair = self.pairs[0];
                &&& has_key(self.pool, pair.0)
                &&& has_key(self.pool, pair.1)
                &&& self.shape(pair.0).pairs_with(self.shape(pair.1))
            },
            _ => true,
        }
    }

    /// The state after cleaning up: every collision and every pair that names a retired
    /// key is dropped, its surviving partner is remembered, and no key counts as retired
    /// any more.
    pub open spec fn cleaned(self) -> SplitView {
        SplitView {
            collisions: live_collisions(self.collisions, self.deleted),
            pairs: live_pairs(self.pairs, self.deleted),
            possible: remembered(
                self.pairs,
                remembered(keys_in(self.collisions), self.possible, self.deleted),
                self.deleted,
            ),
            deleted: Seq::empty(),
            ..self
        }
    }

    /// The state after scheduling: every remembered key is paired with every new key, the
    /// pairs go to the front of the queue, and both lists are emptied.
    pub open spec fn scheduled(self) -> SplitView {
        SplitView {
            pairs: pushed_front(self.pairs, product(self.possible, self.fresh)),
            possible: Seq::empty(),
            fresh: Seq::empty(),
            ..self
        }
    }

    /// The state after splitting at the first collision: its point joins the sketch, and
    /// its two shapes are cut there.
    pub open spec fn materialized(self) -> SplitView {
        let c = self.collisions[0];
        let point = (self.sketch.highest_point_id + 1) as u64;
        let made = born(self.shape(c.shape_a), self.shape(c.shape_b), self.highest);
        SplitView {
            sketch: SketchView {
                points: self.sketch.points.push((point, c.point)),
                highest_point_id: point,
                ..self.sketch
            },
            pool: split_pool(self.pool, self.highest, c.shape_a, c.shape_b, point),
            highest: (self.highest + made.len()) as u64,
            collisions: self.collisions.drop_first(),
            fresh: self.fresh + made,
            deleted: self.deleted + retired(
                self.shape(c.shape_a),
                self.shape(c.shape_b),
                c.shape_a,
                c.shape_b,
            ),
            ..self
        }
    }

    /// The state after testing the first pair on the findings `contact`: its collisions
    /// join the end of their queue.
    pub open spec fn detected(self, contact: Contact) -> SplitView {
        let pair = self.pairs[0];
        SplitView {
            pairs: self.pairs.drop_first(),
            collisions: self.collisions + identified(
                self.shape(pair.0),
                pair.0,
                self.shape(pair.1),
                pair.1,
                contact,
            ),
            ..self
        }
    }

    /// The state after one step. Only a step that tests a pair reads `contact`.
    pub open spec fn step(self, contact: Contact) -> SplitView {
        match self.phase() {
            Phase::CleanUp => self.cleaned(),
            Phase::Schedule => self.scheduled(),
            Phase::Materialize => self.materialized(),
            Phase::Detect => self.detected(contact),
            Phase::Idle => self,
        }
    }
}

/// The state that the seven parts make up.
pub open spec fn split_view(
    sketch: &Sketch,
    all_shapes: &IncrementingMap<Shape>,
    pairs: Seq<(u64, u64)>,
    collisions: Seq<Collision>,
    possible: Seq<u64>,
    fresh: Seq<u64>,
    deleted: Seq<u64>,
) -> SplitView {
    SplitView {
        sketch: sketch@,
        pool: all_shapes.entries(),
        highest: all_shapes.highest(),
        pairs,
        collisions,
        possible,
        fresh,
        deleted,
    }
}

/// Whether `keys` holds `key`.
fn holds_key(keys: &Vec<u64>, key: u64) -> (r: bool)
    ensures
        r == keys@.contains(key),
{
    let mut i: usize = 0;
    while i < keys.len()
        invariant
            i <= keys@.len(),
            forall|j: int| 0 <= j < i ==> keys@[j] != key,
        decreases keys@.len() - i,
    {
        if keys[i] == key {
            return true;
        }
        i = i + 1;
    }
    false
}

/// Remembers the surviving partner of `a` and `b`, if one of them is retired and the
/// other is not.
fn remember_survivor(possible: &mut Vec<u64>, deleted: &Vec<u64>, a: u64, b: u64)
    ensures
        final(possible)@ == remember(old(possible)@, deleted@, a, b),
{
    let a_deleted = holds_key(deleted, a);
    let b_deleted = holds_key(deleted, b);
    if a_deleted && !b_deleted {
        if !holds_key(possible, b) {
            possible.push(b);
        }
    } else if b_deleted && !a_deleted {
        if !holds_key(possible, a) {
            possible.push(a);
        }
    }
}

impl Sketch {
    /// The pair that the next step tests, if the next step tests one. The caller has the
    /// kernel look at the two shapes and hands what it found to that step.
    pub fn pending_pair(
        pairs_to_check: &VecDeque<(u64, u64)>,
        collisions: &VecDeque<Collision>,
        possible_shape_collisions: &Vec<u64>,
        new_shapes: &Vec<u64>,
        recently_deleted: &Vec<u64>,
    ) -> (r: Option<(u64, u64)>)
        ensures
            match r {
                Some(pair) => recently_deleted@.len() == 0 && possible_shape_collisions@.len()
                    == 0 && new_shapes@.len() == 0 && collisions@.len() == 0
                    && pairs_to_check@.len() > 0 && pair == pairs_to_check@[0],
                None => !(recently_deleted@.len() == 0 && possible_shape_collisions@.len() == 0
                    && new_shapes@.len() == 0 && collisions@.len() == 0 && pairs_to_check@.len()
                    > 0),
            },
    {
        if recently_deleted.len() == 0 && possible_shape_collisions.len() == 0
            && new_shapes.len() == 0 && collisions.len() == 0 && pairs_to_check.len() > 0 {
            Some(pairs_to_check[0])
        } else {
            None
        }
    }

    /// Whether the next step can be taken.
    pub fn step_ready(
        temp_sketch: &Sketch,
        all_shapes: &IncrementingMap<Shape>,
        pairs_to_check: &VecDeque<(u64, u64)>,
        collisions: &VecDeque<Collision>,
        possible_shape_collisions: &Vec<u64>,
        new_shapes: &Vec<u64>,
        recently_deleted: &Vec<u64>,
    ) -> (r: bool)
        requires
            all_shapes.wf(),
        ensures
            r == split_view(
                temp_sketch,
                all_shapes,
                pairs_to_check@,
                collisions@,
                possible_shape_collisions@,
                new_shapes@,
                recently_deleted@,
            ).ready(),
    {
        if recently_deleted.len() > 0 {
            true
        } else if possible_shape_collisions.len() > 0 || new_shapes.len() > 0 {
            true
        } else if collisions.len() > 0 {
            let c = collisions[0];
            match (all_shapes.get_item(c.shape_a), all_shapes.get_item(c.shape_b)) {
                (Some(shape_a), Some(shape_b)) => {
                    let splits = match (shape_a, shape_b) {
                        (Shape::Circle(_), Shape::Circle(_)) => true,
                        (Shape::Circle(_), Shape::Arc(_)) => true,
                        (Shape::Arc(_), Shape::Circle(_)) => true,
                        (Shape::Arc(_), Shape::Arc(_)) => true,
                        (Shape::Line(_), Shape::Line(_)) => true,
                        _ => false,
                    };
                    splits && temp_sketch.points.highest_id() < u64::MAX
                        && all_shapes.highest_id() <= u64::MAX - 4
                },
                _ => false,
            }
        } else if pairs_to_check.len() > 0 {
            let pair = pairs_to_check[0];
            match (all_shapes.get_item(pair.0), all_shapes.get_item(pair.1)) {
                (Some(shape_a), Some(shape_b)) => {
                    let a_line = match shape_a {
                        Shape::Line(_) => true,
                        _ => false,
                    };
                    let b_line = match shape_b {
                        Shape::Line(_) => true,
                        _ => false,
                    };
                    a_line == b_line
                },
                _ => false,
            }
        } else {
            true
        }
    }

    /// Drops what names a retired key and remembers the surviving partners.
    fn clean_up(
        collisions: &mut VecDeque<Collision>,
        pairs_to_check: &mut VecDeque<(u64, u64)>,
        possible_shape_collisions: &mut Vec<u64>,
        recently_deleted: &mut Vec<u64>,
    )
        ensures
            final(collisions)@ == live_collisions(old(collisions)@, old(recently_deleted)@),
            final(pairs_to_check)@ == live_pairs(old(pairs_to_check)@, old(recently_deleted)@),
            final(possible_shape_collisions)@ == remembered(
                old(pairs_to_check)@,
                remembered(
                    keys_in(old(collisions)@),
                    old(possible_shape_collisions)@,
                    old(recently_deleted)@,
                ),
                old(recently_deleted)@,
            ),
            final(recently_deleted)@ == Seq::<u64>::empty(),
    {
        let mut kept: VecDeque<Collision> = VecDeque::new();
        let mut i: usize = 0;
        while i < collisions.len()
            invariant
                i <= collisions@.len(),
                collisions@ == old(collisions)@,
                recently_deleted@ == old(recently_deleted)@,
                kept@ == live_collisions(collisions@.subrange(0, i as int), recently_deleted@),
                possible_shape_collisions@ == remembered(
                    keys_in(collisions@).subrange(0, i as int),
                    old(possible_shape_collisions)@,
                    recently_deleted@,
                ),
            decreases collisions@.len() - i,
        {
            let c = collisions[i];
            proof {
                let part = collisions@.subrange(0, i + 1);
                assert(part.drop_last() =~= collisions@.subrange(0, i as int));
                assert(part.last() == c);
                let keys = keys_in(collisions@).subrange(0, i + 1);
                assert(keys.drop_last() =~= keys_in(collisions@).subrange(0, i as int));
                assert(keys.last() == (c.shape_a, c.shape_b));
            }
            remember_survivor(possible_shape_collisions, recently_deleted, c.shape_a, c.shape_b);
            if !holds_key(recently_deleted, c.shape_a) && !holds_key(recently_deleted, c.shape_b) {
                kept.push_back(c);
            }
            i = i + 1;
        }
        proof {
            assert(collisions@.subrange(0, i as int) =~= collisions@);
            assert(keys_in(collisions@).subrange(0, i as int) =~= keys_in(collisions@));
        }
        *collisions = kept;
        let ghost after_collisions = possible_shape_collisions@;
        let mut waiting: VecDeque<(u64, u64)> = VecDeque::new();
        let mut j: usize = 0;
        while j < pairs_to_check.len()
            invariant
                j <= pairs_to_check@.len(),
                pairs_to_check@ == old(pairs_to_check)@,
                recently_deleted@ == old(recently_deleted)@,
                waiting@ == live_pairs(pairs_to_check@.subrange(0, j as int), recently_deleted@),
                possible_shape_collisions@ == remembered(
                    pairs_to_check@.subrange(0, j as int),
                    after_collisions,
                    recently_deleted@,
                ),
            decreases pairs_to_check@.len() - j,
        {
            let pair = pairs_to_check[j];
            proof {
                let part = pairs_to_check@.subrange(0, j + 1);
                assert(part.drop_last() =~= pairs_to_check@.subrange(0, j as int));
                assert(part.last() == pair);
            }
            remember_survivor(possible_shape_collisions, recently_deleted, pair.0, pair.1);
            if !holds_key(recently_deleted, pair.0) && !holds_key(recently_deleted, pair.1) {
                waiting.push_back(pair);
            }
            j = j + 1;
        }
        proof {
            assert(pairs_to_check@.subrange(0, j as int) =~= pairs_to_check@);
        }
        *pairs_to_check = waiting;
        recently_deleted.clear();
    }

    /// Pairs every remembered key with every new key at the front of the queue.
    fn schedule(
        pairs_to_check: &mut VecDeque<(u64, u64)>,
        possible_shape_collisions: &mut Vec<u64>,
        new_shapes: &mut Vec<u64>,
    )
        ensures
            final(pairs_to_check)@ == pushed_front(
                old(pairs_to_check)@,
                product(old(possible_shape_collisions)@, old(new_shapes)@),
            ),
            final(possible_shape_collisions)@ == Seq::<u64>::empty(),
            final(new_shapes)@ == Seq::<u64>::empty(),
    {
        let mut i: usize = 0;
        while i < possible_shape_collisions.len()
            invariant
                i <= possible_shape_collisions@.len(),
                possible_shape_collisions@ == old(possible_shape_collisions)@,
                new_shapes@ == old(new_shapes)@,
                pairs_to_check@ == pushed_front(
                    old(pairs_to_check)@,
                    product(possible_shape_collisions@.subrange(0, i as int), new_shapes@),
                ),
            decreases possible_shape_collisions@.len() - i,
        {
            let possible_shape_id = possible_shape_collisions[i];
            let ghost done = product(possible_shape_collisions@.subrange(0, i as int), new_shapes@);
            let mut j: usize = 0;
            while j < new_shapes.len()
                invariant
                    j <= new_shapes@.len(),
                    new_shapes@ == old(new_shapes)@,
                    pairs_to_check@ == pushed_front(
                        old(pairs_to_check)@,
                        done + row(possible_shape_id, new_shapes@).subrange(0, j as int),
                    ),
                decreases new_shapes@.len() - j,
            {
                let new_shape_id = new_shapes[j];
                proof {
                    let grown = done + row(possible_shape_id, new_shapes@).subrange(0, j + 1);
                    assert(grown.drop_last() =~= done + row(
                        possible_shape_id,
                        new_shapes@,
                    ).subrange(0, j as int));
                    assert(grown.last() == (possible_shape_id, new_shape_id));
                }
                pairs_to_check.push_front((possible_shape_id, new_shape_id));
                j = j + 1;
            }
            proof {
                let part = possible_shape_collisions@.subrange(0, i + 1);
                assert(part.drop_last() =~= possible_shape_collisions@.subrange(0, i as int));
                assert(part.last() == possible_shape_id);
                assert(row(possible_shape_id, new_shapes@).subrange(0, j as int) =~= row(
                    possible_shape_id,
                    new_shapes@,
                ));
            }
            i = i + 1;
        }
        proof {
            assert(possible_shape_collisions@.subrange(0, i as int)
                =~= possible_shape_collisions@);
        }
        possible_shape_collisions.clear();
        new_shapes.clear();
    }

    /// Takes one step of the work and says whether there was anything to do.
    ///
    /// If keys were retired, what names them is dropped and their surviving partners are
    /// remembered. Else, if keys are remembered or new, each remembered key is paired with
    /// each new one at the front of the queue of pairs. Else, if a collision waits, its
    /// shapes are split at its point. Else, if a pair waits, it is tested on `contact`,
    /// what the kernel found of its two shapes, and its collisions join their queue.
    pub fn step_process(
        &self,
        temp_sketch: &mut Sketch,
        all_shapes: &mut IncrementingMap<Shape>,
        pairs_to_check: &mut VecDeque<(u64, u64)>,
        collisions: &mut VecDeque<Collision>,
        possible_shape_collisions: &mut Vec<u64>,
        new_shapes: &mut Vec<u64>,
        recently_deleted: &mut Vec<u64>,
        contact: &Contact,
    ) -> (r: bool)
        requires
            old(temp_sketch).wf(),
            old(all_shapes).wf(),
            old(temp_sketch).holds_all(old(all_shapes).entries()),
            split_view(
                old(temp_sketch),
                old(all_shapes),
                old(pairs_to_check)@,
                old(collisions)@,
                old(possible_shape_collisions)@,
                old(new_shapes)@,
                old(recently_deleted)@,
            ).ready(),
        ensures
            final(temp_sketch).wf(),
            final(all_shapes).wf(),
            final(temp_sketch).holds_all(final(all_shapes).entries()),
            split_view(
                final(temp_sketch),
                final(all_shapes),
                final(pairs_to_check)@,
                final(collisions)@,
                final(possible_shape_collisions)@,
                final(new_shapes)@,
                final(recently_deleted)@,
            ) == split_view(
                old(temp_sketch),
                old(all_shapes),
                old(pairs_to_check)@,
                old(collisions)@,
                old(possible_shape_collisions)@,
                old(new_shapes)@,
                old(recently_deleted)@,
            ).step(*contact),
            r == (split_view(
                old(temp_sketch),
                old(all_shapes),
                old(pairs_to_check)@,
                old(collisions)@,
                old(possible_shape_collisions)@,
                old(new_shapes)@,
                old(recently_deleted)@,
            ).phase() != Phase::Idle),
    {
        if recently_deleted.len() > 0 {
            Sketch::clean_up(
                collisions,
                pairs_to_check,
                possible_shape_collisions,
                recently_deleted,
            );
            return true;
        }
        if possible_shape_collisions.len() > 0 || new_shapes.len() > 0 {
            Sketch::schedule(pairs_to_check, possible_shape_collisions, new_shapes);
            return true;
        }
        if collisions.len() > 0 {
            let popped = collisions.pop_front();
            let collision = popped.unwrap();
            proof {
                assert(collisions@ =~= old(collisions)@.drop_first());
            }
            self.process_collision(
                temp_sketch,
                all_shapes,
                possible_shape_collisions,
                new_shapes,
                recently_deleted,
                collision,
            );
            return true;
        }
        if pairs_to_check.len() > 0 {
            let popped = pairs_to_check.pop_front();
            let (shape_a_id, shape_b_id) = popped.unwrap();
            proof {
                assert(pairs_to_check@ =~= old(pairs_to_check)@.drop_first());
            }
            let new_collisions = self.identify_collisions(
                temp_sketch,
                all_shapes,
                shape_a_id,
                shape_b_id,
                contact,
            );
            let mut k: usize = 0;
            while k < new_collisions.len()
                invariant
                    k <= new_collisions@.len(),
                    collisions@ == old(collisions)@ + new_collisions@.subrange(0, k as int),
                decreases new_collisions@.len() - k,
            {
                collisions.push_back(new_collisions[k]);
                proof {
                    assert(collisions@ =~= old(collisions)@ + new_collisions@.subrange(0, k + 1));
                }
                k = k + 1;
            }
            proof {
                assert(new_collisions@.subrange(0, k as int) =~= new_collisions@);
            }
            return true;
        }
        false
    }
}

/// `items` under the keys one, two, three and so on.
pub open spec fn numbered<T>(items: Seq<T>) -> Seq<(u64, T)> {
    Seq::new(items.len(), |i: int| ((i + 1) as u64, items[i]))
}

/// The lines of `entries` as shapes, in order.
pub open spec fn line_shapes(entries: Seq<(u64, Line2)>) -> Seq<Shape> {
    Seq::new(entries.len(), |i: int| Shape::Line(entries[i].1))
}

/// The circles of `entries` as shapes, in order.
pub open spec fn circle_shapes(entries: Seq<(u64, Circle2)>) -> Seq<Shape> {
    Seq::new(entries.len(), |i: int| Shape::Circle(entries[i].1))
}

/// The arcs of `entries` as shapes, in order.
pub open spec fn arc_shapes(entries: Seq<(u64, Arc2)>) -> Seq<Shape> {
    Seq::new(entries.len(), |i: int| Shape::Arc(entries[i].1))
}

/// The shapes of a sketch: its lines, then its circles, then its arcs, each kind by
/// ascending id.
pub open spec fn shapes_of(sketch: SketchView) -> Seq<Shape> {
    line_shapes(sketch.line_segments) + circle_shapes(sketch.circles) + arc_shapes(sketch.arcs)
}

/// `key` paired with each of `keys` above it, in order.
pub open spec fn pairs_above(key: u64, keys: Seq<u64>) -> Seq<(u64, u64)>
    decreases keys.len(),
{
    if keys.len() == 0 {
        Seq::empty()
    } else if key < keys.last() {
        pairs_above(key, keys.drop_last()).push((key, keys.last()))
    } else {
        pairs_above(key, keys.drop_last())
    }
}

/// Each of the first `n` of `keys` paired with each of `keys` above it.
pub open spec fn pairs_upto(keys: Seq<u64>, n: int) -> Seq<(u64, u64)>
    decreases n,
{
    if n <= 0 {
        Seq::empty()
    } else {
        pairs_upto(keys, n - 1) + pairs_above(keys[n - 1], keys)
    }
}

/// Every pair of two of `keys` of which the first is below the second.
pub open spec fn all_pairs(keys: Seq<u64>) -> Seq<(u64, u64)> {
    pairs_upto(keys, keys.len() as int)
}

/// The lines among the shapes of `pool`, in order.
pub open spec fn lines_in(pool: Seq<(u64, Shape)>) -> Seq<Line2>
    decreases pool.len(),
{
    if pool.len() == 0 {
        Seq::empty()
    } else {
        match pool.last().1 {
            Shape::Line(line) => lines_in(pool.drop_last()).push(line),
            _ => lines_in(pool.drop_last()),
        }
    }
}

/// The circles among the shapes of `pool`, in order.
pub open spec fn circles_in(pool: Seq<(u64, Shape)>) -> Seq<Circle2>
    decreases pool.len(),
{
    if pool.len() == 0 {
        Seq::empty()
    } else {
        match pool.last().1 {
            Shape::Circle(circle) => circles_in(pool.drop_last()).push(circle),
            _ => circles_in(pool.drop_last()),
        }
    }
}

/// The arcs among the shapes of `pool`, in order.
pub open spec fn arcs_in(pool: Seq<(u64, Shape)>) -> Seq<Arc2>
    decreases pool.len(),
{
    if pool.len() == 0 {
        Seq::empty()
    } else {
        match pool.last().1 {
            Shape::Arc(arc) => arcs_in(pool.drop_last()).push(arc),
            _ => arcs_in(pool.drop_last()),
        }
    }
}

/// No more than as many lines, circles and arcs as the pool has shapes.
proof fn lemma_kinds_count(pool: Seq<(u64, Shape)>)
    ensures
        lines_in(pool).len() + circles_in(pool).len() + arcs_in(pool).len() == pool.len(),
    decreases pool.len(),
{
    if pool.len() > 0 {
        lemma_kinds_count(pool.drop_last());
    }
}

impl Sketch {
    /// A second sketch with the same points and shapes under the same ids.
    pub fn duplicate(&self) -> (r: Sketch)
        ensures
            r@ == self@,
            self.wf() ==> r.wf(),
    {
        Sketch {
            points: self.points.duplicate(),
            line_segments: self.line_segments.duplicate(),
            circles: self.circles.duplicate(),
            arcs: self.arcs.duplicate(),
        }
    }

    /// The pool that the work starts from: the lines of the sketch, then its circles,
    /// then its arcs, each kind by ascending id, under the keys one, two, three and so on.
    pub fn shape_pool(&self) -> (r: IncrementingMap<Shape>)
        requires
            self.wf(),
            self@.line_segments.len() + self@.circles.len() + self@.arcs.len() < u64::MAX,
        ensures
            r.wf(),
            r.entries() == numbered(shapes_of(self@)),
            r.highest() == shapes_of(self@).len(),
            self.holds_all(r.entries()),
    {
        let mut all_shapes: IncrementingMap<Shape> = IncrementingMap::new();
        let ghost lines = self.line_segments.entries();
        let mut i: usize = 0;
        while i < self.line_segments.len()
            invariant
                i <= lines.len(),
                self.wf(),
                lines == self.line_segments.entries(),
                all_shapes.wf(),
                all_shapes.highest() == i,
                all_shapes.entries() == numbered(line_shapes(lines).subrange(0, i as int)),
                self.holds_all(all_shapes.entries()),
                lines.len() < u64::MAX,
            decreases lines.len() - i,
        {
            let line = self.line_segments.item_at(i);
            proof {
                assert(self.holds_line(lines[i as int].1));
            }
            let ghost before = all_shapes.entries();
            all_shapes.add_item(Shape::Line(*line));
            proof {
                lemma_holds_push(self, before, (i + 1) as u64, Shape::Line(*line));
                assert(all_shapes.entries() =~= numbered(
                    line_shapes(lines).subrange(0, i + 1),
                ));
            }
            i = i + 1;
        }
        proof {
            assert(line_shapes(lines).subrange(0, i as int) =~= line_shapes(lines));
        }
        let ghost circles = self.circles.entries();
        let mut j: usize = 0;
        while j < self.circles.len()
            invariant
                j <= circles.len(),
                self.wf(),
                lines == self.line_segments.entries(),
                circles == self.circles.entries(),
                all_shapes.wf(),
                all_shapes.highest() == lines.len() + j,
                all_shapes.entries() == numbered(
                    line_shapes(lines) + circle_shapes(circles).subrange(0, j as int),
                ),
                self.holds_all(all_shapes.entries()),
                lines.len() + circles.len() < u64::MAX,
            decreases circles.len() - j,
        {
            let circle = self.circles.item_at(j);
            proof {
                assert(self.holds_circle(circles[j as int].1));
            }
            let ghost before = all_shapes.entries();
            all_shapes.add_item(Shape::Circle(*circle));
            proof {
                lemma_holds_push(
                    self,
                    before,
                    (lines.len() + j + 1) as u64,
                    Shape::Circle(*circle),
                );
                assert(all_shapes.entries() =~= numbered(
                    line_shapes(lines) + circle_shapes(circles).subrange(0, j + 1),
                ));
            }
            j = j + 1;
        }
        proof {
            assert(circle_shapes(circles).subrange(0, j as int) =~= circle_shapes(circles));
        }
        let ghost arcs = self.arcs.entries();
        let mut k: usize = 0;
        while k < self.arcs.len()
            invariant
                k <= arcs.len(),
                self.wf(),
                lines == self.line_segments.entries(),
                circles == self.circles.entries(),
                arcs == self.arcs.entries(),
                all_shapes.wf(),
                all_shapes.highest() == lines.len() + circles.len() + k,
                all_shapes.entries() == numbered(
                    line_shapes(lines) + circle_shapes(circles) + arc_shapes(arcs).subrange(
                        0,
                        k as int,
                    ),
                ),
                self.holds_all(all_shapes.entries()),
                lines.len() + circles.len() + arcs.len() < u64::MAX,
            decreases arcs.len() - k,
        {
            let arc = self.arcs.item_at(k);
            proof {
                assert(self.holds_arc(arcs[k as int].1));
            }
            let ghost before = all_shapes.entries();
            all_shapes.add_item(Shape::Arc(*arc));
            proof {
                lemma_holds_push(
                    self,
                    before,
                    (lines.len() + circles.len() + k + 1) as u64,
                    Shape::Arc(*arc),
                );
                assert(all_shapes.entries() =~= numbered(
                    line_shapes(lines) + circle_shapes(circles) + arc_shapes(arcs).subrange(
                        0,
                        k + 1,
                    ),
                ));
            }
            k = k + 1;
        }
        proof {
            assert(arc_shapes(arcs).subrange(0, k as int) =~= arc_shapes(arcs));
        }
        all_shapes
    }

    /// The pairs that the work starts from: every two keys of the pool, the lower one
    /// first; the pairs of the lowest key come first.
    pub fn pairs_of(all_shapes: &IncrementingMap<Shape>) -> (r: VecDeque<(u64, u64)>)
        ensures
            r@ == all_pairs(keys_of(all_shapes.entries())),
    {
        let keys = all_shapes.keys();
        let mut pairs_to_check: VecDeque<(u64, u64)> = VecDeque::new();
        let mut i: usize = 0;
        while i < keys.len()
            invariant
                i <= keys@.len(),
                pairs_to_check@ == pairs_upto(keys@, i as int),
            decreases keys@.len() - i,
        {
            let shape_id_a = keys[i];
            let ghost done = pairs_to_check@;
            let mut j: usize = 0;
            while j < keys.len()
                invariant
                    j <= keys@.len(),
                    shape_id_a == keys@[i as int],
                    pairs_to_check@ == done + pairs_above(
                        shape_id_a,
                        keys@.subrange(0, j as int),
                    ),
                decreases keys@.len() - j,
            {
                let shape_id_b = keys[j];
                proof {
                    let part = keys@.subrange(0, j + 1);
                    assert(part.drop_last() =~= keys@.subrange(0, j as int));
                    assert(part.last() == shape_id_b);
                }
                if shape_id_a < shape_id_b {
                    pairs_to_check.push_back((shape_id_a, shape_id_b));
                    proof {
                        assert(pairs_to_check@ =~= done + pairs_above(
                            shape_id_a,
                            keys@.subrange(0, j + 1),
                        ));
                    }
                }
                j = j + 1;
            }
            proof {
                assert(keys@.subrange(0, j as int) =~= keys@);
            }
            i = i + 1;
        }
        pairs_to_check
    }

    /// The sketch that the work ends in: the points of the working sketch under their
    /// ids, and the shapes of the pool, by ascending key, as lines, circles and arcs under
    /// fresh ids from one on.
    pub fn emit(temp_sketch: &Sketch, all_shapes: &IncrementingMap<Shape>) -> (r: Sketch)
        requires
            temp_sketch.points.wf(),
            temp_sketch.holds_all(all_shapes.entries()),
            all_shapes.entries().len() < u64::MAX,
        ensures
            r.wf(),
            r@.points == temp_sketch@.points,
            r@.highest_point_id == temp_sketch@.highest_point_id,
            r@.line_segments == numbered(lines_in(all_shapes.entries())),
            r@.circles == numbered(circles_in(all_shapes.entries())),
            r@.arcs == numbered(arcs_in(all_shapes.entries())),
            r@.highest_line_segment_id == lines_in(all_shapes.entries()).len(),
            r@.highest_circle_id == circles_in(all_shapes.entries()).len(),
            r@.highest_arc_id == arcs_in(all_shapes.entries()).len(),
    {
        let mut final_sketch = Sketch {
            points: temp_sketch.points.duplicate(),
            line_segments: IncrementingMap::new(),
            circles: IncrementingMap::new(),
            arcs: IncrementingMap::new(),
        };
        let ghost pool = all_shapes.entries();
        let mut i: usize = 0;
        while i < all_shapes.len()
            invariant
                i <= pool.len(),
                pool == all_shapes.entries(),
                pool.len() < u64::MAX,
                temp_sketch.holds_all(pool),
                final_sketch.wf(),
                final_sketch.points.entries() == temp_sketch.points.entries(),
                final_sketch.points.highest() == temp_sketch.points.highest(),
                final_sketch@.line_segments == numbered(lines_in(pool.subrange(0, i as int))),
                final_sketch@.circles == numbered(circles_in(pool.subrange(0, i as int))),
                final_sketch@.arcs == numbered(arcs_in(pool.subrange(0, i as int))),
                final_sketch@.highest_line_segment_id == lines_in(pool.subrange(0, i as int)).len(),
                final_sketch@.highest_circle_id == circles_in(pool.subrange(0, i as int)).len(),
                final_sketch@.highest_arc_id == arcs_in(pool.subrange(0, i as int)).len(),
            decreases pool.len() - i,
        {
            let shape = all_shapes.item_at(i);
            proof {
                let part = pool.subrange(0, i + 1);
                assert(part.drop_last() =~= pool.subrange(0, i as int));
                assert(part.last() == pool[i as int]);
                assert(temp_sketch.holds(pool[i as int].1));
                lemma_kinds_count(pool.subrange(0, i as int));
            }
            match shape {
                Shape::Line(line) => {
                    final_sketch.add_segment(line.start, line.end);
                    proof {
                        assert(final_sketch@.line_segments =~= numbered(
                            lines_in(pool.subrange(0, i + 1)),
                        ));
                    }
                },
                Shape::Circle(circle) => {
                    final_sketch.add_circle(circle.center, circle.radius, circle.top);
                    proof {
                        assert(final_sketch@.circles =~= numbered(
                            circles_in(pool.subrange(0, i + 1)),
                        ));
                    }
                },
                Shape::Arc(arc) => {
                    final_sketch.add_arc(arc.center, arc.start, arc.end, arc.clockwise);
                    proof {
                        assert(final_sketch@.arcs =~= numbered(arcs_in(pool.subrange(0, i + 1))));
                    }
                },
            }
            i = i + 1;
        }
        proof {
            assert(pool.subrange(0, i as int) =~= pool);
        }
        final_sketch
    }
}

} // verus!
