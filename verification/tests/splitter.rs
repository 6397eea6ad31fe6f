use cadmium::geometry::{Arc2, Circle2, Line2, Point2, Scalar};
use cadmium::incrementing_map::IncrementingMap;
use cadmium::intersections::{Candidate, Collision, Contact, Shape};
use cadmium::sketch::Sketch;
use std::collections::VecDeque;

fn scalar(x: f64) -> Scalar {
    Scalar::from_bits(x.to_bits())
}

fn point(x: f64, y: f64) -> Point2 {
    Point2::new(scalar(x), scalar(y))
}

fn collision(x: f64, y: f64, shape_a: u64, shape_b: u64) -> Collision {
    Collision { point: point(x, y), shape_a, shape_b }
}

fn hit(x: f64, y: f64) -> Candidate {
    Candidate {
        point: point(x, y),
        within_first: true,
        within_second: true,
        at_first_start: false,
        at_first_end: false,
    }
}

struct Work {
    sketch: Sketch,
    shapes: IncrementingMap<Shape>,
    pairs: VecDeque<(u64, u64)>,
    collisions: VecDeque<Collision>,
    possible: Vec<u64>,
    fresh: Vec<u64>,
    deleted: Vec<u64>,
}

impl Work {
    fn of(sketch: Sketch) -> Work {
        let shapes = sketch.shape_pool();
        Work {
            sketch,
            shapes,
            pairs: VecDeque::new(),
            collisions: VecDeque::new(),
            possible: vec![],
            fresh: vec![],
            deleted: vec![],
        }
    }

    fn ready(&self) -> bool {
        Sketch::step_ready(
            &self.sketch,
            &self.shapes,
            &self.pairs,
            &self.collisions,
            &self.possible,
            &self.fresh,
            &self.deleted,
        )
    }

    fn pending(&self) -> Option<(u64, u64)> {
        Sketch::pending_pair(&self.pairs, &self.collisions, &self.possible, &self.fresh, &self.deleted)
    }

    fn step(&mut self, contact: &Contact) -> bool {
        assert!(self.ready());
        let owner = Sketch::new();
        owner.step_process(
            &mut self.sketch,
            &mut self.shapes,
            &mut self.pairs,
            &mut self.collisions,
            &mut self.possible,
            &mut self.fresh,
            &mut self.deleted,
            contact,
        )
    }

    fn shapes(&self) -> Vec<(u64, Shape)> {
        (0..self.shapes.len()).map(|i| (self.shapes.key_at(i), *self.shapes.item_at(i))).collect()
    }
}

fn two_lines() -> Sketch {
    let mut sketch = Sketch::new();
    sketch.add_line_segment(scalar(-1.0), scalar(0.0), scalar(1.0), scalar(0.0));
    sketch.add_line_segment(scalar(0.0), scalar(-1.0), scalar(0.0), scalar(1.0));
    sketch
}

fn two_circles() -> Sketch {
    let mut sketch = Sketch::new();
    let a = sketch.add_point(scalar(0.0), scalar(0.0));
    let a_top = sketch.add_point(scalar(0.0), scalar(1.0));
    let b = sketch.add_point(scalar(1.0), scalar(0.0));
    let b_top = sketch.add_point(scalar(1.0), scalar(1.0));
    sketch.add_circle(a, scalar(1.0), a_top);
    sketch.add_circle(b, scalar(1.0), b_top);
    sketch
}

#[test]
fn the_pool_starts_with_lines_then_circles_then_arcs() {
    let mut sketch = two_circles();
    sketch.add_arc(1, 2, 4, true);
    sketch.add_segment(1, 3);
    let pool = sketch.shape_pool();
    assert_eq!(pool.keys(), vec![1, 2, 3, 4]);
    assert_eq!(pool.get_item(1), Some(&Shape::Line(Line2 { start: 1, end: 3 })));
    assert_eq!(
        pool.get_item(2),
        Some(&Shape::Circle(Circle2 { center: 1, radius: scalar(1.0), top: 2 }))
    );
    assert_eq!(
        pool.get_item(3),
        Some(&Shape::Circle(Circle2 { center: 3, radius: scalar(1.0), top: 4 }))
    );
    assert_eq!(
        pool.get_item(4),
        Some(&Shape::Arc(Arc2 { center: 1, start: 2, end: 4, clockwise: true }))
    );
    assert_eq!(pool.highest_id(), 4);
}

#[test]
fn every_pair_is_queued_once_with_the_lower_key_first() {
    let mut pool: IncrementingMap<Shape> = IncrementingMap::new();
    assert_eq!(Sketch::pairs_of(&pool), VecDeque::new());
    for _ in 0..4 {
        pool.add_item(Shape::Line(Line2 { start: 1, end: 2 }));
    }
    pool.remove_item(2);
    assert_eq!(Sketch::pairs_of(&pool), VecDeque::from(vec![(1, 3), (1, 4), (3, 4)]));
}

#[test]
fn cleaning_up_drops_what_names_a_retired_key() {
    let mut work = Work::of(two_lines());
    work.collisions = VecDeque::from(vec![collision(0.0, 0.0, 1, 2), collision(1.0, 1.0, 3, 4)]);
    work.pairs = VecDeque::from(vec![(1, 3), (3, 4), (2, 5), (6, 1), (7, 8)]);
    work.deleted = vec![1, 8];
    work.possible = vec![6];
    work.fresh = vec![9];
    assert_eq!(work.pending(), None);
    assert!(work.step(&Contact::Apart));
    assert_eq!(work.collisions, VecDeque::from(vec![collision(1.0, 1.0, 3, 4)]));
    assert_eq!(work.pairs, VecDeque::from(vec![(3, 4), (2, 5)]));
    assert_eq!(work.possible, vec![6, 2, 3, 7]);
    assert_eq!(work.deleted, vec![]);
    assert_eq!(work.fresh, vec![9]);
    assert_eq!(work.shapes.keys(), vec![1, 2]);
}

#[test]
fn cleaning_up_remembers_no_retired_partner() {
    let mut work = Work::of(two_lines());
    work.collisions = VecDeque::from(vec![collision(0.0, 0.0, 1, 2)]);
    work.pairs = VecDeque::from(vec![(1, 2), (2, 3)]);
    work.deleted = vec![1, 2];
    assert!(work.step(&Contact::Apart));
    assert_eq!(work.collisions, VecDeque::new());
    assert_eq!(work.pairs, VecDeque::new());
    assert_eq!(work.possible, vec![3]);
    assert_eq!(work.deleted, vec![]);
}

#[test]
fn scheduling_pairs_the_remembered_with_the_new() {
    let mut work = Work::of(two_lines());
    work.pairs = VecDeque::from(vec![(5, 6)]);
    work.possible = vec![2, 3];
    work.fresh = vec![7, 8];
    work.collisions = VecDeque::from(vec![collision(0.0, 0.0, 1, 2)]);
    assert!(work.step(&Contact::Apart));
    assert_eq!(work.pairs, VecDeque::from(vec![(3, 8), (3, 7), (2, 8), (2, 7), (5, 6)]));
    assert_eq!(work.possible, vec![]);
    assert_eq!(work.fresh, vec![]);
    assert_eq!(work.collisions.len(), 1);

    work.fresh = vec![9];
    assert!(work.step(&Contact::Apart));
    assert_eq!(work.pairs.len(), 5);
    assert_eq!(work.fresh, vec![]);
}

#[test]
fn two_lines_are_split_into_four() {
    let mut work = Work::of(two_lines());
    work.collisions = VecDeque::from(vec![collision(0.0, 0.0, 1, 2)]);
    work.pairs = VecDeque::from(vec![(1, 2)]);
    assert_eq!(work.pending(), None);
    assert!(work.step(&Contact::Apart));
    assert_eq!(work.sketch.points.keys(), vec![1, 2, 3, 4, 5]);
    assert_eq!(work.sketch.points.get_item(5), Some(&point(0.0, 0.0)));
    assert_eq!(
        work.shapes(),
        vec![
            (3, Shape::Line(Line2 { start: 1, end: 5 })),
            (4, Shape::Line(Line2 { start: 5, end: 2 })),
            (5, Shape::Line(Line2 { start: 3, end: 5 })),
            (6, Shape::Line(Line2 { start: 5, end: 4 })),
        ]
    );
    assert_eq!(work.fresh, vec![3, 4, 5, 6]);
    assert_eq!(work.deleted, vec![1, 2]);
    assert_eq!(work.possible, vec![]);
    assert_eq!(work.collisions, VecDeque::new());
    assert_eq!(work.pairs, VecDeque::from(vec![(1, 2)]));
    assert_eq!(work.shapes.highest_id(), 6);
}

#[test]
fn two_circles_are_cut_in_place() {
    let mut work = Work::of(two_circles());
    work.collisions = VecDeque::from(vec![collision(0.5, 0.75, 1, 2), collision(0.5, -0.75, 1, 2)]);
    assert!(work.step(&Contact::Apart));
    assert_eq!(
        work.shapes(),
        vec![
            (1, Shape::Arc(Arc2 { center: 1, start: 5, end: 5, clockwise: false })),
            (2, Shape::Arc(Arc2 { center: 3, start: 5, end: 5, clockwise: false })),
        ]
    );
    assert_eq!(work.fresh, vec![]);
    assert_eq!(work.deleted, vec![]);
    assert_eq!(work.sketch.points.get_item(5), Some(&point(0.5, 0.75)));
    assert_eq!(work.collisions, VecDeque::from(vec![collision(0.5, -0.75, 1, 2)]));

    assert!(work.step(&Contact::Apart));
    assert_eq!(
        work.shapes(),
        vec![
            (3, Shape::Arc(Arc2 { center: 1, start: 5, end: 6, clockwise: false })),
            (4, Shape::Arc(Arc2 { center: 1, start: 6, end: 5, clockwise: false })),
            (5, Shape::Arc(Arc2 { center: 3, start: 5, end: 6, clockwise: false })),
            (6, Shape::Arc(Arc2 { center: 3, start: 6, end: 5, clockwise: false })),
        ]
    );
    assert_eq!(work.fresh, vec![3, 4, 5, 6]);
    assert_eq!(work.deleted, vec![1, 2]);
}

#[test]
fn a_circle_is_cut_in_place_and_an_arc_is_replaced() {
    let mut sketch = two_circles();
    sketch.add_arc(3, 2, 4, true);
    let mut work = Work::of(sketch);
    work.collisions = VecDeque::from(vec![collision(0.5, 0.75, 1, 3)]);
    assert!(work.step(&Contact::Apart));
    assert_eq!(
        work.shapes(),
        vec![
            (1, Shape::Arc(Arc2 { center: 1, start: 5, end: 5, clockwise: false })),
            (2, Shape::Circle(Circle2 { center: 3, radius: scalar(1.0), top: 4 })),
            (4, Shape::Arc(Arc2 { center: 3, start: 2, end: 5, clockwise: true })),
            (5, Shape::Arc(Arc2 { center: 3, start: 5, end: 4, clockwise: true })),
        ]
    );
    assert_eq!(work.fresh, vec![4, 5]);
    assert_eq!(work.deleted, vec![3]);
}

#[test]
fn testing_a_pair_queues_its_collisions() {
    let mut work = Work::of(two_circles());
    work.pairs = Sketch::pairs_of(&work.shapes);
    assert_eq!(work.pending(), Some((1, 2)));
    let contact = Contact::Twice(hit(0.5, 0.75), hit(0.5, -0.75));
    assert!(work.step(&contact));
    assert_eq!(work.pairs, VecDeque::new());
    assert_eq!(work.collisions, VecDeque::from(vec![collision(0.5, 0.75, 1, 2), collision(0.5, -0.75, 1, 2)]));
    assert_eq!(work.shapes.keys(), vec![1, 2]);
    assert_eq!(work.sketch.points.len(), 4);
}

fn arc_before_circle() -> Work {
    let mut work = Work::of(two_circles());
    work.shapes = IncrementingMap::from_entries(
        vec![
            (1, Shape::Arc(Arc2 { center: 1, start: 2, end: 4, clockwise: true })),
            (2, Shape::Circle(Circle2 { center: 3, radius: scalar(1.0), top: 4 })),
        ],
        2,
    )
    .unwrap();
    work
}

#[test]
fn a_collision_carries_the_keys_in_the_order_of_the_pair() {
    let mut work = arc_before_circle();
    work.pairs = VecDeque::from(vec![(1, 2)]);
    let contact = Contact::Once(Candidate { within_second: false, ..hit(0.5, 0.75) });
    assert!(work.step(&contact));
    assert_eq!(work.collisions, VecDeque::from(vec![collision(0.5, 0.75, 1, 2)]));

    let mut work = arc_before_circle();
    work.pairs = VecDeque::from(vec![(1, 2)]);
    let contact = Contact::Once(Candidate { within_first: false, ..hit(0.5, 0.75) });
    assert!(work.step(&contact));
    assert_eq!(work.collisions, VecDeque::new());

    let mut sketch = two_circles();
    sketch.add_arc(3, 2, 4, true);
    let mut work = Work::of(sketch);
    work.pairs = VecDeque::from(vec![(1, 3)]);
    let contact = Contact::Twice(
        Candidate { within_first: false, ..hit(0.5, 0.75) },
        Candidate { within_second: false, ..hit(0.5, -0.75) },
    );
    assert!(work.step(&contact));
    assert_eq!(work.collisions, VecDeque::from(vec![collision(0.5, 0.75, 1, 3)]));
}

#[test]
fn an_arc_before_a_circle_is_replaced_and_the_circle_is_cut_in_place() {
    let mut work = arc_before_circle();
    work.collisions = VecDeque::from(vec![collision(0.5, 0.75, 1, 2), collision(0.5, -0.75, 1, 2)]);
    assert!(work.step(&Contact::Apart));
    assert_eq!(
        work.shapes(),
        vec![
            (2, Shape::Arc(Arc2 { center: 3, start: 5, end: 5, clockwise: false })),
            (3, Shape::Arc(Arc2 { center: 1, start: 2, end: 5, clockwise: true })),
            (4, Shape::Arc(Arc2 { center: 1, start: 5, end: 4, clockwise: true })),
        ]
    );
    assert_eq!(work.fresh, vec![3, 4]);
    assert_eq!(work.deleted, vec![1]);
    assert_eq!(work.sketch.points.get_item(5), Some(&point(0.5, 0.75)));
    assert!(work.step(&Contact::Apart));
    assert_eq!(work.collisions, VecDeque::new());
    assert_eq!(work.possible, vec![2]);
    assert!(work.step(&Contact::Apart));
    assert_eq!(work.pairs, VecDeque::from(vec![(2, 4), (2, 3)]));
}

#[test]
fn with_nothing_left_a_step_does_nothing() {
    let mut work = Work::of(two_lines());
    assert_eq!(work.pending(), None);
    assert!(!work.step(&Contact::Once(hit(0.0, 0.0))));
    assert_eq!(work.shapes.keys(), vec![1, 2]);
    assert_eq!(work.sketch.points.len(), 4);
    assert_eq!(work.collisions, VecDeque::new());
}

#[test]
fn a_step_is_not_ready_for_shapes_that_are_gone_or_do_not_go_together() {
    let mut work = Work::of(two_lines());
    work.collisions = VecDeque::from(vec![collision(0.0, 0.0, 1, 9)]);
    assert!(!work.ready());
    work.collisions = VecDeque::new();
    work.pairs = VecDeque::from(vec![(9, 1)]);
    assert!(!work.ready());
    work.pairs = VecDeque::from(vec![(1, 2)]);
    assert!(work.ready());

    let mut sketch = two_circles();
    sketch.add_segment(1, 3);
    sketch.add_arc(3, 2, 4, true);
    let mut work = Work::of(sketch);
    work.pairs = VecDeque::from(vec![(1, 2)]);
    assert!(!work.ready());
    work.pairs = VecDeque::from(vec![(2, 3)]);
    assert!(work.ready());
    work.pairs = VecDeque::from(vec![(4, 2)]);
    assert!(work.ready());
    work.collisions = VecDeque::from(vec![collision(0.0, 0.0, 4, 2)]);
    assert!(work.ready());
    work.collisions = VecDeque::from(vec![collision(0.0, 0.0, 2, 4)]);
    assert!(work.ready());
    work.collisions = VecDeque::from(vec![collision(0.0, 0.0, 2, 1)]);
    assert!(!work.ready());
    work.collisions = VecDeque::from(vec![collision(0.0, 0.0, 1, 2)]);
    assert!(!work.ready());
    work.deleted = vec![1];
    assert!(work.ready());
}

#[test]
fn the_pool_is_emitted_by_kind() {
    let mut sketch = two_circles();
    sketch.add_arc(3, 2, 4, true);
    sketch.add_segment(1, 3);
    let mut pool = sketch.shape_pool();
    pool.remove_item(2);
    pool.add_item(Shape::Line(Line2 { start: 2, end: 4 }));
    let out = Sketch::emit(&sketch, &pool);
    assert!(out.is_wf());
    assert_eq!(out.points.keys(), vec![1, 2, 3, 4]);
    assert_eq!(out.points.highest_id(), 4);
    assert_eq!(out.line_segments.keys(), vec![1, 2]);
    assert_eq!(out.line_segments.get_item(1), Some(&Line2 { start: 1, end: 3 }));
    assert_eq!(out.line_segments.get_item(2), Some(&Line2 { start: 2, end: 4 }));
    assert_eq!(out.circles.keys(), vec![1]);
    assert_eq!(out.circles.get_item(1), Some(&Circle2 { center: 3, radius: scalar(1.0), top: 4 }));
    assert_eq!(out.arcs.keys(), vec![1]);
    assert_eq!(out.arcs.get_item(1), Some(&Arc2 { center: 3, start: 2, end: 4, clockwise: true }));
}

#[test]
fn a_sketch_is_checked_for_points_that_are_missing() {
    let mut sketch = two_lines();
    assert!(sketch.is_wf());
    assert!(sketch.duplicate().is_wf());
    sketch.line_segments.add_item(Line2 { start: 1, end: 9 });
    assert!(!sketch.is_wf());
    let mut sketch = two_lines();
    sketch.line_segments.add_item(Line2 { start: 1, end: 1 });
    assert!(!sketch.is_wf());
    let mut sketch = two_lines();
    sketch.arcs.add_item(Arc2 { center: 1, start: 2, end: 9, clockwise: false });
    assert!(!sketch.is_wf());
    let mut sketch = two_lines();
    sketch.circles.add_item(Circle2 { center: 9, radius: scalar(1.0), top: 1 });
    assert!(!sketch.is_wf());
}

#[test]
fn a_pool_is_restored_in_the_order_of_its_keys() {
    let pool = IncrementingMap::from_entries(vec![(4, 'b'), (1, 'a'), (3, 'c')], 6).unwrap();
    assert_eq!(pool.keys(), vec![1, 3, 4]);
    assert_eq!(pool.get_item(1), Some(&'a'));
    assert_eq!(pool.get_item(3), Some(&'c'));
    assert_eq!(pool.get_item(4), Some(&'b'));
    assert_eq!(pool.highest_id(), 6);
    assert!(pool.is_wf());
    let mut pool = pool;
    assert_eq!(pool.add_item('d'), 7);
    assert!(IncrementingMap::from_entries(vec![(1, 'a'), (4, 'b')], 6).is_some());
    assert!(IncrementingMap::from_entries(vec![(1, 'a'), (1, 'b')], 6).is_none());
    assert!(IncrementingMap::from_entries(vec![(4, 'a'), (1, 'b'), (4, 'c')], 6).is_none());
    assert!(IncrementingMap::from_entries(vec![(1, 'a'), (7, 'b')], 6).is_none());
    assert!(IncrementingMap::from_entries(vec![(0, 'a')], 6).is_none());
    assert!(IncrementingMap::<char>::from_entries(vec![], 0).is_some());
}
