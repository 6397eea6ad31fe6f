use cadmium::driver::Halt;
use cadmium::geometry::{Arc2, Circle2, Line2, Point2, Scalar};
use cadmium::incrementing_map::IncrementingMap;
use cadmium::intersections::{Candidate, Collision, Contact, Intersection, Shape};
use cadmium::sketch::Sketch;
use std::collections::VecDeque;

const TAU: f64 = std::f64::consts::TAU;

fn scalar(x: f64) -> Scalar {
    Scalar::from_bits(x.to_bits())
}

fn value(s: Scalar) -> f64 {
    f64::from_bits(s.to_bits())
}

fn point(x: f64, y: f64) -> Point2 {
    Point2::new(scalar(x), scalar(y))
}

fn add_point(sketch: &mut Sketch, x: f64, y: f64) -> u64 {
    sketch.add_point(scalar(x), scalar(y))
}

fn coords(sketch: &Sketch, id: u64) -> (f64, f64) {
    let p = sketch.points.get_item(id).unwrap();
    (value(p.x), value(p.y))
}

fn almost_equal(a: (f64, f64), b: (f64, f64)) -> bool {
    (b.0 - a.0).abs() < 1e-10 && (b.1 - a.1).abs() < 1e-10
}

fn within_range(x: f64, a: f64, b: f64, epsilon: f64) -> bool {
    if a < b {
        x >= a - epsilon && x <= b + epsilon
    } else {
        x >= b - epsilon && x <= a + epsilon
    }
}

fn normal_form(start: (f64, f64), end: (f64, f64)) -> (f64, f64, f64) {
    let a = start.1 - end.1;
    let b = end.0 - start.0;
    let c = (start.0 - end.0) * start.1 + (end.1 - start.1) * start.0;
    (a, b, c)
}

fn candidate(p: (f64, f64), within: (bool, bool), ends: Option<((f64, f64), (f64, f64))>) -> Candidate {
    let (at_start, at_end) = match ends {
        Some((start, end)) => (almost_equal(start, p), almost_equal(end, p)),
        None => (false, false),
    };
    Candidate {
        point: point(p.0, p.1),
        within_first: within.0,
        within_second: within.1,
        at_first_start: at_start,
        at_first_end: at_end,
    }
}

fn measure_lines(sketch: &Sketch, line_a: &Line2, line_b: &Line2) -> Contact {
    let a_start = coords(sketch, line_a.start);
    let a_end = coords(sketch, line_a.end);
    let b_start = coords(sketch, line_b.start);
    let b_end = coords(sketch, line_b.end);
    let (a1, b1, c1) = normal_form(a_start, a_end);
    let (a2, b2, c2) = normal_form(b_start, b_end);
    let x = (b1 * c2 - b2 * c1) / (a1 * b2 - a2 * b1);
    let y = (c1 * a2 - c2 * a1) / (a1 * b2 - a2 * b1);
    if !x.is_finite() || !y.is_finite() {
        return Contact::Apart;
    }
    let epsilon = 1e-12;
    let within_a = within_range(x, a_start.0, a_end.0, epsilon) && within_range(y, a_start.1, a_end.1, epsilon);
    let within_b = within_range(x, b_start.0, b_end.0, epsilon) && within_range(y, b_start.1, b_end.1, epsilon);
    Contact::Once(candidate((x, y), (within_a, within_b), Some((a_start, a_end))))
}

fn circle_points(center_a: (f64, f64), r_a: f64, center_b: (f64, f64), r_b: f64) -> Vec<(f64, f64)> {
    let center_dx = center_b.0 - center_a.0;
    let center_dy = center_b.1 - center_a.1;
    let center_dist = center_dx.hypot(center_dy);
    if center_dist > r_a + r_b {
        return vec![];
    }
    if center_dist < (r_a - r_b).abs() {
        return vec![];
    }
    let epsilon = 1e-10;
    if center_dist > r_a + r_b - epsilon && center_dist < r_a + r_b + epsilon {
        return vec![(
            center_a.0 + r_a * center_dx / center_dist,
            center_a.1 + r_a * center_dy / center_dist,
        )];
    }
    let r_2 = center_dist * center_dist;
    let r_4 = r_2 * r_2;
    let a = (r_a * r_a - r_b * r_b) / (2.0 * r_2);
    let r_2_r_2 = r_a * r_a - r_b * r_b;
    let c = (2.0 * (r_a * r_a + r_b * r_b) / r_2 - r_2_r_2 * r_2_r_2 / r_4 - 1.0).sqrt();
    let fx = (center_a.0 + center_b.0) / 2.0 + a * (center_b.0 - center_a.0);
    let gx = c * (center_b.1 - center_a.1) / 2.0;
    let fy = (center_a.1 + center_b.1) / 2.0 + a * (center_b.1 - center_a.1);
    let gy = c * (center_a.0 - center_b.0) / 2.0;
    vec![(fx + gx, fy + gy), (fx - gx, fy - gy)]
}

fn within_arc(sketch: &Sketch, arc: &Arc2, p: (f64, f64)) -> bool {
    let ccw = arc.counter_clockwise();
    let center = coords(sketch, ccw.center);
    let start = coords(sketch, ccw.start);
    let end = coords(sketch, ccw.end);
    let start_dx = start.0 - center.0;
    let start_dy = start.1 - center.1;
    let start_angle = start_dy.atan2(start_dx);
    let mut end_angle = (end.1 - center.1).atan2(end.0 - center.0);
    if end_angle <= start_angle {
        end_angle += TAU;
    }
    let point_dx = p.0 - center.0;
    let point_dy = p.1 - center.1;
    let mut point_angle = point_dy.atan2(point_dx);
    if point_angle < start_angle {
        point_angle += TAU;
    }
    if point_angle >= start_angle && point_angle <= end_angle {
        let arc_radius = start_dy.hypot(start_dx);
        let point_radius = point_dy.hypot(point_dx);
        (arc_radius - point_radius).abs() < 1e-10
    } else {
        false
    }
}

fn arc_radius(sketch: &Sketch, arc: &Arc2) -> f64 {
    let center = coords(sketch, arc.center);
    let start = coords(sketch, arc.start);
    (center.0 - start.0).hypot(center.1 - start.1)
}

fn contact_of(points: Vec<Candidate>) -> Contact {
    match points.len() {
        0 => Contact::Apart,
        1 => Contact::Once(points[0]),
        _ => Contact::Twice(points[0], points[1]),
    }
}

fn measure_circles(sketch: &Sketch, circle_a: &Circle2, circle_b: &Circle2) -> Contact {
    let found = circle_points(
        coords(sketch, circle_a.center),
        value(circle_a.radius),
        coords(sketch, circle_b.center),
        value(circle_b.radius),
    );
    contact_of(found.into_iter().map(|p| candidate(p, (true, true), None)).collect())
}

fn measure_circle_arc(sketch: &Sketch, circle: &Circle2, arc: &Arc2) -> Contact {
    let found = circle_points(
        coords(sketch, circle.center),
        value(circle.radius),
        coords(sketch, arc.center),
        arc_radius(sketch, arc),
    );
    contact_of(found.into_iter().map(|p| candidate(p, (true, within_arc(sketch, arc, p)), None)).collect())
}

fn measure_arc_circle(sketch: &Sketch, arc: &Arc2, circle: &Circle2) -> Contact {
    let found = circle_points(
        coords(sketch, circle.center),
        value(circle.radius),
        coords(sketch, arc.center),
        arc_radius(sketch, arc),
    );
    contact_of(found.into_iter().map(|p| candidate(p, (within_arc(sketch, arc, p), true), None)).collect())
}

fn measure_arcs(sketch: &Sketch, arc_a: &Arc2, arc_b: &Arc2) -> Contact {
    let found = circle_points(
        coords(sketch, arc_a.center),
        arc_radius(sketch, arc_a),
        coords(sketch, arc_b.center),
        arc_radius(sketch, arc_b),
    );
    let ends = (coords(sketch, arc_a.start), coords(sketch, arc_a.end));
    contact_of(
        found
            .into_iter()
            .map(|p| candidate(p, (within_arc(sketch, arc_a, p), within_arc(sketch, arc_b, p)), Some(ends)))
            .collect(),
    )
}

fn measure(sketch: &Sketch, shape_a: &Shape, shape_b: &Shape) -> Contact {
    match (shape_a, shape_b) {
        (Shape::Circle(a), Shape::Circle(b)) => measure_circles(sketch, a, b),
        (Shape::Circle(a), Shape::Arc(b)) => measure_circle_arc(sketch, a, b),
        (Shape::Arc(a), Shape::Circle(b)) => measure_arc_circle(sketch, a, b),
        (Shape::Arc(a), Shape::Arc(b)) => measure_arcs(sketch, a, b),
        (Shape::Line(a), Shape::Line(b)) => measure_lines(sketch, a, b),
        _ => panic!("lines are not tested against circles or arcs"),
    }
}

fn plain(collisions: &Vec<Collision>) -> Vec<(f64, f64, u64, u64)> {
    collisions.iter().map(|c| (value(c.point.x), value(c.point.y), c.shape_a, c.shape_b)).collect()
}

fn split_intersections(sketch: &Sketch) -> Sketch {
    assert!(sketch.is_splittable());
    let (mut temp_sketch, mut all_shapes, mut pairs_to_check) = sketch.begin_split();
    let mut collisions: VecDeque<Collision> = VecDeque::new();
    let mut possible_shape_collisions: Vec<u64> = vec![];
    let mut new_shapes: Vec<u64> = vec![];
    let mut recently_deleted: Vec<u64> = vec![];
    let mut halt = sketch.advance(
        &mut temp_sketch,
        &mut all_shapes,
        &mut pairs_to_check,
        &mut collisions,
        &mut possible_shape_collisions,
        &mut new_shapes,
        &mut recently_deleted,
    );
    let mut rounds = 0;
    while let Halt::Test(a, b) = halt {
        rounds += 1;
        assert!(rounds < 10_000);
        assert_eq!(pairs_to_check.front(), Some(&(a, b)));
        assert!(collisions.is_empty() && new_shapes.is_empty() && recently_deleted.is_empty());
        let contact = measure(
            &temp_sketch,
            all_shapes.get_item(a).unwrap(),
            all_shapes.get_item(b).unwrap(),
        );
        halt = sketch.resume(
            &mut temp_sketch,
            &mut all_shapes,
            &mut pairs_to_check,
            &mut collisions,
            &mut possible_shape_collisions,
            &mut new_shapes,
            &mut recently_deleted,
            &contact,
        );
    }
    assert_eq!(halt, Halt::Done);
    assert!(pairs_to_check.is_empty() && collisions.is_empty());
    Sketch::emit(&temp_sketch, &all_shapes)
}

fn split_step_by_step(sketch: &Sketch) -> Sketch {
    let mut temp_sketch = sketch.duplicate();
    let mut all_shapes = temp_sketch.shape_pool();
    let mut pairs_to_check = Sketch::pairs_of(&all_shapes);
    let mut collisions: VecDeque<Collision> = VecDeque::new();
    let mut possible_shape_collisions: Vec<u64> = vec![];
    let mut new_shapes: Vec<u64> = vec![];
    let mut recently_deleted: Vec<u64> = vec![];
    let mut steps = 0;
    loop {
        steps += 1;
        assert!(steps < 10_000);
        assert!(Sketch::step_ready(
            &temp_sketch,
            &all_shapes,
            &pairs_to_check,
            &collisions,
            &possible_shape_collisions,
            &new_shapes,
            &recently_deleted,
        ));
        let contact = match Sketch::pending_pair(
            &pairs_to_check,
            &collisions,
            &possible_shape_collisions,
            &new_shapes,
            &recently_deleted,
        ) {
            Some((a, b)) => measure(
                &temp_sketch,
                all_shapes.get_item(a).unwrap(),
                all_shapes.get_item(b).unwrap(),
            ),
            None => Contact::Apart,
        };
        let worked = sketch.step_process(
            &mut temp_sketch,
            &mut all_shapes,
            &mut pairs_to_check,
            &mut collisions,
            &mut possible_shape_collisions,
            &mut new_shapes,
            &mut recently_deleted,
            &contact,
        );
        if !worked {
            break;
        }
    }
    Sketch::emit(&temp_sketch, &all_shapes)
}

#[test]
fn points_are_in_arcs() {
    let mut sketch = Sketch::new();

    let origin = add_point(&mut sketch, 0.0, 0.0);
    let right = add_point(&mut sketch, 1.0, 0.0);
    let left = add_point(&mut sketch, -1.0, 0.0);
    let arc_top = Arc2 { center: origin, start: right, end: left, clockwise: false };
    let arc_bottom = Arc2 { center: origin, start: left, end: right, clockwise: false };
    let arc_top_cw = Arc2 { center: origin, start: left, end: right, clockwise: true };
    let arc_bottom_cw = Arc2 { center: origin, start: right, end: left, clockwise: true };

    let up_top = (0.0, 1.0);
    let down_low = (0.0, -1.0);

    assert_eq!(within_arc(&sketch, &arc_top, up_top), true);
    assert_eq!(within_arc(&sketch, &arc_top, down_low), false);

    assert_eq!(within_arc(&sketch, &arc_bottom, up_top), false);
    assert_eq!(within_arc(&sketch, &arc_bottom, down_low), true);

    assert_eq!(within_arc(&sketch, &arc_top_cw, up_top), true);
    assert_eq!(within_arc(&sketch, &arc_top_cw, down_low), false);

    assert_eq!(within_arc(&sketch, &arc_bottom_cw, up_top), false);
    assert_eq!(within_arc(&sketch, &arc_bottom_cw, down_low), true);

    let way_up_top = (0.0, 100.0);
    assert_eq!(within_arc(&sketch, &arc_top, way_up_top), false);
}

#[test]
fn circle_circle_collisions() {
    let mut sketch = Sketch::new();

    println!("two circles touching normally at two points");
    let a_radius = 1.0;
    let a = add_point(&mut sketch, 0.0, 0.0);
    let a_top = add_point(&mut sketch, 0.0, a_radius);
    let b_radius = 1.0;
    let b = add_point(&mut sketch, 1.0, 0.0);
    let b_top = add_point(&mut sketch, 1.0, b_radius);
    let circle_a = Circle2 { center: a, radius: scalar(a_radius), top: a_top };
    let circle_b = Circle2 { center: b, radius: scalar(b_radius), top: b_top };
    let contact = measure_circles(&sketch, &circle_a, &circle_b);
    let collisions = sketch.circle_circle_collisions(&circle_a, 7, &circle_b, 8, &contact);
    assert_eq!(
        plain(&collisions),
        vec![(0.5, -0.8660254037844386, 7, 8), (0.5, 0.8660254037844386, 7, 8)]
    );

    println!("Two circles touching at one point");
    let a_radius = 2.0;
    let a = add_point(&mut sketch, 0.0, 0.0);
    let a_top = add_point(&mut sketch, 0.0, a_radius);
    let b_radius = 3.0;
    let b = add_point(&mut sketch, a_radius + b_radius, 0.0);
    let b_top = add_point(&mut sketch, 1.0, b_radius);
    let circle_a = Circle2 { center: a, radius: scalar(a_radius), top: a_top };
    let circle_b = Circle2 { center: b, radius: scalar(b_radius), top: b_top };
    let contact = measure_circles(&sketch, &circle_a, &circle_b);
    let collisions = sketch.circle_circle_collisions(&circle_a, 7, &circle_b, 8, &contact);
    assert_eq!(plain(&collisions), vec![(2.0, 0.0, 7, 8)]);

    println!("Two circles not touching--too far away");
    let a_radius = 2.0;
    let a = add_point(&mut sketch, 0.0, 0.0);
    let a_top = add_point(&mut sketch, 0.0, a_radius);
    let b_radius = 3.0;
    let b = add_point(&mut sketch, a_radius + b_radius + 1.0, 0.0);
    let b_top = add_point(&mut sketch, 1.0, b_radius);
    let circle_a = Circle2 { center: a, radius: scalar(a_radius), top: a_top };
    let circle_b = Circle2 { center: b, radius: scalar(b_radius), top: b_top };
    let contact = measure_circles(&sketch, &circle_a, &circle_b);
    let collisions = sketch.circle_circle_collisions(&circle_a, 7, &circle_b, 8, &contact);
    assert_eq!(plain(&collisions), vec![]);

    println!("Two circles not touching--too close");
    let a_radius = 2.0;
    let a = add_point(&mut sketch, 0.0, 0.0);
    let a_top = add_point(&mut sketch, 0.0, a_radius);
    let b_radius = 3.0;
    let b = add_point(&mut sketch, 0.5, 0.0);
    let b_top = add_point(&mut sketch, 1.0, b_radius);
    let circle_a = Circle2 { center: a, radius: scalar(a_radius), top: a_top };
    let circle_b = Circle2 { center: b, radius: scalar(b_radius), top: b_top };
    let contact = measure_circles(&sketch, &circle_a, &circle_b);
    let collisions = sketch.circle_circle_collisions(&circle_a, 7, &circle_b, 8, &contact);
    assert_eq!(plain(&collisions), vec![]);
}

fn test_lines(sketch: &Sketch, line_ab: &Line2, line_cd: &Line2) -> Vec<(f64, f64, u64, u64)> {
    let contact = measure_lines(sketch, line_ab, line_cd);
    plain(&sketch.line_line_collisions(line_ab, 1, line_cd, 2, &contact))
}

#[test]
fn line_line_collisions() {
    let mut sketch = Sketch::new();

    println!("simple cross");
    let a = add_point(&mut sketch, -1.0, 0.0);
    let b = add_point(&mut sketch, 1.0, 0.0);
    let c = add_point(&mut sketch, 0.0, -1.0);
    let d = add_point(&mut sketch, 0.0, 1.0);
    let line_ab = Line2 { start: a, end: b };
    let line_cd = Line2 { start: c, end: d };
    assert_eq!(test_lines(&sketch, &line_ab, &line_cd), vec![(0.0, 0.0, 1, 2)]);

    println!("a T");
    let a = add_point(&mut sketch, -1.0, 0.0);
    let b = add_point(&mut sketch, 1.0, 0.0);
    let c = add_point(&mut sketch, 0.0, 0.0);
    let d = add_point(&mut sketch, 0.0, 1.0);
    let line_ab = Line2 { start: a, end: b };
    let line_cd = Line2 { start: c, end: d };
    assert_eq!(test_lines(&sketch, &line_ab, &line_cd), vec![(0.0, 0.0, 1, 2)]);

    println!("parallel horizontal");
    let a = add_point(&mut sketch, -1.0, 0.0);
    let b = add_point(&mut sketch, 1.0, 0.0);
    let c = add_point(&mut sketch, -1.0, 1.0);
    let d = add_point(&mut sketch, 1.0, 1.0);
    let line_ab = Line2 { start: a, end: b };
    let line_cd = Line2 { start: c, end: d };
    assert_eq!(test_lines(&sketch, &line_ab, &line_cd), vec![]);

    println!("parallel vertical");
    let a = add_point(&mut sketch, 0.0, -1.0);
    let b = add_point(&mut sketch, 0.0, 1.0);
    let c = add_point(&mut sketch, 1.0, -1.0);
    let d = add_point(&mut sketch, 1.0, 1.0);
    let line_ab = Line2 { start: a, end: b };
    let line_cd = Line2 { start: c, end: d };
    assert_eq!(test_lines(&sketch, &line_ab, &line_cd), vec![]);

    println!("perpendicular but not intersecting");
    let a = add_point(&mut sketch, -1.0, 0.0);
    let b = add_point(&mut sketch, 1.0, 0.0);
    let c = add_point(&mut sketch, 3.0, 0.0);
    let d = add_point(&mut sketch, 3.0, 1.0);
    let line_ab = Line2 { start: a, end: b };
    let line_cd = Line2 { start: c, end: d };
    assert_eq!(test_lines(&sketch, &line_ab, &line_cd), vec![]);

    println!("share 1 point but only in the === sense not the == sense");
    let a = add_point(&mut sketch, -1.0, 1.0);
    let b = add_point(&mut sketch, 0.0, 0.0);
    let c = add_point(&mut sketch, 0.0, 0.0);
    let d = add_point(&mut sketch, 1.0, 1.0);
    let line_ab = Line2 { start: a, end: b };
    let line_cd = Line2 { start: c, end: d };
    assert_eq!(test_lines(&sketch, &line_ab, &line_cd), vec![(0.0, 0.0, 1, 2)]);

    println!("share 1 point in the == sense");
    let a = add_point(&mut sketch, -1.0, 1.0);
    let b = add_point(&mut sketch, 0.0, 0.0);
    let d = add_point(&mut sketch, 1.0, 1.0);
    let line_ab = Line2 { start: a, end: b };
    let line_cd = Line2 { start: b, end: d };
    assert_eq!(test_lines(&sketch, &line_ab, &line_cd), vec![]);

    println!("colinear horizontal no intersection");
    let a = add_point(&mut sketch, -1.0, 0.0);
    let b = add_point(&mut sketch, 0.0, 0.0);
    let c = add_point(&mut sketch, 1.0, 0.0);
    let d = add_point(&mut sketch, 2.0, 0.0);
    let line_ab = Line2 { start: a, end: b };
    let line_cd = Line2 { start: c, end: d };
    assert_eq!(test_lines(&sketch, &line_ab, &line_cd), vec![]);

    println!("colinear vertical no intersection");
    let a = add_point(&mut sketch, 0.0, 0.0);
    let b = add_point(&mut sketch, 0.0, 1.0);
    let c = add_point(&mut sketch, 0.0, 2.0);
    let d = add_point(&mut sketch, 0.0, 3.0);
    let line_ab = Line2 { start: a, end: b };
    let line_cd = Line2 { start: c, end: d };
    assert_eq!(test_lines(&sketch, &line_ab, &line_cd), vec![]);
}

#[test]
fn line_line_collisions_are_symmetric() {
    let mut sketch = Sketch::new();
    let a = add_point(&mut sketch, -1.0, 0.0);
    let b = add_point(&mut sketch, 1.0, 0.0);
    let c = add_point(&mut sketch, 0.25, -1.0);
    let d = add_point(&mut sketch, 0.25, 1.0);
    let line_ab = Line2 { start: a, end: b };
    let line_cd = Line2 { start: c, end: d };
    let forth = measure_lines(&sketch, &line_ab, &line_cd);
    let back = measure_lines(&sketch, &line_cd, &line_ab);
    let one = plain(&sketch.line_line_collisions(&line_ab, 1, &line_cd, 2, &forth));
    let other = plain(&sketch.line_line_collisions(&line_cd, 2, &line_ab, 1, &back));
    assert_eq!(one, vec![(0.25, 0.0, 1, 2)]);
    assert_eq!(other, vec![(0.25, 0.0, 2, 1)]);
}

#[test]
fn shared_end_is_no_collision() {
    let mut sketch = Sketch::new();
    let a = add_point(&mut sketch, 0.0, 0.0);
    let b = add_point(&mut sketch, 1.0, 0.0);
    let c = add_point(&mut sketch, 1.0, 1.0);
    let line_ab = Line2 { start: a, end: b };
    let line_bc = Line2 { start: b, end: c };
    let at_b = Candidate {
        point: point(1.0, 0.0),
        within_first: true,
        within_second: true,
        at_first_start: false,
        at_first_end: true,
    };
    assert_eq!(sketch.line_line_collisions(&line_ab, 1, &line_bc, 2, &Contact::Once(at_b)), vec![]);
    let line_ba = Line2 { start: b, end: a };
    let at_start = Candidate { at_first_start: true, at_first_end: false, ..at_b };
    assert_eq!(sketch.line_line_collisions(&line_ba, 1, &line_bc, 2, &Contact::Once(at_start)), vec![]);
    let line_cb = Line2 { start: c, end: b };
    assert_eq!(sketch.line_line_collisions(&line_ab, 1, &line_cb, 2, &Contact::Once(at_b)), vec![]);
    let e = add_point(&mut sketch, 1.0, 0.0);
    let line_ec = Line2 { start: e, end: c };
    assert_eq!(
        sketch.line_line_collisions(&line_ab, 1, &line_ec, 2, &Contact::Once(at_b)),
        vec![Collision { point: point(1.0, 0.0), shape_a: 1, shape_b: 2 }]
    );
}

#[test]
fn a_candidate_outside_a_segment_is_no_collision() {
    let mut sketch = Sketch::new();
    let a = add_point(&mut sketch, 0.0, 0.0);
    let b = add_point(&mut sketch, 1.0, 0.0);
    let c = add_point(&mut sketch, 5.0, 1.0);
    let d = add_point(&mut sketch, 5.0, -1.0);
    let line_ab = Line2 { start: a, end: b };
    let line_cd = Line2 { start: c, end: d };
    let inside = Candidate {
        point: point(5.0, 0.0),
        within_first: true,
        within_second: true,
        at_first_start: false,
        at_first_end: false,
    };
    let kept = vec![Collision { point: point(5.0, 0.0), shape_a: 1, shape_b: 2 }];
    assert_eq!(sketch.line_line_collisions(&line_ab, 1, &line_cd, 2, &Contact::Once(inside)), kept);
    let off_first = Candidate { within_first: false, ..inside };
    assert_eq!(sketch.line_line_collisions(&line_ab, 1, &line_cd, 2, &Contact::Once(off_first)), vec![]);
    let off_second = Candidate { within_second: false, ..inside };
    assert_eq!(sketch.line_line_collisions(&line_ab, 1, &line_cd, 2, &Contact::Once(off_second)), vec![]);
    assert_eq!(sketch.line_line_collisions(&line_ab, 1, &line_cd, 2, &Contact::Apart), vec![]);
    let ends_unshared = Candidate { at_first_start: true, at_first_end: true, ..inside };
    assert_eq!(
        sketch.line_line_collisions(&line_ab, 1, &line_cd, 2, &Contact::Once(ends_unshared)),
        kept
    );
}

#[test]
fn circle_and_arc_collide_within_the_arc() {
    let mut sketch = Sketch::new();
    let origin = add_point(&mut sketch, 0.0, 0.0);
    let top = add_point(&mut sketch, 0.0, 1.0);
    let other = add_point(&mut sketch, 1.0, 0.0);
    let right = add_point(&mut sketch, 2.0, 0.0);
    let left = add_point(&mut sketch, 0.0, 0.0);
    let circle = Circle2 { center: origin, radius: scalar(1.0), top };
    let upper = Arc2 { center: other, start: right, end: left, clockwise: false };
    let contact = measure_circle_arc(&sketch, &circle, &upper);
    let found = sketch.circle_arc_collisions(&sketch, &circle, 3, &upper, 4, &contact);
    assert_eq!(plain(&found), vec![(0.5, 0.8660254037844386, 3, 4)]);
    let lower = upper.reversed();
    let again = measure_circle_arc(&sketch, &circle, &lower);
    let found = sketch.circle_arc_collisions(&sketch, &circle, 3, &lower, 4, &again);
    assert_eq!(plain(&found), vec![(0.5, 0.8660254037844386, 3, 4)]);
    assert_eq!(
        sketch.circle_arc_intersection(&sketch, &circle, &upper, &contact),
        Intersection::OnePoint(point(0.5, 0.8660254037844386), false)
    );
    assert_eq!(
        sketch.circle_arc_intersection(&sketch, &circle, &upper, &Contact::Apart),
        Intersection::Empty
    );
}

#[test]
fn arcs_collide_within_both_and_off_shared_ends() {
    let mut sketch = Sketch::new();
    let origin = add_point(&mut sketch, 0.0, 0.0);
    let other = add_point(&mut sketch, 1.0, 0.0);
    let a_start = add_point(&mut sketch, 1.0, 0.0);
    let a_end = add_point(&mut sketch, -1.0, 0.0);
    let b_start = add_point(&mut sketch, 2.0, 0.0);
    let b_end = add_point(&mut sketch, 0.0, 0.0);
    let arc_a = Arc2 { center: origin, start: a_start, end: a_end, clockwise: false };
    let arc_b = Arc2 { center: other, start: b_start, end: b_end, clockwise: false };
    let contact = measure_arcs(&sketch, &arc_a, &arc_b);
    let found = sketch.arc_arc_collisions(&sketch, &arc_a, 5, &arc_b, 6, &contact);
    assert_eq!(plain(&found), vec![(0.5, 0.8660254037844386, 5, 6)]);

    let hit = Candidate {
        point: point(1.0, 0.0),
        within_first: true,
        within_second: true,
        at_first_start: true,
        at_first_end: false,
    };
    let joined = Arc2 { center: other, start: a_start, end: b_end, clockwise: false };
    assert_eq!(sketch.arc_arc_collisions(&sketch, &arc_a, 5, &joined, 6, &Contact::Once(hit)), vec![]);
    assert_eq!(
        sketch.arc_arc_collisions(&sketch, &arc_a, 5, &arc_b, 6, &Contact::Once(hit)),
        vec![Collision { point: point(1.0, 0.0), shape_a: 5, shape_b: 6 }]
    );
    let outside = Candidate { within_second: false, ..hit };
    assert_eq!(sketch.arc_arc_collisions(&sketch, &arc_a, 5, &arc_b, 6, &Contact::Once(outside)), vec![]);
}

#[test]
fn circles_meet_in_none_one_or_two_points() {
    let mut sketch = Sketch::new();
    let a = add_point(&mut sketch, 0.0, 0.0);
    let a_top = add_point(&mut sketch, 0.0, 1.0);
    let b = add_point(&mut sketch, 1.0, 0.0);
    let b_top = add_point(&mut sketch, 1.0, 1.0);
    let circle_a = Circle2 { center: a, radius: scalar(1.0), top: a_top };
    let circle_b = Circle2 { center: b, radius: scalar(1.0), top: b_top };
    let contact = measure_circles(&sketch, &circle_a, &circle_b);
    assert_eq!(
        sketch.circle_circle_intersection(&circle_a, &circle_b, &contact),
        Intersection::TwoPoints(
            point(0.5, -0.8660254037844386),
            false,
            point(0.5, 0.8660254037844386),
            false
        )
    );
    assert_eq!(
        sketch.circle_circle_intersection(&circle_a, &circle_b, &Contact::Apart),
        Intersection::Empty
    );
    let once = Contact::Once(candidate((2.0, 0.0), (true, true), None));
    assert_eq!(
        sketch.circle_circle_intersection(&circle_a, &circle_b, &once),
        Intersection::OnePoint(point(2.0, 0.0), false)
    );
}

#[test]
fn shapes_are_cut_at_a_point() {
    let sketch = Sketch::new();
    let p = point(0.5, 0.5);
    let line = Line2 { start: 3, end: 9 };
    assert_eq!(
        sketch.split_line_at_point(&line, &12, &p),
        (Line2 { start: 3, end: 12 }, Line2 { start: 12, end: 9 })
    );
    assert_eq!(
        Shape::Line(line).split_at_point_id(12),
        (Shape::Line(Line2 { start: 3, end: 12 }), Shape::Line(Line2 { start: 12, end: 9 }))
    );
    let arc = Arc2 { center: 1, start: 3, end: 9, clockwise: true };
    assert_eq!(
        sketch.split_arc_at_point(&arc, &12, &p),
        (
            Arc2 { center: 1, start: 3, end: 12, clockwise: true },
            Arc2 { center: 1, start: 12, end: 9, clockwise: true }
        )
    );
    let circle = Circle2 { center: 1, radius: scalar(2.0), top: 2 };
    assert_eq!(
        sketch.split_circle_at_point(&circle, &12, &p),
        Arc2 { center: 1, start: 12, end: 12, clockwise: false }
    );
}

#[test]
fn an_arc_and_its_reverse_cover_the_same() {
    let arc = Arc2 { center: 1, start: 2, end: 3, clockwise: false };
    let reverse = arc.reversed();
    assert_eq!(reverse, Arc2 { center: 1, start: 3, end: 2, clockwise: true });
    assert_eq!(reverse.counter_clockwise(), arc);
    assert_eq!(arc.counter_clockwise(), arc);
    assert_eq!(reverse.reversed(), arc);
}

#[test]
fn the_pool_gives_out_growing_keys() {
    let mut pool: IncrementingMap<u64> = IncrementingMap::new();
    assert_eq!(pool.len(), 0);
    assert_eq!(pool.add_item(10), 1);
    assert_eq!(pool.add_item(20), 2);
    assert_eq!(pool.add_item(30), 3);
    assert_eq!(pool.keys(), vec![1, 2, 3]);
    assert_eq!(pool.remove_item(3), 3);
    assert_eq!(pool.get_item(3), None);
    assert_eq!(pool.add_item(40), 4);
    assert_eq!(pool.keys(), vec![1, 2, 4]);
    assert_eq!(pool.remove_item(9), 9);
    assert_eq!(pool.keys(), vec![1, 2, 4]);
    pool.replace_item(2, 21);
    assert_eq!(pool.get_item(2), Some(&21));
    assert_eq!(pool.get_item(1), Some(&10));
    assert_eq!(pool.keys(), vec![1, 2, 4]);
    assert_eq!(pool.highest_id(), 4);
    assert!(pool.contains_key(4));
    assert!(!pool.contains_key(3));
    assert_eq!(pool.key_at(2), 4);
    assert_eq!(*pool.item_at(2), 40);
}

#[test]
fn a_sketch_gives_out_fresh_ids() {
    let mut sketch = Sketch::new();
    let a = add_point(&mut sketch, 0.0, 0.0);
    let b = add_point(&mut sketch, 1.0, 0.0);
    assert_eq!((a, b), (1, 2));
    assert_eq!(sketch.add_segment(a, b), 1);
    assert_eq!(sketch.add_line_segment(scalar(0.0), scalar(1.0), scalar(1.0), scalar(1.0)), 2);
    assert_eq!(sketch.points.keys(), vec![1, 2, 3, 4]);
    assert_eq!(sketch.line_segments.get_item(2), Some(&Line2 { start: 3, end: 4 }));
    assert_eq!(sketch.add_circle(a, scalar(1.0), b), 1);
    assert_eq!(sketch.add_arc(a, b, b, false), 1);
    assert_eq!(coords(&sketch, 4), (1.0, 1.0));
}

fn rectangle(sketch: &mut Sketch, x: f64, y: f64, w: f64, h: f64) {
    let a = add_point(sketch, x, y);
    let b = add_point(sketch, x + w, y);
    let c = add_point(sketch, x + w, y + h);
    let d = add_point(sketch, x, y + h);
    sketch.add_segment(a, b);
    sketch.add_segment(b, c);
    sketch.add_segment(c, d);
    sketch.add_segment(d, a);
}

fn resolves(sketch: &Sketch) -> bool {
    let has = |id: u64| sketch.points.contains_key(id);
    (0..sketch.line_segments.len()).all(|i| {
        let l = sketch.line_segments.item_at(i);
        has(l.start) && has(l.end) && l.start != l.end
    }) && (0..sketch.arcs.len()).all(|i| {
        let a = sketch.arcs.item_at(i);
        has(a.center) && has(a.start) && has(a.end)
    }) && (0..sketch.circles.len()).all(|i| {
        let c = sketch.circles.item_at(i);
        has(c.center) && has(c.top)
    })
}

#[test]
fn a_line_through_a_rectangle_is_split_twice() {
    let mut sketch = Sketch::new();
    rectangle(&mut sketch, 0.0, 0.0, 2.0, 1.0);
    sketch.add_line_segment(scalar(-1.0), scalar(0.5), scalar(3.0), scalar(0.5));
    let split = split_intersections(&sketch);
    assert_eq!(split.line_segments.len(), 9);
    assert_eq!(split.points.len(), 8);
    assert_eq!(split.points.highest_id(), 8);
    assert_eq!(split.circles.len(), 0);
    assert_eq!(split.arcs.len(), 0);
    assert!(resolves(&split));
    let mut cuts: Vec<(f64, f64)> = vec![coords(&split, 7), coords(&split, 8)];
    cuts.sort_by(|a, b| a.partial_cmp(b).unwrap());
    assert_eq!(cuts, vec![(0.0, 0.5), (2.0, 0.5)]);
    assert_eq!(sketch.line_segments.len(), 5);
}

#[test]
fn splitting_a_split_sketch_changes_nothing() {
    let mut sketch = Sketch::new();
    rectangle(&mut sketch, 0.0, 0.0, 2.0, 1.0);
    sketch.add_line_segment(scalar(-1.0), scalar(0.5), scalar(3.0), scalar(0.5));
    let once = split_intersections(&sketch);
    let twice = split_intersections(&once);
    assert_eq!(twice.line_segments.len(), once.line_segments.len());
    assert_eq!(twice.points.len(), once.points.len());
    for i in 0..once.line_segments.len() {
        assert_eq!(twice.line_segments.item_at(i), once.line_segments.item_at(i));
    }
}

#[test]
fn two_circles_become_four_arcs() {
    let mut sketch = Sketch::new();
    let a = add_point(&mut sketch, 0.0, 0.0);
    let a_top = add_point(&mut sketch, 0.0, 1.0);
    let b = add_point(&mut sketch, 1.0, 0.0);
    let b_top = add_point(&mut sketch, 1.0, 1.0);
    sketch.add_circle(a, scalar(1.0), a_top);
    sketch.add_circle(b, scalar(1.0), b_top);
    let split = split_intersections(&sketch);
    assert_eq!(split.circles.len(), 0);
    assert_eq!(split.arcs.len(), 4);
    assert_eq!(split.points.len(), 6);
    assert!(resolves(&split));
    assert_eq!(coords(&split, 5), (0.5, -0.8660254037844386));
    assert_eq!(coords(&split, 6), (0.5, 0.8660254037844386));
    let arcs: Vec<Arc2> = (0..4).map(|i| *split.arcs.item_at(i)).collect();
    assert_eq!(
        arcs,
        vec![
            Arc2 { center: a, start: 5, end: 6, clockwise: false },
            Arc2 { center: a, start: 6, end: 5, clockwise: false },
            Arc2 { center: b, start: 5, end: 6, clockwise: false },
            Arc2 { center: b, start: 6, end: 5, clockwise: false },
        ]
    );
}

#[test]
fn circles_apart_stay_circles() {
    let mut sketch = Sketch::new();
    let a = add_point(&mut sketch, 0.0, 0.0);
    let a_top = add_point(&mut sketch, 0.0, 1.0);
    let b = add_point(&mut sketch, 5.0, 0.0);
    let b_top = add_point(&mut sketch, 5.0, 1.0);
    sketch.add_circle(a, scalar(1.0), a_top);
    sketch.add_circle(b, scalar(1.0), b_top);
    let split = split_intersections(&sketch);
    assert_eq!(split.circles.len(), 2);
    assert_eq!(split.arcs.len(), 0);
    assert_eq!(split.points.len(), 4);
    assert_eq!(*split.circles.item_at(0), Circle2 { center: a, radius: scalar(1.0), top: a_top });
    assert_eq!(*split.circles.item_at(1), Circle2 { center: b, radius: scalar(1.0), top: b_top });
}

fn circle(sketch: &mut Sketch, x: f64, y: f64, r: f64) {
    let center = add_point(sketch, x, y);
    let top = add_point(sketch, x, y + r);
    sketch.add_circle(center, scalar(r), top);
}

#[test]
fn three_circles_become_twelve_arcs() {
    let mut sketch = Sketch::new();
    circle(&mut sketch, 0.0, 0.0, 1.0);
    circle(&mut sketch, 1.0, 0.0, 1.0);
    circle(&mut sketch, 0.5, 0.8, 1.0);
    let split = split_intersections(&sketch);
    assert_eq!(split.circles.len(), 0);
    assert_eq!(split.arcs.len(), 12);
    assert_eq!(split.points.len(), 12);
    assert!(resolves(&split));
    for center in [1, 3, 5] {
        let arcs: Vec<Arc2> =
            (0..12).map(|i| *split.arcs.item_at(i)).filter(|a| a.center == center).collect();
        assert_eq!(arcs.len(), 4);
        for arc in arcs.iter() {
            assert_ne!(arc.start, arc.end);
            assert_eq!(arcs.iter().filter(|other| other.start == arc.end).count(), 1);
        }
    }
}

#[test]
fn four_circles_in_a_chain_are_split_where_they_meet() {
    let mut sketch = Sketch::new();
    circle(&mut sketch, 0.0, 0.0, 1.0);
    circle(&mut sketch, 1.5, 0.0, 1.0);
    circle(&mut sketch, 3.0, 0.0, 1.0);
    circle(&mut sketch, 4.5, 0.0, 1.0);
    let split = split_intersections(&sketch);
    assert_eq!(split.circles.len(), 0);
    assert_eq!(split.points.len(), 8 + 6);
    assert_eq!(split.arcs.len(), 2 + 4 + 4 + 2);
    assert!(resolves(&split));
}

#[test]
fn a_line_through_many_rectangles_is_split_at_every_edge() {
    let mut sketch = Sketch::new();
    for i in 0..4 {
        rectangle(&mut sketch, 3.0 * (i as f64), 0.0, 2.0, 1.0);
    }
    sketch.add_line_segment(scalar(-1.0), scalar(0.5), scalar(12.0), scalar(0.5));
    let split = split_intersections(&sketch);
    assert_eq!(split.points.len(), 16 + 2 + 8);
    assert_eq!(split.line_segments.len(), 17 + 2 * 8);
    assert!(resolves(&split));
}

#[test]
fn the_work_is_the_same_step_by_step() {
    let mut sketch = Sketch::new();
    circle(&mut sketch, 0.0, 0.0, 1.0);
    circle(&mut sketch, 1.0, 0.0, 1.0);
    circle(&mut sketch, 0.5, 0.8, 1.0);
    let one = split_intersections(&sketch);
    let other = split_step_by_step(&sketch);
    assert_eq!(one.points.keys(), other.points.keys());
    assert_eq!(one.arcs.len(), other.arcs.len());
    for i in 0..one.arcs.len() {
        assert_eq!(one.arcs.item_at(i), other.arcs.item_at(i));
    }
}

#[test]
fn a_sketch_of_lines_and_circles_is_not_split() {
    let mut sketch = Sketch::new();
    circle(&mut sketch, 0.0, 0.0, 1.0);
    assert!(sketch.is_splittable());
    sketch.add_line_segment(scalar(0.0), scalar(0.0), scalar(1.0), scalar(1.0));
    assert!(!sketch.is_splittable());
    let mut lines = Sketch::new();
    lines.add_line_segment(scalar(0.0), scalar(0.0), scalar(1.0), scalar(1.0));
    assert!(lines.is_splittable());
    lines.line_segments.add_item(Line2 { start: 1, end: 7 });
    assert!(!lines.is_splittable());
    assert!(Sketch::new().is_splittable());
}

#[test]
fn the_work_halts_for_each_pair_and_at_the_end() {
    let mut sketch = Sketch::new();
    sketch.add_line_segment(scalar(-1.0), scalar(0.0), scalar(1.0), scalar(0.0));
    sketch.add_line_segment(scalar(0.0), scalar(-1.0), scalar(0.0), scalar(1.0));
    let (mut temp_sketch, mut all_shapes, mut pairs_to_check) = sketch.begin_split();
    assert_eq!(pairs_to_check, VecDeque::from(vec![(1, 2)]));
    let mut collisions: VecDeque<Collision> = VecDeque::new();
    let mut possible: Vec<u64> = vec![];
    let mut fresh: Vec<u64> = vec![];
    let mut deleted: Vec<u64> = vec![];
    let halt = sketch.advance(
        &mut temp_sketch,
        &mut all_shapes,
        &mut pairs_to_check,
        &mut collisions,
        &mut possible,
        &mut fresh,
        &mut deleted,
    );
    assert_eq!(halt, Halt::Test(1, 2));
    assert_eq!(all_shapes.keys(), vec![1, 2]);
    let contact = Contact::Once(candidate((0.0, 0.0), (true, true), None));
    let halt = sketch.resume(
        &mut temp_sketch,
        &mut all_shapes,
        &mut pairs_to_check,
        &mut collisions,
        &mut possible,
        &mut fresh,
        &mut deleted,
        &contact,
    );
    assert_eq!(halt, Halt::Done);
    assert_eq!(all_shapes.keys(), vec![3, 4, 5, 6]);
    assert_eq!(temp_sketch.points.len(), 5);
    assert!(pairs_to_check.is_empty() && collisions.is_empty());
    assert!(possible.is_empty() && fresh.is_empty() && deleted.is_empty());
}

#[test]
fn the_work_halts_when_ids_run_out() {
    let mut sketch = Sketch::new();
    sketch.add_line_segment(scalar(-1.0), scalar(0.0), scalar(1.0), scalar(0.0));
    sketch.add_line_segment(scalar(0.0), scalar(-1.0), scalar(0.0), scalar(1.0));
    let (mut temp_sketch, all_shapes, mut pairs_to_check) = sketch.begin_split();
    let entries: Vec<(u64, Shape)> =
        (0..all_shapes.len()).map(|i| (all_shapes.key_at(i), *all_shapes.item_at(i))).collect();
    let mut all_shapes = IncrementingMap::from_entries(entries, u64::MAX - 3).unwrap();
    let mut collisions: VecDeque<Collision> = VecDeque::new();
    let mut possible: Vec<u64> = vec![];
    let mut fresh: Vec<u64> = vec![];
    let mut deleted: Vec<u64> = vec![];
    let contact = Contact::Once(candidate((0.0, 0.0), (true, true), None));
    let halt = sketch.resume(
        &mut temp_sketch,
        &mut all_shapes,
        &mut pairs_to_check,
        &mut collisions,
        &mut possible,
        &mut fresh,
        &mut deleted,
        &contact,
    );
    assert_eq!(halt, Halt::Exhausted);
    assert_eq!(collisions.len(), 1);
    assert_eq!(all_shapes.keys(), vec![1, 2]);
}

#[test]
fn an_arc_and_a_circle_collide_within_the_arc() {
    let mut sketch = Sketch::new();
    let origin = add_point(&mut sketch, 0.0, 0.0);
    let top = add_point(&mut sketch, 0.0, 1.0);
    let other = add_point(&mut sketch, 1.0, 0.0);
    let right = add_point(&mut sketch, 2.0, 0.0);
    let left = add_point(&mut sketch, 0.0, 0.0);
    let circle = Circle2 { center: origin, radius: scalar(1.0), top };
    let upper = Arc2 { center: other, start: right, end: left, clockwise: false };
    let contact = measure_arc_circle(&sketch, &upper, &circle);
    let found = sketch.arc_circle_collisions(&sketch, &upper, 3, &circle, 4, &contact);
    assert_eq!(plain(&found), vec![(0.5, 0.8660254037844386, 3, 4)]);
    let mut pool: IncrementingMap<Shape> = IncrementingMap::new();
    pool.add_item(Shape::Arc(upper));
    pool.add_item(Shape::Circle(circle));
    let found = sketch.identify_collisions(&sketch, &pool, 1, 2, &contact);
    assert_eq!(plain(&found), vec![(0.5, 0.8660254037844386, 1, 2)]);
    for c in found.iter() {
        assert!(c.shape_a < c.shape_b);
    }
}
