use laser_cam::geom::Point;
use laser_cam::shape::PolygonRegion;
use laser_cam::shape::Shape;
use laser_cam::stitch::Polyline;

fn mm(v: i64) -> i64 {
    v * 1_000_000
}

fn pt(x: i64, y: i64) -> Point {
    Point::new(mm(x), mm(y))
}

fn square(x0: i64, y0: i64, side: i64) -> Vec<Point> {
    vec![
        pt(x0, y0),
        pt(x0 + side, y0),
        pt(x0 + side, y0 + side),
        pt(x0, y0 + side),
    ]
}

#[test]
fn centroid_of_simple_region_is_contained() {
    let shape = Shape::from_lines(vec![Polyline::Closed(square(0, 0, 10))]);
    assert!(shape.contains_point(pt(5, 5)));
}

#[test]
fn points_outside_bounding_box_are_not_contained() {
    let shape = Shape::from_lines(vec![Polyline::Closed(square(0, 0, 10))]);
    assert_eq!(shape.min, pt(0, 0));
    assert_eq!(shape.max, pt(10, 10));
    assert!(!shape.contains_point(pt(11, 5)));
    assert!(!shape.contains_point(pt(-1, 5)));
    assert!(!shape.contains_point(pt(5, 11)));
    assert!(!shape.contains_point(pt(5, -1)));
}

#[test]
fn hole_built_directly_excludes_inner_points() {
    // One region with an explicit hole: points inside the hole are out,
    // points between hole and boundary are in.
    let shape = Shape {
        parts: vec![PolygonRegion {
            exterior: square(0, 0, 10),
            interiors: vec![square(4, 4, 2)],
        }],
        min: pt(0, 0),
        max: pt(10, 10),
    };
    assert!(!shape.contains_point(pt(5, 5)));
    assert!(shape.contains_point(pt(2, 2)));
    assert!(!shape.contains_point(pt(20, 20)));
}

#[test]
fn nested_loops_behave_like_a_hole_under_even_odd() {
    // Stitched as two loops; the even-odd union rule makes the inner loop
    // act as a hole whichever region it landed in.
    let shape = Shape::from_lines(vec![
        Polyline::Closed(square(0, 0, 10)),
        Polyline::Closed(square(4, 4, 2)),
    ]);
    assert!(!shape.contains_point(pt(5, 5)));
    assert!(shape.contains_point(pt(2, 2)));
    assert!(!shape.contains_point(pt(11, 11)));
}

#[test]
fn minimum_area_loop_opens_the_first_region() {
    let shape = Shape::from_lines(vec![
        Polyline::Closed(square(0, 0, 10)),
        Polyline::Closed(square(20, 20, 2)),
    ]);
    // The smaller loop comes first in the built regions.
    let first = shape.aabb();
    assert_eq!(first.exterior.len(), 4);
    assert_eq!(shape.parts.len(), 2);
    assert_eq!(shape.parts[0].exterior[0], pt(20, 20));
    assert_eq!(shape.parts[1].exterior[0], pt(0, 0));
}

#[test]
fn bounding_box_spans_all_loops() {
    let shape = Shape::from_lines(vec![
        Polyline::Closed(square(0, 0, 10)),
        Polyline::Closed(square(20, 20, 2)),
    ]);
    assert_eq!(shape.min, pt(0, 0));
    assert_eq!(shape.max, pt(22, 22));
    let rect = shape.aabb();
    assert_eq!(rect.exterior[0], pt(0, 0));
    assert_eq!(rect.exterior[1], Point::new(mm(22), mm(0)));
    assert_eq!(rect.exterior[2], pt(22, 22));
    assert_eq!(rect.exterior[3], Point::new(mm(0), mm(22)));
    assert_eq!(rect.interiors.len(), 0);
}

#[test]
fn concave_region_centroid_can_fall_outside() {
    // A U-shaped region: the average of its corners lies in the notch,
    // which the region does not cover. This is the input on which the
    // centroid-is-contained expectation fails for non-convex regions.
    let ring = vec![
        pt(0, 0),
        pt(9, 0),
        pt(9, 10),
        pt(6, 10),
        pt(6, 2),
        pt(3, 2),
        pt(3, 10),
        pt(0, 10),
    ];
    let sx: i64 = ring.iter().map(|p| p.x).sum();
    let sy: i64 = ring.iter().map(|p| p.y).sum();
    let centroid = Point::new(sx / ring.len() as i64, sy / ring.len() as i64);
    let shape = Shape::from_lines(vec![Polyline::Closed(ring)]);
    assert!(!shape.contains_point(centroid));
}
