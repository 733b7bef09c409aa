use laser_cam::geom::Point;
use laser_cam::geom::Segment;
use laser_cam::stitch::LineBuilder;
use laser_cam::stitch::Polyline;
use laser_cam::stitch::stitch_segments;

fn mm(v: i64) -> i64 {
    v * 1_000_000
}

fn pt(x: i64, y: i64) -> Point {
    Point::new(mm(x), mm(y))
}

fn seg(a: Point, b: Point) -> Segment {
    Segment::new(a, b)
}

fn square_segments() -> Vec<Segment> {
    let a = pt(0, 0);
    let b = pt(10, 0);
    let c = pt(10, 10);
    let d = pt(0, 10);
    vec![seg(a, b), seg(b, c), seg(c, d), seg(d, a)]
}

#[test]
fn closed_loop_collapses_duplicate_endpoint() {
    let polys = stitch_segments(&square_segments());
    assert_eq!(polys.len(), 1);
    assert!(polys[0].is_closed());
    let points = polys[0].points();
    assert_eq!(points.len(), 4);
    assert_eq!(points[0], pt(0, 0));
    assert_eq!(points[1], pt(10, 0));
    assert_eq!(points[2], pt(10, 10));
    assert_eq!(points[3], pt(0, 10));
}

#[test]
fn open_chain_has_one_more_point_than_segments() {
    let a = pt(0, 0);
    let b = pt(5, 0);
    let c = pt(5, 5);
    let polys = stitch_segments(&vec![seg(a, b), seg(b, c)]);
    assert_eq!(polys.len(), 1);
    assert!(!polys[0].is_closed());
    let points = polys[0].points();
    assert_eq!(points.len(), 3);
    assert_eq!(points[0], a);
    assert_eq!(points[1], b);
    assert_eq!(points[2], c);
}

#[test]
fn rotated_traversal_keeps_point_set_and_closure() {
    let segs = square_segments();
    let mut rotated = Vec::new();
    for i in 0..segs.len() {
        rotated.push(segs[(i + 2) % segs.len()]);
    }
    let first = stitch_segments(&segs);
    let second = stitch_segments(&rotated);
    assert_eq!(first.len(), 1);
    assert_eq!(second.len(), 1);
    assert!(first[0].is_closed());
    assert!(second[0].is_closed());
    assert_ne!(first[0].points()[0], second[0].points()[0]);
    let mut set_a: Vec<Point> = first[0].points().clone();
    let mut set_b: Vec<Point> = second[0].points().clone();
    set_a.sort_by_key(|p| (p.x, p.y));
    set_b.sort_by_key(|p| (p.x, p.y));
    assert_eq!(set_a, set_b);
}

#[test]
fn disconnected_segments_split_into_two_polylines() {
    let polys = stitch_segments(&vec![
        seg(pt(0, 0), pt(1, 0)),
        seg(pt(5, 5), pt(6, 5)),
    ]);
    assert_eq!(polys.len(), 2);
    assert!(!polys[0].is_closed());
    assert!(!polys[1].is_closed());
    assert_eq!(polys[0].points().len(), 2);
    assert_eq!(polys[1].points().len(), 2);
}

#[test]
fn line_builder_hands_back_mismatched_segment() {
    let mut b = LineBuilder::default();
    assert!(b.try_add(seg(pt(0, 0), pt(1, 0))).is_ok());
    assert!(b.try_add(seg(pt(1, 0), pt(1, 1))).is_ok());
    let rejected = b.try_add(seg(pt(9, 9), pt(8, 8)));
    assert_eq!(rejected, Err(seg(pt(9, 9), pt(8, 8))));
    let poly = b.finish();
    match poly {
        Polyline::Open(v) => assert_eq!(v.len(), 3),
        Polyline::Closed(_) => panic!("chain with distinct ends must stay open"),
    }
}

#[test]
fn reversed_traversal_keeps_point_set_and_closure() {
    let segs = square_segments();
    let mut reversed = Vec::new();
    for s in segs.iter().rev() {
        reversed.push(seg(s.p2, s.p1));
    }
    let forward = stitch_segments(&segs);
    let backward = stitch_segments(&reversed);
    assert_eq!(forward.len(), 1);
    assert_eq!(backward.len(), 1);
    assert!(forward[0].is_closed());
    assert!(backward[0].is_closed());
    let mut set_a: Vec<Point> = forward[0].points().clone();
    let mut set_b: Vec<Point> = backward[0].points().clone();
    set_a.sort_by_key(|p| (p.x, p.y));
    set_b.sort_by_key(|p| (p.x, p.y));
    assert_eq!(set_a, set_b);
}
