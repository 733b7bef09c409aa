use laser_cam::geom::Point3;
use laser_cam::geom::UNIT;
use laser_cam::model::DrawingEntity;
use laser_cam::model::Model;
use laser_cam::model::ModelLoadError;
use laser_cam::model::ModelStore;
use laser_cam::model::build_model;
use laser_cam::geom::Point;
use laser_cam::stitch::Polyline;

fn mm3(x: i64, y: i64, z: i64) -> Point3 {
    Point3 { x: x * 1_000_000, y: y * 1_000_000, z: z * 1_000_000 }
}

fn z_up() -> Point3 {
    Point3 { x: 0, y: 0, z: UNIT }
}

fn line(p1: Point3, p2: Point3, extrusion: Point3) -> DrawingEntity {
    DrawingEntity::Line { p1, p2, extrusion }
}

fn square_entities(extrusion: Point3) -> Vec<DrawingEntity> {
    vec![
        line(mm3(0, 0, 0), mm3(10, 0, 0), extrusion),
        line(mm3(10, 0, 0), mm3(10, 10, 0), extrusion),
        line(mm3(10, 10, 0), mm3(0, 10, 0), extrusion),
        line(mm3(0, 10, 0), mm3(0, 0, 0), extrusion),
    ]
}

#[test]
fn z_up_drawing_projects_x_and_y() {
    let (model, warning) = build_model(&square_entities(z_up()), String::from("flat")).unwrap();
    assert!(!warning);
    assert_eq!(model.name, "flat");
    assert_eq!(model.shape.parts.len(), 1);
    assert_eq!(model.shape.parts[0].exterior.len(), 4);
    assert!(model.point_within(Point::new(5_000_000, 5_000_000)));
}

#[test]
fn x_up_drawing_projects_y_and_z() {
    let up = Point3 { x: UNIT, y: 0, z: 0 };
    let entities = vec![
        line(mm3(0, 0, 0), mm3(0, 10, 0), up),
        line(mm3(0, 10, 0), mm3(0, 10, 10), up),
        line(mm3(0, 10, 10), mm3(0, 0, 10), up),
        line(mm3(0, 0, 10), mm3(0, 0, 0), up),
    ];
    let (model, _) = build_model(&entities, String::from("side")).unwrap();
    assert_eq!(model.shape.parts.len(), 1);
    assert!(model.point_within(Point::new(5_000_000, 5_000_000)));
}

#[test]
fn tilted_first_line_fails_with_model_not_in_plane() {
    let bad = Point3 { x: 500_000, y: 500_000, z: 707_106 };
    let r = build_model(&square_entities(bad), String::from("tilted"));
    assert_eq!(r.unwrap_err(), ModelLoadError::ModelNotInPlane);
}

#[test]
fn non_line_entities_only_raise_the_warning() {
    let mut entities = square_entities(z_up());
    entities.insert(2, DrawingEntity::Other);
    entities.push(DrawingEntity::Other);
    let (model, warning) = build_model(&entities, String::from("noisy")).unwrap();
    assert!(warning);
    // The interposed entity does not break the chain: the loop still
    // stitches closed.
    assert_eq!(model.shape.parts.len(), 1);
    assert_eq!(model.shape.parts[0].exterior.len(), 4);
}

#[test]
fn model_store_hands_out_indexed_handles() {
    let mut store = ModelStore::new();
    let ring = vec![
        Point::new(0, 0),
        Point::new(1_000_000, 0),
        Point::new(1_000_000, 1_000_000),
    ];
    let a = store.add(Model::new(vec![Polyline::Closed(ring.clone())], String::from("tri")));
    let b = store.add(Model::new(vec![Polyline::Closed(ring)], String::from("tri2")));
    assert_eq!(store.count(), 2);
    assert_eq!(a.index, 0);
    assert_eq!(b.index, 1);
    assert_eq!(a.name(), "tri");
    assert_eq!(b.name(), "tri2");
    assert_eq!(store.get(0).name, "tri");
    let all = store.iter();
    assert_eq!(all.len(), 2);
    assert_eq!(all[0].name(), "tri");
    assert_eq!(all[1].name(), "tri2");
    // Handles compare by slot.
    assert!(a == all[0].duplicate());
    assert!(a != b);
}

#[test]
fn a_leading_non_line_entity_does_not_disable_plane_detection() {
    // The first *line* entity fixes the plane, wherever it stands.
    let up = Point3 { x: UNIT, y: 0, z: 0 };
    let mut entities = vec![DrawingEntity::Other];
    entities.extend(vec![
        line(mm3(0, 0, 0), mm3(0, 10, 0), up),
        line(mm3(0, 10, 0), mm3(0, 10, 10), up),
        line(mm3(0, 10, 10), mm3(0, 0, 10), up),
        line(mm3(0, 0, 10), mm3(0, 0, 0), up),
    ]);
    let (model, warning) = build_model(&entities, String::from("led")).unwrap();
    assert!(warning);
    // X-up projects (y, z): the square spans the plane, so its middle is
    // inside; under the wrong Z-up projection every line would collapse
    // onto the y axis.
    assert!(model.point_within(Point::new(5_000_000, 5_000_000)));
}

#[test]
fn an_off_axis_extrusion_with_a_unit_component_still_fails() {
    // (1, 1, 0) is not exactly a unit axis, even though its x component
    // is one.
    let bad = Point3 { x: UNIT, y: UNIT, z: 0 };
    let r = build_model(&square_entities(bad), String::from("skewed"));
    assert_eq!(r.unwrap_err(), ModelLoadError::ModelNotInPlane);
}

#[test]
fn a_leading_non_line_entity_before_a_bad_line_still_fails() {
    let bad = Point3 { x: 0, y: 0, z: -UNIT };
    let mut entities = vec![DrawingEntity::Other];
    entities.extend(square_entities(bad));
    let r = build_model(&entities, String::from("upside"));
    assert_eq!(r.unwrap_err(), ModelLoadError::ModelNotInPlane);
}
