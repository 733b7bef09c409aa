use laser_cam::gcode::GcodeBuilder;
use laser_cam::geom::Point;
use laser_cam::laser::Color;
use laser_cam::laser::Condition;
use laser_cam::laser::ConditionId;
use laser_cam::laser::SequenceItem;
use laser_cam::model::Model;
use laser_cam::stitch::Polyline;
use laser_cam::transform::EntityState;
use laser_cam::transform::Transform2;

fn mm(v: i64) -> i64 {
    v * 1_000_000
}

fn pt(x: i64, y: i64) -> Point {
    Point::new(mm(x), mm(y))
}

fn square_model() -> Model {
    let ring = vec![pt(0, 0), pt(10, 0), pt(10, 10), pt(0, 10)];
    Model::new(vec![Polyline::Closed(ring)], String::from("sq"))
}

fn identity_state() -> EntityState {
    EntityState {
        transform: Transform2::identity(),
        flip: false,
        laser_condition: ConditionId(0),
    }
}

#[test]
fn grbl_const_sequence_over_a_square() {
    let model = square_model();
    let condition = Condition {
        id: ConditionId(0),
        color: Color::white(),
        name: String::from("steel"),
        sequence: vec![SequenceItem::GrblConst { passes: 2, power: 500, feed: 1000 }],
    };
    let mut builder = GcodeBuilder::default();
    model.generate_gcode(&identity_state(), &mut builder, &condition);
    let text = builder.finish();
    let pass = "(--- Start line 0)\n\
                G0 X0.000000 Y0.000000\n\
                G1 S500 F1000 M3\n\
                G1 X10.000000 Y0.000000\n\
                G1 X10.000000 Y10.000000\n\
                G1 X0.000000 Y10.000000\n\
                G1 S0 M5\n";
    let expected = format!(
        "(Start model `sq` with laser condition `steel` and 1 sequence items)\n\
         (- Begin GRBL sequence 1 with 2 passes at 1000mm/min and 50% power)\n\
         (-- Begin pass 1)\n{pass}(-- Begin pass 2)\n{pass}(End model `sq`)\nM30\n"
    );
    assert_eq!(text, expected);
}

#[test]
fn grbl_dyn_uses_the_speed_scaled_mode() {
    let model = square_model();
    let condition = Condition {
        id: ConditionId(0),
        color: Color::white(),
        name: String::from("dyn"),
        sequence: vec![SequenceItem::GrblDyn { passes: 1, power: 255, feed: 400 }],
    };
    let mut builder = GcodeBuilder::default();
    model.generate_gcode(&identity_state(), &mut builder, &condition);
    let text = builder.finish();
    assert!(text.contains("G1 S255 F400 M4\n"));
    assert!(text.contains("(- Begin GRBL sequence 1 with 1 pass at 400mm/min and 25.5% power)\n"));
    assert!(!text.contains("M3\n"));
}

#[test]
fn custom_sequence_inserts_literal_fragments_verbatim() {
    let model = square_model();
    let condition = Condition {
        id: ConditionId(0),
        color: Color::white(),
        name: String::from("raw"),
        sequence: vec![SequenceItem::Custom {
            passes: 1,
            laser_on: String::from("M3 S100"),
            laser_off: String::from("M5"),
            power: String::from("S100"),
            feed: String::from("F500"),
        }],
    };
    let mut builder = GcodeBuilder::default();
    model.generate_gcode(&identity_state(), &mut builder, &condition);
    let text = builder.finish();
    let expected = "(Start model `sq` with laser condition `raw` and 1 sequence items)\n\
                    (- Begin Custom sequence 1 with 1 pass)\n\
                    (-- Begin pass 1)\n\
                    (--- Start line 0)\n\
                    G0 X0.000000 Y0.000000\n\
                    S100\n\
                    F500\n\
                    M3 S100\n\
                    G1 X10.000000 Y0.000000\n\
                    G1 X10.000000 Y10.000000\n\
                    G1 X0.000000 Y10.000000\n\
                    M5\n\
                    (End model `sq`)\n\
                    M30\n";
    assert_eq!(text, expected);
}

#[test]
fn zero_passes_emit_no_motion() {
    let model = square_model();
    let condition = Condition {
        id: ConditionId(0),
        color: Color::white(),
        name: String::from("idle"),
        sequence: vec![SequenceItem::GrblConst { passes: 0, power: 500, feed: 1000 }],
    };
    let mut builder = GcodeBuilder::default();
    model.generate_gcode(&identity_state(), &mut builder, &condition);
    let text = builder.finish();
    let expected = "(Start model `sq` with laser condition `idle` and 1 sequence items)\n\
                    (- Begin GRBL sequence 1 with 0 pass at 1000mm/min and 50% power)\n\
                    (End model `sq`)\n\
                    M30\n";
    assert_eq!(text, expected);
}

#[test]
fn transform_applies_flip_before_similarity() {
    // A quarter-turn rotation: with the flip applied first, in model
    // space, the flipped point rotates, which differs from flipping last.
    let state = EntityState {
        transform: Transform2 { a: 0, b: 1_000_000, tx: 0, ty: 0 },
        flip: true,
        laser_condition: ConditionId(0),
    };
    let q = state.transform(pt(1, 2));
    assert_eq!(q, Point::new(mm(2), mm(1)));
}

#[test]
fn point_within_matches_even_odd_containment() {
    let model = square_model();
    assert!(model.point_within(pt(5, 5)));
    assert!(!model.point_within(pt(15, 5)));
}

#[test]
fn transformed_rings_move_every_loop_point() {
    let model = square_model();
    let state = EntityState {
        transform: Transform2 { a: 1_000_000, b: 0, tx: mm(100), ty: mm(50) },
        flip: false,
        laser_condition: ConditionId(0),
    };
    let rings = model.transformed_rings(&state);
    assert_eq!(rings.len(), 1);
    assert_eq!(rings[0].len(), 4);
    assert_eq!(rings[0][0], pt(100, 50));
    assert_eq!(rings[0][2], pt(110, 60));
}

#[test]
fn a_shape_with_no_loops_produces_no_motion() {
    let model = Model::new(Vec::new(), String::from("void"));
    let condition = Condition {
        id: ConditionId(0),
        color: Color::white(),
        name: String::from("steel"),
        sequence: vec![SequenceItem::GrblConst { passes: 2, power: 500, feed: 1000 }],
    };
    let mut builder = GcodeBuilder::default();
    model.generate_gcode(&identity_state(), &mut builder, &condition);
    let text = builder.finish();
    let expected = "(Start model `void` with laser condition `steel` and 1 sequence items)\n\
                    (- Begin GRBL sequence 1 with 2 passes at 1000mm/min and 50% power)\n\
                    (-- Begin pass 1)\n\
                    (-- Begin pass 2)\n\
                    (End model `void`)\n\
                    M30\n";
    assert_eq!(text, expected);
}
