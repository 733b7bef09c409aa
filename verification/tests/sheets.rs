use laser_cam::geom::Point;
use laser_cam::laser::Color;
use laser_cam::laser::Condition;
use laser_cam::laser::ConditionId;
use laser_cam::laser::IdCounter;
use laser_cam::laser::SequenceItem;
use laser_cam::model::Model;
use laser_cam::model::ModelStore;
use laser_cam::sheet::EntityId;
use laser_cam::sheet::Sheet;
use laser_cam::sheet::Timestamp;
use laser_cam::sheet::next_entity_id;
use laser_cam::stitch::Polyline;
use laser_cam::store::ConditionStore;

fn mm(v: i64) -> i64 {
    v * 1_000_000
}

fn pt(x: i64, y: i64) -> Point {
    Point::new(mm(x), mm(y))
}

fn square_model() -> Model {
    let ring = vec![pt(0, 0), pt(10, 0), pt(10, 10), pt(0, 10)];
    Model::new(vec![Polyline::Closed(ring)], String::from("sq"))
}

fn steel_store() -> ConditionStore {
    let mut store = ConditionStore::new();
    store.insert(Condition {
        id: ConditionId(0),
        color: Color::white(),
        name: String::from("steel"),
        sequence: vec![SequenceItem::GrblConst { passes: 1, power: 500, feed: 1000 }],
    });
    store
}

fn stamp() -> Timestamp {
    Timestamp { year: 2024, month: 3, day: 5, hour: 14, minute: 7 }
}

#[test]
fn sheet_document_for_one_entity() {
    let mut models = ModelStore::new();
    let handle = models.add(square_model());
    let mut sheet = Sheet::new();
    sheet.add_model_from_handle(handle, 1, ConditionId(0));
    let text = sheet.generate_gcode("demo", &steel_store(), stamp());
    let expected = "(Gcode generated by LaserCAM 0.1.0)\n\
                    (Sheet \"demo\" width: 300; height: 300)\n\
                    (Generated on March 5, 2024 at 14:7)\n\
                    G54 G17 G21 G90 G94\n\
                    (Start model `sq` with laser condition `steel` and 1 sequence items)\n\
                    (- Begin GRBL sequence 1 with 1 pass at 1000mm/min and 50% power)\n\
                    (-- Begin pass 1)\n\
                    (--- Start line 0)\n\
                    G0 X0.000000 Y0.000000\n\
                    G1 S500 F1000 M3\n\
                    G1 X10.000000 Y0.000000\n\
                    G1 X10.000000 Y10.000000\n\
                    G1 X0.000000 Y10.000000\n\
                    G1 S0 M5\n\
                    (End model `sq`)\n\
                    G0 X0.000000 Y0.000000\n\
                    M30\n";
    assert_eq!(text, expected);
}

#[test]
fn an_empty_sheet_still_produces_a_full_frame() {
    let sheet = Sheet::new();
    let text = sheet.generate_gcode("empty", &steel_store(), stamp());
    let expected = "(Gcode generated by LaserCAM 0.1.0)\n\
                    (Sheet \"empty\" width: 300; height: 300)\n\
                    (Generated on March 5, 2024 at 14:7)\n\
                    G54 G17 G21 G90 G94\n\
                    G0 X0.000000 Y0.000000\n\
                    M30\n";
    assert_eq!(text, expected);
}

#[test]
fn placed_copies_step_five_millimetres_apart() {
    let mut models = ModelStore::new();
    let handle = models.add(square_model());
    let mut sheet = Sheet::new();
    sheet.add_model_from_handle(handle, 3, ConditionId(0));
    assert_eq!(sheet.entities.len(), 3);
    assert_eq!(sheet.entities[0].id, EntityId(0));
    assert_eq!(sheet.entities[1].id, EntityId(1));
    assert_eq!(sheet.entities[2].id, EntityId(2));
    assert_eq!(sheet.entities[0].state.transform.tx, 0);
    assert_eq!(sheet.entities[1].state.transform.tx, mm(5));
    assert_eq!(sheet.entities[2].state.transform.tx, mm(10));
    assert_eq!(sheet.entities[2].state.transform.ty, mm(10));
}

#[test]
fn delete_entity_removes_exactly_that_placement() {
    let mut models = ModelStore::new();
    let handle = models.add(square_model());
    let mut sheet = Sheet::new();
    sheet.add_model_from_handle(handle, 3, ConditionId(0));
    sheet.delete_entity(EntityId(1));
    assert_eq!(sheet.entities.len(), 2);
    assert_eq!(sheet.entities[0].id, EntityId(0));
    assert_eq!(sheet.entities[1].id, EntityId(2));
}

#[test]
fn sheet_size_changes_show_in_the_document() {
    let mut sheet = Sheet::new();
    sheet.change_width(450);
    sheet.change_height(220);
    assert_eq!(sheet.sheet_width, 450);
    assert_eq!(sheet.sheet_height, 220);
    let text = sheet.generate_gcode("big", &steel_store(), stamp());
    assert!(text.contains("(Sheet \"big\" width: 450; height: 220)\n"));
}

#[test]
fn entity_ids_are_unique_per_counter() {
    let mut counter = IdCounter::new();
    assert_eq!(next_entity_id(&mut counter), EntityId(0));
    assert_eq!(next_entity_id(&mut counter), EntityId(1));
}
