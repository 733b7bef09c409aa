use laser_cam::laser::Color;
use laser_cam::laser::Condition;
use laser_cam::laser::ConditionId;
use laser_cam::laser::IdCounter;
use laser_cam::laser::SeqItemType;
use laser_cam::laser::SequenceItem;
use laser_cam::laser::next_condition_id;
use laser_cam::store::ConditionStore;
use laser_cam::ui::parse_u16;

fn grbl_const(passes: u16, power: u16, feed: u16) -> SequenceItem {
    SequenceItem::GrblConst { passes, power, feed }
}

fn named(id: usize, name: &str) -> Condition {
    Condition {
        id: ConditionId(id),
        color: Color::white(),
        name: String::from(name),
        sequence: vec![grbl_const(1, 100, 200)],
    }
}

#[test]
fn sequence_item_accessors() {
    let item = grbl_const(3, 505, 1200);
    assert_eq!(item.passes(), 3);
    assert_eq!(item.item_type(), SeqItemType::GrblConst);
    assert_eq!(item.feed_string(), "1200");
    assert_eq!(item.power_string(), "505");
    assert_eq!(item.power_pretty_string(), "50.5%");
    let whole = grbl_const(1, 500, 800);
    assert_eq!(whole.power_pretty_string(), "50%");
    let custom = SequenceItem::Custom {
        passes: 2,
        laser_on: String::from("M3 S20"),
        laser_off: String::from("M5"),
        power: String::from("S20"),
        feed: String::from("F100"),
    };
    assert_eq!(custom.passes(), 2);
    assert_eq!(custom.item_type(), SeqItemType::Custom);
    assert_eq!(custom.feed_string(), "F100");
    assert_eq!(custom.power_string(), "S20");
    assert_eq!(custom.power_pretty_string(), "S20");
    let dyn_item = SequenceItem::GrblDyn { passes: 1, power: 1000, feed: 60 };
    assert_eq!(dyn_item.item_type(), SeqItemType::GrblDyn);
    assert_eq!(dyn_item.power_pretty_string(), "100%");
}

#[test]
fn seq_item_type_labels() {
    assert_eq!(SeqItemType::GrblConst.label(), "GRBL Const (M3)");
    assert_eq!(SeqItemType::GrblDyn.label(), "GRBL Dyn (M4)");
    assert_eq!(SeqItemType::Custom.label(), "Custom");
}

#[test]
fn condition_display_carries_name_and_id() {
    let c = named(7, "oak");
    let d = c.display();
    assert_eq!(d.id, ConditionId(7));
    assert_eq!(d.name, "oak");
}

#[test]
fn store_keeps_insertion_order_and_replaces_in_place() {
    let mut store = ConditionStore::new();
    assert_eq!(store.len(), 0);
    store.insert(named(1, "first"));
    store.insert(named(2, "second"));
    store.insert(named(3, "third"));
    assert_eq!(store.len(), 3);
    // Replacing an existing id keeps its place in the order.
    store.insert(named(2, "renamed"));
    assert_eq!(store.len(), 3);
    let all = store.iter();
    assert_eq!(all.len(), 3);
    assert_eq!(all[0].name, "first");
    assert_eq!(all[1].name, "renamed");
    assert_eq!(all[2].name, "third");
    assert!(store.has(ConditionId(2)));
    assert!(!store.has(ConditionId(9)));
    assert_eq!(store.get(ConditionId(3)).name, "third");
    assert_eq!(store.max_key(), 3);
}

#[test]
fn default_condition_creates_and_adopts() {
    let mut store = ConditionStore::new();
    let mut counter = IdCounter::new();
    // An empty store first gets one fresh condition.
    let id = store.default_condition(&mut counter);
    assert_eq!(id, ConditionId(0));
    assert_eq!(store.len(), 1);
    assert_eq!(store.default_id(), Some(ConditionId(0)));
    let fresh = store.get(id);
    assert_eq!(fresh.name, "New Condition 0");
    assert_eq!(fresh.sequence.len(), 0);
    assert_eq!(fresh.color, Color::white());
    // A store with a default keeps it.
    let again = store.default_condition(&mut counter);
    assert_eq!(again, ConditionId(0));
    assert_eq!(store.len(), 1);
}

#[test]
fn condition_ids_are_unique_per_counter() {
    let mut counter = IdCounter::new();
    let a = next_condition_id(&mut counter);
    let b = next_condition_id(&mut counter);
    assert_eq!(a, ConditionId(0));
    assert_eq!(b, ConditionId(1));
}

#[test]
fn parse_u16_accepts_numbers_and_clamps() {
    assert_eq!(parse_u16(""), Some(0));
    assert_eq!(parse_u16("0"), Some(0));
    assert_eq!(parse_u16("123"), Some(123));
    assert_eq!(parse_u16("+123"), Some(123));
    assert_eq!(parse_u16("65535"), Some(65535));
    assert_eq!(parse_u16("65536"), Some(65535));
    assert_eq!(parse_u16("4294967295"), Some(65535));
}

#[test]
fn parse_u16_rejects_junk_and_overflow() {
    assert_eq!(parse_u16("+"), None);
    assert_eq!(parse_u16("-1"), None);
    assert_eq!(parse_u16("12a"), None);
    assert_eq!(parse_u16(" 12"), None);
    assert_eq!(parse_u16("4294967296"), None);
    assert_eq!(parse_u16("99999999999999999999"), None);
}
