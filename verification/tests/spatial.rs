//! The object store and its uniform grid: membership, updates, batches and
//! locality queries.

use scene_sync::ids::{ColorAllocator, ObjectId};
use scene_sync::object::{PropEntry, PropPatch, SceneObject, PROP_X, PROP_Y};
use scene_sync::object_manager::{ceil_div, floor_div, ObjectManager};
use scene_sync::render_control::{UpdateBody, UpdateMessage, UpdateType};

fn make_object(allocator: &mut ColorAllocator, id: &str, x: i64, y: i64) -> SceneObject {
    let oid = ObjectId::new(allocator, id.to_string()).unwrap();
    SceneObject::new(oid, "rect".to_string(), vec![x, y])
}

fn move_patch(x: i64, y: i64) -> PropPatch {
    PropPatch {
        entries: vec![
            PropEntry { key: PROP_X, value: x },
            PropEntry { key: PROP_Y, value: y },
        ],
    }
}

fn sorted(mut ids: Vec<String>) -> Vec<String> {
    ids.sort();
    ids
}

#[test]
fn floor_div_rounds_toward_negative_infinity() {
    assert_eq!(floor_div(10, 100), 0);
    assert_eq!(floor_div(150, 100), 1);
    assert_eq!(floor_div(-1, 100), -1);
    assert_eq!(floor_div(-100, 100), -1);
    assert_eq!(floor_div(-101, 100), -2);
    assert_eq!(floor_div(i64::MIN, 1), i64::MIN);
}

#[test]
fn ceil_div_rounds_up() {
    assert_eq!(ceil_div(0, 100), 0);
    assert_eq!(ceil_div(1, 100), 1);
    assert_eq!(ceil_div(50, 100), 1);
    assert_eq!(ceil_div(100, 100), 1);
    assert_eq!(ceil_div(101, 100), 2);
}

#[test]
fn add_get_contains_remove_round_trip() {
    let mut allocator = ColorAllocator::new();
    let mut store = ObjectManager::new();
    let object = make_object(&mut allocator, "a", 10, 20);
    store.add(object);
    assert!(store.contains("a"));
    assert_eq!(store.len(), 1);
    assert!(!store.is_empty());
    let read = store.get("a").unwrap();
    assert_eq!(read.get_prop(PROP_X), Some(10));
    assert_eq!(read.get_prop(PROP_Y), Some(20));
    let removed = store.remove("a").unwrap();
    assert_eq!(removed.id().value(), "a");
    assert!(!store.contains("a"));
    assert!(store.remove("a").is_none());
    assert!(store.is_empty());
}

#[test]
fn nearby_returns_only_objects_within_the_radius() {
    // A at (10, 10) and B at (150, 10) with CELL_SIZE = 100: a query at
    // the origin with radius 50 reaches A only — B is 150 away, beyond
    // the radius, even though its cell lies within one ring.
    let mut allocator = ColorAllocator::new();
    let mut store = ObjectManager::with_cell_size(100);
    store.add(make_object(&mut allocator, "a", 10, 10));
    store.add(make_object(&mut allocator, "b", 150, 10));
    let near = store.get_nearby((0, 0), 50);
    assert_eq!(near, vec!["a".to_string()]);
    // Moving A to (200, 10) relocates its grid membership; the repeated
    // query finds nothing.
    store.update_object("a", &move_patch(200, 10));
    let after = store.get_nearby((0, 0), 50);
    assert!(after.is_empty());
}

#[test]
fn nearby_distance_is_euclidean() {
    let mut allocator = ColorAllocator::new();
    let mut store = ObjectManager::with_cell_size(100);
    store.add(make_object(&mut allocator, "diag", 30, 40));
    // (30, 40) is exactly 50 away from the origin: included at radius 50,
    // excluded at radius 49.
    assert_eq!(store.get_nearby((0, 0), 50), vec!["diag".to_string()]);
    assert!(store.get_nearby((0, 0), 49).is_empty());
}

#[test]
fn nearby_uses_floor_cells_for_negative_coordinates() {
    let mut allocator = ColorAllocator::new();
    let mut store = ObjectManager::with_cell_size(100);
    store.add(make_object(&mut allocator, "neg", -10, -10));
    store.add(make_object(&mut allocator, "pos", 10, 10));
    // (-10, -10) lies in cell (-1, -1), adjacent to cell (0, 0), and both
    // objects are within 50 of the origin.
    let near = sorted(store.get_nearby((0, 0), 50));
    assert_eq!(near, vec!["neg".to_string(), "pos".to_string()]);
    let only_neg = store.get_nearby((-20, -20), 15);
    assert_eq!(only_neg, vec!["neg".to_string()]);
}

#[test]
fn update_object_applies_entries_in_order() {
    let mut allocator = ColorAllocator::new();
    let mut store = ObjectManager::new();
    store.add(make_object(&mut allocator, "a", 0, 0));
    let patch = PropPatch {
        entries: vec![
            PropEntry { key: PROP_X, value: 5 },
            PropEntry { key: PROP_X, value: 9 },
        ],
    };
    store.update_object("a", &patch);
    assert_eq!(store.get("a").unwrap().get_prop(PROP_X), Some(9));
}

#[test]
fn update_for_an_unknown_id_is_a_no_op() {
    let mut allocator = ColorAllocator::new();
    let mut store = ObjectManager::new();
    store.add(make_object(&mut allocator, "a", 1, 2));
    store.update_object("ghost-id", &move_patch(7, 7));
    assert_eq!(store.len(), 1);
    assert_eq!(store.get("a").unwrap().get_prop(PROP_X), Some(1));
}

#[test]
fn batched_updates_apply_in_arrival_order_and_skip_unknown_targets() {
    let mut allocator = ColorAllocator::new();
    let mut store = ObjectManager::new();
    store.add(make_object(&mut allocator, "a", 0, 0));
    let batch = vec![
        UpdateMessage::Update(UpdateBody::new(
            UpdateType::ObjectUpdate("a".to_string()),
            PropPatch { entries: vec![PropEntry { key: PROP_X, value: 5 }] },
            0,
        )),
        UpdateMessage::Update(UpdateBody::new(
            UpdateType::ObjectUpdate("missing".to_string()),
            PropPatch { entries: vec![PropEntry { key: PROP_X, value: 77 }] },
            0,
        )),
        UpdateMessage::Update(UpdateBody::new(UpdateType::SceneUpdate, PropPatch { entries: vec![] }, 0)),
        UpdateMessage::Update(UpdateBody::new(
            UpdateType::ObjectUpdate("a".to_string()),
            PropPatch { entries: vec![PropEntry { key: PROP_X, value: 9 }] },
            0,
        )),
    ];
    store.update_object_from_message(&batch);
    assert_eq!(store.get("a").unwrap().get_prop(PROP_X), Some(9));
    assert_eq!(store.len(), 1);
}

#[test]
fn replacing_an_object_keeps_one_record() {
    let mut allocator = ColorAllocator::new();
    let mut second_allocator = ColorAllocator::new();
    let mut store = ObjectManager::new();
    store.add(make_object(&mut allocator, "a", 1, 1));
    store.add(make_object(&mut second_allocator, "a", 9, 9));
    assert_eq!(store.len(), 1);
    assert_eq!(store.get("a").unwrap().get_prop(PROP_X), Some(9));
    store.clear();
    assert!(store.is_empty());
    assert!(store.get_nearby((0, 0), 50).is_empty());
}

#[test]
fn get_objects_returns_every_stored_object() {
    let mut allocator = ColorAllocator::new();
    let mut store = ObjectManager::new();
    store.add(make_object(&mut allocator, "a", 1, 1));
    store.add(make_object(&mut allocator, "b", 2, 2));
    let objects = store.get_objects();
    let mut ids: Vec<String> = objects.iter().map(|o| o.id().value().to_string()).collect();
    ids.sort();
    assert_eq!(ids, vec!["a".to_string(), "b".to_string()]);
}

#[test]
fn update_batches_rotate_the_scheduling_queue() {
    let mut allocator = ColorAllocator::new();
    let mut store = ObjectManager::new();
    for name in ["a", "b", "c", "d"] {
        store.add(make_object(&mut allocator, name, 0, 0));
    }
    let first = store.take_update_batch(3, 100);
    assert_eq!(first, vec!["a".to_string(), "b".to_string(), "c".to_string()]);
    // The just-processed objects went to the back: the next pass starts
    // with the neglected one.
    let second = store.take_update_batch(3, 200);
    assert_eq!(second, vec!["d".to_string(), "a".to_string(), "b".to_string()]);
    // Taking more than the scene holds drains the whole queue once.
    let third = store.take_update_batch(10, 300);
    assert_eq!(third.len(), 4);
    assert_eq!(third[0], "c");
}
