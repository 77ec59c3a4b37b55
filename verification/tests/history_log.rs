//! The history log: time windowing, redo invalidation, the undo/redo round
//! trip, jumps to a timestamp and the summary.

use scene_sync::app::App;
use scene_sync::history::{History, HistoryItem, ObjectHistoryItem};
use scene_sync::ids::{ColorAllocator, ObjectId};
use scene_sync::object::{PropEntry, PropPatch, SceneObject, PROP_X};
use scene_sync::object_manager::ObjectManager;
use scene_sync::scene::SceneManager;

fn prop_item(id: &str, undo: i64, redo: i64, ts: u64) -> HistoryItem {
    HistoryItem::ObjectUpdate(ObjectHistoryItem::new(
        id.to_string(),
        PropPatch { entries: vec![PropEntry { key: PROP_X, value: undo }] },
        PropPatch { entries: vec![PropEntry { key: PROP_X, value: redo }] },
        ts,
    ))
}

fn fresh_app() -> App {
    App::new(800, 600, 1000)
}

fn add_object(app: &mut App, id: &str, x: i64, y: i64, now: u64) {
    let oid = ObjectId::new(&mut app.allocator, id.to_string()).unwrap();
    let object = SceneObject::new(oid, "rect".to_string(), vec![x, y]);
    app.add(object, now);
}

/// The observable state: (id, element type, properties) per object, sorted,
/// plus the scene snapshot.
fn observable(app: &App) -> (Vec<(String, String, Vec<i64>)>, scene_sync::scene::SceneDirtyData) {
    let mut objects: Vec<(String, String, Vec<i64>)> = app
        .get_objects()
        .iter()
        .map(|o| {
            let mut props = Vec::new();
            for k in 0..o.prop_count() {
                props.push(o.get_prop(k).unwrap());
            }
            (o.id().value().to_string(), o.element_type().to_string(), props)
        })
        .collect();
    objects.sort();
    (objects, app.scene_manager.get_dirty_data())
}

#[test]
fn pushes_within_the_window_merge_into_one_unit() {
    let mut history = History::new();
    history.push(prop_item("a", 0, 5, 0), 0);
    history.push(prop_item("a", 5, 9, 300), 300);
    history.finalize_current_unit();
    let summary = history.get_history_summary();
    assert_eq!(summary.len(), 1);
    assert_eq!(summary[0].item_count, 2);
}

#[test]
fn pushes_outside_the_window_make_two_units() {
    let mut history = History::new();
    history.push(prop_item("a", 0, 5, 0), 0);
    history.push(prop_item("a", 5, 9, 600), 600);
    history.finalize_current_unit();
    let summary = history.get_history_summary();
    assert_eq!(summary.len(), 2);
    assert_eq!(summary[0].item_count, 1);
    assert_eq!(summary[1].item_count, 1);
}

#[test]
fn summary_describes_single_and_multiple_updates() {
    let mut history = History::new();
    history.push(prop_item("obj-1", 0, 5, 0), 0);
    history.push(prop_item("obj-1", 5, 9, 2000), 2000);
    history.push(prop_item("obj-2", 0, 1, 2100), 2100);
    history.finalize_current_unit();
    let summary = history.get_history_summary();
    assert_eq!(summary.len(), 2);
    assert_eq!(summary[0].description, "Object update: obj-1");
    assert_eq!(summary[0].timestamp, 0);
    assert_eq!(summary[1].description, "Multiple updates: Object updates: 2");
    assert_eq!(summary[1].item_count, 2);
}

#[test]
fn undo_restores_a_whole_unit_at_once() {
    // Two updates of x (0 -> 5, then 5 -> 9) land in the same unit; one
    // undo reverts both together.
    let mut app = fresh_app();
    add_object(&mut app, "a", 0, 0, 0);
    let patch1 = PropPatch { entries: vec![PropEntry { key: PROP_X, value: 5 }] };
    app.update_object_props("a", &patch1, 1000);
    let patch2 = PropPatch { entries: vec![PropEntry { key: PROP_X, value: 9 }] };
    app.update_object_props("a", &patch2, 1100);
    assert_eq!(app.get("a").unwrap().get_prop(PROP_X), Some(9));
    assert!(app.undo());
    assert_eq!(app.get("a").unwrap().get_prop(PROP_X), Some(0));
    assert!(app.contains("a"));
}

#[test]
fn undo_redo_round_trip_restores_the_state() {
    let mut app = fresh_app();
    let initial = observable(&app);
    add_object(&mut app, "a", 0, 0, 0);
    add_object(&mut app, "b", 10, 10, 1000);
    app.update_object_props(
        "a",
        &PropPatch { entries: vec![PropEntry { key: PROP_X, value: 42 }] },
        2000,
    );
    app.set_zoom(2500, 3000);
    app.remove("b", 4000);
    let end = observable(&app);
    let mut undone: usize = 0;
    while app.undo() {
        undone += 1;
    }
    assert_eq!(undone, 5);
    assert_eq!(observable(&app), initial);
    let mut redone: usize = 0;
    while app.redo() {
        redone += 1;
    }
    assert_eq!(redone, undone);
    assert_eq!(observable(&app), end);
}

#[test]
fn redo_stack_clears_on_a_new_mutation() {
    let mut app = fresh_app();
    add_object(&mut app, "a", 0, 0, 0);
    app.update_object_props(
        "a",
        &PropPatch { entries: vec![PropEntry { key: PROP_X, value: 5 }] },
        1000,
    );
    assert!(app.undo());
    assert!(app.history.can_redo());
    app.update_object_props(
        "a",
        &PropPatch { entries: vec![PropEntry { key: PROP_X, value: 7 }] },
        2000,
    );
    assert!(!app.history.can_redo());
    assert!(!app.redo());
    assert_eq!(app.get("a").unwrap().get_prop(PROP_X), Some(7));
}

#[test]
fn undo_on_an_empty_log_reports_failure() {
    let mut app = fresh_app();
    assert!(!app.undo());
    assert!(!app.redo());
    assert!(!app.history.can_undo());
    assert!(!app.history.can_redo());
}

#[test]
fn can_undo_sees_the_open_unit() {
    let mut history = History::new();
    assert!(!history.can_undo());
    history.push(prop_item("a", 0, 1, 0), 0);
    assert!(history.can_undo());
    history.clear();
    assert!(!history.can_undo());
    assert!(!history.can_redo());
}

#[test]
fn undo_to_time_moves_the_boundary_and_replays() {
    let mut app = fresh_app();
    add_object(&mut app, "a", 0, 0, 0);
    app.update_object_props(
        "a",
        &PropPatch { entries: vec![PropEntry { key: PROP_X, value: 5 }] },
        1000,
    );
    app.update_object_props(
        "a",
        &PropPatch { entries: vec![PropEntry { key: PROP_X, value: 9 }] },
        2000,
    );
    // Jump back to just after the first update: the unit stamped at 2000
    // moves to the redo side and the rest replays from scratch.
    assert!(app.undo_to_time(1500));
    assert_eq!(app.get("a").unwrap().get_prop(PROP_X), Some(5));
    assert!(app.history.can_redo());
    assert!(app.redo_to_time(2500));
    assert_eq!(app.get("a").unwrap().get_prop(PROP_X), Some(9));
    assert!(!app.history.can_redo());
}

#[test]
fn replay_suppression_keeps_stacks_intact() {
    // Undoing and redoing never records new history: the stacks only move
    // units between each other.
    let mut app = fresh_app();
    add_object(&mut app, "a", 0, 0, 0);
    app.update_object_props(
        "a",
        &PropPatch { entries: vec![PropEntry { key: PROP_X, value: 5 }] },
        1000,
    );
    app.history.finalize_current_unit();
    let before = app.history.get_history_summary().len();
    assert!(app.undo());
    assert!(app.redo());
    app.history.finalize_current_unit();
    let after = app.history.get_history_summary().len();
    assert_eq!(before, after);
}

#[test]
fn history_apply_works_against_plain_stores() {
    // History::undo operates on any store/scene pair handed to it.
    let mut history = History::new();
    let mut allocator = ColorAllocator::new();
    let mut store = ObjectManager::new();
    let mut scene = SceneManager::new(100, 100, 1000);
    let oid = ObjectId::new(&mut allocator, "a".to_string()).unwrap();
    store.add(SceneObject::new(oid, "rect".to_string(), vec![5, 0]));
    history.push(prop_item("a", 0, 5, 0), 0);
    assert!(history.undo(&mut store, &mut scene));
    assert_eq!(store.get("a").unwrap().get_prop(PROP_X), Some(0));
    assert!(history.redo(&mut store, &mut scene));
    assert_eq!(store.get("a").unwrap().get_prop(PROP_X), Some(5));
}

#[test]
fn summary_joins_multiple_categories() {
    let mut app = fresh_app();
    // One unit holding an add and a property update: two categories.
    add_object(&mut app, "a", 0, 0, 0);
    app.update_object_props(
        "a",
        &PropPatch { entries: vec![PropEntry { key: PROP_X, value: 5 }] },
        100,
    );
    app.history.finalize_current_unit();
    let summary = app.history.get_history_summary();
    assert_eq!(summary.len(), 1);
    assert_eq!(
        summary[0].description,
        "Multiple updates: Object updates: 1, Added elements: 1"
    );
}

#[test]
fn undoing_an_add_removes_the_object_and_redo_restores_it() {
    let mut app = fresh_app();
    add_object(&mut app, "a", 7, 8, 0);
    assert!(app.contains("a"));
    assert!(app.undo());
    assert!(!app.contains("a"));
    assert!(app.redo());
    assert!(app.contains("a"));
    assert_eq!(app.get("a").unwrap().get_prop(PROP_X), Some(7));
}

#[test]
fn undoing_a_remove_restores_the_snapshot() {
    let mut app = fresh_app();
    add_object(&mut app, "a", 7, 8, 0);
    app.update_object_props(
        "a",
        &PropPatch { entries: vec![PropEntry { key: PROP_X, value: 42 }] },
        1000,
    );
    let removed = app.remove("a", 2000).unwrap();
    assert_eq!(removed.get_prop(PROP_X), Some(42));
    assert!(!app.contains("a"));
    assert!(app.undo());
    assert!(app.contains("a"));
    assert_eq!(app.get("a").unwrap().get_prop(PROP_X), Some(42));
}

#[test]
fn scene_changes_are_reversible() {
    let mut app = fresh_app();
    let before = app.scene_manager.get_dirty_data();
    app.set_zoom(3000, 0);
    app.pan(11, -7, 1000);
    let after = app.scene_manager.get_dirty_data();
    assert!(app.undo());
    assert!(app.undo());
    assert_eq!(app.scene_manager.get_dirty_data(), before);
    assert!(app.redo());
    assert!(app.redo());
    assert_eq!(app.scene_manager.get_dirty_data(), after);
}

#[test]
fn failed_redo_is_a_complete_no_op() {
    let mut history = History::new();
    let mut store = ObjectManager::new();
    let mut scene = SceneManager::new(100, 100, 1000);
    history.push(prop_item("a", 0, 5, 0), 0);
    // Nothing to redo: the call reports failure and changes nothing — in
    // particular the open unit stays open, so a push within the window
    // still merges into it.
    assert!(!history.redo(&mut store, &mut scene));
    history.push(prop_item("a", 5, 9, 300), 300);
    history.finalize_current_unit();
    let summary = history.get_history_summary();
    assert_eq!(summary.len(), 1);
    assert_eq!(summary[0].item_count, 2);
}
