//! Scene-state mutations, object properties, hit-test resolution, the
//! listener registry and the backend keyword enums.

use scene_sync::app::App;
use scene_sync::events::{AppEvent, BaseEventType, EventManager, EventType};
use scene_sync::ids::{ColorAllocator, ObjectId};
use scene_sync::object::{AnimationError, Dirty, PropEntry, PropPatch, SceneObject, PROP_X, PROP_Y};
use scene_sync::scene::{SceneManager, MAX_ZOOM, MIN_ZOOM, SCENE_UNIT};
use scene_sync::style::{CanvasContextType, CompositeOperation, LineCap, LineJoin, PatternRepetition, TextAlign, TextBaseline};

#[test]
fn zoom_is_clamped_into_range() {
    let mut scene = SceneManager::new(800, 600, 1000);
    scene.set_zoom(5);
    assert_eq!(scene.get_dirty_data().zoom, MIN_ZOOM);
    scene.set_zoom(99999);
    assert_eq!(scene.get_dirty_data().zoom, MAX_ZOOM);
    scene.set_zoom(2500);
    assert_eq!(scene.get_dirty_data().zoom, 2500);
}

#[test]
fn pan_accumulates_and_reset_restores_identity() {
    let mut scene = SceneManager::new(800, 600, 1000);
    scene.set_offset(10, 20);
    scene.pan(5, -30);
    let data = scene.get_dirty_data();
    assert_eq!((data.offset_x, data.offset_y), (15, -10));
    scene.reset_transform();
    let reset = scene.get_dirty_data();
    assert_eq!(reset.zoom, SCENE_UNIT);
    assert_eq!((reset.offset_x, reset.offset_y, reset.rotation), (0, 0, 0));
    assert_eq!((reset.width, reset.height, reset.dpr), (800, 600, 1000));
}

#[test]
fn zoom_at_keeps_the_anchor_point_fixed() {
    let mut scene = SceneManager::new(800, 600, 1000);
    scene.set_offset(100, 100);
    // Doubling the zoom around (300, 300): the offset moves so that the
    // anchor keeps its position, offset' = x - (x - offset) * 2.
    scene.zoom_at(300, 300, 2000);
    let data = scene.get_dirty_data();
    assert_eq!(data.zoom, 2000);
    assert_eq!(data.offset_x, 300 - (300 - 100) * 2);
    assert_eq!(data.offset_y, -100);
}

#[test]
fn update_scene_applies_a_whole_snapshot() {
    let mut scene = SceneManager::new(800, 600, 1000);
    let mut snapshot = scene.get_dirty_data();
    snapshot.zoom = 50; // below the minimum: re-clamped on apply
    snapshot.offset_x = 12;
    snapshot.rotation = 777;
    snapshot.height = 1080;
    scene.update_scene(snapshot);
    let data = scene.get_dirty_data();
    assert_eq!(data.zoom, MIN_ZOOM);
    assert_eq!(data.offset_x, 12);
    assert_eq!(data.rotation, 777);
    assert_eq!(data.height, 1080);
}

#[test]
fn set_prop_rejects_unknown_keys() {
    let mut allocator = ColorAllocator::new();
    let oid = ObjectId::new(&mut allocator, "a".to_string()).unwrap();
    let mut object = SceneObject::new(oid, "rect".to_string(), vec![0, 0, 7]);
    assert!(object.set_prop(2, 99).is_ok());
    assert_eq!(object.get_prop(2), Some(99));
    let err = object.set_prop(3, 1).unwrap_err();
    match err {
        AnimationError::InvalidProperty(detail) => assert_eq!(detail, "3"),
        AnimationError::UnsupportedPropertyType(_) => panic!("wrong error variant"),
    }
    assert_eq!(object.prop_count(), 3);
}

#[test]
fn dirty_flag_tracks_mutations() {
    let mut allocator = ColorAllocator::new();
    let oid = ObjectId::new(&mut allocator, "a".to_string()).unwrap();
    let mut object = SceneObject::new(oid, "rect".to_string(), vec![0, 0]);
    assert!(object.is_dirty());
    object.set_dirty_flag(false);
    assert!(!object.is_dirty());
    object.set_prop(PROP_X, 4).unwrap();
    assert!(object.is_dirty());
    object.set_dirty_flag(false);
    object.set_dirty();
    assert!(object.is_dirty());
}

#[test]
fn capture_undo_inverts_a_patch() {
    let mut allocator = ColorAllocator::new();
    let oid = ObjectId::new(&mut allocator, "a".to_string()).unwrap();
    let mut object = SceneObject::new(oid, "rect".to_string(), vec![1, 2]);
    let patch = PropPatch {
        entries: vec![
            PropEntry { key: PROP_X, value: 10 },
            PropEntry { key: PROP_Y, value: 20 },
            PropEntry { key: 9, value: 1 },
        ],
    };
    let undo = object.capture_undo(&patch);
    object.update(&patch);
    assert_eq!(object.get_prop(PROP_X), Some(10));
    assert_eq!(object.get_prop(PROP_Y), Some(20));
    object.update(&undo);
    assert_eq!(object.get_prop(PROP_X), Some(1));
    assert_eq!(object.get_prop(PROP_Y), Some(2));
}

#[test]
fn hit_test_resolves_colors_back_to_objects() {
    let mut app = App::new(800, 600, 1000);
    let oid = ObjectId::new(&mut app.allocator, "target".to_string()).unwrap();
    let color = oid.color();
    let object = SceneObject::new(oid, "rect".to_string(), vec![3, 4]);
    app.add(object, 0);
    let hit = app.get_trigger_object(color).expect("color must resolve");
    assert_eq!(hit.id().value(), "target");
    // A background color that was never issued resolves to no object.
    let mut probe = color;
    probe.red = probe.red.wrapping_add(1);
    if app.allocator.get_id_by_color(probe).is_none() {
        assert!(app.get_trigger_object(probe).is_none());
    }
}

#[test]
fn removed_objects_no_longer_resolve() {
    let mut app = App::new(800, 600, 1000);
    let oid = ObjectId::new(&mut app.allocator, "gone".to_string()).unwrap();
    let color = oid.color();
    app.add(SceneObject::new(oid, "rect".to_string(), vec![0, 0]), 0);
    assert!(app.get_trigger_object(color).is_some());
    app.remove("gone", 1000);
    assert!(app.get_trigger_object(color).is_none());
}

#[test]
fn listener_registry_keeps_registration_order() {
    let mut manager: EventManager<u32> = EventManager::new();
    manager.add_listener("click", 1);
    manager.add_listener("click", 2);
    manager.add_listener("hover", 10);
    assert_eq!(manager.trigger("click"), Some(&vec![1, 2]));
    assert_eq!(manager.trigger("hover"), Some(&vec![10]));
    assert_eq!(manager.trigger("missing"), None);
    manager.remove_listener("click");
    assert_eq!(manager.trigger("click"), None);
    assert_eq!(manager.trigger("hover"), Some(&vec![10]));
}

#[test]
fn event_names_match_their_keywords() {
    assert_eq!(BaseEventType::MouseDown.as_str(), "mousedown");
    assert_eq!(BaseEventType::DragStart.as_str(), "dragstart");
    assert_eq!(BaseEventType::Drop.as_str(), "drop");
    assert_eq!(AppEvent::Ready.as_str(), "ready");
    assert_eq!(EventType::Base(BaseEventType::Click).event_name(), "click");
    assert_eq!(EventType::Element("my-event".to_string()).event_name(), "my-event");
}

#[test]
fn style_keywords_match_the_backend_vocabulary() {
    assert_eq!(LineCap::Butt.as_str(), "butt");
    assert_eq!(LineJoin::Bevel.as_str(), "bevel");
    assert_eq!(TextAlign::Center.as_str(), "center");
    assert_eq!(TextBaseline::Alphabetic.as_str(), "alphabetic");
    assert_eq!(CompositeOperation::SourceOver.as_str(), "source-over");
    assert_eq!(CompositeOperation::ColorDodge.as_str(), "color-dodge");
    assert_eq!(CompositeOperation::Luminosity.as_str(), "luminosity");
    assert_eq!(PatternRepetition::RepeatX.as_str(), "repeat-x");
    assert_eq!(CanvasContextType::Canvas2d.as_str(), "2d");
    assert_eq!(CanvasContextType::WebGl2.as_str(), "webgl2");
}

#[test]
fn render_requests_coalesce() {
    let mut app = App::new(100, 100, 1000);
    assert!(!app.take_render_request());
    app.request_render();
    app.request_render();
    assert!(app.take_render_request());
    assert!(!app.take_render_request());
}

#[test]
fn set_rotation_wraps_full_turns() {
    let mut scene = SceneManager::new(800, 600, 1000);
    // One full turn is 6283 milli-radians; the remainder keeps the sign of
    // the request.
    scene.set_rotation(7000);
    assert_eq!(scene.get_dirty_data().rotation, 717);
    scene.set_rotation(-7000);
    assert_eq!(scene.get_dirty_data().rotation, -717);
    scene.set_rotation(scene_sync::scene::FULL_TURN_MILLI);
    assert_eq!(scene.get_dirty_data().rotation, 0);
    scene.set_rotation(300);
    assert_eq!(scene.get_dirty_data().rotation, 300);
}
