//! The control bus: priority-ordered buffering, the flush window, force
//! flushes and the bounded outbox.

use scene_sync::object::PropPatch;
use scene_sync::render_control::{RenderControl, UpdateBody, UpdateMessage, UpdateType};

fn update(id: &str, priority: u8, now: u64) -> UpdateMessage {
    let mut body = UpdateBody::new(
        UpdateType::ObjectUpdate(id.to_string()),
        PropPatch { entries: vec![] },
        now,
    );
    body.priority = priority;
    UpdateMessage::Update(body)
}

fn batch_ids(batch: &[UpdateMessage]) -> Vec<(String, u8)> {
    batch
        .iter()
        .map(|m| match m {
            UpdateMessage::Update(b) => match &b.update_type {
                UpdateType::ObjectUpdate(id) => (id.clone(), b.priority),
                UpdateType::SceneUpdate => ("<scene>".to_string(), b.priority),
            },
            UpdateMessage::ForceUpdate => panic!("force signal must never be buffered"),
        })
        .collect()
}

#[test]
fn force_update_flushes_all_buffered_messages_in_priority_order() {
    let mut bus = RenderControl::new();
    bus.add_message(update("low", 0, 1), 1);
    bus.add_message(update("high", 9, 2), 2);
    bus.add_message(update("mid", 5, 3), 3);
    bus.add_message(update("high-later", 9, 4), 4);
    bus.add_message(UpdateMessage::ForceUpdate, 5);
    let batch = bus.receive_messages().expect("one batch must be pending");
    let got = batch_ids(&batch);
    assert_eq!(
        got,
        vec![
            ("high".to_string(), 9),
            ("high-later".to_string(), 9),
            ("mid".to_string(), 5),
            ("low".to_string(), 0),
        ]
    );
    assert!(bus.receive_messages().is_none());
}

#[test]
fn force_update_on_an_empty_buffer_sends_nothing() {
    let mut bus = RenderControl::new();
    bus.add_message(UpdateMessage::ForceUpdate, 100);
    assert!(bus.receive_messages().is_none());
}

#[test]
fn equal_priorities_keep_arrival_order() {
    let mut bus = RenderControl::new();
    bus.add_message(update("first", 3, 1), 1);
    bus.add_message(update("second", 3, 2), 2);
    bus.add_message(update("third", 3, 3), 3);
    bus.add_message(UpdateMessage::ForceUpdate, 4);
    let batch = bus.receive_messages().unwrap();
    let got: Vec<String> = batch_ids(&batch).into_iter().map(|p| p.0).collect();
    assert_eq!(got, vec!["first", "second", "third"]);
}

#[test]
fn flush_waits_for_the_window_to_elapse() {
    let mut bus = RenderControl::new();
    // The window starts open (last flush at 0), so the first insert at
    // t=20 flushes immediately.
    bus.add_message(update("a", 0, 20), 20);
    assert!(bus.receive_messages().is_some());
    // Inserts within 8 ms of the last flush stay buffered.
    bus.add_message(update("b", 0, 24), 24);
    assert!(bus.receive_messages().is_none());
    // Once the window has elapsed, the next insert flushes everything.
    bus.add_message(update("c", 0, 40), 40);
    let batch = bus.receive_messages().unwrap();
    assert_eq!(batch.len(), 2);
}

#[test]
fn a_full_outbox_drops_the_batch() {
    let mut bus = RenderControl::new();
    bus.add_message(update("kept", 0, 2), 2);
    bus.add_message(UpdateMessage::ForceUpdate, 3);
    // The outbox now holds one undelivered batch, which is its capacity.
    bus.add_message(update("dropped", 0, 5), 5);
    bus.add_message(UpdateMessage::ForceUpdate, 6);
    let first = bus.receive_messages().unwrap();
    assert_eq!(batch_ids(&first)[0].0, "kept");
    // The second batch was dropped, never reordered or delayed.
    assert!(bus.receive_messages().is_none());
}

#[test]
fn batches_leave_in_flush_order() {
    let mut bus = RenderControl::new();
    bus.add_message(update("one", 0, 10), 10);
    bus.add_message(UpdateMessage::ForceUpdate, 11);
    let first = bus.receive_messages().unwrap();
    bus.add_message(update("two", 0, 30), 30);
    bus.add_message(UpdateMessage::ForceUpdate, 31);
    let second = bus.receive_messages().unwrap();
    assert_eq!(batch_ids(&first)[0].0, "one");
    assert_eq!(batch_ids(&second)[0].0, "two");
}
