//! Identity allocation: color uniqueness, bidirectional lookup, errors,
//! and id-string generation.

use scene_sync::ids::{AllocError, ColorAllocator, ObjectId};
use scene_sync::text::{dec_string, hex_string};

#[test]
fn color_keys_are_pairwise_distinct() {
    let mut allocator = ColorAllocator::new();
    let mut ids = Vec::new();
    for i in 0..64 {
        let id = format!("object-{}", i);
        let oid = ObjectId::new(&mut allocator, id).expect("allocation should succeed");
        ids.push(oid);
    }
    for a in 0..ids.len() {
        for b in 0..ids.len() {
            if a != b {
                assert_ne!(ids[a].color(), ids[b].color());
                assert_ne!(ids[a].value(), ids[b].value());
            }
        }
    }
}

#[test]
fn id_color_map_is_bijective() {
    let mut allocator = ColorAllocator::new();
    let mut pairs = Vec::new();
    for i in 0..16 {
        let id = format!("obj-{}", i);
        let oid = ObjectId::new(&mut allocator, id.clone()).unwrap();
        pairs.push((id, oid.color()));
    }
    for (id, color) in &pairs {
        assert_eq!(allocator.get_color_by_id(id), Some(*color));
        assert_eq!(allocator.get_id_by_color(*color).as_deref(), Some(id.as_str()));
    }
    assert_eq!(allocator.len(), 16);
}

#[test]
fn alpha_channel_is_always_opaque() {
    let mut allocator = ColorAllocator::new();
    for i in 0..8 {
        let oid = ObjectId::new(&mut allocator, format!("o{}", i)).unwrap();
        assert_eq!(oid.color().alpha, 255);
    }
}

#[test]
fn allocating_a_taken_id_is_rejected() {
    let mut allocator = ColorAllocator::new();
    let first = ObjectId::new(&mut allocator, "dup".to_string());
    assert!(first.is_ok());
    let second = ObjectId::new(&mut allocator, "dup".to_string());
    assert_eq!(second.unwrap_err(), AllocError::IdTaken);
    assert_eq!(allocator.len(), 1);
}

#[test]
fn unknown_lookups_return_nothing() {
    let allocator = ColorAllocator::new();
    assert_eq!(allocator.get_color_by_id("missing"), None);
    let probe = scene_sync::ids::ColorKey { red: 1, green: 2, blue: 3, alpha: 255 };
    assert!(allocator.get_id_by_color(probe).is_none());
}

#[test]
fn decimal_rendering_is_exact() {
    assert_eq!(dec_string(0), "0");
    assert_eq!(dec_string(7), "7");
    assert_eq!(dec_string(10), "10");
    assert_eq!(dec_string(90210), "90210");
    assert_eq!(dec_string(u64::MAX), "18446744073709551615");
}

#[test]
fn hex_rendering_is_exact() {
    assert_eq!(hex_string(0), "0");
    assert_eq!(hex_string(10), "a");
    assert_eq!(hex_string(255), "ff");
    assert_eq!(hex_string(0xdead_beef), "deadbeef");
}

#[test]
fn generated_ids_carry_the_timestamp_and_counter() {
    let id = scene_sync::ids::generate_id(1234, 0x2a);
    let parts: Vec<&str> = id.split('-').collect();
    assert_eq!(parts.len(), 3);
    assert_eq!(parts[0], "1234");
    assert_eq!(parts[2], "2a");
    assert!(!parts[1].is_empty());
}

#[test]
fn css_color_literal_is_exact() {
    let color = scene_sync::ids::ColorKey { red: 1, green: 20, blue: 3, alpha: 255 };
    assert_eq!(color.css_string(), "rgba(1,20,3,255)");
    let black = scene_sync::ids::ColorKey { red: 0, green: 0, blue: 0, alpha: 255 };
    assert_eq!(black.css_string(), "rgba(0,0,0,255)");
}
