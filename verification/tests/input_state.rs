//! The shared input state: set semantics of the pressed-key set and exact
//! accumulation of the mouse deltas.

use gloom::input::Key;
use gloom::input::MouseDelta;
use gloom::input::PressedKeys;

#[test]
fn press_then_contains() {
    let mut keys = PressedKeys::new();
    assert!(!keys.contains(Key::W));
    keys.press(Key::W);
    assert!(keys.contains(Key::W));
    assert_eq!(keys.len(), 1);
}

#[test]
fn press_already_pressed_is_idempotent() {
    let mut keys = PressedKeys::new();
    keys.press(Key::W);
    keys.press(Key::W);
    assert_eq!(keys.len(), 1);
    assert!(keys.contains(Key::W));
}

#[test]
fn release_never_pressed_is_noop() {
    let mut keys = PressedKeys::new();
    keys.release(Key::Q);
    assert_eq!(keys.len(), 0);
    keys.press(Key::W);
    keys.release(Key::Q);
    assert_eq!(keys.len(), 1);
    assert!(keys.contains(Key::W));
}

#[test]
fn release_removes_only_that_key() {
    let mut keys = PressedKeys::new();
    keys.press(Key::W);
    keys.press(Key::A);
    keys.press(Key::Space);
    keys.release(Key::A);
    assert_eq!(keys.len(), 2);
    assert!(keys.contains(Key::W));
    assert!(!keys.contains(Key::A));
    assert!(keys.contains(Key::Space));
    assert_eq!(keys.get(0), Key::W);
    assert_eq!(keys.get(1), Key::Space);
}

#[test]
fn other_keys_are_tracked_by_scan_value() {
    let mut keys = PressedKeys::new();
    keys.press(Key::Other(42));
    keys.press(Key::Other(42));
    keys.press(Key::Other(43));
    assert_eq!(keys.len(), 2);
    keys.release(Key::Other(42));
    assert!(!keys.contains(Key::Other(42)));
    assert!(keys.contains(Key::Other(43)));
}

#[test]
fn mouse_delta_accumulates_sequential_events() {
    let mut mouse = MouseDelta::new();
    mouse.accumulate(3, 4);
    mouse.accumulate(5, -6);
    let read = mouse.read_and_reset();
    assert_eq!(read, (8, -2));
}

#[test]
fn mouse_delta_is_zero_after_read() {
    let mut mouse = MouseDelta::new();
    mouse.accumulate(-7, 19);
    let _ = mouse.read_and_reset();
    let read = mouse.read_and_reset();
    assert_eq!(read, (0, 0));
}
