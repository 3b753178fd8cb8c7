//! The event thread's dispatch decisions and the watchdog's health flag.

use gloom::events::handle_event;
use gloom::events::update_health;
use gloom::events::InputEvent;
use gloom::input::Key;
use gloom::input::MouseDelta;
use gloom::input::PressedKeys;

#[test]
fn close_request_exits() {
    let mut keys = PressedKeys::new();
    let mut mouse = MouseDelta::new();
    let exit = handle_event(&mut keys, &mut mouse, true, &InputEvent::CloseRequested);
    assert!(exit);
}

#[test]
fn escape_exits_on_press_and_on_release() {
    let mut keys = PressedKeys::new();
    let mut mouse = MouseDelta::new();
    let press = InputEvent::Keyboard { pressed: true, code: Key::Escape };
    assert!(handle_event(&mut keys, &mut mouse, true, &press));
    let release = InputEvent::Keyboard { pressed: false, code: Key::Escape };
    assert!(handle_event(&mut keys, &mut mouse, true, &release));
}

#[test]
fn ordinary_events_do_not_exit() {
    let mut keys = PressedKeys::new();
    let mut mouse = MouseDelta::new();
    let press = InputEvent::Keyboard { pressed: true, code: Key::W };
    assert!(!handle_event(&mut keys, &mut mouse, true, &press));
    assert!(!handle_event(&mut keys, &mut mouse, true, &InputEvent::Other));
    let motion = InputEvent::MouseMotion { dx: 1, dy: 1 };
    assert!(!handle_event(&mut keys, &mut mouse, true, &motion));
}

#[test]
fn key_events_maintain_the_pressed_set() {
    let mut keys = PressedKeys::new();
    let mut mouse = MouseDelta::new();
    handle_event(&mut keys, &mut mouse, true, &InputEvent::Keyboard {
        pressed: true,
        code: Key::W,
    });
    handle_event(&mut keys, &mut mouse, true, &InputEvent::Keyboard {
        pressed: true,
        code: Key::W,
    });
    assert_eq!(keys.len(), 1);
    handle_event(&mut keys, &mut mouse, true, &InputEvent::Keyboard {
        pressed: false,
        code: Key::W,
    });
    assert!(!keys.contains(Key::W));
}

#[test]
fn motion_events_accumulate() {
    let mut keys = PressedKeys::new();
    let mut mouse = MouseDelta::new();
    handle_event(&mut keys, &mut mouse, true, &InputEvent::MouseMotion { dx: 2, dy: 3 });
    handle_event(&mut keys, &mut mouse, true, &InputEvent::MouseMotion { dx: -5, dy: 4 });
    assert_eq!(mouse.read_and_reset(), (-3, 7));
}

#[test]
fn dead_render_thread_exits_within_one_event() {
    // The watchdog observes the abnormal end of the render thread and clears
    // the health flag; the very next dispatched event, of any kind, makes
    // the event thread request exit.
    let mut health = true;
    update_health(&mut health, false);
    assert!(!health);
    let mut keys = PressedKeys::new();
    let mut mouse = MouseDelta::new();
    let exit = handle_event(&mut keys, &mut mouse, health, &InputEvent::Other);
    assert!(exit);
}

#[test]
fn healthy_join_keeps_the_flag() {
    let mut health = true;
    update_health(&mut health, true);
    assert!(health);
    let mut cleared = false;
    update_health(&mut cleared, true);
    assert!(!cleared);
}
