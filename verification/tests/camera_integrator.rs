//! The camera/input integrator: the per-key action table, additive
//! composition of simultaneous keys, exact time scaling, and the fixed-point
//! rotation of local movement into world space.

use gloom::camera::advance_frame;
use gloom::camera::frame_intent;
use gloom::camera::frame_update;
use gloom::camera::identity_basis;
use gloom::camera::key_action;
use gloom::camera::local_displacement;
use gloom::camera::rotate;
use gloom::camera::Basis;
use gloom::camera::CameraPose;
use gloom::camera::Intent;
use gloom::camera::Vec3i;
use gloom::input::Key;
use gloom::input::MouseDelta;
use gloom::input::PressedKeys;

#[test]
fn key_action_table_matches_the_mapping() {
    assert_eq!(key_action(Key::A), Intent { x: 1, y: 0, z: 0, yaw: 0, pitch: 0 });
    assert_eq!(key_action(Key::D), Intent { x: -1, y: 0, z: 0, yaw: 0, pitch: 0 });
    assert_eq!(key_action(Key::W), Intent { x: 0, y: 0, z: 1, yaw: 0, pitch: 0 });
    assert_eq!(key_action(Key::S), Intent { x: 0, y: 0, z: -1, yaw: 0, pitch: 0 });
    assert_eq!(key_action(Key::LShift), Intent { x: 0, y: 1, z: 0, yaw: 0, pitch: 0 });
    assert_eq!(key_action(Key::Space), Intent { x: 0, y: -1, z: 0, yaw: 0, pitch: 0 });
    assert_eq!(key_action(Key::Q), Intent { x: 0, y: 0, z: 0, yaw: -1, pitch: 0 });
    assert_eq!(key_action(Key::E), Intent { x: 0, y: 0, z: 0, yaw: 1, pitch: 0 });
    assert_eq!(key_action(Key::R), Intent { x: 0, y: 0, z: 0, yaw: 0, pitch: -1 });
    assert_eq!(key_action(Key::F), Intent { x: 0, y: 0, z: 0, yaw: 0, pitch: 1 });
    assert_eq!(key_action(Key::Escape), Intent { x: 0, y: 0, z: 0, yaw: 0, pitch: 0 });
}

#[test]
fn simultaneous_keys_compose_additively() {
    let mut keys = PressedKeys::new();
    keys.press(Key::W);
    keys.press(Key::A);
    keys.press(Key::F);
    let intent = frame_intent(&keys);
    assert_eq!(intent, Intent { x: 1, y: 0, z: 1, yaw: 0, pitch: 1 });
}

#[test]
fn opposite_keys_cancel() {
    let mut keys = PressedKeys::new();
    keys.press(Key::A);
    keys.press(Key::D);
    keys.press(Key::W);
    let intent = frame_intent(&keys);
    assert_eq!(intent, Intent { x: 0, y: 0, z: 1, yaw: 0, pitch: 0 });
}

#[test]
fn intent_ignores_insertion_order() {
    let mut first = PressedKeys::new();
    first.press(Key::W);
    first.press(Key::LShift);
    first.press(Key::Q);
    let mut second = PressedKeys::new();
    second.press(Key::Q);
    second.press(Key::W);
    second.press(Key::LShift);
    assert_eq!(frame_intent(&first), frame_intent(&second));
}

#[test]
fn displacement_scales_by_elapsed_time() {
    let intent = Intent { x: 1, y: 0, z: -1, yaw: 0, pitch: 0 };
    let d = local_displacement(&intent, 2);
    assert_eq!(d, Vec3i { x: 200, y: 0, z: -200 });
}

#[test]
fn identity_basis_keeps_direction() {
    let b = identity_basis();
    let v = Vec3i { x: 5, y: -7, z: 11 };
    let r = rotate(&b, &v);
    assert_eq!(r, Vec3i { x: 5 * 65536, y: -7 * 65536, z: 11 * 65536 });
}

#[test]
fn swapped_axes_basis_rotates() {
    // A quarter turn about the vertical axis maps local forward onto world x.
    let b = Basis {
        xx: 0,
        xy: 0,
        xz: 65536,
        yx: 0,
        yy: 65536,
        yz: 0,
        zx: -65536,
        zy: 0,
        zz: 0,
    };
    let v = Vec3i { x: 0, y: 0, z: 100 };
    let r = rotate(&b, &v);
    assert_eq!(r, Vec3i { x: 100 * 65536, y: 0, z: 0 });
}

#[test]
fn forward_key_held_half_second_moves_forward_only() {
    // Holding the forward key for half a second at yaw = pitch = 0 moves the
    // camera by movement-speed times 0.5, that is 50 world units, along the
    // forward axis alone: 50 units = 50_000_000 micro-units, times the 65536
    // position scale.
    let mut keys = PressedKeys::new();
    keys.press(Key::W);
    let mut pose = CameraPose::start();
    advance_frame(&mut pose, &keys, 500_000, &identity_basis());
    assert_eq!(pose.z, 50_000_000i64 * 65536);
    assert_eq!(pose.x, 0);
    assert_eq!(pose.y, 0);
    assert_eq!(pose.yaw, 0);
    assert_eq!(pose.pitch, 0);
}

#[test]
fn turn_keys_advance_angles_only() {
    let mut keys = PressedKeys::new();
    keys.press(Key::E);
    keys.press(Key::R);
    let mut pose = CameraPose::start();
    advance_frame(&mut pose, &keys, 250_000, &identity_basis());
    assert_eq!(pose.yaw, 250_000);
    assert_eq!(pose.pitch, -250_000);
    assert_eq!(pose.x, 0);
    assert_eq!(pose.y, 0);
    assert_eq!(pose.z, 0);
}

#[test]
fn frame_update_advances_pose_and_drains_mouse() {
    let mut keys = PressedKeys::new();
    keys.press(Key::S);
    let mut mouse = MouseDelta::new();
    mouse.accumulate(12, -34);
    let mut pose = CameraPose::start();
    let motion = frame_update(&mut pose, &keys, &mut mouse, 10, &identity_basis());
    assert_eq!(motion, (12, -34));
    assert_eq!(mouse.read_and_reset(), (0, 0));
    assert_eq!(pose.z, -1000 * 65536);
    assert_eq!(pose.x, 0);
}
