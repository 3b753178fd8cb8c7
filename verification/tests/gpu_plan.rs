//! The vertex-array layout planner: channel-length consistency, index-range
//! checking, and the exact upload plan.

use gloom::gpu::check_dims;
use gloom::gpu::check_indices;
use gloom::gpu::plan_vao;
use gloom::gpu::AttributeBinding;
use gloom::gpu::BufferDims;
use gloom::gpu::BufferUpload;
use gloom::gpu::UploadTarget;

#[test]
fn consistent_dims_pass() {
    let d = BufferDims { position_floats: 9, normal_floats: 9, colour_floats: 12 };
    assert!(check_dims(&d));
}

#[test]
fn mismatched_channels_fail() {
    let short_normals = BufferDims { position_floats: 9, normal_floats: 6, colour_floats: 12 };
    assert!(!check_dims(&short_normals));
    let ragged_positions = BufferDims { position_floats: 10, normal_floats: 10, colour_floats: 12 };
    assert!(!check_dims(&ragged_positions));
    let odd_colours = BufferDims { position_floats: 9, normal_floats: 9, colour_floats: 13 };
    assert!(!check_dims(&odd_colours));
}

#[test]
fn indices_in_range_pass() {
    let indices: Vec<u32> = vec![0, 1, 2, 2, 1, 0];
    assert!(check_indices(&indices, 3));
}

#[test]
fn out_of_range_index_fails() {
    let indices: Vec<u32> = vec![0, 1, 3];
    assert!(!check_indices(&indices, 3));
}

#[test]
fn partial_triangle_fails() {
    let indices: Vec<u32> = vec![0, 1, 2, 1];
    assert!(!check_indices(&indices, 3));
}

#[test]
fn upload_plan_binds_fixed_slots() {
    let d = BufferDims { position_floats: 9, normal_floats: 9, colour_floats: 12 };
    let plan = plan_vao(&d, 6);
    assert_eq!(
        plan,
        vec![
            BufferUpload {
                target: UploadTarget::ArrayBuffer,
                byte_len: 36,
                attribute: Some(AttributeBinding { slot: 0, width: 3 }),
            },
            BufferUpload {
                target: UploadTarget::ArrayBuffer,
                byte_len: 36,
                attribute: Some(AttributeBinding { slot: 1, width: 3 }),
            },
            BufferUpload {
                target: UploadTarget::ArrayBuffer,
                byte_len: 48,
                attribute: Some(AttributeBinding { slot: 2, width: 4 }),
            },
            BufferUpload { target: UploadTarget::ElementArray, byte_len: 24, attribute: None },
        ]
    );
}
