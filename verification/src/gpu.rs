//! The vertex-array layout planner. Uploading a mesh means allocating one
//! buffer per attribute channel and binding each at a fixed slot: slot 0
//! takes the positions (three floats per vertex), slot 1 the normals (three
//! per vertex), slot 2 the colours (four per vertex), and the index array is
//! bound as the element source without a slot. This module checks the
//! consistency of the channel lengths and index values and produces the exact
//! upload plan; the graphics calls that execute the plan live in the binary.

use vstd::prelude::*;

verus! {

/// The lengths of the three float channels of one mesh, counted in floats.
#[derive(PartialEq, Eq, Structural, Clone, Copy, Debug)]
pub struct BufferDims {
    pub position_floats: usize,
    pub normal_floats: usize,
    pub colour_floats: usize,
}

/// The vertex count the position channel describes.
pub open spec fn vertex_count_spec(d: BufferDims) -> int {
    d.position_floats as int / 3
}

/// The channel consistency the uploader relies on: positions come three per
/// vertex, normals three per vertex, colours four per vertex, all for the
/// same vertex count.
pub open spec fn dims_consistent(d: BufferDims) -> bool {
    &&& d.position_floats % 3 == 0
    &&& d.normal_floats == d.position_floats
    &&& d.colour_floats == vertex_count_spec(d) * 4
}

/// The index-array consistency the uploader relies on: whole triangles only,
/// and every index names an existing vertex.
pub open spec fn indices_consistent(idx: Seq<u32>, n_vertices: int) -> bool {
    &&& idx.len() % 3 == 0
    &&& forall|j: int| 0 <= j < idx.len() ==> (#[trigger] idx[j]) < n_vertices
}

/// Decide the channel-length consistency of one mesh.
pub fn check_dims(d: &BufferDims) -> (r: bool)
    ensures
        r == dims_consistent(*d),
{
    let q = d.position_floats / 3;
    let consistent = d.position_floats % 3 == 0 && d.normal_floats == d.position_floats
        && d.colour_floats % 4 == 0 && d.colour_floats / 4 == q;
    proof {
        if d.colour_floats % 4 == 0 && d.colour_floats / 4 == q {
            assert(d.colour_floats == q * 4) by (nonlinear_arith)
                requires
                    d.colour_floats % 4 == 0,
                    d.colour_floats / 4 == q,
                    d.colour_floats >= 0,
            ;
        }
        if d.colour_floats == q * 4 {
            assert(d.colour_floats % 4 == 0 && d.colour_floats / 4 == q) by (nonlinear_arith)
                requires
                    d.colour_floats == q * 4,
                    q >= 0,
            ;
        }
    }
    consistent
}

/// Decide whether every triangle index is in range for `vertex_count`
/// vertices and the index array holds whole triangles.
pub fn check_indices(indices: &Vec<u32>, vertex_count: usize) -> (r: bool)
    ensures
        r == indices_consistent(indices@, vertex_count as int),
{
    let n = indices.len();
    if n % 3 != 0 {
        return false;
    }
    let mut i: usize = 0;
    while i < n
        invariant
            n == indices@.len(),
            i <= n,
            forall|j: int| 0 <= j < i ==> (#[trigger] indices@[j]) < vertex_count,
        decreases n - i,
    {
        if indices[i] as usize >= vertex_count {
            return false;
        }
        i += 1;
    }
    true
}

/// Which binding point a buffer is uploaded through.
#[derive(PartialEq, Eq, Structural, Clone, Copy, Debug)]
pub enum UploadTarget {
    ArrayBuffer,
    ElementArray,
}

/// One vertex-attribute binding: the attribute slot and the number of floats
/// per vertex read from it.
#[derive(PartialEq, Eq, Structural, Clone, Copy, Debug)]
pub struct AttributeBinding {
    pub slot: u32,
    pub width: u32,
}

/// One buffer to allocate and fill: its binding point, its size in bytes
/// (four bytes per element), and the attribute bound on it, if any.
#[derive(PartialEq, Eq, Structural, Clone, Copy, Debug)]
pub struct BufferUpload {
    pub target: UploadTarget,
    pub byte_len: usize,
    pub attribute: Option<AttributeBinding>,
}

/// The upload plan of one mesh: positions at slot 0 three wide, normals at
/// slot 1 three wide, colours at slot 2 four wide, then the index array as
/// the element source, in this order. The bounds keep the byte sizes inside
/// a `usize`.
pub fn plan_vao(d: &BufferDims, index_count: usize) -> (r: Vec<BufferUpload>)
    requires
        4 * d.position_floats <= usize::MAX,
        4 * d.normal_floats <= usize::MAX,
        4 * d.colour_floats <= usize::MAX,
        4 * index_count <= usize::MAX,
    ensures
        r@.len() == 4,
        r@[0] == (BufferUpload {
            target: UploadTarget::ArrayBuffer,
            byte_len: (4 * d.position_floats) as usize,
            attribute: Some(AttributeBinding { slot: 0, width: 3 }),
        }),
        r@[1] == (BufferUpload {
            target: UploadTarget::ArrayBuffer,
            byte_len: (4 * d.normal_floats) as usize,
            attribute: Some(AttributeBinding { slot: 1, width: 3 }),
        }),
        r@[2] == (BufferUpload {
            target: UploadTarget::ArrayBuffer,
            byte_len: (4 * d.colour_floats) as usize,
            attribute: Some(AttributeBinding { slot: 2, width: 4 }),
        }),
        r@[3] == (BufferUpload {
            target: UploadTarget::ElementArray,
            byte_len: (4 * index_count) as usize,
            attribute: None::<AttributeBinding>,
        }),
{
    let mut r: Vec<BufferUpload> = Vec::new();
    r.push(BufferUpload {
        target: UploadTarget::ArrayBuffer,
        byte_len: 4 * d.position_floats,
        attribute: Some(AttributeBinding { slot: 0, width: 3 }),
    });
    r.push(BufferUpload {
        target: UploadTarget::ArrayBuffer,
        byte_len: 4 * d.normal_floats,
        attribute: Some(AttributeBinding { slot: 1, width: 3 }),
    });
    r.push(BufferUpload {
        target: UploadTarget::ArrayBuffer,
        byte_len: 4 * d.colour_floats,
        attribute: Some(AttributeBinding { slot: 2, width: 4 }),
    });
    r.push(BufferUpload {
        target: UploadTarget::ElementArray,
        byte_len: 4 * index_count,
        attribute: None,
    });
    r
}

} // verus!
