//! Drawable geometry. A `SurfaceSharedData` holds the vertex arrays and the
//! index list of one piece of geometry together with its lazy-upload state;
//! it lives in a pool so that several surfaces can share it. A `Surface` is
//! the drawable unit: a handle to shared geometry plus an optional handle to
//! a texture resource.

use vstd::prelude::*;
use crate::math::{Vec2, Vec3, Vec4};
use crate::pool::{Handle, Pool, slot_payload};
use crate::resource::Resource;

verus! {

/// Geometry data shared between surfaces: one vertex per entry of the
/// parallel position/normal/texture-coordinate arrays, triangles given by
/// the index list, plus the GPU buffer names once the executor assigned
/// them.
pub struct SurfaceSharedData {
    /// True while the arrays have not been synchronized to the GPU.
    pub need_upload: bool,
    /// GPU vertex buffer name, assigned lazily at first draw.
    pub vbo: Option<u32>,
    /// GPU vertex array name, assigned lazily at first draw.
    pub vao: Option<u32>,
    /// GPU element buffer name, assigned lazily at first draw.
    pub ebo: Option<u32>,
    pub positions: Vec<Vec3>,
    pub normals: Vec<Vec3>,
    pub tex_coords: Vec<Vec2>,
    pub tangents: Vec<Vec4>,
    pub indices: Vec<i32>,
}

impl SurfaceSharedData {
    /// The vertex arrays run in parallel and every index names a vertex.
    pub open spec fn wf(self) -> bool {
        &&& self.normals@.len() == self.positions@.len()
        &&& self.tex_coords@.len() == self.positions@.len()
        &&& forall|k: int|
            0 <= k < self.indices@.len() ==> 0 <= #[trigger] self.indices@[k]
                < self.positions@.len()
    }

    /// Empty geometry, dirty and without GPU names.
    pub fn new() -> (r: SurfaceSharedData)
        ensures
            r.wf(),
            r.need_upload,
            r.vbo is None && r.vao is None && r.ebo is None,
            r.positions@.len() == 0,
            r.tangents@.len() == 0,
            r.indices@.len() == 0,
    {
        SurfaceSharedData {
            need_upload: true,
            vbo: None,
            vao: None,
            ebo: None,
            positions: Vec::new(),
            normals: Vec::new(),
            tex_coords: Vec::new(),
            tangents: Vec::new(),
            indices: Vec::new(),
        }
    }

    /// Tangent generation is a deliberate no-op: the shipped shader does not
    /// consume tangents, so the array stays empty.
    pub fn calculate_tangents(&self) {
    }

    /// A unit cube centered at the origin: 4 vertices for each of the 6
    /// faces (so normals stay per-face) and 12 triangles. Coordinates are
    /// half a unit from the center; texture coordinates span each face.
    pub fn make_cube() -> (r: SurfaceSharedData)
        ensures
            r.wf(),
            r.need_upload,
            r.vbo is None && r.vao is None && r.ebo is None,
            r.positions@ == spec_cube_positions(),
            r.normals@ == spec_cube_normals(),
            r.tex_coords@ == spec_cube_tex_coords(),
            r.tangents@.len() == 0,
            r.indices@ == spec_cube_indices(),
    {
        let h = 32768i64;  // half a unit
        let o = 65536i64;  // one unit
        let nh = -32768i64;
        let no = -65536i64;
        let data = SurfaceSharedData {
            need_upload: true,
            vbo: None,
            vao: None,
            ebo: None,
            positions: vec![
                // Front
                Vec3 { x: nh, y: nh, z: h },
                Vec3 { x: nh, y: h, z: h },
                Vec3 { x: h, y: h, z: h },
                Vec3 { x: h, y: nh, z: h },
                // Back
                Vec3 { x: nh, y: nh, z: nh },
                Vec3 { x: nh, y: h, z: nh },
                Vec3 { x: h, y: h, z: nh },
                Vec3 { x: h, y: nh, z: nh },
                // Left
                Vec3 { x: nh, y: nh, z: nh },
                Vec3 { x: nh, y: h, z: nh },
                Vec3 { x: nh, y: h, z: h },
                Vec3 { x: nh, y: nh, z: h },
                // Right
                Vec3 { x: h, y: nh, z: nh },
                Vec3 { x: h, y: h, z: nh },
                Vec3 { x: h, y: h, z: h },
                Vec3 { x: h, y: nh, z: h },
                // Top
                Vec3 { x: nh, y: h, z: h },
                Vec3 { x: nh, y: h, z: nh },
                Vec3 { x: h, y: h, z: nh },
                Vec3 { x: h, y: h, z: h },
                // Bottom
                Vec3 { x: nh, y: nh, z: h },
                Vec3 { x: nh, y: nh, z: nh },
                Vec3 { x: h, y: nh, z: nh },
                Vec3 { x: h, y: nh, z: h },
            ],
            normals: vec![
                Vec3 { x: 0, y: 0, z: o },
                Vec3 { x: 0, y: 0, z: o },
                Vec3 { x: 0, y: 0, z: o },
                Vec3 { x: 0, y: 0, z: o },
                Vec3 { x: 0, y: 0, z: no },
                Vec3 { x: 0, y: 0, z: no },
                Vec3 { x: 0, y: 0, z: no },
                Vec3 { x: 0, y: 0, z: no },
                Vec3 { x: no, y: 0, z: 0 },
                Vec3 { x: no, y: 0, z: 0 },
                Vec3 { x: no, y: 0, z: 0 },
                Vec3 { x: no, y: 0, z: 0 },
                Vec3 { x: o, y: 0, z: 0 },
                Vec3 { x: o, y: 0, z: 0 },
                Vec3 { x: o, y: 0, z: 0 },
                Vec3 { x: o, y: 0, z: 0 },
                Vec3 { x: 0, y: o, z: 0 },
                Vec3 { x: 0, y: o, z: 0 },
                Vec3 { x: 0, y: o, z: 0 },
                Vec3 { x: 0, y: o, z: 0 },
                Vec3 { x: 0, y: no, z: 0 },
                Vec3 { x: 0, y: no, z: 0 },
                Vec3 { x: 0, y: no, z: 0 },
                Vec3 { x: 0, y: no, z: 0 },
            ],
            tex_coords: vec![
                Vec2 { x: 0, y: 0 },
                Vec2 { x: 0, y: o },
                Vec2 { x: o, y: o },
                Vec2 { x: o, y: 0 },
                Vec2 { x: 0, y: 0 },
                Vec2 { x: 0, y: o },
                Vec2 { x: o, y: o },
                Vec2 { x: o, y: 0 },
                Vec2 { x: 0, y: 0 },
                Vec2 { x: 0, y: o },
                Vec2 { x: o, y: o },
                Vec2 { x: o, y: 0 },
                Vec2 { x: 0, y: 0 },
                Vec2 { x: 0, y: o },
                Vec2 { x: o, y: o },
                Vec2 { x: o, y: 0 },
                Vec2 { x: 0, y: 0 },
                Vec2 { x: 0, y: o },
                Vec2 { x: o, y: o },
                Vec2 { x: o, y: 0 },
                Vec2 { x: 0, y: 0 },
                Vec2 { x: 0, y: o },
                Vec2 { x: o, y: o },
                Vec2 { x: o, y: 0 },
            ],
            tangents: Vec::new(),
            indices: vec![
                2, 1, 0, 3, 2, 0, 4, 5, 6, 4, 6, 7, 10, 9, 8, 11, 10, 8, 12, 13, 14, 12, 14, 15,
                18, 17, 16, 19, 18, 16, 20, 21, 22, 20, 22, 23,
            ],
        };
        data
    }
}

/// The cube's vertex positions, four per face.
pub open spec fn spec_cube_positions() -> Seq<Vec3> {
    seq![
        Vec3 { x: -32768i64, y: -32768i64, z: 32768 },
        Vec3 { x: -32768i64, y: 32768, z: 32768 },
        Vec3 { x: 32768, y: 32768, z: 32768 },
        Vec3 { x: 32768, y: -32768i64, z: 32768 },
        Vec3 { x: -32768i64, y: -32768i64, z: -32768i64 },
        Vec3 { x: -32768i64, y: 32768, z: -32768i64 },
        Vec3 { x: 32768, y: 32768, z: -32768i64 },
        Vec3 { x: 32768, y: -32768i64, z: -32768i64 },
        Vec3 { x: -32768i64, y: -32768i64, z: -32768i64 },
        Vec3 { x: -32768i64, y: 32768, z: -32768i64 },
        Vec3 { x: -32768i64, y: 32768, z: 32768 },
        Vec3 { x: -32768i64, y: -32768i64, z: 32768 },
        Vec3 { x: 32768, y: -32768i64, z: -32768i64 },
        Vec3 { x: 32768, y: 32768, z: -32768i64 },
        Vec3 { x: 32768, y: 32768, z: 32768 },
        Vec3 { x: 32768, y: -32768i64, z: 32768 },
        Vec3 { x: -32768i64, y: 32768, z: 32768 },
        Vec3 { x: -32768i64, y: 32768, z: -32768i64 },
        Vec3 { x: 32768, y: 32768, z: -32768i64 },
        Vec3 { x: 32768, y: 32768, z: 32768 },
        Vec3 { x: -32768i64, y: -32768i64, z: 32768 },
        Vec3 { x: -32768i64, y: -32768i64, z: -32768i64 },
        Vec3 { x: 32768, y: -32768i64, z: -32768i64 },
        Vec3 { x: 32768, y: -32768i64, z: 32768 },
    ]
}

/// The cube's per-vertex normals: one axis direction per face.
pub open spec fn spec_cube_normals() -> Seq<Vec3> {
    seq![
        Vec3 { x: 0, y: 0, z: 65536 },
        Vec3 { x: 0, y: 0, z: 65536 },
        Vec3 { x: 0, y: 0, z: 65536 },
        Vec3 { x: 0, y: 0, z: 65536 },
        Vec3 { x: 0, y: 0, z: -65536i64 },
        Vec3 { x: 0, y: 0, z: -65536i64 },
        Vec3 { x: 0, y: 0, z: -65536i64 },
        Vec3 { x: 0, y: 0, z: -65536i64 },
        Vec3 { x: -65536i64, y: 0, z: 0 },
        Vec3 { x: -65536i64, y: 0, z: 0 },
        Vec3 { x: -65536i64, y: 0, z: 0 },
        Vec3 { x: -65536i64, y: 0, z: 0 },
        Vec3 { x: 65536, y: 0, z: 0 },
        Vec3 { x: 65536, y: 0, z: 0 },
        Vec3 { x: 65536, y: 0, z: 0 },
        Vec3 { x: 65536, y: 0, z: 0 },
        Vec3 { x: 0, y: 65536, z: 0 },
        Vec3 { x: 0, y: 65536, z: 0 },
        Vec3 { x: 0, y: 65536, z: 0 },
        Vec3 { x: 0, y: 65536, z: 0 },
        Vec3 { x: 0, y: -65536i64, z: 0 },
        Vec3 { x: 0, y: -65536i64, z: 0 },
        Vec3 { x: 0, y: -65536i64, z: 0 },
        Vec3 { x: 0, y: -65536i64, z: 0 },
    ]
}

/// The cube's texture coordinates: each face spans the whole image.
pub open spec fn spec_cube_tex_coords() -> Seq<Vec2> {
    seq![
        Vec2 { x: 0, y: 0 },
        Vec2 { x: 0, y: 65536 },
        Vec2 { x: 65536, y: 65536 },
        Vec2 { x: 65536, y: 0 },
        Vec2 { x: 0, y: 0 },
        Vec2 { x: 0, y: 65536 },
        Vec2 { x: 65536, y: 65536 },
        Vec2 { x: 65536, y: 0 },
        Vec2 { x: 0, y: 0 },
        Vec2 { x: 0, y: 65536 },
        Vec2 { x: 65536, y: 65536 },
        Vec2 { x: 65536, y: 0 },
        Vec2 { x: 0, y: 0 },
        Vec2 { x: 0, y: 65536 },
        Vec2 { x: 65536, y: 65536 },
        Vec2 { x: 65536, y: 0 },
        Vec2 { x: 0, y: 0 },
        Vec2 { x: 0, y: 65536 },
        Vec2 { x: 65536, y: 65536 },
        Vec2 { x: 65536, y: 0 },
        Vec2 { x: 0, y: 0 },
        Vec2 { x: 0, y: 65536 },
        Vec2 { x: 65536, y: 65536 },
        Vec2 { x: 65536, y: 0 },
    ]
}

/// The cube's triangle list, two triangles per face.
pub open spec fn spec_cube_indices() -> Seq<i32> {
    seq![
        2i32, 1, 0, 3, 2, 0, 4, 5, 6, 4, 6, 7, 10, 9, 8, 11, 10, 8, 12, 13, 14, 12, 14, 15, 18,
        17, 16, 19, 18, 16, 20, 21, 22, 20, 22, 23,
    ]
}

/// The properties that pin down freshly made cube geometry.
pub open spec fn is_cube_data(v: SurfaceSharedData) -> bool {
    &&& v.need_upload
    &&& v.vbo is None
    &&& v.vao is None
    &&& v.ebo is None
    &&& v.positions@ == spec_cube_positions()
    &&& v.normals@ == spec_cube_normals()
    &&& v.tex_coords@ == spec_cube_tex_coords()
    &&& v.tangents@.len() == 0
    &&& v.indices@ == spec_cube_indices()
}

/// A drawable unit: shared geometry plus an optional texture resource.
pub struct Surface {
    /// Handle into the engine's pool of shared geometry.
    pub data: Handle,
    /// Handle into the engine's resource pool, when textured.
    pub texture: Option<Handle>,
}

impl Surface {
    /// A surface over the given shared geometry, untextured.
    pub fn new(data: Handle) -> (r: Surface)
        ensures
            r.data == data,
            r.texture is None,
    {
        Surface { data, texture: None }
    }

    /// Attaches the texture resource that `tex` points at. A handle that
    /// does not resolve to a texture resource (stale, or another resource
    /// kind) detaches the current texture instead.
    pub fn set_texture(&mut self, tex: Handle, resources: &Pool<Resource>)
        ensures
            final(self).data == old(self).data,
            final(self).texture == (match resources.spec_borrow(tex) {
                Some(res) => if res.spec_kind() is Texture {
                    Some(tex)
                } else {
                    None
                },
                None => None::<Handle>,
            }),
    {
        match resources.borrow(tex) {
            Some(res) => {
                proof {
                    assert(resources.spec_borrow(tex) == Some(
                        slot_payload(resources@[tex.index as int]),
                    ));
                }
                match res.borrow_kind() {
                    crate::resource::ResourceKind::Texture(_) => {
                        self.texture = Some(tex);
                    },
                    _ => {
                        self.texture = None;
                    },
                }
            },
            None => {
                self.texture = None;
            },
        }
    }
}

} // verus!
