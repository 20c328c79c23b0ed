//! Scene nodes: a name, a kind-specific payload, decomposed local transform
//! components (with the legacy pivot/offset rotations of imported assets),
//! the cached composed local and global transforms, and the parent/children
//! links of the graph. Pivot and offset rotations are stored as quaternions
//! (an asset importer converts its axis-angle vectors before building
//! nodes), so every inverse in the composition formula is a conjugate and is
//! always defined.

use vstd::prelude::*;
use crate::math::{
    FX_ONE, FX_RAD_PER_DEG, Mat4, Quat, Rect, Vec2, Vec3, fx_mul, fx_to_i32, fxs_mul, fxs_to_i32,
    mat_identity, mat_look_at_rh, mat_mul, mat_perspective, mat_scaling, mat_translation,
    mat_from_quat, mats_identity, mats_look_at_rh, mats_mul, mats_perspective, mats_from_quat,
    mats_scaling, mats_translation, quat_conjugate, quat_identity, quats_conjugate,
    quats_identity, vec3_add, vec3_new, vec3_one, vec3_zero, vec3s_add, vec3s_one, vec3s_zero,
    lemma_mat_mul_identity,
};
use crate::pool::{Handle, Pool, slot_payload};
use crate::resource::Resource;
use crate::surface::{Surface, SurfaceSharedData, is_cube_data};

verus! {

/// A point light.
pub struct Light {
    pub radius: i64,
    pub color: Vec3,
}

impl Light {
    /// A white light of radius 10.
    pub fn default() -> (r: Light)
        ensures
            r.radius == 10 * FX_ONE as int,
            r.color == vec3s_one(),
    {
        Light { radius: 10 * FX_ONE, color: vec3_one() }
    }
}

/// A perspective camera: lens parameters, a normalized viewport rectangle,
/// and the view/projection matrices recomputed by every scene update.
pub struct Camera {
    /// Vertical field of view in degrees.
    pub fov: i64,
    pub z_near: i64,
    pub z_far: i64,
    /// Viewport as fractions of the framebuffer (0 to 1 per axis).
    pub viewport: Rect<i64>,
    pub view_matrix: Mat4,
    pub projection_matrix: Mat4,
}

impl Camera {
    /// A 45-degree camera over the full framebuffer with near plane 1 and
    /// far plane 1000, projected at aspect ratio 1 until the first update.
    pub fn default() -> (r: Camera)
        ensures
            r.fov == 45 * FX_ONE as int,
            r.z_near == FX_ONE,
            r.z_far == 1000 * FX_ONE as int,
            r.viewport == (Rect { x: 0i64, y: 0i64, width: FX_ONE, height: FX_ONE }),
            r.view_matrix == mats_identity(),
            r.projection_matrix == mats_perspective(
                FX_ONE,
                fxs_mul((45 * FX_ONE) as i64, FX_RAD_PER_DEG),
                FX_ONE,
                (1000 * FX_ONE) as i64,
            ),
    {
        let fov: i64 = 45 * FX_ONE;
        let z_near: i64 = FX_ONE;
        let z_far: i64 = 1000 * FX_ONE;
        Camera {
            fov,
            z_near,
            z_far,
            view_matrix: mat_identity(),
            projection_matrix: mat_perspective(FX_ONE, fx_mul(fov, FX_RAD_PER_DEG), z_near, z_far),
            viewport: Rect { x: 0, y: 0, width: FX_ONE, height: FX_ONE },
        }
    }

    /// Recomputes the view matrix from the camera's position, look direction
    /// and up direction, and the projection matrix from the current aspect
    /// ratio; the lens parameters and viewport are untouched.
    pub fn calculate_matrices(&mut self, pos: Vec3, look: Vec3, up: Vec3, aspect: i64)
        ensures
            final(self).view_matrix == mats_look_at_rh(pos, vec3s_add(pos, look), up),
            final(self).projection_matrix == mats_perspective(
                aspect,
                fxs_mul(old(self).fov, FX_RAD_PER_DEG),
                old(self).z_near,
                old(self).z_far,
            ),
            final(self).fov == old(self).fov,
            final(self).z_near == old(self).z_near,
            final(self).z_far == old(self).z_far,
            final(self).viewport == old(self).viewport,
    {
        let point = vec3_add(pos, look);
        self.view_matrix = mat_look_at_rh(pos, point, up);
        self.projection_matrix = mat_perspective(
            aspect,
            fx_mul(self.fov, FX_RAD_PER_DEG),
            self.z_near,
            self.z_far,
        );
    }

    /// The viewport in pixels for a framebuffer of the given size (both
    /// sizes in fixed-point units).
    pub open spec fn spec_viewport_pixels(self, client_size: Vec2) -> Rect<i32> {
        Rect {
            x: fxs_to_i32(fxs_mul(self.viewport.x, client_size.x)),
            y: fxs_to_i32(fxs_mul(self.viewport.y, client_size.y)),
            width: fxs_to_i32(fxs_mul(self.viewport.width, client_size.x)),
            height: fxs_to_i32(fxs_mul(self.viewport.height, client_size.y)),
        }
    }

    pub fn get_viewport_pixels(&self, client_size: Vec2) -> (r: Rect<i32>)
        ensures
            r == self.spec_viewport_pixels(client_size),
    {
        Rect {
            x: fx_to_i32(fx_mul(self.viewport.x, client_size.x)),
            y: fx_to_i32(fx_mul(self.viewport.y, client_size.y)),
            width: fx_to_i32(fx_mul(self.viewport.width, client_size.x)),
            height: fx_to_i32(fx_mul(self.viewport.height, client_size.y)),
        }
    }

    /// The combined view-projection matrix.
    pub fn get_view_projection_matrix(&self) -> (r: Mat4)
        ensures
            r == mats_mul(self.projection_matrix, self.view_matrix),
    {
        mat_mul(&self.projection_matrix, &self.view_matrix)
    }
}

/// A renderable node payload: the surfaces drawn at the node's transform.
pub struct Mesh {
    pub surfaces: Vec<Surface>,
}

impl Mesh {
    /// A mesh with no surfaces.
    pub fn default() -> (r: Mesh)
        ensures
            r.surfaces@.len() == 0,
    {
        Mesh { surfaces: Vec::new() }
    }

    /// Replaces the mesh's surfaces with one untextured unit cube whose
    /// geometry is spawned into the shared data pool.
    pub fn make_cube(&mut self, data: &mut Pool<SurfaceSharedData>)
        requires
            old(data).wf(),
        ensures
            final(data).wf(),
            final(self).surfaces@.len() == 1,
            final(self).surfaces@[0].texture is None,
            final(data).is_live(final(self).surfaces@[0].data),
            exists|v: SurfaceSharedData|
                #[trigger] Pool::spawn_post(
                    *old(data),
                    *final(data),
                    final(self).surfaces@[0].data,
                    v,
                ) && is_cube_data(v),
    {
        self.surfaces.clear();
        let cube = SurfaceSharedData::make_cube();
        let handle = data.spawn(cube);
        self.surfaces.push(Surface::new(handle));
    }

    /// Points every surface of the mesh at the texture resource `tex`; a
    /// handle that does not resolve to a texture detaches instead, exactly
    /// as `Surface::set_texture` does.
    pub fn apply_texture(&mut self, tex: Handle, resources: &Pool<Resource>)
        ensures
            final(self).surfaces@.len() == old(self).surfaces@.len(),
            forall|i: int|
                0 <= i < old(self).surfaces@.len() ==> {
                    &&& (#[trigger] final(self).surfaces@[i]).data == old(self).surfaces@[i].data
                    &&& final(self).surfaces@[i].texture == (match resources.spec_borrow(tex) {
                        Some(res) => if res.spec_kind() is Texture {
                            Some(tex)
                        } else {
                            None
                        },
                        None => None::<Handle>,
                    })
                },
    {
        let n = self.surfaces.len();
        let mut i: usize = 0;
        while i < n
            invariant
                n == self.surfaces@.len(),
                i <= n,
                self.surfaces@.len() == old(self).surfaces@.len(),
                forall|k: int| i <= k < n ==> #[trigger] self.surfaces@[k] == old(self).surfaces@[k],
                forall|k: int|
                    0 <= k < i ==> {
                        &&& (#[trigger] self.surfaces@[k]).data == old(self).surfaces@[k].data
                        &&& self.surfaces@[k].texture == (match resources.spec_borrow(tex) {
                            Some(res) => if res.spec_kind() is Texture {
                                Some(tex)
                            } else {
                                None
                            },
                            None => None::<Handle>,
                        })
                    },
            decreases n - i,
        {
            let surface = &mut self.surfaces[i];
            surface.set_texture(tex, resources);
            i = i + 1;
        }
    }
}

/// What a node is: a plain grouping node, a light, a camera, a mesh, or a
/// user extension carrying an opaque tag that the application interprets.
pub enum NodeKind {
    Base,
    Light(Light),
    Camera(Camera),
    Mesh(Mesh),
    Custom(u64),
}

/// The decomposed local transform of a node, as one value: position, scale,
/// the primary rotation, and the legacy pre/post rotations and pivot/offset
/// rotations of the interchange format.
#[derive(Clone, Copy, PartialEq, Eq, Structural, Debug)]
pub struct TransformComponents {
    pub position: Vec3,
    pub scale: Vec3,
    pub rotation: Quat,
    pub pre_rotation: Quat,
    pub post_rotation: Quat,
    pub rotation_offset: Quat,
    pub rotation_pivot: Quat,
    pub scaling_offset: Quat,
    pub scaling_pivot: Quat,
}

/// The default components: everything at identity.
pub open spec fn default_components() -> TransformComponents {
    TransformComponents {
        position: vec3s_zero(),
        scale: vec3s_one(),
        rotation: quats_identity(),
        pre_rotation: quats_identity(),
        post_rotation: quats_identity(),
        rotation_offset: quats_identity(),
        rotation_pivot: quats_identity(),
        scaling_offset: quats_identity(),
        scaling_pivot: quats_identity(),
    }
}

/// The local transform composed from decomposed components:
/// `T * Ro * Rp * Rpre * R * Rpost^-1 * Rp^-1 * So * Sp * S * Sp^-1`,
/// left to right, with every inverse taken as the conjugate rotation.
#[verifier::opaque]
pub open spec fn composed_of(c: TransformComponents) -> Mat4 {
    let t = mats_translation(c.position);
    let ro = mats_from_quat(c.rotation_offset);
    let rp = mats_from_quat(c.rotation_pivot);
    let rpre = mats_from_quat(c.pre_rotation);
    let r = mats_from_quat(c.rotation);
    let rpost_inv = mats_from_quat(quats_conjugate(c.post_rotation));
    let rp_inv = mats_from_quat(quats_conjugate(c.rotation_pivot));
    let so = mats_from_quat(c.scaling_offset);
    let sp = mats_from_quat(c.scaling_pivot);
    let s = mats_scaling(c.scale);
    let sp_inv = mats_from_quat(quats_conjugate(c.scaling_pivot));
    mats_mul(
        mats_mul(
            mats_mul(
                mats_mul(
                    mats_mul(
                        mats_mul(mats_mul(mats_mul(mats_mul(mats_mul(t, ro), rp), rpre), r), rpost_inv),
                        rp_inv,
                    ),
                    so,
                ),
                sp,
            ),
            s,
        ),
        sp_inv,
    )
}

/// A node of a scene graph.
#[verifier::ext_equal]
pub struct Node {
    pub name: String,
    pub kind: NodeKind,
    pub local_scale: Vec3,
    pub local_position: Vec3,
    pub local_rotation: Quat,
    pub pre_rotation: Quat,
    pub post_rotation: Quat,
    pub rotation_offset: Quat,
    pub rotation_pivot: Quat,
    pub scaling_offset: Quat,
    pub scaling_pivot: Quat,
    pub parent: Handle,
    pub children: Vec<Handle>,
    pub local_transform: Mat4,
    pub global_transform: Mat4,
}

impl Node {
    /// The node's parent link (`Handle::none()` at a root).
    pub open spec fn spec_parent(self) -> Handle {
        self.parent
    }

    /// The node's children links, in insertion order.
    pub open spec fn spec_children(self) -> Seq<Handle> {
        self.children@
    }

    /// The node's decomposed transform components as one value.
    pub open spec fn components(self) -> TransformComponents {
        TransformComponents {
            position: self.local_position,
            scale: self.local_scale,
            rotation: self.local_rotation,
            pre_rotation: self.pre_rotation,
            post_rotation: self.post_rotation,
            rotation_offset: self.rotation_offset,
            rotation_pivot: self.rotation_pivot,
            scaling_offset: self.scaling_offset,
            scaling_pivot: self.scaling_pivot,
        }
    }

    pub fn parent_handle(&self) -> (r: Handle)
        ensures
            r == self.spec_parent(),
    {
        self.parent
    }

    pub fn child_handles(&self) -> (r: &Vec<Handle>)
        ensures
            r@ == self.spec_children(),
    {
        &self.children
    }

    /// A fresh unlinked node of the given kind, named "Node", with every
    /// component and both cached transforms at identity.
    pub fn new(kind: NodeKind) -> (r: Node)
        ensures
            r.name@ == "Node"@,
            r.kind == kind,
            r.components() == default_components(),
            r.spec_parent() == Handle::spec_none(),
            r.spec_children().len() == 0,
            r.local_transform == mats_identity(),
            r.global_transform == mats_identity(),
    {
        Node {
            kind,
            name: "Node".to_owned(),
            children: Vec::new(),
            parent: Handle::none(),
            local_position: vec3_zero(),
            local_scale: vec3_one(),
            local_rotation: quat_identity(),
            pre_rotation: quat_identity(),
            post_rotation: quat_identity(),
            rotation_offset: quat_identity(),
            rotation_pivot: quat_identity(),
            scaling_offset: quat_identity(),
            scaling_pivot: quat_identity(),
            local_transform: mat_identity(),
            global_transform: mat_identity(),
        }
    }

    /// Recomputes the cached local transform from the decomposed
    /// components; nothing else changes.
    pub fn calculate_local_transform(&mut self)
        ensures
            final(self).local_transform == composed_of(old(self).components()),
            final(self).components() == old(self).components(),
            final(self).name == old(self).name,
            final(self).kind == old(self).kind,
            final(self).parent == old(self).parent,
            final(self).children == old(self).children,
            final(self).global_transform == old(self).global_transform,
    {
        proof {
            reveal(composed_of);
        }
        let t = mat_translation(self.local_position);
        let ro = mat_from_quat(self.rotation_offset);
        let rp = mat_from_quat(self.rotation_pivot);
        let rpre = mat_from_quat(self.pre_rotation);
        let r = mat_from_quat(self.local_rotation);
        let rpost_inv = mat_from_quat(quat_conjugate(self.post_rotation));
        let rp_inv = mat_from_quat(quat_conjugate(self.rotation_pivot));
        let so = mat_from_quat(self.scaling_offset);
        let sp = mat_from_quat(self.scaling_pivot);
        let s = mat_scaling(self.local_scale);
        let sp_inv = mat_from_quat(quat_conjugate(self.scaling_pivot));
        let mut acc = mat_mul(&t, &ro);
        acc = mat_mul(&acc, &rp);
        acc = mat_mul(&acc, &rpre);
        acc = mat_mul(&acc, &r);
        acc = mat_mul(&acc, &rpost_inv);
        acc = mat_mul(&acc, &rp_inv);
        acc = mat_mul(&acc, &so);
        acc = mat_mul(&acc, &sp);
        acc = mat_mul(&acc, &s);
        acc = mat_mul(&acc, &sp_inv);
        self.local_transform = acc;
    }

    pub fn borrow_kind(&self) -> (r: &NodeKind)
        ensures
            *r == self.kind,
    {
        &self.kind
    }

    pub fn borrow_kind_mut(&mut self) -> (r: &mut NodeKind)
        ensures
            *r == old(self).kind,
            final(self).kind == *final(r),
            final(self).components() == old(self).components(),
            final(self).name == old(self).name,
            final(self).parent == old(self).parent,
            final(self).children == old(self).children,
            final(self).local_transform == old(self).local_transform,
            final(self).global_transform == old(self).global_transform,
    {
        &mut self.kind
    }

    pub fn set_local_position(&mut self, pos: Vec3)
        ensures
            final(self).components() == (TransformComponents {
                position: pos,
                ..old(self).components()
            }),
            Self::same_but_components(*old(self), *final(self)),
    {
        self.local_position = pos;
    }

    pub fn set_local_rotation(&mut self, rot: Quat)
        ensures
            final(self).components() == (TransformComponents {
                rotation: rot,
                ..old(self).components()
            }),
            Self::same_but_components(*old(self), *final(self)),
    {
        self.local_rotation = rot;
    }

    pub fn set_local_scale(&mut self, scl: Vec3)
        ensures
            final(self).components() == (TransformComponents {
                scale: scl,
                ..old(self).components()
            }),
            Self::same_but_components(*old(self), *final(self)),
    {
        self.local_scale = scl;
    }

    /// Moves the node by `vec` (a saturated vector addition).
    pub fn offset(&mut self, vec: Vec3)
        ensures
            final(self).components() == (TransformComponents {
                position: vec3s_add(old(self).components().position, vec),
                ..old(self).components()
            }),
            Self::same_but_components(*old(self), *final(self)),
    {
        self.local_position = vec3_add(self.local_position, vec);
    }

    pub fn set_name(&mut self, name: &str)
        ensures
            final(self).name@ == name@,
            final(self).components() == old(self).components(),
            Self::same_but_components(*old(self), *final(self)),
            final(self).name@ == name@,
    {
        self.name = name.to_owned();
    }

    /// Everything except the transform components and the name is equal:
    /// kind, links and cached transforms.
    pub open spec fn same_but_components(pre: Node, post: Node) -> bool {
        &&& post.kind == pre.kind
        &&& post.parent == pre.parent
        &&& post.children == pre.children
        &&& post.local_transform == pre.local_transform
        &&& post.global_transform == pre.global_transform
    }

    /// The node's position in world space: the translation column of the
    /// global transform.
    pub open spec fn spec_global_position(self) -> Vec3 {
        Vec3 { x: self.global_transform.m03, y: self.global_transform.m13, z: self.global_transform.m23 }
    }

    pub fn get_global_position(&self) -> (r: Vec3)
        ensures
            r == self.spec_global_position(),
    {
        vec3_new(self.global_transform.m03, self.global_transform.m13, self.global_transform.m23)
    }

    /// The world-space direction the node faces: the third basis column.
    pub open spec fn spec_look_vector(self) -> Vec3 {
        Vec3 { x: self.global_transform.m02, y: self.global_transform.m12, z: self.global_transform.m22 }
    }

    pub fn get_look_vector(&self) -> (r: Vec3)
        ensures
            r == self.spec_look_vector(),
    {
        vec3_new(self.global_transform.m02, self.global_transform.m12, self.global_transform.m22)
    }

    /// The world-space sideways direction: the first basis column.
    pub open spec fn spec_side_vector(self) -> Vec3 {
        Vec3 { x: self.global_transform.m00, y: self.global_transform.m10, z: self.global_transform.m20 }
    }

    pub fn get_side_vector(&self) -> (r: Vec3)
        ensures
            r == self.spec_side_vector(),
    {
        vec3_new(self.global_transform.m00, self.global_transform.m10, self.global_transform.m20)
    }

    /// The world-space upward direction: the second basis column.
    pub open spec fn spec_up_vector(self) -> Vec3 {
        Vec3 { x: self.global_transform.m01, y: self.global_transform.m11, z: self.global_transform.m21 }
    }

    pub fn get_up_vector(&self) -> (r: Vec3)
        ensures
            r == self.spec_up_vector(),
    {
        vec3_new(self.global_transform.m01, self.global_transform.m11, self.global_transform.m21)
    }
}

/// With every rotation at identity and unit scale, the composition formula
/// collapses to a pure translation by the position component.
pub proof fn lemma_translation_only_components(c: TransformComponents)
    requires
        c.scale == vec3s_one(),
        c.rotation == quats_identity(),
        c.pre_rotation == quats_identity(),
        c.post_rotation == quats_identity(),
        c.rotation_offset == quats_identity(),
        c.rotation_pivot == quats_identity(),
        c.scaling_offset == quats_identity(),
        c.scaling_pivot == quats_identity(),
    ensures
        composed_of(c) == mats_translation(c.position),
{
    reveal(composed_of);
    assert(mats_scaling(vec3s_one()) == mats_identity());
    assert(quats_conjugate(quats_identity()) == quats_identity());
    assert(mats_from_quat(quats_identity()) == mats_identity());
    lemma_mat_mul_identity(mats_translation(c.position));
}

/// A node whose components all sit at identity composes to the identity
/// local transform: the formula collapses completely.
pub proof fn lemma_default_components_compose_to_identity()
    ensures
        composed_of(default_components()) == mats_identity(),
{
    reveal(composed_of);
    assert(mats_translation(vec3s_zero()) == mats_identity());
    assert(mats_scaling(vec3s_one()) == mats_identity());
    assert(quats_conjugate(quats_identity()) == quats_identity());
    assert(mats_from_quat(quats_identity()) == mats_identity());
    lemma_mat_mul_identity(mats_identity());
}

} // verus!
