//! The renderer front-end: a per-frame traversal that classifies the nodes
//! of a scene into camera/light/mesh buckets and turns them into a flat list
//! of GPU commands — bind, viewport, lazy geometry uploads and draws with a
//! precomputed model-view-projection matrix. Submitting the commands to a
//! real GPU context is the executor's job outside this crate.

use vstd::prelude::*;
use crate::math::{Mat4, Rect, Vec2};
use crate::node::{Node, NodeKind};
use crate::pool::{Handle, Pool, Slot, slot_generation, slot_payload};
use crate::scene::{Scene, lemma_reachable_in_done, lemma_update_iteration};
use crate::surface::{Surface, SurfaceSharedData};

verus! {

/// One GPU-facing command of a frame plan, in submission order.
pub enum RenderCmd {
    /// Bind the engine's one program (once per scene).
    BindProgram,
    /// Set the pixel viewport for the draws that follow.
    SetViewport { rect: Rect<i32> },
    /// Synchronize the geometry behind `data` to the GPU before drawing it.
    UploadGeometry { data: Handle },
    /// Draw the geometry behind `data`, textured by the resource behind
    /// `texture` if any, under the given model-view-projection matrix.
    Draw { data: Handle, texture: Option<Handle>, mvp: Mat4 },
}

/// The draw command of one surface under one combined matrix.
pub open spec fn surface_draw(s: Surface, mvp: Mat4) -> RenderCmd {
    RenderCmd::Draw { data: s.data, texture: s.texture, mvp }
}

/// The plan still sees the geometry behind `s` as dirty: its upload flag
/// was set when the pass began and no earlier command of the plan has
/// uploaded it yet.
pub open spec fn still_dirty(data: Pool<SurfaceSharedData>, cleaned: Set<int>, s: Surface) -> bool {
    &&& data.is_live(s.data)
    &&& slot_payload(data@[s.data.index as int]).need_upload
    &&& !cleaned.contains(s.data.index as int)
}

/// One surface's commands: a lazy upload when its geometry is still dirty,
/// then one draw under `mvp`.
pub open spec fn surface_cmds(
    data: Pool<SurfaceSharedData>,
    cleaned: Set<int>,
    s: Surface,
    mvp: Mat4,
) -> Seq<RenderCmd> {
    if still_dirty(data, cleaned, s) {
        seq![RenderCmd::UploadGeometry { data: s.data }, surface_draw(s, mvp)]
    } else {
        seq![surface_draw(s, mvp)]
    }
}

/// The cleaned set after one surface: its geometry joins when it was dirty.
pub open spec fn surface_cleaned(
    data: Pool<SurfaceSharedData>,
    cleaned: Set<int>,
    s: Surface,
) -> Set<int> {
    if still_dirty(data, cleaned, s) {
        cleaned.insert(s.data.index as int)
    } else {
        cleaned
    }
}

/// The commands of the surfaces from position `i` on, in order, threading
/// the cleaned set so shared geometry uploads only once.
pub open spec fn surfaces_cmds(
    data: Pool<SurfaceSharedData>,
    cleaned: Set<int>,
    surfaces: Seq<Surface>,
    mvp: Mat4,
    i: int,
) -> Seq<RenderCmd>
    decreases surfaces.len() - i,
{
    if i < 0 || i >= surfaces.len() {
        Seq::empty()
    } else {
        surface_cmds(data, cleaned, surfaces[i], mvp) + surfaces_cmds(
            data,
            surface_cleaned(data, cleaned, surfaces[i]),
            surfaces,
            mvp,
            i + 1,
        )
    }
}

/// The cleaned set after the surfaces from position `i` on.
pub open spec fn surfaces_cleaned(
    data: Pool<SurfaceSharedData>,
    cleaned: Set<int>,
    surfaces: Seq<Surface>,
    i: int,
) -> Set<int>
    decreases surfaces.len() - i,
{
    if i < 0 || i >= surfaces.len() {
        cleaned
    } else {
        surfaces_cleaned(data, surface_cleaned(data, cleaned, surfaces[i]), surfaces, i + 1)
    }
}

/// The surfaces a mesh-kind node draws; any other kind draws none.
pub open spec fn mesh_surfaces(scene: Scene, mh: Handle) -> Seq<Surface> {
    match scene.node_at(mh.index as int).kind {
        NodeKind::Mesh(m) => m.surfaces@,
        _ => Seq::empty(),
    }
}

/// The pixel viewport of a camera-kind node (any other kind has none; the
/// classification never hands one over).
pub open spec fn camera_viewport(scene: Scene, ch: Handle, client: Vec2) -> Rect<i32> {
    match scene.node_at(ch.index as int).kind {
        NodeKind::Camera(c) => c.spec_viewport_pixels(client),
        _ => Rect { x: 0, y: 0, width: 0, height: 0 },
    }
}

/// The view-projection matrix of a camera-kind node.
pub open spec fn camera_vp(scene: Scene, ch: Handle) -> Mat4 {
    match scene.node_at(ch.index as int).kind {
        NodeKind::Camera(c) => crate::math::mats_mul(c.projection_matrix, c.view_matrix),
        _ => crate::math::mats_identity(),
    }
}

/// One camera's draws of the mesh bucket from position `i` on: per mesh one
/// surface pass under `vp * mesh.global_transform`.
pub open spec fn meshes_cmds(
    scene: Scene,
    data: Pool<SurfaceSharedData>,
    cleaned: Set<int>,
    vp: Mat4,
    meshes: Seq<Handle>,
    i: int,
) -> Seq<RenderCmd>
    decreases meshes.len() - i,
{
    if i < 0 || i >= meshes.len() {
        Seq::empty()
    } else {
        let mvp = crate::math::mats_mul(
            vp,
            scene.node_at(meshes[i].index as int).global_transform,
        );
        surfaces_cmds(data, cleaned, mesh_surfaces(scene, meshes[i]), mvp, 0) + meshes_cmds(
            scene,
            data,
            surfaces_cleaned(data, cleaned, mesh_surfaces(scene, meshes[i]), 0),
            vp,
            meshes,
            i + 1,
        )
    }
}

/// The cleaned set after one camera's pass over the mesh bucket.
pub open spec fn meshes_cleaned(
    scene: Scene,
    data: Pool<SurfaceSharedData>,
    cleaned: Set<int>,
    meshes: Seq<Handle>,
    i: int,
) -> Set<int>
    decreases meshes.len() - i,
{
    if i < 0 || i >= meshes.len() {
        cleaned
    } else {
        meshes_cleaned(
            scene,
            data,
            surfaces_cleaned(data, cleaned, mesh_surfaces(scene, meshes[i]), 0),
            meshes,
            i + 1,
        )
    }
}

/// The camera blocks from position `i` on: each camera sets its pixel
/// viewport and then draws every mesh of the bucket.
pub open spec fn cameras_cmds(
    scene: Scene,
    data: Pool<SurfaceSharedData>,
    cleaned: Set<int>,
    client: Vec2,
    cameras: Seq<Handle>,
    meshes: Seq<Handle>,
    i: int,
) -> Seq<RenderCmd>
    decreases cameras.len() - i,
{
    if i < 0 || i >= cameras.len() {
        Seq::empty()
    } else {
        seq![RenderCmd::SetViewport { rect: camera_viewport(scene, cameras[i], client) }]
            + meshes_cmds(scene, data, cleaned, camera_vp(scene, cameras[i]), meshes, 0)
            + cameras_cmds(
            scene,
            data,
            meshes_cleaned(scene, data, cleaned, meshes, 0),
            client,
            cameras,
            meshes,
            i + 1,
        )
    }
}

/// The cleaned set after the camera blocks from position `i` on.
pub open spec fn cameras_cleaned(
    scene: Scene,
    data: Pool<SurfaceSharedData>,
    cleaned: Set<int>,
    cameras: Seq<Handle>,
    meshes: Seq<Handle>,
    i: int,
) -> Set<int>
    decreases cameras.len() - i,
{
    if i < 0 || i >= cameras.len() {
        cleaned
    } else {
        cameras_cleaned(
            scene,
            data,
            meshes_cleaned(scene, data, cleaned, meshes, 0),
            cameras,
            meshes,
            i + 1,
        )
    }
}

/// One scene's whole plan, relative to the geometry flags `data` had when
/// the frame's pass began and the geometry already cleaned by earlier
/// scenes: bind the program once, then one block per camera.
pub open spec fn scene_plan_from(
    scene: Scene,
    data: Pool<SurfaceSharedData>,
    cleaned: Set<int>,
    client: Vec2,
    cameras: Seq<Handle>,
    meshes: Seq<Handle>,
) -> Seq<RenderCmd> {
    seq![RenderCmd::BindProgram] + cameras_cmds(scene, data, cleaned, client, cameras, meshes, 0)
}

/// `post` is `pre` with the upload flags cleared at exactly the slots of
/// `cleared`; generations, occupancy and every other field stay.
pub open spec fn data_cleared_by(
    pre: Pool<SurfaceSharedData>,
    post: Pool<SurfaceSharedData>,
    cleared: Set<int>,
) -> bool {
    &&& post@.len() == pre@.len()
    &&& forall|j: int|
        0 <= j < pre@.len() ==> #[trigger] post@[j] == if cleared.contains(j)
            && pre@[j] is Occupied {
            Slot::Occupied {
                generation: slot_generation(pre@[j]),
                payload: (SurfaceSharedData { need_upload: false, ..slot_payload(pre@[j]) }),
            }
        } else {
            pre@[j]
        }
}

/// Clearing flags is a payload step that keeps every geometry array.
pub proof fn lemma_cleared_by_keeps_geometry(
    pre: Pool<SurfaceSharedData>,
    post: Pool<SurfaceSharedData>,
    cleared: Set<int>,
)
    requires
        data_cleared_by(pre, post, cleared),
    ensures
        Pool::payload_step(pre, post),
        geometry_kept(pre, post),
{
    assert(forall|j: int|
        0 <= j < pre@.len() ==> slot_generation(#[trigger] post@[j]) == slot_generation(pre@[j])
            && ((post@[j] is Occupied) <==> (pre@[j] is Occupied)));
}

/// The renderer's reusable per-frame scratch: the classification buckets and
/// the traversal stack, all kept allocated between frames.
pub struct Renderer {
    pub cameras: Vec<Handle>,
    pub lights: Vec<Handle>,
    pub meshes: Vec<Handle>,
    pub traversal_stack: Vec<Handle>,
}

impl Renderer {
    pub fn new() -> (r: Renderer)
        ensures
            r.cameras@.len() == 0,
            r.lights@.len() == 0,
            r.meshes@.len() == 0,
            r.traversal_stack@.len() == 0,
    {
        Renderer {
            cameras: Vec::new(),
            lights: Vec::new(),
            meshes: Vec::new(),
            traversal_stack: Vec::new(),
        }
    }

    /// A bucket holds live handles of one node kind, all reachable from the
    /// scene's root.
    pub open spec fn bucket_sound(scene: Scene, bucket: Seq<Handle>, kind: int) -> bool {
        forall|k: int|
            0 <= k < bucket.len() ==> {
                let h = #[trigger] bucket[k];
                &&& scene.nodes.is_live(h)
                &&& (exists|f: nat| scene.reachable(h, f))
                &&& Self::kind_matches(scene.node_at(h.index as int).kind, kind)
            }
    }

    /// No handle occurs twice in the sequence.
    pub open spec fn distinct_handles(s: Seq<Handle>) -> bool {
        forall|k1: int, k2: int| 0 <= k1 < k2 < s.len() ==> s[k1] != s[k2]
    }

    /// Kind selector: 0 cameras, 1 lights, 2 meshes.
    pub open spec fn kind_matches(kind: NodeKind, selector: int) -> bool {
        match kind {
            NodeKind::Camera(_) => selector == 0,
            NodeKind::Light(_) => selector == 1,
            NodeKind::Mesh(_) => selector == 2,
            _ => false,
        }
    }

    /// Clears the buckets and refills them by an iterative pre-order
    /// traversal of the scene from its root: every reachable camera, light
    /// and mesh lands in its bucket (exactly the reachable ones; sibling
    /// order is the stack order and deliberately unspecified).
    #[verifier::rlimit(100)]
    #[verifier::spinoff_prover]
    pub fn classify(&mut self, scene: &Scene)
        requires
            scene.wf(),
        ensures
            final(self).traversal_stack@.len() == 0,
            Self::bucket_sound(*scene, final(self).cameras@, 0),
            Self::bucket_sound(*scene, final(self).lights@, 1),
            Self::bucket_sound(*scene, final(self).meshes@, 2),
            Self::distinct_handles(final(self).cameras@),
            Self::distinct_handles(final(self).lights@),
            Self::distinct_handles(final(self).meshes@),
            forall|h: Handle, f: nat|
                #[trigger] scene.reachable(h, f) && scene.nodes.is_live(h) ==> {
                    let post = *final(self);
                    &&& (scene.node_at(h.index as int).kind is Camera ==> post.cameras@.contains(h))
                    &&& (scene.node_at(h.index as int).kind is Light ==> post.lights@.contains(h))
                    &&& (scene.node_at(h.index as int).kind is Mesh ==> post.meshes@.contains(h))
                },
    {
        proof {
            scene.nodes.lemma_wf_len_bound();
        }
        let ghost pre = *scene;
        let ghost mut done: Set<int> = Set::empty();
        self.cameras.clear();
        self.lights.clear();
        self.meshes.clear();
        self.traversal_stack.clear();
        self.traversal_stack.push(scene.root);
        proof {
            assert(pre.reachable(pre.root, 0));
            assert(self.traversal_stack@[0] == pre.root);
            assert(self.traversal_stack@.contains(pre.root));
        }
        loop
            invariant
                pre.wf(),
                pre == *scene,
                pre.nodes@.len() <= usize::MAX,
                Self::bucket_sound(pre, self.cameras@, 0),
                Self::bucket_sound(pre, self.lights@, 1),
                Self::bucket_sound(pre, self.meshes@, 2),
                Self::distinct_handles(self.cameras@),
                Self::distinct_handles(self.lights@),
                Self::distinct_handles(self.meshes@),
                forall|k: int|
                    0 <= k < self.cameras@.len() ==> done.contains(
                        (#[trigger] self.cameras@[k]).index as int,
                    ),
                forall|k: int|
                    0 <= k < self.lights@.len() ==> done.contains(
                        (#[trigger] self.lights@[k]).index as int,
                    ),
                forall|k: int|
                    0 <= k < self.meshes@.len() ==> done.contains(
                        (#[trigger] self.meshes@[k]).index as int,
                    ),
                forall|j: int|
                    #[trigger] done.contains(j) ==> pre.live_at(j) && (exists|f: nat|
                        pre.reachable(pre.handle_of(j), f)),
                forall|j: int|
                    #[trigger] done.contains(j) ==> {
                        &&& (pre.node_at(j).kind is Camera ==> self.cameras@.contains(
                            pre.handle_of(j),
                        ))
                        &&& (pre.node_at(j).kind is Light ==> self.lights@.contains(
                            pre.handle_of(j),
                        ))
                        &&& (pre.node_at(j).kind is Mesh ==> self.meshes@.contains(
                            pre.handle_of(j),
                        ))
                    },
                forall|k: int|
                    0 <= k < self.traversal_stack@.len() ==> {
                        let h = #[trigger] self.traversal_stack@[k];
                        &&& pre.nodes.is_live(h)
                        &&& (exists|f: nat| pre.reachable(h, f))
                        &&& (h == pre.root || (pre.nodes.is_live(
                            pre.node_at(h.index as int).parent,
                        ) && done.contains(pre.node_at(h.index as int).parent.index as int)))
                    },
                forall|j: int, k: int|
                    #![trigger done.contains(j), pre.node_at(j).children@[k]]
                    done.contains(j) && 0 <= k < pre.node_at(j).children@.len() ==> {
                        let c = pre.node_at(j).children@[k];
                        done.contains(c.index as int) || self.traversal_stack@.contains(c)
                    },
                done.contains(pre.root.index as int) || self.traversal_stack@.contains(pre.root),
                done.finite(),
                done.len() <= pre.nodes@.len(),
                forall|k1: int, k2: int|
                    0 <= k1 < k2 < self.traversal_stack@.len() ==> (
                    #[trigger] self.traversal_stack@[k1]).index != (
                    #[trigger] self.traversal_stack@[k2]).index,
                forall|k: int|
                    0 <= k < self.traversal_stack@.len() ==> !done.contains(
                        (#[trigger] self.traversal_stack@[k]).index as int,
                    ),
                forall|j: int|
                    #[trigger] done.contains(j) ==> (pre.handle_of(j) == pre.root || (
                    pre.nodes.is_live(pre.node_at(j).parent) && done.contains(
                        pre.node_at(j).parent.index as int,
                    ))),
            ensures
                self.traversal_stack@.len() == 0,
                done.contains(pre.root.index as int),
                forall|j: int, k: int|
                    #![trigger done.contains(j), pre.node_at(j).children@[k]]
                    done.contains(j) && 0 <= k < pre.node_at(j).children@.len() ==> done.contains(
                        pre.node_at(j).children@[k].index as int,
                    ),
                forall|j: int|
                    #[trigger] done.contains(j) ==> pre.live_at(j),
                forall|j: int|
                    #[trigger] done.contains(j) ==> {
                        &&& (pre.node_at(j).kind is Camera ==> self.cameras@.contains(
                            pre.handle_of(j),
                        ))
                        &&& (pre.node_at(j).kind is Light ==> self.lights@.contains(
                            pre.handle_of(j),
                        ))
                        &&& (pre.node_at(j).kind is Mesh ==> self.meshes@.contains(
                            pre.handle_of(j),
                        ))
                    },
                Self::bucket_sound(pre, self.cameras@, 0),
                Self::bucket_sound(pre, self.lights@, 1),
                Self::bucket_sound(pre, self.meshes@, 2),
            decreases pre.nodes@.len() - done.len(),
        {
            if self.traversal_stack.len() == 0 {
                break ;
            }
            let ghost stack_head = self.traversal_stack@;
            let handle = match self.traversal_stack.pop() {
                Some(h) => h,
                None => {
                    proof {
                        assert(false);
                    }
                    Handle::none()
                },
            };
            let ghost popped_stack = self.traversal_stack@;
            proof {
                assert(popped_stack.push(handle) =~= stack_head);
            }
            let ghost hi = handle.index as int;
            let ghost cams_pre = self.cameras@;
            let ghost lights_pre = self.lights@;
            let ghost meshes_pre = self.meshes@;
            let node = match scene.nodes.borrow(handle) {
                Some(n) => n,
                None => {
                    proof {
                        assert(false);
                    }
                    vstd::pervasive::unreached()
                },
            };
            match &node.kind {
                NodeKind::Mesh(_) => self.meshes.push(handle),
                NodeKind::Light(_) => self.lights.push(handle),
                NodeKind::Camera(_) => self.cameras.push(handle),
                _ => (),
            }
            let ghost done0 = done;
            proof {
                done = done.insert(hi);
                assert(pre.handle_of(hi) == handle);
            }
            let n_children = node.children.len();
            let ghost stack_snap = self.traversal_stack@;
            let ghost cams0 = self.cameras@;
            let ghost lights0 = self.lights@;
            let ghost meshes0 = self.meshes@;
            let mut ci: usize = 0;
            while ci < n_children
                invariant
                    n_children == pre.node_at(hi).children@.len(),
                    node == pre.node_at(hi),
                    ci <= n_children,
                    self.traversal_stack@ == stack_snap + pre.node_at(hi).children@.subrange(
                        0,
                        ci as int,
                    ),
                    self.cameras@ == cams0,
                    self.lights@ == lights0,
                    self.meshes@ == meshes0,
                decreases n_children - ci,
            {
                let c = node.children[ci];
                self.traversal_stack.push(c);
                proof {
                    assert(self.traversal_stack@ =~= stack_snap + pre.node_at(
                        hi,
                    ).children@.subrange(0, ci as int + 1));
                }
                ci = ci + 1;
            }
            proof {
                assert(self.traversal_stack@ == stack_snap + pre.node_at(hi).children@.subrange(
                    0,
                    n_children as int,
                ));
                assert(pre.node_at(hi).children@.subrange(0, n_children as int) =~= pre.node_at(
                    hi,
                ).children@);
                lemma_update_iteration(pre, self.traversal_stack@, done0, handle, popped_stack, 0);
                assert(done == done0.insert(hi));
                assert(!done0.contains(hi));
                // a bucket grew by at most the one handle of a fresh index,
                // so its entries stay distinct and keep indexing `done`
                assert(self.cameras@ == cams_pre || self.cameras@ == cams_pre.push(handle));
                assert(self.lights@ == lights_pre || self.lights@ == lights_pre.push(handle));
                assert(self.meshes@ == meshes_pre || self.meshes@ == meshes_pre.push(handle));
                lemma_bucket_grow(cams_pre, self.cameras@, handle, done0, hi);
                lemma_bucket_grow(lights_pre, self.lights@, handle, done0, hi);
                lemma_bucket_grow(meshes_pre, self.meshes@, handle, done0, hi);
                // old bucket members survive the push; the processed node's
                // own handle is the pushed last element
                assert forall|j: int| done.contains(j) implies {
                    &&& (pre.node_at(j).kind is Camera ==> self.cameras@.contains(
                        pre.handle_of(j),
                    ))
                    &&& (pre.node_at(j).kind is Light ==> self.lights@.contains(pre.handle_of(j)))
                    &&& (pre.node_at(j).kind is Mesh ==> self.meshes@.contains(pre.handle_of(j)))
                } by {
                    if j == hi {
                        if pre.node_at(hi).kind is Camera {
                            assert(self.cameras@.last() == handle);
                        }
                        if pre.node_at(hi).kind is Light {
                            assert(self.lights@.last() == handle);
                        }
                        if pre.node_at(hi).kind is Mesh {
                            assert(self.meshes@.last() == handle);
                        }
                    } else {
                        if pre.node_at(j).kind is Camera {
                            let k = choose|k: int|
                                0 <= k < cams_pre.len() && cams_pre[k] == pre.handle_of(j);
                            assert(self.cameras@[k] == pre.handle_of(j));
                        }
                        if pre.node_at(j).kind is Light {
                            let k = choose|k: int|
                                0 <= k < lights_pre.len() && lights_pre[k] == pre.handle_of(j);
                            assert(self.lights@[k] == pre.handle_of(j));
                        }
                        if pre.node_at(j).kind is Mesh {
                            let k = choose|k: int|
                                0 <= k < meshes_pre.len() && meshes_pre[k] == pre.handle_of(j);
                            assert(self.meshes@[k] == pre.handle_of(j));
                        }
                    }
                }
            }
        }
        proof {
            assert forall|h: Handle, f: nat|
                #[trigger] pre.reachable(h, f) && pre.nodes.is_live(h) implies done.contains(
                h.index as int,
            ) by {
                lemma_reachable_in_done(pre, done, h, f);
            }
            assert forall|h: Handle, f: nat|
                #[trigger] pre.reachable(h, f) && pre.nodes.is_live(h) implies {
                &&& (pre.node_at(h.index as int).kind is Camera ==> self.cameras@.contains(h))
                &&& (pre.node_at(h.index as int).kind is Light ==> self.lights@.contains(h))
                &&& (pre.node_at(h.index as int).kind is Mesh ==> self.meshes@.contains(h))
            } by {
                assert(done.contains(h.index as int));
                assert(pre.handle_of(h.index as int) == h);
            }
        }
    }

    /// Appends to `out` exactly one draw command for every surface of
    /// `mesh_node` in order, each under `mvp` and preceded by an upload
    /// command when its geometry is still dirty (whose flag this clears).
    /// `data0` and `cleaned` are the frame pass's reference state: the
    /// geometry pool as the pass found it and the slots already uploaded by
    /// earlier commands of the plan.
    pub fn emit_mesh_draws(
        mesh_node: &Node,
        mvp: Mat4,
        data: &mut Pool<SurfaceSharedData>,
        out: &mut Vec<RenderCmd>,
        Ghost(data0): Ghost<Pool<SurfaceSharedData>>,
        Ghost(cleaned): Ghost<Set<int>>,
    ) -> (new_cleaned: Ghost<Set<int>>)
        requires
            old(data).wf(),
            data_cleared_by(data0, *old(data), cleaned),
        ensures
            final(data).wf(),
            ({
                let surfaces = match mesh_node.kind {
                    NodeKind::Mesh(m) => m.surfaces@,
                    _ => Seq::<Surface>::empty(),
                };
                &&& final(out)@ == old(out)@ + surfaces_cmds(data0, cleaned, surfaces, mvp, 0)
                &&& new_cleaned@ == surfaces_cleaned(data0, cleaned, surfaces, 0)
                &&& data_cleared_by(data0, *final(data), new_cleaned@)
            }),
    {
        let ghost mut cur: Set<int> = cleaned;
        match &mesh_node.kind {
            NodeKind::Mesh(mesh) => {
                let ghost surfaces = mesh.surfaces@;
                let ghost out0 = out@;
                let n = mesh.surfaces.len();
                let mut i: usize = 0;
                while i < n
                    invariant
                        data.wf(),
                        n == surfaces.len(),
                        surfaces == mesh.surfaces@,
                        i <= n,
                        data_cleared_by(data0, *data, cur),
                        out@ + surfaces_cmds(data0, cur, surfaces, mvp, i as int) == out0
                            + surfaces_cmds(data0, cleaned, surfaces, mvp, 0),
                        surfaces_cleaned(data0, cleaned, surfaces, 0) == surfaces_cleaned(
                            data0,
                            cur,
                            surfaces,
                            i as int,
                        ),
                    decreases n - i,
                {
                    let ghost out_iter0 = out@;
                    let ghost data_iter0 = *data;
                    let ghost cur0 = cur;
                    let surface = &mesh.surfaces[i];
                    let needs_upload = match data.borrow(surface.data) {
                        Some(d) => d.need_upload,
                        None => false,
                    };
                    proof {
                        assert(needs_upload == still_dirty(data0, cur, *surface)) by {
                            let idx = surface.data.index as int;
                            if 0 <= idx < data0@.len() {
                                assert(data@[idx] == if cur.contains(idx)
                                    && data0@[idx] is Occupied {
                                    Slot::Occupied {
                                        generation: slot_generation(data0@[idx]),
                                        payload: (SurfaceSharedData {
                                            need_upload: false,
                                            ..slot_payload(data0@[idx])
                                        }),
                                    }
                                } else {
                                    data0@[idx]
                                });
                            }
                        }
                    }
                    if needs_upload {
                        match data.borrow_mut(surface.data) {
                            Some(d) => {
                                d.need_upload = false;
                                out.push(RenderCmd::UploadGeometry { data: surface.data });
                            },
                            None => {
                                proof {
                                    assert(false);
                                }
                            },
                        }
                        proof {
                            cur = cur.insert(surface.data.index as int);
                        }
                    }
                    out.push(
                        RenderCmd::Draw {
                            data: surface.data,
                            texture: surface.texture,
                            mvp,
                        },
                    );
                    proof {
                        assert(cur == surface_cleaned(data0, cur0, surfaces[i as int]));
                        assert(data_cleared_by(data0, *data, cur)) by {
                            assert forall|j: int| 0 <= j < data0@.len() implies #[trigger] data@[j]
                                == if cur.contains(j) && data0@[j] is Occupied {
                                Slot::Occupied {
                                    generation: slot_generation(data0@[j]),
                                    payload: (SurfaceSharedData {
                                        need_upload: false,
                                        ..slot_payload(data0@[j])
                                    }),
                                }
                            } else {
                                data0@[j]
                            } by {
                                if j != surface.data.index as int {
                                    assert(data@[j] == data_iter0@[j]);
                                }
                            }
                        }
                        assert(out@ =~= out_iter0 + surface_cmds(data0, cur0, surfaces[i as int], mvp));
                        assert(out@ + surfaces_cmds(data0, cur, surfaces, mvp, i as int + 1)
                            =~= out_iter0 + surfaces_cmds(data0, cur0, surfaces, mvp, i as int));
                    }
                    i = i + 1;
                }
                proof {
                    assert(surfaces_cmds(data0, cur, surfaces, mvp, n as int)
                        == Seq::<RenderCmd>::empty());
                    assert(out@ =~= out0 + surfaces_cmds(data0, cleaned, surfaces, mvp, 0));
                }
            },
            _ => {
                proof {
                    assert(out@ =~= out@ + Seq::<RenderCmd>::empty());
                }
            },
        }
        Ghost(cur)
    }

    /// One scene's command list, appended to `out`: classify, bind the
    /// program once, then for each camera of the bucket set its pixel
    /// viewport and draw every mesh of the bucket under
    /// `projection * view * global_transform`, uploading dirty geometry at
    /// its first draw. The exact command sequence is `scene_plan_from`,
    /// relative to the pass's reference geometry state (`data0`, `cleaned`).
    #[verifier::rlimit(100)]
    #[verifier::spinoff_prover]
    pub fn render_scene(
        &mut self,
        scene: &Scene,
        data: &mut Pool<SurfaceSharedData>,
        client_size: Vec2,
        out: &mut Vec<RenderCmd>,
        Ghost(data0): Ghost<Pool<SurfaceSharedData>>,
        Ghost(cleaned): Ghost<Set<int>>,
    ) -> (new_cleaned: Ghost<Set<int>>)
        requires
            scene.wf(),
            old(data).wf(),
            data_cleared_by(data0, *old(data), cleaned),
        ensures
            final(data).wf(),
            valid_buckets(*scene, final(self).cameras@, final(self).meshes@),
            Self::bucket_sound(*scene, final(self).lights@, 1),
            Self::distinct_handles(final(self).lights@),
            final(out)@ == old(out)@ + scene_plan_from(
                *scene,
                data0,
                cleaned,
                client_size,
                final(self).cameras@,
                final(self).meshes@,
            ),
            new_cleaned@ == cameras_cleaned(
                *scene,
                data0,
                cleaned,
                final(self).cameras@,
                final(self).meshes@,
                0,
            ),
            data_cleared_by(data0, *final(data), new_cleaned@),
    {
        let ghost scene0 = *scene;
        self.classify(scene);
        let ghost cams = self.cameras@;
        let ghost meshes_b = self.meshes@;
        let ghost lights_b = self.lights@;
        let ghost out0 = out@;
        out.push(RenderCmd::BindProgram);
        let ghost mut cam_cleaned: Set<int> = cleaned;
        proof {
            assert(out@ =~= out0 + seq![RenderCmd::BindProgram]);
            assert(out@ + cameras_cmds(scene0, data0, cam_cleaned, client_size, cams, meshes_b, 0)
                =~= out0 + scene_plan_from(scene0, data0, cleaned, client_size, cams, meshes_b));
        }
        let n_cameras = self.cameras.len();
        let mut c: usize = 0;
        while c < n_cameras
            invariant
                scene0 == *scene,
                scene0.wf(),
                data.wf(),
                n_cameras == cams.len(),
                c <= n_cameras,
                self.cameras@ == cams,
                self.meshes@ == meshes_b,
                self.lights@ == lights_b,
                Self::bucket_sound(scene0, cams, 0),
                Self::bucket_sound(scene0, meshes_b, 2),
                data_cleared_by(data0, *data, cam_cleaned),
                out@ + cameras_cmds(
                    scene0,
                    data0,
                    cam_cleaned,
                    client_size,
                    cams,
                    meshes_b,
                    c as int,
                ) == out0 + scene_plan_from(scene0, data0, cleaned, client_size, cams, meshes_b),
                cameras_cleaned(scene0, data0, cleaned, cams, meshes_b, 0) == cameras_cleaned(
                    scene0,
                    data0,
                    cam_cleaned,
                    cams,
                    meshes_b,
                    c as int,
                ),
            decreases n_cameras - c,
        {
            let ghost out_c0 = out@;
            let ghost cam_cleaned0 = cam_cleaned;
            let camera_handle = self.cameras[c];
            let (viewport, view_projection): (Rect<i32>, Mat4) = match scene.nodes.borrow(
                camera_handle,
            ) {
                Some(camera_node) => {
                    match camera_node.borrow_kind() {
                        NodeKind::Camera(camera) => {
                            (
                                camera.get_viewport_pixels(client_size),
                                camera.get_view_projection_matrix(),
                            )
                        },
                        _ => {
                            proof {
                                assert(false);
                            }
                            (Rect { x: 0, y: 0, width: 0, height: 0 }, crate::math::mat_identity())
                        },
                    }
                },
                None => {
                    proof {
                        assert(false);
                    }
                    (Rect { x: 0, y: 0, width: 0, height: 0 }, crate::math::mat_identity())
                },
            };
            proof {
                assert(viewport == camera_viewport(scene0, cams[c as int], client_size));
                assert(view_projection == camera_vp(scene0, cams[c as int]));
            }
            out.push(RenderCmd::SetViewport { rect: viewport });
            let ghost out_m0 = out@;
            let ghost mut mesh_cleaned: Set<int> = cam_cleaned;
            let n_meshes = self.meshes.len();
            let mut m: usize = 0;
            while m < n_meshes
                invariant
                    scene0 == *scene,
                    scene0.wf(),
                    data.wf(),
                    n_meshes == meshes_b.len(),
                    m <= n_meshes,
                    self.meshes@ == meshes_b,
                    Self::bucket_sound(scene0, meshes_b, 2),
                    data_cleared_by(data0, *data, mesh_cleaned),
                    out@ + meshes_cmds(
                        scene0,
                        data0,
                        mesh_cleaned,
                        view_projection,
                        meshes_b,
                        m as int,
                    ) == out_m0 + meshes_cmds(
                        scene0,
                        data0,
                        cam_cleaned0,
                        view_projection,
                        meshes_b,
                        0,
                    ),
                    meshes_cleaned(scene0, data0, cam_cleaned0, meshes_b, 0) == meshes_cleaned(
                        scene0,
                        data0,
                        mesh_cleaned,
                        meshes_b,
                        m as int,
                    ),
                decreases n_meshes - m,
            {
                let mesh_handle = self.meshes[m];
                match scene.nodes.borrow(mesh_handle) {
                    Some(node) => {
                        let mvp = crate::math::mat_mul(&view_projection, &node.global_transform);
                        let ghost out_before = out@;
                        let ghost mc0 = mesh_cleaned;
                        let stepped = Self::emit_mesh_draws(
                            node,
                            mvp,
                            data,
                            out,
                            Ghost(data0),
                            Ghost(mesh_cleaned),
                        );
                        proof {
                            mesh_cleaned = stepped@;
                            assert(mesh_surfaces(scene0, meshes_b[m as int]) == (match node.kind {
                                NodeKind::Mesh(mm) => mm.surfaces@,
                                _ => Seq::<Surface>::empty(),
                            }));
                            assert(out@ + meshes_cmds(
                                scene0,
                                data0,
                                mesh_cleaned,
                                view_projection,
                                meshes_b,
                                m as int + 1,
                            ) =~= out_before + meshes_cmds(
                                scene0,
                                data0,
                                mc0,
                                view_projection,
                                meshes_b,
                                m as int,
                            ));
                        }
                    },
                    None => {
                        proof {
                            assert(false);
                        }
                    },
                }
                m = m + 1;
            }
            proof {
                assert(meshes_cmds(
                    scene0,
                    data0,
                    mesh_cleaned,
                    view_projection,
                    meshes_b,
                    n_meshes as int,
                ) == Seq::<RenderCmd>::empty());
                assert(out@ =~= out_m0 + meshes_cmds(
                    scene0,
                    data0,
                    cam_cleaned0,
                    view_projection,
                    meshes_b,
                    0,
                ));
                assert(mesh_cleaned == meshes_cleaned(scene0, data0, cam_cleaned0, meshes_b, 0));
                cam_cleaned = mesh_cleaned;
                // one camera block consumed: re-fold the telescoping sum
                assert(out@ + cameras_cmds(
                    scene0,
                    data0,
                    cam_cleaned,
                    client_size,
                    cams,
                    meshes_b,
                    c as int + 1,
                ) =~= out_c0 + cameras_cmds(
                    scene0,
                    data0,
                    cam_cleaned0,
                    client_size,
                    cams,
                    meshes_b,
                    c as int,
                ));
            }
            c = c + 1;
        }
        proof {
            assert(cameras_cmds(
                scene0,
                data0,
                cam_cleaned,
                client_size,
                cams,
                meshes_b,
                n_cameras as int,
            ) == Seq::<RenderCmd>::empty());
            assert(out@ =~= out0 + scene_plan_from(
                scene0,
                data0,
                cleaned,
                client_size,
                cams,
                meshes_b,
            ));
        }
        Ghost(cam_cleaned)
    }
}

/// Bucket sequences that a conforming classification could have produced:
/// sound (live, reachable, right kind), complete over the reachable nodes,
/// and free of duplicates.
pub open spec fn valid_buckets(scene: Scene, cams: Seq<Handle>, meshes: Seq<Handle>) -> bool {
    &&& Renderer::bucket_sound(scene, cams, 0)
    &&& Renderer::bucket_sound(scene, meshes, 2)
    &&& Renderer::distinct_handles(cams)
    &&& Renderer::distinct_handles(meshes)
    &&& forall|h: Handle, f: nat|
        #[trigger] scene.reachable(h, f) && scene.nodes.is_live(h) ==> {
            &&& (scene.node_at(h.index as int).kind is Camera ==> cams.contains(h))
            &&& (scene.node_at(h.index as int).kind is Mesh ==> meshes.contains(h))
        }
}

/// Pushing one handle of a fresh slot index onto a bucket whose entries all
/// index the processed set keeps the bucket duplicate-free and indexing the
/// grown set.
proof fn lemma_bucket_grow(
    before: Seq<Handle>,
    after: Seq<Handle>,
    handle: Handle,
    done0: Set<int>,
    hi: int,
)
    requires
        hi == handle.index as int,
        !done0.contains(hi),
        after == before || after == before.push(handle),
        Renderer::distinct_handles(before),
        forall|k: int|
            0 <= k < before.len() ==> done0.contains((#[trigger] before[k]).index as int),
    ensures
        Renderer::distinct_handles(after),
        forall|k: int|
            0 <= k < after.len() ==> done0.insert(hi).contains(
                (#[trigger] after[k]).index as int,
            ),
{
    if after == before.push(handle) {
        assert forall|k1: int, k2: int| 0 <= k1 < k2 < after.len() implies after[k1]
            != after[k2] by {
            if k2 == after.len() - 1 {
                assert(after[k1] == before[k1]);
                assert(done0.contains(before[k1].index as int));
            } else {
                assert(after[k1] == before[k1] && after[k2] == before[k2]);
            }
        }
        assert forall|k: int| 0 <= k < after.len() implies done0.insert(hi).contains(
            (#[trigger] after[k]).index as int,
        ) by {
            if k < after.len() - 1 {
                assert(after[k] == before[k]);
            }
        }
    }
}

/// Payload writes that keep every geometry array, GPU name and parallel
/// structure: only `need_upload` may move, and only from dirty to clean.
pub open spec fn geometry_kept(pre: Pool<SurfaceSharedData>, post: Pool<SurfaceSharedData>) -> bool {
    forall|j: int|
        0 <= j < pre@.len() && pre@[j] is Occupied ==> {
            let a = slot_payload(pre@[j]);
            let b = slot_payload(#[trigger] post@[j]);
            &&& b.positions == a.positions
            &&& b.normals == a.normals
            &&& b.tex_coords == a.tex_coords
            &&& b.tangents == a.tangents
            &&& b.indices == a.indices
            &&& b.vbo == a.vbo
            &&& b.vao == a.vao
            &&& b.ebo == a.ebo
            &&& (b.need_upload ==> a.need_upload)
        }
}

} // verus!
