//! The engine: the owner of the scenes, the path-keyed resource cache and
//! the shared geometry pool, plus the renderer scratch. The frame driver
//! calls `update` once per frame with the framebuffer's aspect ratio, then
//! `render` for the frame's command list, and executes the commands on the
//! real GPU context outside this crate.

use vstd::prelude::*;
use crate::math::{Vec2, fx_from_i32, fxs_from_i32};
use crate::pool::{Handle, Pool, Slot, slot_generation, slot_payload};
use crate::renderer::{
    RenderCmd, Renderer, cameras_cleaned, data_cleared_by, geometry_kept,
    lemma_cleared_by_keeps_geometry, scene_plan_from, valid_buckets,
};
use crate::resource::{Resource, ResourceKind};
use crate::scene::Scene;
use crate::surface::SurfaceSharedData;
use crate::texture::Texture;

verus! {

/// The index of the first live resource loaded from `path`, scanning from
/// slot `i` upward; -1 when none is.
pub open spec fn find_resource_from(resources: Pool<Resource>, path: Seq<char>, i: int) -> int
    decreases resources@.len() - i,
{
    if i < 0 || i >= resources@.len() {
        -1
    } else if resources@[i] is Occupied && slot_payload(resources@[i]).spec_path() == path {
        i
    } else {
        find_resource_from(resources, path, i + 1)
    }
}

/// A find that came back empty means no live slot carries the path.
pub proof fn lemma_find_none(resources: Pool<Resource>, path: Seq<char>, i: int)
    requires
        0 <= i,
        find_resource_from(resources, path, i) == -1,
    ensures
        forall|x: int|
            i <= x < resources@.len() ==> !((#[trigger] resources@[x]) is Occupied && slot_payload(
                resources@[x],
            ).spec_path() == path),
    decreases resources@.len() - i,
{
    if i < resources@.len() {
        lemma_find_none(resources, path, i + 1);
    }
}

/// The first matching slot determines the find result.
pub proof fn lemma_find_first_match(resources: Pool<Resource>, path: Seq<char>, i: int, m: int)
    requires
        0 <= i <= m < resources@.len(),
        forall|x: int|
            i <= x < m ==> !((#[trigger] resources@[x]) is Occupied && slot_payload(
                resources@[x],
            ).spec_path() == path),
        resources@[m] is Occupied,
        slot_payload(resources@[m]).spec_path() == path,
    ensures
        find_resource_from(resources, path, i) == m,
    decreases m - i,
{
    if i < m {
        lemma_find_first_match(resources, path, i + 1, m);
    }
}

/// Slot `j` holds a texture resource whose pixels still await upload.
pub open spec fn dirty_texture_at(resources: Pool<Resource>, j: int) -> bool {
    &&& 0 <= j < resources@.len()
    &&& resources@[j] is Occupied
    &&& (match slot_payload(resources@[j]).spec_kind() {
        ResourceKind::Texture(t) => t.need_upload,
        _ => false,
    })
}

/// The live handles of every dirty texture from slot `i` upward, in slot
/// order.
pub open spec fn dirty_texture_handles_from(resources: Pool<Resource>, i: int) -> Seq<Handle>
    decreases resources@.len() - i,
{
    if i < 0 || i >= resources@.len() {
        Seq::empty()
    } else {
        let rest = dirty_texture_handles_from(resources, i + 1);
        if dirty_texture_at(resources, i) {
            seq![
                Handle { index: i as usize, generation: slot_generation(resources@[i]) },
            ] + rest
        } else {
            rest
        }
    }
}

/// The upload-synchronization decision: collects the handle of every live
/// texture whose pixels still await upload, in slot order, and clears those
/// flags; pixels, dimensions, GPU names, paths and every other entry are
/// untouched. The executor uploads the listed textures afterwards.
pub fn take_dirty_textures(resources: &mut Pool<Resource>) -> (r: Vec<Handle>)
    requires
        old(resources).wf(),
    ensures
        final(resources).wf(),
        final(resources)@.len() == old(resources)@.len(),
        final(resources).free_indices() == old(resources).free_indices(),
        Pool::payload_step(*old(resources), *final(resources)),
        r@ == dirty_texture_handles_from(*old(resources), 0),
        forall|j: int|
            0 <= j < old(resources)@.len() ==> if dirty_texture_at(*old(resources), j) {
                let a = slot_payload(old(resources)@[j]);
                let b = slot_payload(#[trigger] final(resources)@[j]);
                &&& b.spec_path() == a.spec_path()
                &&& (match a.spec_kind() {
                    ResourceKind::Texture(t) => b.spec_kind() == (ResourceKind::Texture(
                        (Texture { need_upload: false, ..t }),
                    )),
                    _ => false,
                })
            } else {
                final(resources)@[j] == old(resources)@[j]
            },
{
    let ghost pre = *old(resources);
    let n = resources.capacity();
    let mut out: Vec<Handle> = Vec::new();
    let mut i: usize = 0;
    while i < n
        invariant
            pre == *old(resources),
            pre.wf(),
            n == pre@.len(),
            i <= n,
            resources.wf(),
            resources@.len() == n,
            resources.free_indices() == pre.free_indices(),
            Pool::payload_step(pre, *resources),
            out@ + dirty_texture_handles_from(pre, i as int) == dirty_texture_handles_from(
                pre,
                0,
            ),
            forall|j: int|
                0 <= j < i ==> if dirty_texture_at(pre, j) {
                    let a = slot_payload(pre@[j]);
                    let b = slot_payload(#[trigger] resources@[j]);
                    &&& b.spec_path() == a.spec_path()
                    &&& (match a.spec_kind() {
                        ResourceKind::Texture(t) => b.spec_kind() == (ResourceKind::Texture(
                            (Texture { need_upload: false, ..t }),
                        )),
                        _ => false,
                    })
                } else {
                    resources@[j] == pre@[j]
                },
            forall|j: int| i <= j < n ==> #[trigger] resources@[j] == pre@[j],
        decreases n - i,
    {
        let ghost data_iter0 = *resources;
        let dirty = match resources.at(i) {
            Some(res) => match res.borrow_kind() {
                ResourceKind::Texture(t) => t.need_upload,
                _ => false,
            },
            None => false,
        };
        if dirty {
            let h = match resources.handle_at(i) {
                Some(h) => h,
                None => {
                    proof {
                        assert(false);
                    }
                    Handle::none()
                },
            };
            match resources.at_mut(i) {
                Some(res) => {
                    match res.borrow_kind_mut() {
                        ResourceKind::Texture(t) => {
                            t.need_upload = false;
                        },
                        _ => (),
                    }
                },
                None => (),
            }
            let ghost out0 = out@;
            out.push(h);
            proof {
                assert(dirty_texture_at(pre, i as int));
                assert(h == (Handle {
                    index: i,
                    generation: slot_generation(pre@[i as int]),
                }));
                assert(out@ =~= out0 + seq![h]);
                assert(out@ + dirty_texture_handles_from(pre, i as int + 1)
                    =~= out0 + dirty_texture_handles_from(pre, i as int));
                assert forall|j: int| i as int + 1 <= j < n implies #[trigger] resources@[j]
                    == pre@[j] by {
                    assert(resources@[j] == data_iter0@[j]);
                }
                assert forall|j: int| 0 <= j < n implies slot_generation(
                    #[trigger] resources@[j],
                ) == slot_generation(pre@[j]) && ((resources@[j] is Occupied) <==> (
                pre@[j] is Occupied)) by {
                    if j != i as int {
                        assert(resources@[j] == data_iter0@[j]);
                    }
                }
            }
        } else {
            proof {
                assert(!dirty_texture_at(pre, i as int));
                assert(dirty_texture_handles_from(pre, i as int)
                    == dirty_texture_handles_from(pre, i as int + 1));
            }
        }
        i = i + 1;
    }
    proof {
        assert(dirty_texture_handles_from(pre, n as int) == Seq::<Handle>::empty());
        assert(out@ =~= dirty_texture_handles_from(pre, 0));
    }
    out
}

/// The engine's state; `running` turns false once `stop` was called.
pub struct Engine {
    pub scenes: Pool<Scene>,
    pub resources: Pool<Resource>,
    pub surface_data: Pool<SurfaceSharedData>,
    pub renderer: Renderer,
    pub running: bool,
}

impl Engine {
    /// All pools are well formed and so is every live scene.
    pub open spec fn wf(self) -> bool {
        &&& self.scenes.wf()
        &&& self.resources.wf()
        &&& self.surface_data.wf()
        &&& forall|j: int|
            0 <= j < self.scenes@.len() && self.scenes@[j] is Occupied ==> (
            #[trigger] slot_payload(self.scenes@[j])).wf()
    }

    /// A fresh engine: empty pools, running.
    pub fn new() -> (r: Engine)
        ensures
            r.wf(),
            r.scenes@.len() == 0,
            r.resources@.len() == 0,
            r.surface_data@.len() == 0,
            r.running,
    {
        Engine {
            scenes: Pool::new(),
            resources: Pool::new(),
            surface_data: Pool::new(),
            renderer: Renderer::new(),
            running: true,
        }
    }

    /// Moves a scene into the engine and returns its handle.
    pub fn add_scene(&mut self, scene: Scene) -> (h: Handle)
        requires
            old(self).wf(),
            scene.wf(),
        ensures
            final(self).wf(),
            Pool::spawn_post(old(self).scenes, final(self).scenes, h, scene),
            final(self).scenes.is_live(h),
            final(self).resources == old(self).resources,
            final(self).surface_data == old(self).surface_data,
            final(self).running == old(self).running,
    {
        let h = self.scenes.spawn(scene);
        proof {
            assert forall|j: int|
                0 <= j < self.scenes@.len() && self.scenes@[j] is Occupied implies (
            #[trigger] slot_payload(self.scenes@[j])).wf() by {
                if j != h.index as int {
                    assert(self.scenes@[j] == old(self).scenes@[j]);
                }
            }
        }
        h
    }

    /// Read access to a scene through its handle.
    pub fn borrow_scene(&self, handle: Handle) -> (r: Option<&Scene>)
        ensures
            match r {
                Some(s) => self.scenes.is_live(handle) && *s == slot_payload(
                    self.scenes@[handle.index as int],
                ),
                None => !self.scenes.is_live(handle),
            },
    {
        self.scenes.borrow(handle)
    }

    /// Write access to a scene through its handle. The engine stays well
    /// formed as long as the caller leaves the scene well formed, which
    /// every method of `Scene` does.
    pub fn borrow_scene_mut(&mut self, handle: Handle) -> (r: Option<&mut Scene>)
        requires
            old(self).wf(),
        ensures
            final(self).scenes.wf(),
            final(self).resources == old(self).resources,
            final(self).surface_data == old(self).surface_data,
            final(self).running == old(self).running,
            match r {
                Some(m) => {
                    &&& old(self).scenes.is_live(handle)
                    &&& *m == slot_payload(old(self).scenes@[handle.index as int])
                    &&& m.wf()
                    &&& final(self).scenes@ == old(self).scenes@.update(
                        handle.index as int,
                        (Slot::Occupied { generation: handle.generation, payload: *final(m) }),
                    )
                    &&& ((*final(m)).wf() ==> final(self).wf())
                },
                None => {
                    &&& !old(self).scenes.is_live(handle)
                    &&& *final(self) == *old(self)
                },
            },
    {
        proof {
            if old(self).scenes.is_live(handle) {
                lemma_engine_wf_after_scene_swap(*old(self), handle.index as int);
            }
        }
        self.scenes.borrow_mut(handle)
    }

    /// Looks the path up in the resource cache. A hit with a texture payload
    /// returns the already-cached entry's handle (the same shared instance,
    /// never a second copy); a hit of another kind returns nothing. On a
    /// miss, `loaded` — the decoded texture the resource loader supplies —
    /// is cached under the path and its fresh handle returned; with no
    /// decoded texture at hand the request yields nothing.
    pub fn request_texture(&mut self, path: &str, loaded: Option<Texture>) -> (r: Option<Handle>)
        requires
            old(self).wf(),
        ensures
            final(self).wf(),
            final(self).scenes == old(self).scenes,
            final(self).surface_data == old(self).surface_data,
            final(self).running == old(self).running,
            ({
                let found = find_resource_from(old(self).resources, path@, 0);
                if found >= 0 {
                    &&& final(self).resources == old(self).resources
                    &&& if slot_payload(old(self).resources@[found]).spec_kind() is Texture {
                        r == Some(
                            Handle {
                                index: found as usize,
                                generation: slot_generation(old(self).resources@[found]),
                            },
                        )
                    } else {
                        r is None
                    }
                } else {
                    match loaded {
                        Some(tex) => {
                            let h = r.unwrap();
                            &&& r is Some
                            &&& final(self).resources.is_live(h)
                            &&& !old(self).resources.is_live(h)
                            &&& slot_payload(
                                final(self).resources@[h.index as int],
                            ).spec_kind() == (ResourceKind::Texture(tex))
                            &&& slot_payload(final(self).resources@[h.index as int]).spec_path()
                                == path@
                            &&& untouched_below(
                                old(self).resources,
                                final(self).resources,
                                h.index as int,
                            )
                            &&& find_resource_from(final(self).resources, path@, 0)
                                == h.index as int
                            &&& if old(self).resources.free_indices().len() == 0 {
                                &&& h.index == old(self).resources@.len()
                                &&& h.generation == 0
                                &&& final(self).resources@.len() == old(self).resources@.len() + 1
                                &&& final(self).resources.free_indices() == old(
                                    self,
                                ).resources.free_indices()
                            } else {
                                &&& h.index == old(self).resources.free_indices().last()
                                &&& old(self).resources@[h.index as int] is Free
                                &&& h.generation == slot_generation(
                                    old(self).resources@[h.index as int],
                                ) + 1
                                &&& final(self).resources@.len() == old(self).resources@.len()
                                &&& final(self).resources.free_indices() == old(
                                    self,
                                ).resources.free_indices().drop_last()
                            }
                        },
                        None => final(self).resources == old(self).resources && r is None,
                    }
                }
            }),
    {
        let ghost pre = *self;
        let n = self.resources.capacity();
        let mut i: usize = 0;
        while i < n
            invariant
                n == self.resources@.len(),
                i <= n,
                *self == pre,
                pre == *old(self),
                old(self).wf(),
                find_resource_from(pre.resources, path@, 0) == find_resource_from(
                    pre.resources,
                    path@,
                    i as int,
                ),
            decreases n - i,
        {
            let hit = match self.resources.at(i) {
                Some(res) => res.path_matches(path),
                None => false,
            };
            if hit {
                proof {
                    assert(find_resource_from(pre.resources, path@, i as int) == i);
                }
                let is_texture = match self.resources.at(i) {
                    Some(res) => match res.borrow_kind() {
                        ResourceKind::Texture(_) => true,
                        _ => false,
                    },
                    None => false,
                };
                if is_texture {
                    return self.resources.handle_at(i);
                }
                return None;
            }
            i = i + 1;
        }
        proof {
            assert(find_resource_from(pre.resources, path@, n as int) == -1);
        }
        match loaded {
            Some(tex) => {
                let resource = Resource::new(path, ResourceKind::Texture(tex));
                let ghost resg = resource;
                let h = self.resources.spawn(resource);
                proof {
                    assert(self.resources.spec_borrow(h) == Some(resg));
                    lemma_find_none(pre.resources, path@, 0);
                    assert forall|x: int| 0 <= x < h.index as int implies !((
                    #[trigger] self.resources@[x]) is Occupied && slot_payload(
                        self.resources@[x],
                    ).spec_path() == path@) by {
                        assert(self.resources@[x] == pre.resources@[x]);
                    }
                    lemma_find_first_match(self.resources, path@, 0, h.index as int);
                }
                Some(h)
            },
            None => None,
        }
    }

    /// Runs the transform-propagation pass of every live scene, in slot
    /// order, against the given aspect ratio.
    pub fn update(&mut self, aspect_ratio: i64)
        requires
            old(self).wf(),
        ensures
            final(self).wf(),
            final(self).scenes@.len() == old(self).scenes@.len(),
            forall|j: int|
                0 <= j < old(self).scenes@.len() ==> if old(self).scenes@[j] is Occupied {
                    &&& (#[trigger] final(self).scenes@[j]) is Occupied
                    &&& slot_generation(final(self).scenes@[j]) == slot_generation(
                        old(self).scenes@[j],
                    )
                    &&& Scene::update_rel(
                        slot_payload(old(self).scenes@[j]),
                        slot_payload(final(self).scenes@[j]),
                        aspect_ratio,
                    )
                } else {
                    final(self).scenes@[j] == old(self).scenes@[j]
                },
            final(self).resources == old(self).resources,
            final(self).surface_data == old(self).surface_data,
            final(self).running == old(self).running,
    {
        let n = self.scenes.capacity();
        let mut i: usize = 0;
        while i < n
            invariant
                n == old(self).scenes@.len(),
                i <= n,
                self.scenes.wf(),
                self.scenes@.len() == n,
                self.resources == old(self).resources,
                self.surface_data == old(self).surface_data,
                self.running == old(self).running,
                self.renderer == old(self).renderer,
                self.resources.wf(),
                self.surface_data.wf(),
                forall|j: int|
                    0 <= j < n ==> if old(self).scenes@[j] is Occupied {
                        &&& (#[trigger] self.scenes@[j]) is Occupied
                        &&& slot_generation(self.scenes@[j]) == slot_generation(
                            old(self).scenes@[j],
                        )
                        &&& slot_payload(self.scenes@[j]).wf()
                        &&& if j < i {
                            Scene::update_rel(
                                slot_payload(old(self).scenes@[j]),
                                slot_payload(self.scenes@[j]),
                                aspect_ratio,
                            )
                        } else {
                            self.scenes@[j] == old(self).scenes@[j]
                        }
                    } else {
                        self.scenes@[j] == old(self).scenes@[j]
                    },
            decreases n - i,
        {
            let ghost before = *self;
            match self.scenes.at_mut(i) {
                Some(scene) => {
                    scene.update(aspect_ratio);
                },
                None => (),
            }
            proof {
                assert forall|j: int| 0 <= j < n && j != i as int implies #[trigger] self.scenes@[j]
                    == before.scenes@[j] by {}
            }
            i = i + 1;
        }
    }

    /// Builds the frame's command list: for every live scene in slot order,
    /// one `scene_plan_from` block (bind once, then per camera a viewport
    /// and the mesh draws with lazy geometry uploads), for a framebuffer of
    /// the given pixel size. The script is exactly the concatenation the
    /// `engine_plan_from` relation describes, threading the geometry dirty
    /// flags across scenes.
    pub fn render(&mut self, client_w: i32, client_h: i32) -> (script: Vec<RenderCmd>)
        requires
            old(self).wf(),
        ensures
            final(self).wf(),
            final(self).scenes == old(self).scenes,
            final(self).resources == old(self).resources,
            final(self).running == old(self).running,
            Pool::payload_step(old(self).surface_data, final(self).surface_data),
            geometry_kept(old(self).surface_data, final(self).surface_data),
            engine_plan_from(
                old(self).scenes,
                old(self).surface_data,
                Set::empty(),
                (Vec2 { x: fxs_from_i32(client_w), y: fxs_from_i32(client_h) }),
                0,
                script@,
            ),
    {
        let ghost scenes0 = self.scenes;
        let ghost data0 = self.surface_data;
        let mut script: Vec<RenderCmd> = Vec::new();
        let client = Vec2 { x: fx_from_i32(client_w), y: fx_from_i32(client_h) };
        let ghost mut cleaned: Set<int> = Set::empty();
        let n = self.scenes.capacity();
        let mut i: usize = 0;
        proof {
            assert(data_cleared_by(data0, self.surface_data, cleaned)) by {
                assert(forall|j: int|
                    0 <= j < data0@.len() ==> #[trigger] self.surface_data@[j] == data0@[j]);
            }
        }
        while i < n
            invariant
                n == scenes0@.len(),
                i <= n,
                scenes0 == old(self).scenes,
                data0 == old(self).surface_data,
                self.scenes == scenes0,
                self.resources == old(self).resources,
                self.running == old(self).running,
                old(self).wf(),
                self.scenes.wf(),
                self.resources.wf(),
                self.surface_data.wf(),
                forall|j: int|
                    0 <= j < self.scenes@.len() && self.scenes@[j] is Occupied ==> (
                    #[trigger] slot_payload(self.scenes@[j])).wf(),
                data_cleared_by(data0, self.surface_data, cleaned),
                // completion: whatever plan the remaining scenes yield, the
                // script built so far prepends to it
                forall|rest: Seq<RenderCmd>|
                    engine_plan_from(scenes0, data0, cleaned, client, i as int, rest)
                        ==> #[trigger] engine_plan_from(
                        scenes0,
                        data0,
                        Set::empty(),
                        client,
                        0,
                        script@ + rest,
                    ),
            decreases n - i,
        {
            let ghost script0 = script@;
            let ghost cleaned0 = cleaned;
            let has_scene = match self.scenes.at(i) {
                Some(_) => true,
                None => false,
            };
            if has_scene {
                match self.scenes.at(i) {
                    Some(scene) => {
                        let stepped = self.renderer.render_scene(
                            scene,
                            &mut self.surface_data,
                            client,
                            &mut script,
                            Ghost(data0),
                            Ghost(cleaned),
                        );
                        proof {
                            cleaned = stepped@;
                        }
                    },
                    None => (),
                }
                proof {
                    let scene = slot_payload(scenes0@[i as int]);
                    let cams = self.renderer.cameras@;
                    let meshes = self.renderer.meshes@;
                    let plan = scene_plan_from(scene, data0, cleaned0, client, cams, meshes);
                    assert(script@ == script0 + plan);
                    assert forall|rest: Seq<RenderCmd>|
                        engine_plan_from(
                            scenes0,
                            data0,
                            cleaned,
                            client,
                            i as int + 1,
                            rest,
                        ) implies #[trigger] engine_plan_from(
                        scenes0,
                        data0,
                        Set::empty(),
                        client,
                        0,
                        script@ + rest,
                    ) by {
                        lemma_engine_plan_prepend(
                            scenes0,
                            data0,
                            cleaned0,
                            client,
                            i as int,
                            cams,
                            meshes,
                            rest,
                        );
                        assert(script@ + rest =~= script0 + (plan + rest));
                    }
                }
            } else {
                proof {
                    assert forall|rest: Seq<RenderCmd>|
                        engine_plan_from(
                            scenes0,
                            data0,
                            cleaned,
                            client,
                            i as int + 1,
                            rest,
                        ) implies #[trigger] engine_plan_from(
                        scenes0,
                        data0,
                        Set::empty(),
                        client,
                        0,
                        script@ + rest,
                    ) by {
                        assert(engine_plan_from(scenes0, data0, cleaned, client, i as int, rest));
                    }
                }
            }
            i = i + 1;
        }
        proof {
            assert(engine_plan_from(
                scenes0,
                data0,
                cleaned,
                client,
                n as int,
                Seq::<RenderCmd>::empty(),
            ));
            assert(script@ + Seq::<RenderCmd>::empty() =~= script@);
            lemma_cleared_by_keeps_geometry(data0, self.surface_data, cleaned);
        }
        script
    }

    /// Whether the engine should keep driving frames.
    pub fn is_running(&self) -> (r: bool)
        ensures
            r == self.running,
    {
        self.running
    }

    /// Asks the frame loop to end.
    pub fn stop(&mut self)
        ensures
            final(self).running == false,
            final(self).scenes == old(self).scenes,
            final(self).resources == old(self).resources,
            final(self).surface_data == old(self).surface_data,
    {
        self.running = false;
    }
}


/// The frame plan of the scenes from slot `i` on: an empty script when no
/// slots remain; a dead slot contributes nothing; a live scene contributes
/// one `scene_plan_from` block for some conforming classification of its
/// nodes, and the rest of the script is the plan of the later scenes with
/// the cleaned geometry carried forward.
pub open spec fn engine_plan_from(
    scenes: Pool<Scene>,
    data0: Pool<SurfaceSharedData>,
    cleaned: Set<int>,
    client: Vec2,
    i: int,
    script: Seq<RenderCmd>,
) -> bool
    decreases scenes@.len() - i,
{
    if i < 0 || i >= scenes@.len() {
        script == Seq::<RenderCmd>::empty()
    } else if scenes@[i] is Occupied {
        let scene = slot_payload(scenes@[i]);
        exists|cams: Seq<Handle>, meshes: Seq<Handle>|
            {
                let plan = scene_plan_from(scene, data0, cleaned, client, cams, meshes);
                &&& #[trigger] valid_buckets(scene, cams, meshes)
                &&& plan.len() <= script.len()
                &&& script.take(plan.len() as int) == plan
                &&& engine_plan_from(
                    scenes,
                    data0,
                    cameras_cleaned(scene, data0, cleaned, cams, meshes, 0),
                    client,
                    i + 1,
                    script.skip(plan.len() as int),
                )
            }
    } else {
        engine_plan_from(scenes, data0, cleaned, client, i + 1, script)
    }
}

/// Prepending one live scene's plan to a plan of the later scenes gives a
/// plan from that scene on.
pub proof fn lemma_engine_plan_prepend(
    scenes: Pool<Scene>,
    data0: Pool<SurfaceSharedData>,
    cleaned: Set<int>,
    client: Vec2,
    i: int,
    cams: Seq<Handle>,
    meshes: Seq<Handle>,
    rest: Seq<RenderCmd>,
)
    requires
        0 <= i < scenes@.len(),
        scenes@[i] is Occupied,
        valid_buckets(slot_payload(scenes@[i]), cams, meshes),
        engine_plan_from(
            scenes,
            data0,
            cameras_cleaned(slot_payload(scenes@[i]), data0, cleaned, cams, meshes, 0),
            client,
            i + 1,
            rest,
        ),
    ensures
        engine_plan_from(
            scenes,
            data0,
            cleaned,
            client,
            i,
            scene_plan_from(slot_payload(scenes@[i]), data0, cleaned, client, cams, meshes)
                + rest,
        ),
{
    let scene = slot_payload(scenes@[i]);
    let plan = scene_plan_from(scene, data0, cleaned, client, cams, meshes);
    let script = plan + rest;
    assert(script.take(plan.len() as int) =~= plan);
    assert(script.skip(plan.len() as int) =~= rest);
}

/// Every slot below `len(pre)` other than `skip` is unchanged from `pre`
/// to `post`.
pub open spec fn untouched_below(
    pre: Pool<Resource>,
    post: Pool<Resource>,
    skip: int,
) -> bool {
    forall|x: int| 0 <= x < pre@.len() && x != skip ==> #[trigger] post@[x] == pre@[x]
}

/// Swapping one live scene for another well-formed scene keeps the engine
/// well formed (nothing else moved).
proof fn lemma_engine_wf_after_scene_swap(pre: Engine, j: int)
    requires
        pre.wf(),
        0 <= j < pre.scenes@.len(),
        pre.scenes@[j] is Occupied,
    ensures
        forall|post: Engine|
            (post.scenes.wf() && post.scenes@.len() == pre.scenes@.len() && (forall|x: int|
                0 <= x < pre.scenes@.len() && x != j ==> post.scenes@[x] == pre.scenes@[x])
                && post.scenes@[j] is Occupied && slot_payload(post.scenes@[j]).wf()
                && post.resources == pre.resources && post.surface_data == pre.surface_data)
                ==> #[trigger] post.wf(),
{
    assert forall|post: Engine|
        (post.scenes.wf() && post.scenes@.len() == pre.scenes@.len() && (forall|x: int|
            0 <= x < pre.scenes@.len() && x != j ==> post.scenes@[x] == pre.scenes@[x])
            && post.scenes@[j] is Occupied && slot_payload(post.scenes@[j]).wf()
            && post.resources == pre.resources && post.surface_data == pre.surface_data) implies #[trigger] post.wf() by {
        assert forall|x: int|
            0 <= x < post.scenes@.len() && post.scenes@[x] is Occupied implies (
        #[trigger] slot_payload(post.scenes@[x])).wf() by {
            if x != j {
                assert(post.scenes@[x] == pre.scenes@[x]);
            }
        }
    }
}

} // verus!
