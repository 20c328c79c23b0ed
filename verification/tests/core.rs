use balala::engine::Engine;
use balala::math::{
    fx_add, fx_div, fx_from_i32, fx_mul, fx_to_i32, isqrt_u128, mat_identity, mat_mul,
    mat_translation, vec3_new, vec3_normalize, vec3_zero, Vec2, FX_ONE,
};
use balala::node::{Camera, Mesh, Node, NodeKind};
use balala::pool::{Handle, Pool};
use balala::renderer::RenderCmd;
use balala::scene::Scene;
use balala::texture::Texture;

#[test]
fn pool_spawn_round_trip() {
    // borrow_mut(spawn(v)) yields v right after the spawn
    let mut pool: Pool<u64> = Pool::new();
    let h = pool.spawn(42);
    assert_eq!(pool.borrow_mut(h), Some(&mut 42));
    assert_eq!(pool.borrow(h), Some(&42));
}

#[test]
fn pool_free_is_idempotent_and_silent() {
    let mut pool: Pool<u64> = Pool::new();
    let h = pool.spawn(7);
    pool.free(h);
    assert!(pool.borrow(h).is_none());
    pool.free(h); // freeing again is a no-op
    assert!(pool.borrow(h).is_none());
    assert_eq!(pool.capacity(), 1);
}

#[test]
fn pool_reuses_freed_slot_with_bumped_generation() {
    // spawn 3, free the 2nd, spawn anew: same index, larger generation,
    // and the stale handle no longer resolves
    let mut pool: Pool<u64> = Pool::new();
    let _a = pool.spawn(1);
    let b = pool.spawn(2);
    let _c = pool.spawn(3);
    pool.free(b);
    let d = pool.spawn(4);
    assert_eq!(d.index, b.index);
    assert!(d.generation > b.generation);
    assert!(pool.borrow(b).is_none());
    assert_eq!(pool.borrow(d), Some(&4));
    assert_eq!(pool.capacity(), 3);
}

#[test]
fn pool_generational_safety_across_many_cycles() {
    // a handle taken before a free never resolves to a later occupant of
    // the same slot, however often the slot is recycled
    let mut pool: Pool<u64> = Pool::new();
    let stale = pool.spawn(10);
    pool.free(stale);
    let mut handles = Vec::new();
    for i in 0..16u64 {
        let h = pool.spawn(i);
        assert!(pool.borrow(stale).is_none());
        handles.push(h);
        pool.free(h);
        assert!(pool.borrow(stale).is_none());
    }
    for h in handles {
        assert!(pool.borrow(h).is_none());
    }
}

#[test]
fn pool_at_scans_slots_without_handles() {
    let mut pool: Pool<u64> = Pool::new();
    let a = pool.spawn(5);
    let _b = pool.spawn(6);
    pool.free(a);
    assert!(pool.at(0).is_none());
    assert_eq!(pool.at(1), Some(&6));
    assert!(pool.at(2).is_none());
}

#[test]
fn handle_none_never_resolves() {
    let mut pool: Pool<u64> = Pool::new();
    let _ = pool.spawn(1);
    assert!(pool.borrow(Handle::none()).is_none());
    assert!(Handle::none().is_none());
}

#[test]
fn fixed_point_arithmetic_exact_values() {
    assert_eq!(fx_mul(2 * FX_ONE, 3 * FX_ONE), 6 * FX_ONE);
    assert_eq!(fx_mul(-2 * FX_ONE, 3 * FX_ONE), -6 * FX_ONE);
    assert_eq!(fx_add(FX_ONE, FX_ONE), 2 * FX_ONE);
    assert_eq!(fx_div(6 * FX_ONE, 3 * FX_ONE), 2 * FX_ONE);
    assert_eq!(fx_div(FX_ONE, 0), 0);
    assert_eq!(fx_add(i64::MAX, 1), i64::MAX); // saturates, never wraps
    assert_eq!(fx_to_i32(5 * FX_ONE + 1234), 5);
    assert_eq!(fx_from_i32(-3), -3 * FX_ONE);
}

#[test]
fn integer_square_root_is_exact_floor() {
    assert_eq!(isqrt_u128(0), 0);
    assert_eq!(isqrt_u128(1), 1);
    assert_eq!(isqrt_u128(15), 3);
    assert_eq!(isqrt_u128(16), 4);
    assert_eq!(isqrt_u128(u128::from(u64::MAX)) , 4294967295);
}

#[test]
fn vector_normalize_gives_unit_axes() {
    let v = vec3_new(5 * FX_ONE, 0, 0);
    let n = vec3_normalize(v);
    assert_eq!(n.x, FX_ONE);
    assert_eq!(n.y, 0);
    assert_eq!(n.z, 0);
    let z = vec3_normalize(vec3_zero());
    assert_eq!(z, vec3_zero());
}

#[test]
fn matrix_identity_is_neutral() {
    let t = mat_translation(vec3_new(FX_ONE, 2 * FX_ONE, -FX_ONE));
    assert_eq!(mat_mul(&t, &mat_identity()), t);
    assert_eq!(mat_mul(&mat_identity(), &t), t);
}

#[test]
fn translations_compose_by_addition() {
    let a = mat_translation(vec3_new(0, 2 * FX_ONE, 0));
    let b = mat_translation(vec3_new(0, 0, -5 * FX_ONE));
    let ab = mat_mul(&b, &a);
    assert_eq!(ab, mat_translation(vec3_new(0, 2 * FX_ONE, -5 * FX_ONE)));
}

#[test]
fn scene_links_and_unlinks_nodes() {
    // after link_nodes(c, p): c.parent == p and p lists c exactly once;
    // after unlink_node(c): c.parent is none and no list holds c
    let mut scene = Scene::new();
    let c = scene.add_node(Node::new(NodeKind::Base));
    let p = scene.add_node(Node::new(NodeKind::Base));
    scene.link_nodes(c, p);
    {
        let child = scene.borrow_node(c).unwrap();
        assert_eq!(child.parent, p);
    }
    {
        let parent = scene.borrow_node(p).unwrap();
        assert_eq!(parent.children.iter().filter(|h| **h == c).count(), 1);
    }
    scene.unlink_node(c);
    {
        let child = scene.borrow_node(c).unwrap();
        assert!(child.parent.is_none());
    }
    {
        let parent = scene.borrow_node(p).unwrap();
        assert!(!parent.children.contains(&c));
        let root = scene.borrow_node(scene.root).unwrap();
        assert!(!root.children.contains(&c));
    }
}

#[test]
fn scene_remove_node_requires_detachment() {
    let mut scene = Scene::new();
    let a = scene.add_node(Node::new(NodeKind::Base));
    // still linked under the root: removal is refused silently
    scene.remove_node(a);
    assert!(scene.borrow_node(a).is_some());
    scene.unlink_node(a);
    scene.remove_node(a);
    assert!(scene.borrow_node(a).is_none());
}

#[test]
fn update_gives_identity_transforms_for_default_node() {
    // a default node as the root's only child: local and global transforms
    // both end up as the identity
    let mut scene = Scene::new();
    let a = scene.add_node(Node::new(NodeKind::Base));
    scene.update(FX_ONE);
    let node = scene.borrow_node(a).unwrap();
    assert_eq!(node.local_transform, mat_identity());
    assert_eq!(node.global_transform, mat_identity());
}

#[test]
fn update_propagates_chain_translations() {
    // root -> A at (0, 2, 0) -> B at (0, 0, -5): after update(1.0), B's
    // global position is (0, 2, -5), exactly in fixed point
    let mut scene = Scene::new();
    let mut a_node = Node::new(NodeKind::Base);
    a_node.set_local_position(vec3_new(0, 2 * FX_ONE, 0));
    let a = scene.add_node(a_node);
    let mut b_node = Node::new(NodeKind::Base);
    b_node.set_local_position(vec3_new(0, 0, -5 * FX_ONE));
    let b = scene.add_node(b_node);
    scene.link_nodes(b, a);
    scene.update(FX_ONE);
    let node = scene.borrow_node(b).unwrap();
    let p = node.get_global_position();
    assert_eq!(p, vec3_new(0, 2 * FX_ONE, -5 * FX_ONE));
}

#[test]
fn update_reads_fresh_parent_local_each_frame() {
    // moving A between two updates shifts B's global position accordingly
    let mut scene = Scene::new();
    let a = scene.add_node(Node::new(NodeKind::Base));
    let b = scene.add_node(Node::new(NodeKind::Base));
    scene.link_nodes(b, a);
    scene
        .borrow_node_mut(a)
        .unwrap()
        .set_local_position(vec3_new(FX_ONE, 0, 0));
    scene.update(FX_ONE);
    assert_eq!(
        scene.borrow_node(b).unwrap().get_global_position(),
        vec3_new(FX_ONE, 0, 0)
    );
    scene
        .borrow_node_mut(a)
        .unwrap()
        .set_local_position(vec3_new(3 * FX_ONE, 0, 0));
    scene.update(FX_ONE);
    assert_eq!(
        scene.borrow_node(b).unwrap().get_global_position(),
        vec3_new(3 * FX_ONE, 0, 0)
    );
}

#[test]
fn stale_node_handles_degrade_silently() {
    let mut scene = Scene::new();
    let a = scene.add_node(Node::new(NodeKind::Base));
    scene.unlink_node(a);
    scene.remove_node(a);
    assert!(scene.borrow_node(a).is_none());
    assert!(scene.borrow_node_mut(a).is_none());
    scene.link_nodes(a, scene.root); // silent no-op per missing handle
    scene.unlink_node(a);
    scene.update(FX_ONE); // the rest of the graph still updates
}

fn checkers_texture() -> Texture {
    Texture::new(2, 2, vec![0u8; 16])
}

#[test]
fn texture_cache_returns_same_instance_for_same_path() {
    // two requests under one path share one cache entry: equal handles,
    // no second copy
    let mut engine = Engine::new();
    let first = engine
        .request_texture("textures/floor.png", Some(checkers_texture()))
        .unwrap();
    let second = engine
        .request_texture("textures/floor.png", Some(checkers_texture()))
        .unwrap();
    assert_eq!(first, second);
    assert_eq!(engine.resources.capacity(), 1);
    // a different path gets its own entry
    let other = engine
        .request_texture("textures/box.png", Some(checkers_texture()))
        .unwrap();
    assert_ne!(first, other);
    assert_eq!(engine.resources.capacity(), 2);
    // a cache miss without decoded pixels yields nothing
    assert!(engine.request_texture("missing.png", None).is_none());
}

#[test]
fn mesh_cube_geometry_is_well_formed() {
    let mut engine = Engine::new();
    let mut mesh = Mesh::default();
    mesh.make_cube(&mut engine.surface_data);
    assert_eq!(mesh.surfaces.len(), 1);
    let data = engine.surface_data.borrow(mesh.surfaces[0].data).unwrap();
    assert_eq!(data.positions.len(), 24);
    assert_eq!(data.normals.len(), 24);
    assert_eq!(data.tex_coords.len(), 24);
    assert_eq!(data.indices.len(), 36);
    assert!(data.need_upload);
    assert_eq!(data.positions[0], vec3_new(-FX_ONE / 2, -FX_ONE / 2, FX_ONE / 2));
    assert_eq!(data.indices[0], 2);
    for &i in data.indices.iter() {
        assert!((i as usize) < data.positions.len());
    }
}

#[test]
fn renderer_emits_viewport_uploads_and_draws() {
    let mut engine = Engine::new();
    let mut scene = Scene::new();
    let camera = Node::new(NodeKind::Camera(Camera::default()));
    scene.add_node(camera);
    let mut mesh = Mesh::default();
    mesh.make_cube(&mut engine.surface_data);
    let mesh_node = Node::new(NodeKind::Mesh(mesh));
    scene.add_node(mesh_node);
    engine.add_scene(scene);
    engine.update(FX_ONE);
    let script = engine.render(800, 600);
    let mut binds = 0;
    let mut viewports = 0;
    let mut uploads = 0;
    let mut draws = 0;
    for cmd in script.iter() {
        match cmd {
            RenderCmd::BindProgram => binds += 1,
            RenderCmd::SetViewport { rect } => {
                viewports += 1;
                assert_eq!(rect.x, 0);
                assert_eq!(rect.y, 0);
                assert_eq!(rect.width, 800);
                assert_eq!(rect.height, 600);
            }
            RenderCmd::UploadGeometry { .. } => uploads += 1,
            RenderCmd::Draw { .. } => draws += 1,
        }
    }
    assert_eq!(binds, 1);
    assert_eq!(viewports, 1);
    assert_eq!(uploads, 1); // first frame synchronizes the cube
    assert_eq!(draws, 1);
    // and in plan order: bind, viewport, lazy upload, draw
    assert_eq!(script.len(), 4);
    assert!(matches!(script[0], RenderCmd::BindProgram));
    assert!(matches!(script[1], RenderCmd::SetViewport { .. }));
    assert!(matches!(script[2], RenderCmd::UploadGeometry { .. }));
    assert!(matches!(script[3], RenderCmd::Draw { .. }));
    // the second frame finds the geometry clean and only draws
    let script2 = engine.render(800, 600);
    assert!(script2
        .iter()
        .all(|cmd| !matches!(cmd, RenderCmd::UploadGeometry { .. })));
}

#[test]
fn camera_viewport_scales_with_client_size() {
    let camera = Camera::default();
    let rect = camera.get_viewport_pixels(Vec2 {
        x: fx_from_i32(1024),
        y: fx_from_i32(768),
    });
    assert_eq!(rect.x, 0);
    assert_eq!(rect.y, 0);
    assert_eq!(rect.width, 1024);
    assert_eq!(rect.height, 768);
}

#[test]
fn controller_starts_still() {
    let c = balala::Controller::new();
    assert!(!c.move_forward && !c.move_backward && !c.move_left && !c.move_right);
}

#[test]
fn engine_stop_flag() {
    let mut engine = Engine::new();
    assert!(engine.is_running());
    engine.stop();
    assert!(!engine.is_running());
}

#[test]
fn dirty_texture_planning_clears_flags_in_slot_order() {
    let mut engine = Engine::new();
    let a = engine
        .request_texture("a.png", Some(checkers_texture()))
        .unwrap();
    let b = engine
        .request_texture("b.png", Some(checkers_texture()))
        .unwrap();
    let dirty = balala::engine::take_dirty_textures(&mut engine.resources);
    assert_eq!(dirty, vec![a, b]);
    // the flags are now clear, so a second pass finds nothing
    let again = balala::engine::take_dirty_textures(&mut engine.resources);
    assert!(again.is_empty());
}
