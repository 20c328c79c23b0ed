//! The scene graph: a pool of nodes, one designated root, and the per-frame
//! transform-propagation pass. Parent/child links are handles, never owning
//! pointers; the well-formedness invariant keeps them mutually consistent (a
//! child is listed exactly once by the node its parent handle names), and
//! every operation here preserves it.

use vstd::prelude::*;
use crate::math::{
    FX_RAD_PER_DEG, Mat4, Vec3, fxs_mul, mat_identity, mat_mul, mats_identity, mats_look_at_rh,
    mats_mul, mats_perspective, vec3s_add,
};
use crate::node::{Camera, Node, NodeKind, composed_of};
use crate::pool::{Handle, INVALID_INDEX, Pool, Slot, slot_generation, slot_payload};
use vstd::set_lib::{lemma_int_range, lemma_len_subset, set_int_range};

verus! {

/// The camera payload after a scene update: the view matrix looks from the
/// node's new global position along its new look direction, and the
/// projection uses the frame's aspect ratio; the lens parameters and
/// viewport stay.
#[verifier::opaque]
pub open spec fn updated_camera(c: Camera, global: Mat4, aspect: i64) -> Camera {
    let eye = Vec3 { x: global.m03, y: global.m13, z: global.m23 };
    let look = Vec3 { x: global.m02, y: global.m12, z: global.m22 };
    let up = Vec3 { x: global.m01, y: global.m11, z: global.m21 };
    Camera {
        view_matrix: mats_look_at_rh(eye, vec3s_add(eye, look), up),
        projection_matrix: mats_perspective(
            aspect,
            fxs_mul(c.fov, FX_RAD_PER_DEG),
            c.z_near,
            c.z_far,
        ),
        ..c
    }
}

/// A node after the update pass, given its parent's already-recomputed
/// local transform: the local transform is recomposed from the components,
/// the global transform is the local one multiplied by the parent's, and a
/// camera payload gets fresh matrices. Links, name and components stay.
#[verifier::opaque]
pub open spec fn updated_node(pre: Node, parent_local: Mat4, aspect: i64) -> Node {
    let local = composed_of(pre.components());
    let global = mats_mul(local, parent_local);
    Node {
        local_transform: local,
        global_transform: global,
        kind: match pre.kind {
            NodeKind::Camera(c) => NodeKind::Camera(updated_camera(c, global, aspect)),
            k => k,
        },
        ..pre
    }
}

/// A scene: node storage, the root handle, and a reusable traversal stack
/// (kept allocated between frames).
pub struct Scene {
    pub nodes: Pool<Node>,
    pub root: Handle,
    pub stack: Vec<Handle>,
}

/// How often `h` occurs in `s`.
pub open spec fn count_matches(s: Seq<Handle>, h: Handle) -> int
    decreases s.len(),
{
    if s.len() == 0 {
        0
    } else {
        count_matches(s.drop_last(), h) + if s.last() == h {
            1int
        } else {
            0int
        }
    }
}

/// Appending one element raises exactly that element's count.
pub proof fn lemma_count_push(s: Seq<Handle>, x: Handle, h: Handle)
    ensures
        count_matches(s.push(x), h) == count_matches(s, h) + if x == h {
            1int
        } else {
            0int
        },
{
    assert(s.push(x).drop_last() =~= s);
}

/// A count of zero is the same as absence.
pub proof fn lemma_count_contains(s: Seq<Handle>, h: Handle)
    ensures
        count_matches(s, h) >= 1 <==> s.contains(h),
        count_matches(s, h) >= 0,
    decreases s.len(),
{
    if s.len() > 0 {
        lemma_count_contains(s.drop_last(), h);
        if s.contains(h) {
            let i = choose|i: int| 0 <= i < s.len() && s[i] == h;
            if i < s.len() - 1 {
                assert(s.drop_last()[i] == h);
            }
        }
        if s.drop_last().contains(h) {
            let i = choose|i: int| 0 <= i < s.len() - 1 && s.drop_last()[i] == h;
            assert(s[i] == h);
        }
    }
}

/// Removing position `i` lowers the count by one when `s[i]` matches and
/// keeps it otherwise.
pub proof fn lemma_count_remove(s: Seq<Handle>, i: int, h: Handle)
    requires
        0 <= i < s.len(),
    ensures
        count_matches(s.remove(i), h) == count_matches(s, h) - if s[i] == h {
            1int
        } else {
            0int
        },
    decreases s.len(),
{
    if i == s.len() - 1 {
        assert(s.remove(i) =~= s.drop_last());
    } else {
        assert(s.remove(i).drop_last() =~= s.drop_last().remove(i));
        assert(s.remove(i).last() == s.last());
        lemma_count_remove(s.drop_last(), i, h);
    }
}

/// Two distinct positions holding `h` make its count at least two.
pub proof fn lemma_count_two(s: Seq<Handle>, i: int, j: int, h: Handle)
    requires
        0 <= i < j < s.len(),
        s[i] == h,
        s[j] == h,
    ensures
        count_matches(s, h) >= 2,
{
    lemma_count_remove(s, j, h);
    lemma_count_contains(s.remove(j), h);
    assert(s.remove(j)[i] == h);
}

/// The position of the first occurrence of `h` in `s`, or -1 when absent.
pub open spec fn first_index_of(s: Seq<Handle>, h: Handle) -> int
    decreases s.len(),
{
    if s.len() == 0 {
        -1
    } else if s[0] == h {
        0
    } else {
        let r = first_index_of(s.drop_first(), h);
        if r == -1 {
            -1
        } else {
            r + 1
        }
    }
}

/// `first_index_of` finds the first occurrence exactly when there is one.
pub proof fn lemma_first_index_properties(s: Seq<Handle>, h: Handle)
    ensures
        s.contains(h) ==> {
            let fi = first_index_of(s, h);
            &&& 0 <= fi < s.len()
            &&& s[fi] == h
            &&& forall|k: int| 0 <= k < fi ==> s[k] != h
        },
        !s.contains(h) ==> first_index_of(s, h) == -1,
    decreases s.len(),
{
    let fi = first_index_of(s, h);
    if s.len() == 0 {
    } else if s[0] == h {
        assert(s.contains(h)) by {
            assert(s[0] == h);
        }
    } else {
        let t = s.drop_first();
        lemma_first_index_properties(t, h);
        assert(forall|k: int| 0 <= k < t.len() ==> #[trigger] t[k] == s[k + 1]);
        if s.contains(h) {
            let i = choose|i: int| 0 <= i < s.len() && s[i] == h;
            assert(t[i - 1] == h);
            assert(t.contains(h));
            let ft = first_index_of(t, h);
            assert(fi == ft + 1);
            assert(s[fi] == t[ft]);
            assert forall|k: int| 0 <= k < fi implies s[k] != h by {
                if k > 0 {
                    assert(t[k - 1] != h);
                }
            }
        } else {
            if t.contains(h) {
                let i = choose|i: int| 0 <= i < t.len() && t[i] == h;
                assert(s[i + 1] == h);
                assert(false);
            }
        }
    }
}

/// `a` is `base` with its links replaced: the given parent and children,
/// everything else (kind, name, components, cached transforms) equal.
pub open spec fn node_links_set(a: Node, parent: Handle, children: Seq<Handle>, base: Node) -> bool {
    &&& a.parent == parent
    &&& a.children@ == children
    &&& a.kind == base.kind
    &&& a.name == base.name
    &&& a.components() == base.components()
    &&& a.local_transform == base.local_transform
    &&& a.global_transform == base.global_transform
}

impl Scene {
    /// The slot index `j` holds a live node.
    pub open spec fn live_at(self, j: int) -> bool {
        0 <= j < self.nodes@.len() && self.nodes@[j] is Occupied
    }

    /// The node stored at slot `j`.
    pub open spec fn node_at(self, j: int) -> Node {
        slot_payload(self.nodes@[j])
    }

    /// The (unique) live handle of slot `j`.
    pub open spec fn handle_of(self, j: int) -> Handle {
        Handle { index: j as usize, generation: slot_generation(self.nodes@[j]) }
    }

    /// Parent/child links are mutually consistent: every handle in a
    /// children list is live and points back at the listing node, and every
    /// live node with a parent is listed by that parent exactly once.
    pub open spec fn wf_links(self) -> bool {
        &&& forall|j: int, k: int|
            #![trigger self.node_at(j).children@[k]]
            self.live_at(j) && 0 <= k < self.node_at(j).children@.len() ==> {
                let c = self.node_at(j).children@[k];
                &&& self.nodes.is_live(c)
                &&& self.node_at(c.index as int).parent == self.handle_of(j)
            }
        &&& forall|j: int|
            #![trigger self.node_at(j).parent]
            self.live_at(j) && self.node_at(j).parent != Handle::spec_none() ==> {
                let p = self.node_at(j).parent;
                &&& self.nodes.is_live(p)
                &&& count_matches(self.node_at(p.index as int).children@, self.handle_of(j)) == 1
            }
    }

    /// The scene invariant: a well-formed pool, a live root whose parent
    /// link is the none handle, and consistent links throughout.
    pub open spec fn wf(self) -> bool {
        &&& self.nodes.wf()
        &&& self.nodes.is_live(self.root)
        &&& self.node_at(self.root.index as int).parent == Handle::spec_none()
        &&& self.wf_links()
    }

    /// A scene holding exactly its root: a fresh base node.
    pub fn new() -> (r: Scene)
        ensures
            r.wf(),
            r.nodes@.len() == 1,
            r.root.index == 0,
            r.node_at(0).kind is Base,
            r.node_at(0).children@.len() == 0,
            r.node_at(0).components() == crate::node::default_components(),
            r.node_at(0).local_transform == mats_identity(),
            r.node_at(0).global_transform == mats_identity(),
            r.nodes.free_indices().len() == 0,
            r.stack@.len() == 0,
    {
        let mut nodes: Pool<Node> = Pool::new();
        let root = nodes.spawn(Node::new(NodeKind::Base));
        Scene { nodes, stack: Vec::new(), root }
    }

    /// Relation between the scene before and after `add_node(node)` returned
    /// `h`: the node sits in a slot no earlier handle can reach, linked as
    /// the root's last child; nothing else moved.
    pub open spec fn add_node_post(pre: Scene, post: Scene, h: Handle, node: Node) -> bool {
        let rj = pre.root.index as int;
        &&& post.root == pre.root
        &&& post.stack@ == pre.stack@
        &&& !pre.nodes.is_live(h)
        &&& post.nodes.is_live(h)
        &&& h.index as int != rj
        &&& node_links_set(post.node_at(h.index as int), pre.root, Seq::empty(), node)
        &&& node_links_set(
            post.node_at(rj),
            pre.node_at(rj).parent,
            pre.node_at(rj).children@.push(h),
            pre.node_at(rj),
        )
        &&& forall|x: int|
            0 <= x < pre.nodes@.len() && x != h.index && x != rj ==> #[trigger] post.nodes@[x]
                == pre.nodes@[x]
        &&& forall|x: int|
            0 <= x < pre.nodes@.len() && x != h.index ==> slot_generation(#[trigger] post.nodes@[x])
                == slot_generation(pre.nodes@[x]) && ((post.nodes@[x] is Occupied) <==> (
            pre.nodes@[x] is Occupied))
        &&& slot_generation(post.nodes@[h.index as int]) == h.generation
        &&& if pre.nodes.free_indices().len() == 0 {
            &&& h.index == pre.nodes@.len()
            &&& h.generation == 0
            &&& post.nodes@.len() == pre.nodes@.len() + 1
            &&& post.nodes.free_indices() == pre.nodes.free_indices()
        } else {
            &&& h.index == pre.nodes.free_indices().last()
            &&& pre.nodes@[h.index as int] is Free
            &&& h.generation == slot_generation(pre.nodes@[h.index as int]) + 1
            &&& post.nodes@.len() == pre.nodes@.len()
            &&& post.nodes.free_indices() == pre.nodes.free_indices().drop_last()
        }
    }

    /// Moves `node` into the scene and links it as a child of the root;
    /// returns its handle. The node must come in unlinked (no parent, no
    /// children), as `Node::new` builds it.
    pub fn add_node(&mut self, node: Node) -> (h: Handle)
        requires
            old(self).wf(),
            node.parent == Handle::spec_none(),
            node.children@.len() == 0,
        ensures
            final(self).wf(),
            Self::add_node_post(*old(self), *final(self), h, node),
    {
        proof {
            self.nodes.lemma_wf_len_bound();
        }
        let ghost pre = *self;
        let handle = self.nodes.spawn(node);
        let ghost spawned = *self;
        let root = self.root;
        proof {
            assert(handle.index != root.index);
            assert(handle != root);
            assert(!pre.nodes.is_live(handle));
            assert(spawned.wf()) by {
                assert forall|x: int, k: int|
                    spawned.live_at(x) && 0 <= k < spawned.node_at(x).children@.len() implies {
                    let c = #[trigger] spawned.node_at(x).children@[k];
                    &&& spawned.nodes.is_live(c)
                    &&& spawned.node_at(c.index as int).parent == spawned.handle_of(x)
                } by {
                    if x != handle.index as int {
                        assert(pre.node_at(x).children@[k] == spawned.node_at(x).children@[k]);
                        let c = spawned.node_at(x).children@[k];
                        assert(pre.nodes.is_live(c));
                        assert(c.index as int != handle.index as int);
                        assert(spawned.handle_of(x) == pre.handle_of(x));
                    }
                }
                assert forall|x: int|
                    spawned.live_at(x) && spawned.node_at(x).parent != Handle::spec_none() implies {
                    let p = #[trigger] spawned.node_at(x).parent;
                    &&& spawned.nodes.is_live(p)
                    &&& count_matches(
                        spawned.node_at(p.index as int).children@,
                        spawned.handle_of(x),
                    ) == 1
                } by {
                    if x != handle.index as int {
                        assert(pre.node_at(x).parent == spawned.node_at(x).parent);
                        let p = spawned.node_at(x).parent;
                        assert(pre.nodes.is_live(p));
                        assert(p.index as int != handle.index as int);
                        assert(spawned.handle_of(x) == pre.handle_of(x));
                        assert(spawned.node_at(p.index as int).children@ == pre.node_at(
                            p.index as int,
                        ).children@);
                    }
                }
            }
        }
        self.link_nodes(handle, root);
        proof {
            spawned.nodes.lemma_wf_len_bound();
            let mid = choose|mid: Scene|
                #[trigger] Scene::unlink_post(spawned, mid, handle) && Scene::attach_post(
                    mid,
                    *self,
                    handle,
                    root,
                );
            // unlinking the freshly spawned node (whose parent is already
            // none) left every slot's links and payload facts in place
            assert(!spawned.nodes.is_live(Handle::spec_none()));
            let hi = handle.index as int;
            let rj = root.index as int;
            assert(hi != rj);
            assert(mid.nodes@[rj] == spawned.nodes@[rj]);
            assert(spawned.node_at(hi) == node);
            assert(mid.node_at(hi).children@ =~= Seq::<Handle>::empty());
            assert(self.node_at(hi).children@ =~= Seq::<Handle>::empty());
            assert(node_links_set(self.node_at(hi), root, Seq::empty(), node));
            assert(forall|x: int|
                0 <= x < pre.nodes@.len() && x != hi && x != rj ==> #[trigger] self.nodes@[x]
                    == pre.nodes@[x]);
        }
        handle
    }

    /// Frees the node's slot, provided the node is fully detached: live, not
    /// the root, with no parent and no children. Anything else (a stale
    /// handle, the root, a node still linked or still carrying children) is
    /// left untouched, so callers unlink a subtree explicitly before
    /// removing its nodes.
    pub fn remove_node(&mut self, handle: Handle)
        requires
            old(self).wf(),
        ensures
            final(self).wf(),
            if handle != old(self).root && old(self).nodes.is_live(handle) && old(self).node_at(
                handle.index as int,
            ).parent == Handle::spec_none() && old(self).node_at(
                handle.index as int,
            ).children@.len() == 0 {
                &&& Pool::free_post(old(self).nodes, final(self).nodes, handle)
                &&& final(self).root == old(self).root
                &&& final(self).stack@ == old(self).stack@
            } else {
                *final(self) == *old(self)
            },
    {
        let ghost pre = *self;
        if handle == self.root {
            return ;
        }
        let detached = match self.nodes.borrow(handle) {
            Some(node) => node.children.len() == 0 && node.parent.is_none(),
            None => false,
        };
        if !detached {
            return ;
        }
        self.nodes.free(handle);
        proof {
            pre.nodes.lemma_wf_len_bound();
            let j = handle.index as int;
            assert(pre.handle_of(j) == handle);
            assert forall|x: int| pre.live_at(x) implies !pre.node_at(x).children@.contains(
                handle,
            ) by {
                if pre.node_at(x).children@.contains(handle) {
                    let k = choose|k: int|
                        0 <= k < pre.node_at(x).children@.len() && pre.node_at(x).children@[k]
                            == handle;
                    assert(pre.node_at(x).children@[k] == handle);
                    assert(pre.node_at(j).parent == pre.handle_of(x));
                    assert(pre.handle_of(x).index != INVALID_INDEX);
                }
            }
            assert forall|x: int, k: int|
                self.live_at(x) && 0 <= k < self.node_at(x).children@.len() implies {
                let c = #[trigger] self.node_at(x).children@[k];
                &&& self.nodes.is_live(c)
                &&& self.node_at(c.index as int).parent == self.handle_of(x)
            } by {
                assert(x != j);
                assert(pre.node_at(x).children@[k] == self.node_at(x).children@[k]);
                let c = self.node_at(x).children@[k];
                assert(pre.nodes.is_live(c));
                assert(c != handle);
                assert(c.index as int != j);
            }
            assert forall|x: int|
                self.live_at(x) && self.node_at(x).parent != Handle::spec_none() implies {
                let p = #[trigger] self.node_at(x).parent;
                &&& self.nodes.is_live(p)
                &&& count_matches(self.node_at(p.index as int).children@, self.handle_of(x)) == 1
            } by {
                assert(x != j);
                assert(pre.node_at(x).parent == self.node_at(x).parent);
                let p = self.node_at(x).parent;
                assert(pre.nodes.is_live(p));
                if p.index as int == j {
                    assert(p == handle);
                    lemma_count_contains(pre.node_at(j).children@, pre.handle_of(x));
                    assert(false);
                }
            }
        }
    }

    /// Read access to a node through its handle; nothing for a stale
    /// handle.
    pub fn borrow_node(&self, handle: Handle) -> (r: Option<&Node>)
        ensures
            match r {
                Some(n) => self.nodes.is_live(handle) && *n == self.node_at(handle.index as int),
                None => !self.nodes.is_live(handle),
            },
    {
        self.nodes.borrow(handle)
    }

    /// Write access to a node through its handle. The caller is handed the
    /// node itself; the scene invariant continues to hold as long as the
    /// caller leaves the `parent` and `children` links alone, which every
    /// method of `Node` does.
    pub fn borrow_node_mut(&mut self, handle: Handle) -> (r: Option<&mut Node>)
        requires
            old(self).wf(),
        ensures
            final(self).root == old(self).root,
            final(self).stack == old(self).stack,
            final(self).nodes.wf(),
            final(self).nodes.free_indices() == old(self).nodes.free_indices(),
            match r {
                Some(m) => {
                    &&& old(self).nodes.is_live(handle)
                    &&& *m == old(self).node_at(handle.index as int)
                    &&& final(self).nodes@ == old(self).nodes@.update(
                        handle.index as int,
                        (Slot::Occupied { generation: handle.generation, payload: *final(m) }),
                    )
                },
                None => {
                    &&& !old(self).nodes.is_live(handle)
                    &&& *final(self) == *old(self)
                },
            },
    {
        self.nodes.borrow_mut(handle)
    }

    /// Clears the parent link of the node `handle` points at and removes the
    /// node from its old parent's children (the first occurrence, which
    /// under the invariant is the only one). A stale handle changes
    /// nothing.
    pub fn unlink_node(&mut self, node_handle: Handle)
        requires
            old(self).wf(),
        ensures
            final(self).wf(),
            Self::unlink_post(*old(self), *final(self), node_handle),
    {
        let ghost pre = *old(self);
        let mut parent_handle = Handle::none();
        let mut was_live = false;
        match self.nodes.borrow_mut(node_handle) {
            Some(node) => {
                parent_handle = node.parent;
                node.parent = Handle::none();
                was_live = true;
            },
            None => {},
        }
        if !was_live {
            return ;
        }
        let ghost mid = *self;
        let ghost j = node_handle.index as int;
        match self.nodes.borrow_mut(parent_handle) {
            Some(parent) => {
                let n = parent.children.len();
                let mut pos: usize = 0;
                let mut found: usize = n;
                while pos < n
                    invariant
                        n == parent.children@.len(),
                        pos <= n,
                        found <= n,
                        found == n ==> forall|k: int|
                            0 <= k < pos ==> #[trigger] parent.children@[k] != node_handle,
                        found < n ==> parent.children@[found as int] == node_handle && (forall|
                            k: int,
                        |
                            0 <= k < found ==> #[trigger] parent.children@[k] != node_handle),
                    decreases n - pos,
                {
                    if found == n && parent.children[pos] == node_handle {
                        found = pos;
                    }
                    pos = pos + 1;
                }
                proof {
                    lemma_first_index_properties(parent.children@, node_handle);
                    if found < n {
                        assert(parent.children@.contains(node_handle)) by {
                            assert(parent.children@[found as int] == node_handle);
                        }
                        assert(first_index_of(parent.children@, node_handle) == found as int);
                    } else {
                        assert(forall|k: int|
                            0 <= k < parent.children@.len() ==> #[trigger] parent.children@[k]
                                != node_handle);
                        if parent.children@.contains(node_handle) {
                            let i = choose|i: int|
                                0 <= i < parent.children@.len() && parent.children@[i]
                                    == node_handle;
                            assert(parent.children@[i] == node_handle);
                            assert(false);
                        }
                        assert(!parent.children@.contains(node_handle));
                    }
                }
                if found < n {
                    parent.children.remove(found);
                }
            },
            None => {},
        }
        proof {
            lemma_unlink_restores_wf(pre, mid, *self, node_handle, parent_handle);
        }
    }

    /// Relation between the scene before and after `unlink_node(h)`: the
    /// node's parent link is cleared and its old parent (when it is live,
    /// possibly the node itself) loses the first listing of the node;
    /// everything else, including the traversal stack and root, is
    /// untouched.
    pub open spec fn unlink_post(pre: Scene, post: Scene, h: Handle) -> bool {
        if !pre.nodes.is_live(h) {
            post == pre
        } else {
            let j = h.index as int;
            let par = pre.node_at(j).parent;
            &&& post.root == pre.root
            &&& post.stack@ == pre.stack@
            &&& post.nodes.wf()
            &&& post.nodes.free_indices() == pre.nodes.free_indices()
            &&& post.nodes@.len() == pre.nodes@.len()
            &&& (forall|x: int|
                0 <= x < pre.nodes@.len() ==> slot_generation(#[trigger] post.nodes@[x])
                    == slot_generation(pre.nodes@[x]) && ((post.nodes@[x] is Occupied) <==> (
                pre.nodes@[x] is Occupied)))
            &&& if pre.nodes.is_live(par) {
                let pj = par.index as int;
                let base_children = if pj == j {
                    pre.node_at(j).children@
                } else {
                    pre.node_at(pj).children@
                };
                let fi = first_index_of(base_children, h);
                let new_children = if fi >= 0 {
                    base_children.remove(fi)
                } else {
                    base_children
                };
                &&& (pj == j ==> node_links_set(
                    post.node_at(j),
                    Handle::spec_none(),
                    new_children,
                    pre.node_at(j),
                ))
                &&& (pj != j ==> node_links_set(
                    post.node_at(j),
                    Handle::spec_none(),
                    pre.node_at(j).children@,
                    pre.node_at(j),
                ) && node_links_set(
                    post.node_at(pj),
                    pre.node_at(pj).parent,
                    new_children,
                    pre.node_at(pj),
                ))
                &&& forall|x: int|
                    0 <= x < pre.nodes@.len() && x != j && x != pj ==> #[trigger] post.nodes@[x]
                        == pre.nodes@[x]
            } else {
                &&& node_links_set(
                    post.node_at(j),
                    Handle::spec_none(),
                    pre.node_at(j).children@,
                    pre.node_at(j),
                )
                &&& forall|x: int|
                    0 <= x < pre.nodes@.len() && x != j ==> #[trigger] post.nodes@[x]
                        == pre.nodes@[x]
            }
        }
    }

    /// The local transform the update pass composes the global transform of
    /// slot `j` against: the parent's recomputed local transform, or the
    /// identity when the node has no live parent (the root).
    pub open spec fn parent_local_of(self, j: int) -> Mat4 {
        let par = self.node_at(j).parent;
        if self.nodes.is_live(par) {
            composed_of(self.node_at(par.index as int).components())
        } else {
            mats_identity()
        }
    }

    /// The slot `j` as the update pass leaves it.
    pub open spec fn updated_slot(self, j: int, aspect: i64) -> Slot<Node> {
        Slot::Occupied {
            generation: slot_generation(self.nodes@[j]),
            payload: updated_node(self.node_at(j), self.parent_local_of(j), aspect),
        }
    }

    /// `h` can be reached from the root in at most `fuel` child steps: it
    /// is live, and either it is the root or its parent is live, lists it,
    /// and is itself reachable one step earlier.
    pub open spec fn reachable(self, h: Handle, fuel: nat) -> bool
        decreases fuel,
    {
        self.nodes.is_live(h) && (h == self.root || (fuel > 0 && {
            let p = self.node_at(h.index as int).parent;
            self.nodes.is_live(p) && self.node_at(p.index as int).children@.contains(h)
                && self.reachable(p, (fuel - 1) as nat)
        }))
    }

    /// Relation between the scene before and after `update(aspect)`: every
    /// node reachable from the root is left exactly as `updated_slot` says
    /// (parents always recomputed before their children read them), every
    /// unreachable slot is untouched, and no link, component or name moves
    /// anywhere.
    pub open spec fn update_rel(pre: Scene, post: Scene, aspect: i64) -> bool {
        &&& post.root == pre.root
        &&& post.stack@.len() == 0
        &&& post.nodes.wf()
        &&& post.nodes.free_indices() == pre.nodes.free_indices()
        &&& post.nodes@.len() == pre.nodes@.len()
        &&& forall|h: Handle, fuel: nat|
            #[trigger] pre.reachable(h, fuel) && pre.nodes.is_live(h)
                ==> post.nodes@[h.index as int] == pre.updated_slot(h.index as int, aspect)
        &&& forall|j: int|
            0 <= j < pre.nodes@.len() && !(exists|h: Handle, fuel: nat|
                #[trigger] pre.reachable(h, fuel) && pre.nodes.is_live(h) && h.index as int == j)
                ==> #[trigger] post.nodes@[j] == pre.nodes@[j]
    }

    /// The transform-propagation pass, run once per frame: an iterative
    /// pre-order traversal from the root (an explicit stack, so arbitrarily
    /// deep trees cannot overflow the call stack). Every visited node's
    /// local transform is recomposed from its components, its global
    /// transform is the product of that with its parent's just-recomputed
    /// local transform (the root composes against the identity), and camera
    /// payloads get their view and projection matrices refreshed from the
    /// new global transform and the given aspect ratio.
    #[verifier::rlimit(100)]
    #[verifier::spinoff_prover]
    pub fn update(&mut self, aspect_ratio: i64)
        requires
            old(self).wf(),
        ensures
            final(self).wf(),
            Self::update_rel(*old(self), *final(self), aspect_ratio),
    {
        proof {
            self.nodes.lemma_wf_len_bound();
        }
        let ghost pre = *old(self);
        let ghost mut done: Set<int> = Set::empty();
        self.stack.clear();
        let root = self.root;
        self.stack.push(root);
        proof {
            assert(self.stack@[0] == pre.root);
            assert(pre.reachable(pre.root, 0));
        }
        loop
            invariant
                pre.wf(),
                pre.nodes@.len() <= usize::MAX,
                self.root == pre.root,
                self.nodes.wf(),
                self.nodes.free_indices() == pre.nodes.free_indices(),
                self.nodes@.len() == pre.nodes@.len(),
                forall|j: int|
                    0 <= j < pre.nodes@.len() ==> #[trigger] self.nodes@[j] == if done.contains(j) {
                        pre.updated_slot(j, aspect_ratio)
                    } else {
                        pre.nodes@[j]
                    },
                forall|j: int|
                    #[trigger] done.contains(j) ==> pre.live_at(j) && (exists|f: nat|
                        pre.reachable(pre.handle_of(j), f)),
                forall|k: int|
                    0 <= k < self.stack@.len() ==> {
                        let h = #[trigger] self.stack@[k];
                        &&& pre.nodes.is_live(h)
                        &&& (exists|f: nat| pre.reachable(h, f))
                        &&& (h == pre.root || (pre.nodes.is_live(
                            pre.node_at(h.index as int).parent,
                        ) && done.contains(pre.node_at(h.index as int).parent.index as int)))
                    },
                forall|j: int, k: int|
                    #![trigger done.contains(j), pre.node_at(j).children@[k]]
                    done.contains(j) && 0 <= k < pre.node_at(j).children@.len() ==> {
                        let c = pre.node_at(j).children@[k];
                        done.contains(c.index as int) || self.stack@.contains(c)
                    },
                done.contains(pre.root.index as int) || self.stack@.contains(pre.root),
                done.finite(),
                done.len() <= pre.nodes@.len(),
                forall|k1: int, k2: int|
                    0 <= k1 < k2 < self.stack@.len() ==> (#[trigger] self.stack@[k1]).index != (
                    #[trigger] self.stack@[k2]).index,
                forall|k: int|
                    0 <= k < self.stack@.len() ==> !done.contains(
                        (#[trigger] self.stack@[k]).index as int,
                    ),
                forall|j: int|
                    #[trigger] done.contains(j) ==> (pre.handle_of(j) == pre.root || (
                    pre.nodes.is_live(pre.node_at(j).parent) && done.contains(
                        pre.node_at(j).parent.index as int,
                    ))),
            ensures
                self.stack@.len() == 0,
            decreases pre.nodes@.len() - done.len(),
        {
            if self.stack.len() == 0 {
                break ;
            }
            let ghost stack_head = self.stack@;
            let handle_opt = self.stack.pop();
            let handle = match handle_opt {
                Some(h) => h,
                None => {
                    proof {
                        assert(false);
                    }
                    Handle::none()
                },
            };
            let ghost popped_stack = self.stack@;
            proof {
                assert(popped_stack.push(handle) =~= stack_head);
            }
            let ghost hi = handle.index as int;
            proof {
                assert(pre.nodes.is_live(handle));
            }
            // recompose the node's local transform and read its parent link
            let mut parent_handle = Handle::none();
            match self.nodes.borrow_mut(handle) {
                Some(node) => {
                    node.calculate_local_transform();
                    parent_handle = node.parent;
                },
                None => {
                    proof {
                        assert(false);
                    }
                },
            }
            proof {
                assert(parent_handle == pre.node_at(hi).parent);
            }
            // the parent (processed earlier, or absent for the root) supplies
            // its recomputed local transform
            let mut parent_local = mat_identity();
            match self.nodes.borrow(parent_handle) {
                Some(p) => {
                    parent_local = p.local_transform;
                },
                None => {},
            }
            proof {
                assert(parent_local == pre.parent_local_of(hi)) by {
                    reveal(updated_node);
                }
            }
            // compose the global transform and refresh a camera's matrices
            match self.nodes.borrow_mut(handle) {
                Some(node) => {
                    node.global_transform = mat_mul(&node.local_transform, &parent_local);
                    let eye = node.get_global_position();
                    let look = node.get_look_vector();
                    let up = node.get_up_vector();
                    match &mut node.kind {
                        NodeKind::Camera(camera) => {
                            camera.calculate_matrices(eye, look, up, aspect_ratio);
                        },
                        _ => {},
                    }
                },
                None => {
                    proof {
                        assert(false);
                    }
                },
            }
            let ghost done0 = done;
            proof {
                done = done.insert(hi);
                assert(self.nodes@[hi] == pre.updated_slot(hi, aspect_ratio)) by {
                    reveal(updated_node);
                    reveal(updated_camera);
                }
            }
            // queue the node's children
            let n_children = match self.nodes.borrow(handle) {
                Some(node) => node.children.len(),
                None => 0,
            };
            let ghost nodes_snap = self.nodes;
            let ghost stack_snap = self.stack@;
            let mut ci: usize = 0;
            while ci < n_children
                invariant
                    pre.nodes@.len() <= usize::MAX,
                    self.root == pre.root,
                    self.nodes == nodes_snap,
                    pre.nodes.is_live(handle),
                    done.contains(handle.index as int),
                    self.nodes.is_live(handle),
                    n_children == pre.node_at(handle.index as int).children@.len(),
                    self.node_at(handle.index as int).children@ == pre.node_at(
                        handle.index as int,
                    ).children@,
                    ci <= n_children,
                    self.stack@ == stack_snap + pre.node_at(handle.index as int).children@.subrange(
                        0,
                        ci as int,
                    ),
                decreases n_children - ci,
            {
                let c = match self.nodes.borrow(handle) {
                    Some(node) => node.children[ci],
                    None => Handle::none(),
                };
                self.stack.push(c);
                proof {
                    assert(self.stack@ =~= stack_snap + pre.node_at(
                        handle.index as int,
                    ).children@.subrange(0, ci as int + 1));
                }
                ci = ci + 1;
            }
            proof {
                assert(self.stack@ == stack_snap + pre.node_at(hi).children@.subrange(
                    0,
                    n_children as int,
                ));
                assert(pre.node_at(hi).children@.subrange(0, n_children as int) =~= pre.node_at(
                    hi,
                ).children@);
                // restore the loop invariants for the grown stack and done set
                lemma_update_iteration(pre, self.stack@, done0, handle, popped_stack, aspect_ratio);
                assert(done == done0.insert(hi));
            }
        }
        proof {
            // the stack is empty: everything reachable was processed
            assert(self.stack@.len() == 0);
            assert(done.contains(pre.root.index as int));
            assert forall|j: int, k: int|
                #![trigger done.contains(j), pre.node_at(j).children@[k]]
                done.contains(j) && 0 <= k < pre.node_at(j).children@.len() implies done.contains(
                pre.node_at(j).children@[k].index as int,
            ) by {
                assert(!self.stack@.contains(pre.node_at(j).children@[k]));
            }
            assert forall|h: Handle, fuel: nat|
                #[trigger] pre.reachable(h, fuel) && pre.nodes.is_live(h) implies self.nodes@[h.index as int]
                == pre.updated_slot(h.index as int, aspect_ratio) by {
                lemma_reachable_in_done(pre, done, h, fuel);
            }
            assert forall|j: int|
                0 <= j < pre.nodes@.len() && !(exists|h: Handle, fuel: nat|
                    #[trigger] pre.reachable(h, fuel) && pre.nodes.is_live(h) && h.index as int
                        == j) implies #[trigger] self.nodes@[j] == pre.nodes@[j] by {
                if done.contains(j) {
                    let f = choose|f: nat| pre.reachable(pre.handle_of(j), f);
                    assert(pre.reachable(pre.handle_of(j), f) && pre.nodes.is_live(
                        pre.handle_of(j),
                    ) && pre.handle_of(j).index as int == j);
                    assert(false);
                }
            }
            lemma_update_preserves_wf(pre, *self, done, aspect_ratio);
        }
    }

    /// Relation of the attaching half of `link_nodes`, starting from a
    /// scene in which the child is live and unlinked: the child's parent
    /// becomes `p` and the parent's children list grows by the child at the
    /// end; nothing else moves.
    pub open spec fn attach_post(pre: Scene, post: Scene, c: Handle, p: Handle) -> bool {
        let ci = c.index as int;
        let pj = p.index as int;
        &&& post.root == pre.root
        &&& post.stack@ == pre.stack@
        &&& post.nodes.wf()
        &&& post.nodes.free_indices() == pre.nodes.free_indices()
        &&& post.nodes@.len() == pre.nodes@.len()
        &&& (forall|x: int|
            0 <= x < pre.nodes@.len() ==> slot_generation(#[trigger] post.nodes@[x])
                == slot_generation(pre.nodes@[x]) && ((post.nodes@[x] is Occupied) <==> (
            pre.nodes@[x] is Occupied)))
        &&& if ci == pj {
            &&& node_links_set(
                post.node_at(ci),
                p,
                pre.node_at(ci).children@.push(c),
                pre.node_at(ci),
            )
            &&& forall|x: int|
                0 <= x < pre.nodes@.len() && x != ci ==> #[trigger] post.nodes@[x]
                    == pre.nodes@[x]
        } else {
            &&& node_links_set(post.node_at(ci), p, pre.node_at(ci).children@, pre.node_at(ci))
            &&& node_links_set(
                post.node_at(pj),
                pre.node_at(pj).parent,
                pre.node_at(pj).children@.push(c),
                pre.node_at(pj),
            )
            &&& forall|x: int|
                0 <= x < pre.nodes@.len() && x != ci && x != pj ==> #[trigger] post.nodes@[x]
                    == pre.nodes@[x]
        }
    }

    /// Relation between the scene before and after `link_nodes(c, p)`: the
    /// root cannot be re-parented and a stale child changes nothing; a live
    /// child is first unlinked, and then attached under `p` when `p` is
    /// live too.
    pub open spec fn link_post(pre: Scene, post: Scene, c: Handle, p: Handle) -> bool {
        if c == pre.root || !pre.nodes.is_live(c) {
            post == pre
        } else if !pre.nodes.is_live(p) {
            Self::unlink_post(pre, post, c)
        } else {
            exists|mid: Scene|
                #[trigger] Self::unlink_post(pre, mid, c) && Self::attach_post(mid, post, c, p)
        }
    }

    /// Re-parents `child_handle` under `parent_handle`: unlinks the child
    /// from wherever it was, then appends it to the new parent's children.
    /// A stale child or parent handle degrades to the unlink (or to nothing),
    /// and the root cannot be re-parented.
    pub fn link_nodes(&mut self, child_handle: Handle, parent_handle: Handle)
        requires
            old(self).wf(),
        ensures
            final(self).wf(),
            Self::link_post(*old(self), *final(self), child_handle, parent_handle),
    {
        proof {
            self.nodes.lemma_wf_len_bound();
        }
        if child_handle == self.root {
            return ;
        }
        let child_live = match self.nodes.borrow(child_handle) {
            Some(_) => true,
            None => false,
        };
        if !child_live {
            return ;
        }
        self.unlink_node(child_handle);
        let ghost mid = *self;
        let parent_live = match self.nodes.borrow(parent_handle) {
            Some(_) => true,
            None => false,
        };
        if !parent_live {
            return ;
        }
        match self.nodes.borrow_mut(child_handle) {
            Some(child) => {
                child.parent = parent_handle;
            },
            None => {
                proof {
                    assert(false);
                }
            },
        }
        let ghost mid2 = *self;
        match self.nodes.borrow_mut(parent_handle) {
            Some(parent) => {
                parent.children.push(child_handle);
            },
            None => {
                proof {
                    assert(false);
                }
            },
        }
        proof {
            lemma_attach_restores_wf(mid, mid2, *self, child_handle, parent_handle);
            assert(Self::unlink_post(*old(self), mid, child_handle) && Self::attach_post(
                mid,
                *self,
                child_handle,
                parent_handle,
            ));
        }
    }

    /// Swapping one node's payload for another with the same links keeps
    /// the scene well formed.
    pub proof fn lemma_wf_after_payload_swap(pre: Scene, post: Scene, j: int)
        requires
            pre.wf(),
            post.root == pre.root,
            pre.live_at(j),
            post.nodes.wf(),
            post.nodes@ == pre.nodes@.update(
                j,
                (Slot::Occupied {
                    generation: slot_generation(pre.nodes@[j]),
                    payload: post.node_at(j),
                }),
            ),
            post.node_at(j).parent == pre.node_at(j).parent,
            post.node_at(j).children == pre.node_at(j).children,
        ensures
            post.wf(),
    {
        assert forall|x: int, k: int|
            post.live_at(x) && 0 <= k < post.node_at(x).children@.len() implies {
            let c = #[trigger] post.node_at(x).children@[k];
            &&& post.nodes.is_live(c)
            &&& post.node_at(c.index as int).parent == post.handle_of(x)
        } by {
            assert(pre.node_at(x).children@[k] == post.node_at(x).children@[k]);
        }
        assert forall|x: int|
            post.live_at(x) && post.node_at(x).parent != Handle::spec_none() implies {
            let p = #[trigger] post.node_at(x).parent;
            &&& post.nodes.is_live(p)
            &&& count_matches(post.node_at(p.index as int).children@, post.handle_of(x)) == 1
        } by {
            assert(pre.node_at(x).parent == post.node_at(x).parent);
        }
    }
}

/// One iteration of the update traversal keeps its bookkeeping invariants:
/// after processing `handle` (popped from the stack) and pushing its
/// children, every stack entry is live, reachable and has a processed
/// parent, the processed set stays closed up to the stack, and the root
/// stays covered.
pub(crate) proof fn lemma_update_iteration(
    pre: Scene,
    new_stack: Seq<Handle>,
    done0: Set<int>,
    handle: Handle,
    popped_stack: Seq<Handle>,
    aspect: i64,
)
    requires
        pre.wf(),
        pre.nodes@.len() <= usize::MAX,
        pre.nodes.is_live(handle),
        exists|f: nat| pre.reachable(handle, f),
        forall|j: int|
            #[trigger] done0.contains(j) ==> pre.live_at(j) && (exists|f: nat|
                pre.reachable(pre.handle_of(j), f)),
        forall|k: int|
            0 <= k < popped_stack.len() + 1 ==> {
                let h = #[trigger] popped_stack.push(handle)[k];
                &&& pre.nodes.is_live(h)
                &&& (exists|f: nat| pre.reachable(h, f))
                &&& (h == pre.root || (pre.nodes.is_live(pre.node_at(h.index as int).parent)
                    && done0.contains(pre.node_at(h.index as int).parent.index as int)))
            },
        forall|j: int, k: int|
            #![trigger done0.contains(j), pre.node_at(j).children@[k]]
            done0.contains(j) && 0 <= k < pre.node_at(j).children@.len() ==> {
                let c = pre.node_at(j).children@[k];
                done0.contains(c.index as int) || popped_stack.push(handle).contains(c)
            },
        done0.contains(pre.root.index as int) || popped_stack.push(handle).contains(pre.root),
        done0.finite(),
        forall|k1: int, k2: int|
            0 <= k1 < k2 < popped_stack.len() + 1 ==> (#[trigger] popped_stack.push(handle)[k1]).index
                != (#[trigger] popped_stack.push(handle)[k2]).index,
        forall|k: int|
            0 <= k < popped_stack.len() + 1 ==> !done0.contains(
                (#[trigger] popped_stack.push(handle)[k]).index as int,
            ),
        forall|j: int|
            #[trigger] done0.contains(j) ==> (pre.handle_of(j) == pre.root || (pre.nodes.is_live(
                pre.node_at(j).parent,
            ) && done0.contains(pre.node_at(j).parent.index as int))),
        new_stack == popped_stack + pre.node_at(handle.index as int).children@,
    ensures
        forall|j: int|
            #[trigger] done0.insert(handle.index as int).contains(j) ==> pre.live_at(j) && (
            exists|f: nat| pre.reachable(pre.handle_of(j), f)),
        forall|k: int|
            0 <= k < new_stack.len() ==> {
                let h = #[trigger] new_stack[k];
                &&& pre.nodes.is_live(h)
                &&& (exists|f: nat| pre.reachable(h, f))
                &&& (h == pre.root || (pre.nodes.is_live(pre.node_at(h.index as int).parent)
                    && done0.insert(handle.index as int).contains(
                    pre.node_at(h.index as int).parent.index as int,
                )))
            },
        forall|j: int, k: int|
            #![trigger done0.insert(handle.index as int).contains(j), pre.node_at(j).children@[k]]
            done0.insert(handle.index as int).contains(j) && 0 <= k < pre.node_at(
                j,
            ).children@.len() ==> {
                let c = pre.node_at(j).children@[k];
                done0.insert(handle.index as int).contains(c.index as int) || new_stack.contains(
                    c,
                )
            },
        done0.insert(handle.index as int).contains(pre.root.index as int) || new_stack.contains(
            pre.root,
        ),
        !done0.contains(handle.index as int),
        done0.insert(handle.index as int).finite(),
        done0.insert(handle.index as int).len() <= pre.nodes@.len(),
        forall|k1: int, k2: int|
            0 <= k1 < k2 < new_stack.len() ==> (#[trigger] new_stack[k1]).index != (
            #[trigger] new_stack[k2]).index,
        forall|k: int|
            0 <= k < new_stack.len() ==> !done0.insert(handle.index as int).contains(
                (#[trigger] new_stack[k]).index as int,
            ),
        forall|j: int|
            #[trigger] done0.insert(handle.index as int).contains(j) ==> (pre.handle_of(j)
                == pre.root || (pre.nodes.is_live(pre.node_at(j).parent) && done0.insert(
                handle.index as int,
            ).contains(pre.node_at(j).parent.index as int))),
{
    let hi = handle.index as int;
    let done = done0.insert(hi);
    let stack_old = popped_stack.push(handle);
    let children = pre.node_at(hi).children@;
    assert(pre.handle_of(hi) == handle);
    // stack entries: survivors keep their facts, fresh children gain theirs
    assert forall|k: int| 0 <= k < new_stack.len() implies {
        let h = #[trigger] new_stack[k];
        &&& pre.nodes.is_live(h)
        &&& (exists|f: nat| pre.reachable(h, f))
        &&& (h == pre.root || (pre.nodes.is_live(pre.node_at(h.index as int).parent)
            && done.contains(pre.node_at(h.index as int).parent.index as int)))
    } by {
        let h = new_stack[k];
        if k < popped_stack.len() {
            assert(stack_old[k] == h);
        } else {
            let kc = k - popped_stack.len();
            assert(children[kc] == h);
            assert(pre.nodes.is_live(h));
            assert(pre.node_at(h.index as int).parent == handle);
            let f = choose|f: nat| pre.reachable(handle, f);
            let fuel1: nat = f + 1;
            assert(pre.reachable(h, fuel1)) by {
                assert(children[kc] == h);
                assert(children.contains(h));
                assert((fuel1 - 1) as nat == f);
                assert(pre.reachable(handle, (fuel1 - 1) as nat));
            }
        }
    }
    // closure of the processed set
    assert forall|j: int, k: int|
        done.contains(j) && 0 <= k < pre.node_at(j).children@.len() implies {
        let c = #[trigger] pre.node_at(j).children@[k];
        done.contains(c.index as int) || new_stack.contains(c)
    } by {
        let c = pre.node_at(j).children@[k];
        if j == hi {
            assert(new_stack[popped_stack.len() + k] == c);
        } else {
            assert(done0.contains(j));
            if !done0.contains(c.index as int) {
                assert(stack_old.contains(c));
                let i = choose|i: int| 0 <= i < stack_old.len() && stack_old[i] == c;
                if i < popped_stack.len() {
                    assert(new_stack[i] == c);
                } else {
                    assert(c == handle);
                }
            }
        }
    }
    // the root stays covered
    if !done0.contains(pre.root.index as int) {
        assert(stack_old.contains(pre.root));
        let i = choose|i: int| 0 <= i < stack_old.len() && stack_old[i] == pre.root;
        if i < popped_stack.len() {
            assert(new_stack[i] == pre.root);
        } else {
            assert(pre.root == handle);
        }
    }
    // the popped node was fresh, and the handle is a real (non-sentinel) one
    assert(stack_old[popped_stack.len() as int] == handle);
    assert(!done0.contains(hi));
    assert(handle != Handle::spec_none());
    // no child is the processed node itself, nor already processed
    assert forall|kc: int| 0 <= kc < children.len() implies {
        let c = #[trigger] children[kc];
        c.index as int != hi && !done0.contains(c.index as int)
    } by {
        let c = children[kc];
        assert(pre.nodes.is_live(c));
        assert(pre.node_at(c.index as int).parent == handle);
        if c.index as int == hi {
            assert(c == handle);
            if handle == pre.root {
                assert(pre.node_at(pre.root.index as int).parent == Handle::spec_none());
                assert(false);
            } else {
                assert(done0.contains(hi));
                assert(false);
            }
        }
        if done0.contains(c.index as int) {
            assert(pre.handle_of(c.index as int) == c);
            if c == pre.root {
                assert(pre.node_at(pre.root.index as int).parent == Handle::spec_none());
                assert(false);
            } else {
                assert(done0.contains(hi));
                assert(false);
            }
        }
    }
    // indices on the new stack are pairwise distinct
    assert forall|k1: int, k2: int| 0 <= k1 < k2 < new_stack.len() implies (
    #[trigger] new_stack[k1]).index != (#[trigger] new_stack[k2]).index by {
        let a = new_stack[k1];
        let b = new_stack[k2];
        if k1 < popped_stack.len() && k2 < popped_stack.len() {
            assert(stack_old[k1] == a && stack_old[k2] == b);
        } else if k1 < popped_stack.len() {
            let kc = k2 - popped_stack.len();
            assert(children[kc] == b);
            assert(stack_old[k1] == a);
            if a.index == b.index {
                assert(pre.nodes.is_live(a) && pre.nodes.is_live(b));
                assert(a == b);
                assert(pre.node_at(b.index as int).parent == handle);
                if a == pre.root {
                    assert(pre.node_at(pre.root.index as int).parent == Handle::spec_none());
                    assert(false);
                } else {
                    assert(done0.contains(hi));
                    assert(false);
                }
            }
        } else {
            let kc1 = k1 - popped_stack.len();
            let kc2 = k2 - popped_stack.len();
            assert(children[kc1] == a && children[kc2] == b);
            if a.index == b.index {
                assert(pre.nodes.is_live(a) && pre.nodes.is_live(b));
                assert(a == b);
                assert(pre.node_at(a.index as int).parent == handle);
                assert(count_matches(
                    pre.node_at(hi).children@,
                    pre.handle_of(a.index as int),
                ) == 1);
                assert(pre.handle_of(a.index as int) == a);
                lemma_count_two(children, kc1, kc2, a);
                assert(false);
            }
        }
    }
    // nothing on the new stack is processed
    assert forall|k: int| 0 <= k < new_stack.len() implies !done.contains(
        (#[trigger] new_stack[k]).index as int,
    ) by {
        let h2 = new_stack[k];
        if k < popped_stack.len() {
            assert(stack_old[k] == h2);
            assert(!done0.contains(h2.index as int));
            assert(h2.index != handle.index);
        } else {
            let kc = k - popped_stack.len();
            assert(children[kc] == h2);
        }
    }
    // the processed set stays closed under parents
    assert forall|j: int| done.contains(j) implies (pre.handle_of(j) == pre.root || (
    pre.nodes.is_live(pre.node_at(j).parent) && done.contains(
        pre.node_at(j).parent.index as int,
    ))) by {
        if j == hi && handle != pre.root {
            assert(pre.nodes.is_live(pre.node_at(hi).parent) && done0.contains(
                pre.node_at(hi).parent.index as int,
            ));
        }
    }
    // the processed set cannot outgrow the slot count
    assert(done.subset_of(set_int_range(0, pre.nodes@.len() as int))) by {
        assert forall|j: int| done.contains(j) implies set_int_range(
            0,
            pre.nodes@.len() as int,
        ).contains(j) by {
            assert(pre.live_at(j));
        }
    }
    lemma_int_range(0, pre.nodes@.len() as int);
    lemma_len_subset(done, set_int_range(0, pre.nodes@.len() as int));
}

/// Once the traversal stack has drained, the processed set covers every
/// node reachable from the root.
pub(crate) proof fn lemma_reachable_in_done(pre: Scene, done: Set<int>, h: Handle, fuel: nat)
    requires
        pre.wf(),
        done.contains(pre.root.index as int),
        forall|j: int|
            #[trigger] done.contains(j) ==> pre.live_at(j),
        forall|j: int, k: int|
            #![trigger done.contains(j), pre.node_at(j).children@[k]]
            done.contains(j) && 0 <= k < pre.node_at(j).children@.len() ==> done.contains(
                pre.node_at(j).children@[k].index as int,
            ),
        pre.reachable(h, fuel),
        pre.nodes.is_live(h),
    ensures
        done.contains(h.index as int),
    decreases fuel,
{
    if h != pre.root {
        assert(pre.reachable(h, fuel));
        let p = pre.node_at(h.index as int).parent;
        assert(fuel > 0 && pre.nodes.is_live(p) && pre.node_at(p.index as int).children@.contains(
            h,
        ) && pre.reachable(p, (fuel - 1) as nat));
        lemma_reachable_in_done(pre, done, p, (fuel - 1) as nat);
        let k = choose|k: int|
            0 <= k < pre.node_at(p.index as int).children@.len() && pre.node_at(
                p.index as int,
            ).children@[k] == h;
        assert(pre.node_at(p.index as int).children@[k] == h);
    }
}

/// The update pass touches only cached transforms and camera matrices, so
/// the link invariant survives it.
proof fn lemma_update_preserves_wf(pre: Scene, cur: Scene, done: Set<int>, aspect: i64)
    requires
        pre.wf(),
        cur.root == pre.root,
        cur.nodes.wf(),
        cur.nodes@.len() == pre.nodes@.len(),
        forall|j: int|
            0 <= j < pre.nodes@.len() ==> #[trigger] cur.nodes@[j] == if done.contains(j) {
                pre.updated_slot(j, aspect)
            } else {
                pre.nodes@[j]
            },
        forall|j: int| #[trigger] done.contains(j) ==> pre.live_at(j),
    ensures
        cur.wf(),
{
    reveal(updated_node);
    reveal(updated_camera);
    assert(forall|j: int|
        0 <= j < pre.nodes@.len() ==> slot_generation(#[trigger] cur.nodes@[j]) == slot_generation(
            pre.nodes@[j],
        ) && ((cur.nodes@[j] is Occupied) <==> (pre.nodes@[j] is Occupied)));
    assert forall|j: int| cur.live_at(j) implies #[trigger] cur.node_at(j).parent == pre.node_at(
        j,
    ).parent && cur.node_at(j).children@ == pre.node_at(j).children@ && cur.handle_of(j)
        == pre.handle_of(j) by {}
    assert forall|x: int, k: int|
        cur.live_at(x) && 0 <= k < cur.node_at(x).children@.len() implies {
        let c = #[trigger] cur.node_at(x).children@[k];
        &&& cur.nodes.is_live(c)
        &&& cur.node_at(c.index as int).parent == cur.handle_of(x)
    } by {
        assert(pre.node_at(x).children@[k] == cur.node_at(x).children@[k]);
    }
    assert forall|x: int|
        cur.live_at(x) && cur.node_at(x).parent != Handle::spec_none() implies {
        let p = #[trigger] cur.node_at(x).parent;
        &&& cur.nodes.is_live(p)
        &&& count_matches(cur.node_at(p.index as int).children@, cur.handle_of(x)) == 1
    } by {
        assert(pre.node_at(x).parent == cur.node_at(x).parent);
    }
}

/// After pointing an unlinked live node's parent link at a live parent
/// (state `mid2`) and appending the node to that parent's children (state
/// `post`), the scene invariant holds again and the step is `attach_post`.
#[verifier::rlimit(100)]
proof fn lemma_attach_restores_wf(mid: Scene, mid2: Scene, post: Scene, c: Handle, p: Handle)
    requires
        mid.wf(),
        mid.nodes.is_live(c),
        mid.nodes.is_live(p),
        c != mid.root,
        mid.node_at(c.index as int).parent == Handle::spec_none(),
        mid2.root == mid.root,
        mid2.stack@ == mid.stack@,
        mid2.nodes.wf(),
        mid2.nodes.free_indices() == mid.nodes.free_indices(),
        mid2.nodes@ == mid.nodes@.update(
            c.index as int,
            (Slot::Occupied { generation: c.generation, payload: mid2.node_at(c.index as int) }),
        ),
        node_links_set(
            mid2.node_at(c.index as int),
            p,
            mid.node_at(c.index as int).children@,
            mid.node_at(c.index as int),
        ),
        post.root == mid2.root,
        post.stack@ == mid2.stack@,
        post.nodes.wf(),
        post.nodes.free_indices() == mid2.nodes.free_indices(),
        post.nodes@ == mid2.nodes@.update(
            p.index as int,
            (Slot::Occupied { generation: p.generation, payload: post.node_at(p.index as int) }),
        ),
        node_links_set(
            post.node_at(p.index as int),
            mid2.node_at(p.index as int).parent,
            mid2.node_at(p.index as int).children@.push(c),
            mid2.node_at(p.index as int),
        ),
    ensures
        post.wf(),
        Scene::attach_post(mid, post, c, p),
{
    let ci = c.index as int;
    let pj = p.index as int;
    mid.nodes.lemma_wf_len_bound();
    assert(mid.handle_of(ci) == c);
    assert(mid.handle_of(pj) == p);
    // occupancy, generations and handles agree between the states
    assert(forall|x: int|
        0 <= x < mid.nodes@.len() ==> slot_generation(#[trigger] post.nodes@[x])
            == slot_generation(mid.nodes@[x]) && ((post.nodes@[x] is Occupied) <==> (
        mid.nodes@[x] is Occupied)));
    assert(forall|x: int| mid.live_at(x) ==> #[trigger] post.handle_of(x) == mid.handle_of(x));
    // the unlinked child is listed nowhere
    assert forall|x: int| mid.live_at(x) implies !mid.node_at(x).children@.contains(c) by {
        if mid.node_at(x).children@.contains(c) {
            let k = choose|k: int|
                0 <= k < mid.node_at(x).children@.len() && mid.node_at(x).children@[k] == c;
            assert(mid.node_at(x).children@[k] == c);
            assert(mid.node_at(ci).parent == mid.handle_of(x));
            assert(mid.handle_of(x).index != INVALID_INDEX);
        }
    }
    lemma_count_contains(mid.node_at(pj).children@, c);
    lemma_count_push(mid.node_at(pj).children@, c, c);
    // counts of other handles are untouched by the push
    assert forall|x: Handle| x != c implies count_matches(
        mid.node_at(pj).children@.push(c),
        x,
    ) == count_matches(mid.node_at(pj).children@, x) by {
        lemma_count_push(mid.node_at(pj).children@, c, x);
    }
    // links are consistent again
    assert forall|x: int, k: int|
        post.live_at(x) && 0 <= k < post.node_at(x).children@.len() implies {
        let e = #[trigger] post.node_at(x).children@[k];
        &&& post.nodes.is_live(e)
        &&& post.node_at(e.index as int).parent == post.handle_of(x)
    } by {
        let e = post.node_at(x).children@[k];
        if x == pj && k == post.node_at(x).children@.len() - 1 {
            assert(e == c);
            assert(post.node_at(ci).parent == p);
        } else {
            // an entry that was already there in mid
            assert(mid.node_at(x).children@[k] == e);
            assert(mid.nodes.is_live(e));
            assert(mid.node_at(e.index as int).parent == mid.handle_of(x));
            assert(e != c);
            assert(e.index as int != ci);
        }
    }
    assert forall|x: int|
        post.live_at(x) && post.node_at(x).parent != Handle::spec_none() implies {
        let q = #[trigger] post.node_at(x).parent;
        &&& post.nodes.is_live(q)
        &&& count_matches(post.node_at(q.index as int).children@, post.handle_of(x)) == 1
    } by {
        let q = post.node_at(x).parent;
        if x == ci {
            assert(q == p);
            assert(count_matches(mid.node_at(pj).children@, c) == 0);
        } else {
            assert(post.node_at(x).parent == mid.node_at(x).parent);
            assert(mid.nodes.is_live(q));
            assert(count_matches(mid.node_at(q.index as int).children@, mid.handle_of(x)) == 1);
            assert(mid.handle_of(x) != c);
        }
    }
    assert(post.node_at(post.root.index as int).parent == mid.node_at(
        mid.root.index as int,
    ).parent);
    assert(post.wf());
}

/// After clearing a node's parent link (state `mid`) and dropping the
/// node's single listing from its old parent's children (state `post`), the
/// scene invariant holds again and the whole step is `unlink_post`.
#[verifier::rlimit(100)]
proof fn lemma_unlink_restores_wf(pre: Scene, mid: Scene, post: Scene, h: Handle, par: Handle)
    requires
        pre.wf(),
        pre.nodes.is_live(h),
        par == pre.node_at(h.index as int).parent,
        mid.root == pre.root,
        mid.stack@ == pre.stack@,
        mid.nodes.wf(),
        mid.nodes.free_indices() == pre.nodes.free_indices(),
        mid.nodes@ == pre.nodes@.update(
            h.index as int,
            (Slot::Occupied {
                generation: h.generation,
                payload: mid.node_at(h.index as int),
            }),
        ),
        node_links_set(
            mid.node_at(h.index as int),
            Handle::spec_none(),
            pre.node_at(h.index as int).children@,
            pre.node_at(h.index as int),
        ),
        if pre.nodes.is_live(par) {
            let pj = par.index as int;
            let cs = mid.node_at(pj).children@;
            let fi = first_index_of(cs, h);
            &&& post.root == mid.root
            &&& post.stack@ == mid.stack@
            &&& post.nodes.wf()
            &&& post.nodes.free_indices() == mid.nodes.free_indices()
            &&& post.nodes@ == mid.nodes@.update(
                pj,
                (Slot::Occupied { generation: par.generation, payload: post.node_at(pj) }),
            )
            &&& node_links_set(
                post.node_at(pj),
                mid.node_at(pj).parent,
                if fi >= 0 {
                    cs.remove(fi)
                } else {
                    cs
                },
                mid.node_at(pj),
            )
        } else {
            post == mid
        },
    ensures
        post.wf(),
        Scene::unlink_post(pre, post, h),
{
    let j = h.index as int;
    pre.nodes.lemma_wf_len_bound();
    mid.nodes.lemma_wf_len_bound();
    post.nodes.lemma_wf_len_bound();
    assert(pre.handle_of(j) == h);
    // Occupancy, generations and handles agree between all three states.
    assert(forall|x: int|
        0 <= x < pre.nodes@.len() ==> slot_generation(#[trigger] post.nodes@[x])
            == slot_generation(pre.nodes@[x]) && ((post.nodes@[x] is Occupied) <==> (
        pre.nodes@[x] is Occupied)));
    assert(forall|x: int| pre.live_at(x) ==> #[trigger] post.handle_of(x) == pre.handle_of(x));
    // Only the (live) old parent's children list mentions h at all.
    assert forall|x: int|
        pre.live_at(x) && (!pre.nodes.is_live(par) || x != par.index as int) implies !pre.node_at(
        x,
    ).children@.contains(h) by {
        if pre.node_at(x).children@.contains(h) {
            let k = choose|k: int|
                0 <= k < pre.node_at(x).children@.len() && pre.node_at(x).children@[k] == h;
            assert(pre.node_at(x).children@[k] == h);
            assert(pre.node_at(h.index as int).parent == pre.handle_of(x));
            assert(pre.nodes.is_live(pre.handle_of(x)));
        }
    }
    if pre.nodes.is_live(par) {
        let pj = par.index as int;
        let cs = mid.node_at(pj).children@;
        assert(cs == pre.node_at(pj).children@);
        assert(par != Handle::spec_none());
        assert(count_matches(pre.node_at(pj).children@, h) == 1);
        lemma_count_contains(cs, h);
        lemma_first_index_properties(cs, h);
        let fi = first_index_of(cs, h);
        assert(0 <= fi < cs.len() && cs[fi] == h);
        let ncs = cs.remove(fi);
        lemma_count_remove(cs, fi, h);
        lemma_count_contains(ncs, h);
        assert(!ncs.contains(h));
        assert(post.node_at(pj).children@ == ncs);
        // counts of every other handle are untouched by the removal
        assert forall|c: Handle| c != h implies count_matches(ncs, c) == count_matches(cs, c) by {
            lemma_count_remove(cs, fi, c);
        }
        // links are consistent again
        assert forall|x: int, k: int|
            post.live_at(x) && 0 <= k < post.node_at(x).children@.len() implies {
            let c = #[trigger] post.node_at(x).children@[k];
            &&& post.nodes.is_live(c)
            &&& post.node_at(c.index as int).parent == post.handle_of(x)
        } by {
            let c = post.node_at(x).children@[k];
            if x == pj {
                // an entry of the shortened list came from the old list
                let k0: int = if k < fi {
                    k
                } else {
                    k + 1
                };
                assert(pre.node_at(pj).children@[k0] == c);
                assert(c != h);
                assert(pre.nodes.is_live(c));
                assert(pre.node_at(c.index as int).parent == pre.handle_of(pj));
                assert(c.index as int != j);
            } else {
                assert(pre.node_at(x).children@[k] == c);
                assert(pre.nodes.is_live(c));
                assert(pre.node_at(c.index as int).parent == pre.handle_of(x));
                if c.index as int == j {
                    // then c is h itself, whose single listing sat in pj's list
                    assert(c == h);
                    assert(pre.node_at(x).children@.contains(h));
                    assert(x == pj);
                    assert(false);
                }
            }
        }
        assert forall|x: int|
            post.live_at(x) && post.node_at(x).parent != Handle::spec_none() implies {
            let p = #[trigger] post.node_at(x).parent;
            &&& post.nodes.is_live(p)
            &&& count_matches(post.node_at(p.index as int).children@, post.handle_of(x)) == 1
        } by {
            let p = post.node_at(x).parent;
            if x == j {
                assert(false);
            } else {
                assert(post.node_at(x).parent == pre.node_at(x).parent);
                assert(pre.nodes.is_live(p));
                assert(count_matches(pre.node_at(p.index as int).children@, pre.handle_of(x))
                    == 1);
                assert(pre.handle_of(x) != h);
                if p.index as int == pj {
                    assert(count_matches(ncs, pre.handle_of(x)) == count_matches(
                        cs,
                        pre.handle_of(x),
                    ));
                } else {
                    assert(post.node_at(p.index as int).children@ == pre.node_at(
                        p.index as int,
                    ).children@);
                }
            }
        }
        assert(post.wf());
    } else {
        // no live parent: only the node's own parent link changed
        assert forall|x: int, k: int|
            post.live_at(x) && 0 <= k < post.node_at(x).children@.len() implies {
            let c = #[trigger] post.node_at(x).children@[k];
            &&& post.nodes.is_live(c)
            &&& post.node_at(c.index as int).parent == post.handle_of(x)
        } by {
            let c = post.node_at(x).children@[k];
            assert(pre.node_at(x).children@[k] == c);
            assert(pre.nodes.is_live(c));
            assert(pre.node_at(c.index as int).parent == pre.handle_of(x));
            if c.index as int == j {
                assert(c == h);
                assert(pre.node_at(x).children@.contains(h));
                assert(false);
            }
        }
        assert forall|x: int|
            post.live_at(x) && post.node_at(x).parent != Handle::spec_none() implies {
            let p = #[trigger] post.node_at(x).parent;
            &&& post.nodes.is_live(p)
            &&& count_matches(post.node_at(p.index as int).children@, post.handle_of(x)) == 1
        } by {
            let p = post.node_at(x).parent;
            if x == j {
                assert(false);
            } else {
                assert(post.node_at(x).parent == pre.node_at(x).parent);
                assert(pre.nodes.is_live(p));
                assert(p.index as int != j || pre.node_at(p.index as int).children@ == post.node_at(
                    p.index as int,
                ).children@);
                assert(count_matches(post.node_at(p.index as int).children@, pre.handle_of(x))
                    == 1);
            }
        }
        assert(post.wf());
    }
}


/// Law: after `link_nodes(c, p)` on live handles, the child's parent link is
/// `p` and the new parent's children list holds the child exactly once.
pub proof fn lemma_link_lists_child_once(pre: Scene, post: Scene, c: Handle, p: Handle)
    requires
        pre.wf(),
        post.wf(),
        Scene::link_post(pre, post, c, p),
        pre.nodes.is_live(c),
        pre.nodes.is_live(p),
        c != pre.root,
    ensures
        post.node_at(c.index as int).parent == p,
        post.nodes.is_live(c),
        post.nodes.is_live(p),
        count_matches(post.node_at(p.index as int).children@, c) == 1,
        post.node_at(p.index as int).children@.last() == c,
{
    pre.nodes.lemma_wf_len_bound();
    let mid = choose|mid: Scene|
        #[trigger] Scene::unlink_post(pre, mid, c) && Scene::attach_post(mid, post, c, p);
    let ci = c.index as int;
    assert(post.node_at(ci).parent == p);
    assert(post.live_at(ci));
    assert(p != Handle::spec_none());
    assert(post.handle_of(ci) == c);
}

/// Law: an unlinked node (its parent link is the none handle) is listed in
/// no children list of a well-formed scene; after `unlink_node(c)` this
/// holds of `c`.
pub proof fn lemma_unlinked_child_listed_nowhere(post: Scene, c: Handle)
    requires
        post.wf(),
        post.nodes.is_live(c),
        post.node_at(c.index as int).parent == Handle::spec_none(),
    ensures
        forall|j: int| post.live_at(j) ==> !(#[trigger] post.node_at(j).children@).contains(c),
{
    post.nodes.lemma_wf_len_bound();
    assert forall|j: int| post.live_at(j) implies !(#[trigger] post.node_at(j).children@).contains(
        c,
    ) by {
        if post.node_at(j).children@.contains(c) {
            let k = choose|k: int|
                0 <= k < post.node_at(j).children@.len() && post.node_at(j).children@[k] == c;
            assert(post.node_at(j).children@[k] == c);
            assert(post.node_at(c.index as int).parent == post.handle_of(j));
            assert(post.handle_of(j).index != INVALID_INDEX);
        }
    }
}

/// Law: transform propagation always composes against the parent's local
/// transform as recomputed in the same pass, never a stale cached value.
/// For a live child `b` of a reachable node `a`, the update leaves `b`'s
/// global transform as the product of the two freshly composed locals.
pub proof fn lemma_propagation_uses_fresh_parent_local(
    pre: Scene,
    post: Scene,
    a: Handle,
    b: Handle,
    fuel: nat,
    aspect: i64,
)
    requires
        pre.wf(),
        Scene::update_rel(pre, post, aspect),
        pre.reachable(a, fuel),
        pre.nodes.is_live(a),
        pre.nodes.is_live(b),
        pre.node_at(b.index as int).parent == a,
        pre.node_at(a.index as int).children@.contains(b),
    ensures
        post.node_at(b.index as int).local_transform == composed_of(
            pre.node_at(b.index as int).components(),
        ),
        post.node_at(b.index as int).global_transform == mats_mul(
            composed_of(pre.node_at(b.index as int).components()),
            composed_of(pre.node_at(a.index as int).components()),
        ),
{
    let fuel1: nat = fuel + 1;
    reveal(updated_node);
    assert(pre.reachable(b, fuel1)) by {
        assert((fuel1 - 1) as nat == fuel);
        assert(pre.reachable(a, (fuel1 - 1) as nat));
    }
    assert(post.nodes@[b.index as int] == pre.updated_slot(b.index as int, aspect));
}

/// Law: a node with every component at its default (the identity) gets the
/// identity local transform from an update; composed against a parent that
/// also composes to the identity (the plain root, say), its global
/// transform is the identity as well.
pub proof fn lemma_identity_components_give_identity_transforms(
    pre: Scene,
    post: Scene,
    h: Handle,
    fuel: nat,
    aspect: i64,
)
    requires
        pre.wf(),
        Scene::update_rel(pre, post, aspect),
        pre.reachable(h, fuel),
        pre.nodes.is_live(h),
        pre.node_at(h.index as int).components() == crate::node::default_components(),
        pre.nodes.is_live(pre.node_at(h.index as int).parent) ==> composed_of(
            pre.node_at(pre.node_at(h.index as int).parent.index as int).components(),
        ) == mats_identity(),
    ensures
        post.node_at(h.index as int).local_transform == mats_identity(),
        post.node_at(h.index as int).global_transform == mats_identity(),
{
    reveal(updated_node);
    crate::node::lemma_default_components_compose_to_identity();
    crate::math::lemma_mat_mul_identity(mats_identity());
    assert(post.nodes@[h.index as int] == pre.updated_slot(h.index as int, aspect));
}

/// Law: in a chain whose nodes carry translations only, the update composes
/// the translations: the child's global transform translates by the
/// (saturated) sum of its own and its parent's positions.
pub proof fn lemma_translation_chain(
    pre: Scene,
    post: Scene,
    a: Handle,
    b: Handle,
    fuel: nat,
    aspect: i64,
)
    requires
        pre.wf(),
        Scene::update_rel(pre, post, aspect),
        pre.reachable(a, fuel),
        pre.nodes.is_live(a),
        pre.nodes.is_live(b),
        pre.node_at(b.index as int).parent == a,
        pre.node_at(a.index as int).children@.contains(b),
        translation_only(pre.node_at(a.index as int).components()),
        translation_only(pre.node_at(b.index as int).components()),
    ensures
        post.node_at(b.index as int).global_transform == crate::math::mats_translation(
            crate::math::vec3s_add(
                pre.node_at(b.index as int).components().position,
                pre.node_at(a.index as int).components().position,
            ),
        ),
{
    lemma_propagation_uses_fresh_parent_local(pre, post, a, b, fuel, aspect);
    crate::node::lemma_translation_only_components(pre.node_at(a.index as int).components());
    crate::node::lemma_translation_only_components(pre.node_at(b.index as int).components());
    crate::math::lemma_mat_translation_compose(
        pre.node_at(b.index as int).components().position,
        pre.node_at(a.index as int).components().position,
    );
}

/// Every rotation at identity and the scale at one: only the position acts.
pub open spec fn translation_only(c: crate::node::TransformComponents) -> bool {
    &&& c.scale == crate::math::vec3s_one()
    &&& c.rotation == crate::math::quats_identity()
    &&& c.pre_rotation == crate::math::quats_identity()
    &&& c.post_rotation == crate::math::quats_identity()
    &&& c.rotation_offset == crate::math::quats_identity()
    &&& c.rotation_pivot == crate::math::quats_identity()
    &&& c.scaling_offset == crate::math::quats_identity()
    &&& c.scaling_pivot == crate::math::quats_identity()
}



/// Law: adding a node never revives a stale handle. Whichever slot the new
/// node takes — a fresh one past the end or a reused free slot at a bumped
/// generation — a handle the pool had already moved past stays stale.
pub proof fn lemma_add_node_preserves_stale(
    pre: Scene,
    post: Scene,
    h2: Handle,
    node: Node,
    h: Handle,
)
    requires
        Scene::add_node_post(pre, post, h2, node),
        pre.nodes.stale_for(h),
    ensures
        post.nodes.stale_for(h),
        post.nodes.spec_borrow(h) is None,
{
    let hi = h.index as int;
    if hi == h2.index as int {
        // only the reuse branch can hit a stale handle's slot, and it bumps
        // the generation strictly past the handle's
        assert(pre.nodes.free_indices().len() != 0);
        assert(slot_generation(pre.nodes@[hi]) > h.generation);
        assert(slot_generation(post.nodes@[hi]) == h2.generation);
    }
    post.nodes.lemma_stale_never_resolves(h);
}

/// Law (generational safety at the scene interface): a handle to a node
/// that `remove_node` freed resolves to nothing, and still resolves to
/// nothing after a later `add_node` reuses the slot.
pub proof fn lemma_removed_handle_never_resolves(
    s0: Scene,
    s1: Scene,
    s2: Scene,
    h: Handle,
    h2: Handle,
    node: Node,
)
    requires
        s0.nodes.is_live(h),
        Pool::free_post(s0.nodes, s1.nodes, h),
        Scene::add_node_post(s1, s2, h2, node),
    ensures
        s1.nodes.spec_borrow(h) is None,
        s2.nodes.spec_borrow(h) is None,
        h2.index == h.index ==> h2.generation > h.generation,
{
    Pool::<Node>::lemma_free_makes_stale(s0.nodes, s1.nodes, h);
    s1.nodes.lemma_stale_never_resolves(h);
    lemma_add_node_preserves_stale(s1, s2, h2, node, h);
    if h2.index == h.index {
        assert(slot_generation(s1.nodes@[h.index as int]) > h.generation);
    }
}


} // verus!
