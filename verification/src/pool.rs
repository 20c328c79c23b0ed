//! Generational slot storage. A `Pool<T>` owns a sequence of slots, each
//! either occupied by a payload or free; a `Handle` is an (index, generation)
//! pair that resolves only while the slot's stored generation still matches,
//! so a handle kept across a free never reaches the slot's next occupant.
//! Free slots form a LIFO free list threaded through the slots themselves.

use vstd::prelude::*;

verus! {

/// Reserved index that no slot ever has; the "none" handle carries it.
pub const INVALID_INDEX: usize = usize::MAX;

/// A non-owning reference to a pool slot: the slot's index plus the
/// generation the slot had when the handle was issued. Handles are plain
/// data; each pool validates them on every access, so a stale handle (or one
/// aimed at another pool) resolves to nothing rather than to a wrong value.
#[derive(Clone, Copy, PartialEq, Eq, Structural, Debug)]
pub struct Handle {
    pub index: usize,
    pub generation: u64,
}

impl Handle {
    /// The sentinel handle: its index is reserved, so it never resolves.
    pub open spec fn spec_none() -> Handle {
        Handle { index: INVALID_INDEX, generation: 0 }
    }

    pub fn none() -> (r: Handle)
        ensures
            r == Handle::spec_none(),
    {
        Handle { index: INVALID_INDEX, generation: 0 }
    }

    pub open spec fn spec_is_none(self) -> bool {
        self.index == INVALID_INDEX
    }

    pub fn is_none(&self) -> (r: bool)
        ensures
            r == self.spec_is_none(),
    {
        self.index == INVALID_INDEX
    }

    pub fn is_some(&self) -> (r: bool)
        ensures
            r == !self.spec_is_none(),
    {
        self.index != INVALID_INDEX
    }
}

/// One storage cell of a pool. The generation counts how often the slot has
/// moved between occupied and free; a free slot also remembers the next slot
/// of the free list (`INVALID_INDEX` at the end of the list).
pub enum Slot<T> {
    Occupied { generation: u64, payload: T },
    Free { generation: u64, next_free: usize },
}

pub open spec fn slot_generation<T>(s: Slot<T>) -> u64 {
    match s {
        Slot::Occupied { generation, .. } => generation,
        Slot::Free { generation, .. } => generation,
    }
}

pub open spec fn slot_payload<T>(s: Slot<T>) -> T {
    match s {
        Slot::Occupied { payload, .. } => payload,
        Slot::Free { .. } => arbitrary(),
    }
}

pub open spec fn slot_next_free<T>(s: Slot<T>) -> usize {
    match s {
        Slot::Occupied { .. } => arbitrary(),
        Slot::Free { next_free, .. } => next_free,
    }
}

/// Generational slot storage with O(1) spawn, free and lookup.
pub struct Pool<T> {
    slots: Vec<Slot<T>>,
    /// Index of the most recently freed reusable slot, `INVALID_INDEX` when
    /// none is available.
    free_head: usize,
    /// The reusable free slots, oldest first; the last entry is `free_head`.
    free_list: Ghost<Seq<usize>>,
}

impl<T> View for Pool<T> {
    type V = Seq<Slot<T>>;

    closed spec fn view(&self) -> Seq<Slot<T>> {
        self.slots@
    }
}

impl<T> Pool<T> {
    /// The indices of the slots that a future `spawn` may reuse, in the
    /// order they were freed; `spawn` takes the last one first.
    pub closed spec fn free_indices(self) -> Seq<usize> {
        self.free_list@
    }

    /// The free list is a well-formed LIFO chain: distinct indices of free
    /// slots whose generations can still be bumped, linked through
    /// `next_free`, with `free_head` at the top.
    pub closed spec fn wf(self) -> bool {
        let fl = self.free_list@;
        &&& self.slots@.len() <= usize::MAX
        &&& forall|k: int|
            0 <= k < fl.len() ==> {
                &&& (#[trigger] fl[k]) < self.slots@.len()
                &&& self.slots@[fl[k] as int] is Free
                &&& slot_generation(self.slots@[fl[k] as int]) < u64::MAX
                &&& slot_next_free(self.slots@[fl[k] as int]) == if k == 0 {
                    INVALID_INDEX
                } else {
                    fl[k - 1]
                }
            }
        &&& forall|k1: int, k2: int|
            0 <= k1 < k2 < fl.len() ==> #[trigger] fl[k1] != #[trigger] fl[k2]
        &&& self.free_head == if fl.len() == 0 {
            INVALID_INDEX
        } else {
            fl[fl.len() - 1]
        }
    }

    /// A well-formed pool's slot count fits the address space, so every
    /// in-range index round-trips through `usize`.
    pub proof fn lemma_wf_len_bound(&self)
        requires
            self.wf(),
        ensures
            self@.len() <= usize::MAX,
    {
    }

    /// A handle is live when it points inside the pool at an occupied slot
    /// whose stored generation equals the handle's.
    pub open spec fn is_live(self, handle: Handle) -> bool {
        &&& handle.index < self@.len()
        &&& self@[handle.index as int] is Occupied
        &&& slot_generation(self@[handle.index as int]) == handle.generation
    }

    /// What `borrow` returns: the payload exactly when the handle is live.
    pub open spec fn spec_borrow(self, handle: Handle) -> Option<T> {
        if self.is_live(handle) {
            Some(slot_payload(self@[handle.index as int]))
        } else {
            None
        }
    }

    pub fn new() -> (r: Pool<T>)
        ensures
            r.wf(),
            r@.len() == 0,
            r.free_indices().len() == 0,
    {
        Pool { slots: Vec::new(), free_head: INVALID_INDEX, free_list: Ghost(Seq::empty()) }
    }

    /// Slot count, free slots included; indices below it may be scanned with
    /// `at` / `at_mut`.
    pub fn capacity(&self) -> (r: usize)
        ensures
            r == self@.len(),
    {
        self.slots.len()
    }

    /// Relation between the pool before and after `spawn(value)` returned
    /// `handle`: either the most recently freed slot was reused at a bumped
    /// generation, or a fresh slot was appended at generation 0.
    pub open spec fn spawn_post(pre: Pool<T>, post: Pool<T>, handle: Handle, value: T) -> bool {
        if pre.free_indices().len() == 0 {
            &&& handle.index == pre@.len()
            &&& handle.generation == 0
            &&& post@ == pre@.push(Slot::Occupied { generation: 0, payload: value })
            &&& post.free_indices() == pre.free_indices()
        } else {
            &&& handle.index == pre.free_indices().last()
            &&& handle.index < pre@.len()
            &&& pre@[handle.index as int] is Free
            &&& handle.generation == slot_generation(pre@[handle.index as int]) + 1
            &&& post@ == pre@.update(
                handle.index as int,
                Slot::Occupied { generation: handle.generation, payload: value },
            )
            &&& post.free_indices() == pre.free_indices().drop_last()
        }
    }

    /// Stores `value` in the pool and returns a live handle to it. Reuses
    /// the most recently freed slot when one exists (bumping its
    /// generation), otherwise appends a new slot; it never fails.
    pub fn spawn(&mut self, value: T) -> (handle: Handle)
        requires
            old(self).wf(),
        ensures
            final(self).wf(),
            Self::spawn_post(*old(self), *final(self), handle, value),
            final(self).is_live(handle),
            final(self).spec_borrow(handle) == Some(value),
    {
        if self.free_head != INVALID_INDEX {
            let index = self.free_head;
            let ghost fl = self.free_list@;
            assert(fl[fl.len() - 1] == index);
            let (generation, next): (u64, usize) = match &self.slots[index] {
                Slot::Free { generation, next_free } => (*generation, *next_free),
                Slot::Occupied { .. } => (0, INVALID_INDEX),
            };
            let new_generation = generation + 1;
            self.slots.set(index, Slot::Occupied { generation: new_generation, payload: value });
            self.free_head = next;
            proof {
                self.free_list@ = fl.drop_last();
            }
            Handle { index, generation: new_generation }
        } else {
            let index = self.slots.len();
            self.slots.push(Slot::Occupied { generation: 0, payload: value });
            // reading the length back pins the new view length within usize
            let new_len = self.slots.len();
            assert(self@.len() == new_len);
            Handle { index, generation: 0 }
        }
    }

    /// Relation between the pool before and after `free(handle)`. A stale or
    /// already-free handle changes nothing. A live handle's slot becomes
    /// free at a bumped generation and rejoins the free list, except when
    /// the bumped generation reaches `u64::MAX`: such a slot is retired (it
    /// stays free forever) so that generations never wrap around.
    pub open spec fn free_post(pre: Pool<T>, post: Pool<T>, handle: Handle) -> bool {
        if pre.is_live(handle) {
            let new_generation: u64 = if handle.generation < u64::MAX {
                (handle.generation + 1) as u64
            } else {
                handle.generation
            };
            &&& post@.len() == pre@.len()
            &&& post@[handle.index as int] is Free
            &&& slot_generation(post@[handle.index as int]) == new_generation
            &&& forall|j: int| 0 <= j < pre@.len() && j != handle.index ==> post@[j] == pre@[j]
            &&& post.free_indices() == if new_generation < u64::MAX {
                pre.free_indices().push(handle.index)
            } else {
                pre.free_indices()
            }
        } else {
            post == pre
        }
    }

    /// Clears the slot that `handle` points at, if the handle is live;
    /// otherwise does nothing, so freeing twice (or with a stale handle) is
    /// harmless.
    pub fn free(&mut self, handle: Handle)
        requires
            old(self).wf(),
        ensures
            final(self).wf(),
            Self::free_post(*old(self), *final(self), handle),
            !final(self).is_live(handle),
    {
        if handle.index >= self.slots.len() {
            return ;
        }
        let live = match self.slots[handle.index] {
            Slot::Occupied { generation, .. } => generation == handle.generation,
            Slot::Free { .. } => false,
        };
        if !live {
            return ;
        }
        let new_generation: u64 = if handle.generation < u64::MAX {
            handle.generation + 1
        } else {
            handle.generation
        };
        if new_generation < u64::MAX {
            self.slots.set(
                handle.index,
                Slot::Free { generation: new_generation, next_free: self.free_head },
            );
            self.free_head = handle.index;
            proof {
                self.free_list@ = self.free_list@.push(handle.index);
            }
            proof {
                lemma_free_push_wf(*old(self), *self, handle);
            }
        } else {
            // The generation counter is exhausted: retire the slot instead
            // of letting the generation wrap and revive stale handles.
            let ghost pre = *self;
            self.slots.set(
                handle.index,
                Slot::Free { generation: new_generation, next_free: INVALID_INDEX },
            );
            proof {
                let fl = self.free_list@;
                assert forall|k: int| 0 <= k < fl.len() implies fl[k] != handle.index by {
                    assert(pre@[fl[k] as int] is Free);
                }
            }
        }
    }

    /// Read access through a handle: the payload while the handle is live,
    /// nothing once it is stale, out of range or freed.
    pub fn borrow(&self, handle: Handle) -> (r: Option<&T>)
        ensures
            match r {
                Some(v) => self.is_live(handle) && *v == slot_payload(self@[handle.index as int]),
                None => !self.is_live(handle),
            },
    {
        if handle.index >= self.slots.len() {
            return None;
        }
        match &self.slots[handle.index] {
            Slot::Occupied { generation, payload } => {
                if *generation == handle.generation {
                    Some(payload)
                } else {
                    None
                }
            },
            Slot::Free { .. } => None,
        }
    }

    /// Write access through a handle, validated the same way as `borrow`.
    #[verifier::rlimit(60)]
    pub fn borrow_mut(&mut self, handle: Handle) -> (r: Option<&mut T>)
        requires
            old(self).wf(),
        ensures
            final(self).wf(),
            final(self).free_indices() == old(self).free_indices(),
            match r {
                Some(m) => {
                    &&& old(self).is_live(handle)
                    &&& *m == slot_payload(old(self)@[handle.index as int])
                    &&& final(self)@ == old(self)@.update(
                        handle.index as int,
                        (Slot::Occupied { generation: handle.generation, payload: *final(m) }),
                    )
                },
                None => {
                    &&& !old(self).is_live(handle)
                    &&& *final(self) == *old(self)
                },
            },
    {
        if handle.index >= self.slots.len() {
            return None;
        }
        let live = match &self.slots[handle.index] {
            Slot::Occupied { generation, .. } => *generation == handle.generation,
            Slot::Free { .. } => false,
        };
        if !live {
            return None;
        }
        let ghost pre = *self;
        match &mut self.slots[handle.index] {
            Slot::Occupied { payload, .. } => {
                proof {
                    lemma_payload_update_wf::<T>(pre, handle.index as int);
                }
                Some(payload)
            },
            Slot::Free { .. } => {
                proof {
                    assert(false);
                }
                None
            },
        }
    }

    /// The live handle of slot `index`, when that slot is occupied.
    pub fn handle_at(&self, index: usize) -> (r: Option<Handle>)
        ensures
            match r {
                Some(h) => index < self@.len() && self@[index as int] is Occupied && h == (Handle {
                    index,
                    generation: slot_generation(self@[index as int]),
                }),
                None => !(index < self@.len() && self@[index as int] is Occupied),
            },
    {
        if index >= self.slots.len() {
            return None;
        }
        match &self.slots[index] {
            Slot::Occupied { generation, .. } => Some(Handle { index, generation: *generation }),
            Slot::Free { .. } => None,
        }
    }

    /// Read access by raw slot index, independent of any handle: the payload
    /// when slot `index` exists and is occupied. Used to scan every live
    /// object without holding handles.
    pub fn at(&self, index: usize) -> (r: Option<&T>)
        ensures
            match r {
                Some(v) => index < self@.len() && self@[index as int] is Occupied && *v
                    == slot_payload(self@[index as int]),
                None => !(index < self@.len() && self@[index as int] is Occupied),
            },
    {
        if index >= self.slots.len() {
            return None;
        }
        match &self.slots[index] {
            Slot::Occupied { payload, .. } => Some(payload),
            Slot::Free { .. } => None,
        }
    }

    /// Write access by raw slot index; the slot's generation is untouched.
    #[verifier::rlimit(60)]
    pub fn at_mut(&mut self, index: usize) -> (r: Option<&mut T>)
        requires
            old(self).wf(),
        ensures
            final(self).wf(),
            final(self).free_indices() == old(self).free_indices(),
            match r {
                Some(m) => {
                    &&& index < old(self)@.len()
                    &&& old(self)@[index as int] is Occupied
                    &&& *m == slot_payload(old(self)@[index as int])
                    &&& final(self)@ == old(self)@.update(
                        index as int,
                        (Slot::Occupied {
                            generation: slot_generation(old(self)@[index as int]),
                            payload: *final(m),
                        }),
                    )
                },
                None => {
                    &&& !(index < old(self)@.len() && old(self)@[index as int] is Occupied)
                    &&& *final(self) == *old(self)
                },
            },
    {
        if index >= self.slots.len() {
            return None;
        }
        let occupied = match &self.slots[index] {
            Slot::Occupied { .. } => true,
            Slot::Free { .. } => false,
        };
        if !occupied {
            return None;
        }
        let ghost pre = *self;
        match &mut self.slots[index] {
            Slot::Occupied { payload, .. } => {
                proof {
                    lemma_payload_update_wf::<T>(pre, index as int);
                }
                Some(payload)
            },
            Slot::Free { .. } => {
                proof {
                    assert(false);
                }
                None
            },
        }
    }
}

impl<T> Pool<T> {
    /// Relation between the pool before and after a write through
    /// `borrow_mut` or `at_mut`: payloads may change, but no slot changes
    /// its generation or moves between occupied and free.
    pub open spec fn payload_step(pre: Pool<T>, post: Pool<T>) -> bool {
        &&& post@.len() == pre@.len()
        &&& forall|j: int|
            0 <= j < pre@.len() ==> ((#[trigger] slot_generation(post@[j])) == slot_generation(
                pre@[j],
            ) && ((post@[j] is Occupied) <==> (pre@[j] is Occupied)))
    }

    /// Any single step the pool's interface can take: a spawn, a free, or a
    /// payload write (reads leave the pool unchanged, which `payload_step`
    /// covers).
    pub open spec fn step(pre: Pool<T>, post: Pool<T>) -> bool {
        ||| (exists|h: Handle, v: T| Self::spawn_post(pre, post, h, v))
        ||| (exists|h: Handle| Self::free_post(pre, post, h))
        ||| Self::payload_step(pre, post)
    }

    /// A handle is stale for a pool when its slot has moved past it: the
    /// slot's generation has grown beyond the handle's, or the slot was
    /// retired (freed at the last generation). Such a handle never resolves
    /// again, whatever the slot now holds.
    pub open spec fn stale_for(self, handle: Handle) -> bool {
        &&& handle.index < self@.len()
        &&& (slot_generation(self@[handle.index as int]) > handle.generation || (
        self@[handle.index as int] is Free && slot_generation(self@[handle.index as int])
            == u64::MAX))
    }

    /// A stale handle resolves to nothing.
    pub proof fn lemma_stale_never_resolves(self, handle: Handle)
        requires
            self.stale_for(handle),
        ensures
            self.spec_borrow(handle) is None,
    {
    }

    /// Freeing a live handle makes it stale.
    pub proof fn lemma_free_makes_stale(pre: Pool<T>, post: Pool<T>, handle: Handle)
        requires
            pre.is_live(handle),
            Pool::free_post(pre, post, handle),
        ensures
            post.stale_for(handle),
    {
    }

    /// No later operation revives a stale handle: every step of the pool's
    /// interface keeps it stale. Together with `lemma_free_makes_stale` and
    /// `lemma_stale_never_resolves` this is the pool's generational safety:
    /// under any sequence of spawns, frees and writes, a handle taken before
    /// a free never resolves to the occupant a later spawn placed in the
    /// same slot.
    pub proof fn lemma_step_preserves_stale(pre: Pool<T>, post: Pool<T>, handle: Handle)
        requires
            pre.wf(),
            pre.stale_for(handle),
            Pool::step(pre, post),
        ensures
            post.stale_for(handle),
    {
        if exists|h: Handle, v: T| Pool::spawn_post(pre, post, h, v) {
            let (h, v) = choose|h: Handle, v: T| Pool::spawn_post(pre, post, h, v);
            if pre.free_indices().len() == 0 {
                assert(post@[handle.index as int] == pre@[handle.index as int]);
            } else {
                if h.index == handle.index {
                    assert(slot_generation(pre@[h.index as int]) < u64::MAX);
                    assert(post@[handle.index as int] == (Slot::Occupied {
                        generation: h.generation,
                        payload: v,
                    }));
                } else {
                    assert(post@[handle.index as int] == pre@[handle.index as int]);
                }
            }
        } else if exists|h: Handle| Pool::free_post(pre, post, h) {
            let h = choose|h: Handle| Pool::free_post(pre, post, h);
            if pre.is_live(h) && h.index == handle.index {
                assert(slot_generation(pre@[handle.index as int]) == h.generation);
            }
        }
    }

    /// Generational safety over a whole run: a handle stale somewhere in a
    /// chain of pool states connected by interface steps is still stale at
    /// the end of the chain.
    pub proof fn lemma_run_preserves_stale(run: Seq<Pool<T>>, handle: Handle)
        requires
            run.len() > 0,
            forall|i: int| 0 <= i < run.len() ==> (#[trigger] run[i]).wf(),
            run[0].stale_for(handle),
            forall|i: int| 0 <= i < run.len() - 1 ==> Pool::step(#[trigger] run[i], run[i + 1]),
        ensures
            run.last().stale_for(handle),
        decreases run.len(),
    {
        if run.len() > 1 {
            Self::lemma_step_preserves_stale(run[0], run[1], handle);
            Self::lemma_run_preserves_stale(run.drop_first(), handle);
        }
    }

    /// The spawn round trip: immediately after `spawn(v)` returned `handle`,
    /// borrowing through `handle` yields exactly `v`.
    pub proof fn lemma_spawn_round_trip(pre: Pool<T>, post: Pool<T>, handle: Handle, value: T)
        requires
            pre.wf(),
            Pool::spawn_post(pre, post, handle, value),
        ensures
            post.spec_borrow(handle) == Some(value),
    {
        if pre.free_indices().len() == 0 {
            assert(post@[handle.index as int] == (Slot::Occupied {
                generation: 0u64,
                payload: value,
            }));
        } else {
            assert(post@[handle.index as int] == (Slot::Occupied {
                generation: handle.generation,
                payload: value,
            }));
        }
    }

    /// Freeing a slot whose generation is not near exhaustion and then
    /// spawning reuses exactly that slot: the new handle carries the same
    /// index at a strictly larger generation, and the old handle still
    /// resolves to nothing.
    pub proof fn lemma_free_then_spawn_reuses(
        p0: Pool<T>,
        p1: Pool<T>,
        p2: Pool<T>,
        handle: Handle,
        new_handle: Handle,
        value: T,
    )
        requires
            p0.is_live(handle),
            handle.generation + 1 < u64::MAX,
            Pool::free_post(p0, p1, handle),
            Pool::spawn_post(p1, p2, new_handle, value),
        ensures
            new_handle.index == handle.index,
            new_handle.generation > handle.generation,
            p2.spec_borrow(handle) is None,
            p2.spec_borrow(new_handle) == Some(value),
    {
        assert(p1.free_indices().last() == handle.index);
    }
}

/// Replacing the payload of an occupied slot leaves the free list (which
/// only speaks of free slots) well formed.
proof fn lemma_payload_update_wf<T>(pre: Pool<T>, index: int)
    requires
        pre.wf(),
        0 <= index < pre@.len(),
        pre@[index] is Occupied,
    ensures
        forall|post: Pool<T>|
            (post.free_indices() == pre.free_indices() && post@.len() == pre@.len()
                && (forall|j: int| 0 <= j < pre@.len() && j != index ==> post@[j] == pre@[j])
                && post_free_head_eq(pre, post)) ==> #[trigger] post.wf(),
{
    assert forall|post: Pool<T>|
        (post.free_indices() == pre.free_indices() && post@.len() == pre@.len() && (forall|j: int|
            0 <= j < pre@.len() && j != index ==> post@[j] == pre@[j]) && post_free_head_eq(
            pre,
            post,
        )) implies #[trigger] post.wf() by {
        let fl = post.free_indices();
        assert forall|k: int| 0 <= k < fl.len() implies fl[k] != index by {
            assert(pre@[fl[k] as int] is Free);
        }
    }
}

/// Helper for `lemma_payload_update_wf`: the two pools share one free head.
pub closed spec fn post_free_head_eq<T>(pre: Pool<T>, post: Pool<T>) -> bool {
    post.free_head == pre.free_head
}

/// Pushing a freshly freed slot on the free list keeps the list well formed.
proof fn lemma_free_push_wf<T>(pre: Pool<T>, post: Pool<T>, handle: Handle)
    requires
        pre.wf(),
        pre.is_live(handle),
        handle.generation < u64::MAX,
        ((handle.generation + 1) as u64) < u64::MAX,
        post@ == pre@.update(
            handle.index as int,
            (Slot::Free {
                generation: (handle.generation + 1) as u64,
                next_free: pre_free_head(pre),
            }),
        ),
        post.free_indices() == pre.free_indices().push(handle.index),
        post_free_head_is(post, handle.index),
    ensures
        post.wf(),
{
    let fl = pre.free_indices();
    assert forall|k: int| 0 <= k < fl.len() implies fl[k] != handle.index by {
        assert(pre@[fl[k] as int] is Free);
    }
}

/// Helper spec: the free head of a pool (the field is private to the pool).
pub closed spec fn pre_free_head<T>(p: Pool<T>) -> usize {
    p.free_head
}

/// Helper spec: the pool's free head equals the given index.
pub closed spec fn post_free_head_is<T>(p: Pool<T>, index: usize) -> bool {
    p.free_head == index
}

} // verus!
