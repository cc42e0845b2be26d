//! Opaque, type-safe [`Handle`]s backed by a [`Storage`] arena.
//!
//! A handle goes stale once the slot it points at has been overwritten: every
//! overwrite bumps the slot's revision, and a lookup only succeeds while the
//! handle's revision matches the slot's.
use std::marker::PhantomData;
use vstd::prelude::*;

verus! {

/// An opaque reference to a value that MIGHT still be held by a [`Storage<T>`].
pub struct Handle<T> {
    /// Index of the slot in the arena.
    identifier: u64,
    /// Revision of the slot at the time the handle was issued.
    revision: u64,
    phantom_marker: PhantomData<T>,
}

impl<T> Handle<T> {
    /// The slot index this handle refers to.
    pub closed spec fn index_spec(&self) -> nat {
        self.identifier as nat
    }

    /// The slot revision this handle was issued with.
    pub closed spec fn revision_spec(&self) -> nat {
        self.revision as nat
    }

    /// Builds a handle from its raw parts.
    pub fn from_raw(index: u64, revision: u64) -> (h: Self)
        ensures
            h.index_spec() == index,
            h.revision_spec() == revision,
    {
        Handle { identifier: index, revision, phantom_marker: PhantomData }
    }

    /// The slot index this handle refers to.
    pub fn index(&self) -> (r: u64)
        ensures
            r == self.index_spec(),
    {
        self.identifier
    }

    /// The slot revision this handle was issued with.
    pub fn revision(&self) -> (r: u64)
        ensures
            r == self.revision_spec(),
    {
        self.revision
    }
}

impl<T> Clone for Handle<T> {
    fn clone(&self) -> (r: Self)
        ensures
            r.index_spec() == self.index_spec(),
            r.revision_spec() == self.revision_spec(),
    {
        Handle { identifier: self.identifier, revision: self.revision, phantom_marker: PhantomData }
    }
}

impl<T> Copy for Handle<T> {
}

impl<T> PartialEq for Handle<T> {
    fn eq(&self, other: &Self) -> (r: bool)
        ensures
            r == (self.index_spec() == other.index_spec() && self.revision_spec() == other.revision_spec()),
    {
        self.identifier == other.identifier && self.revision == other.revision
    }
}

impl<T> vstd::std_specs::cmp::PartialEqSpecImpl for Handle<T> {
    open spec fn obeys_eq_spec() -> bool {
        true
    }

    open spec fn eq_spec(&self, other: &Self) -> bool {
        self.index_spec() == other.index_spec() && self.revision_spec() == other.revision_spec()
    }
}

impl<T> Eq for Handle<T> {
}


/// The model of one arena slot: the value held and the slot's revision.
pub type Slot<T> = (T, nat);

/// Arena contents after `items` are appended: each new slot starts at revision 0.
pub open spec fn appended<T>(slots: Seq<Slot<T>>, items: Seq<T>) -> Seq<Slot<T>> {
    slots + items.map_values(|v: T| (v, 0nat))
}

/// Arena contents after slot `index` is overwritten with `value`.
///
/// An existing slot keeps its place and gets the next revision; writing at the
/// end of the arena opens a fresh slot at revision 0.
pub open spec fn overwritten<T>(slots: Seq<Slot<T>>, index: nat, value: T) -> Seq<Slot<T>> {
    if index < slots.len() {
        slots.update(index as int, (value, slots[index as int].1 + 1))
    } else {
        slots.push((value, 0nat))
    }
}

/// The revision that a write at `index` gives the slot.
pub open spec fn next_revision<T>(slots: Seq<Slot<T>>, index: nat) -> nat {
    if index < slots.len() {
        slots[index as int].1 + 1
    } else {
        0
    }
}

/// A handle is valid iff its slot exists and still carries the handle's revision.
pub open spec fn handle_valid<T>(slots: Seq<Slot<T>>, h: Handle<T>) -> bool {
    h.index_spec() < slots.len() && slots[h.index_spec() as int].1 == h.revision_spec()
}

/// What a lookup of `h` yields.
pub open spec fn lookup<T>(slots: Seq<Slot<T>>, h: Handle<T>) -> Option<T> {
    if handle_valid(slots, h) {
        Some(slots[h.index_spec() as int].0)
    } else {
        None
    }
}

/// One mutating call on the arena, as the laws below speak of it.
pub enum ArenaOp<T> {
    /// `append` of these values.
    Append(Seq<T>),
    /// `insert` of a value at an index.
    Insert(nat, T),
}

/// Arena contents after one call.
pub open spec fn apply_op<T>(slots: Seq<Slot<T>>, op: ArenaOp<T>) -> Seq<Slot<T>> {
    match op {
        ArenaOp::Append(items) => appended(slots, items),
        ArenaOp::Insert(index, value) => overwritten(slots, index, value),
    }
}

/// Arena contents after a run of calls, first to last.
pub open spec fn apply_ops<T>(slots: Seq<Slot<T>>, ops: Seq<ArenaOp<T>>) -> Seq<Slot<T>>
    decreases ops.len(),
{
    if ops.len() == 0 {
        slots
    } else {
        apply_ops(apply_op(slots, ops[0]), ops.drop_first())
    }
}

/// Whether `op` is an `insert` at `index`.
pub open spec fn is_insert_at<T>(op: ArenaOp<T>, index: nat) -> bool {
    op matches ArenaOp::Insert(i, _) && i == index
}

/// Whether some call of the run is an `insert` at `index`.
pub open spec fn overwrites<T>(ops: Seq<ArenaOp<T>>, index: nat) -> bool {
    exists|k: int| 0 <= k < ops.len() && is_insert_at(#[trigger] ops[k], index)
}

/// Slot `index` survives a run of calls: it keeps its value and revision when no
/// call overwrites it, and ends at a strictly higher revision otherwise.
proof fn lemma_slot_after_ops<T>(slots: Seq<Slot<T>>, ops: Seq<ArenaOp<T>>, index: nat)
    requires
        index < slots.len(),
    ensures
        index < apply_ops(slots, ops).len(),
        !overwrites(ops, index) ==> apply_ops(slots, ops)[index as int] == slots[index as int],
        overwrites(ops, index) ==> apply_ops(slots, ops)[index as int].1 > slots[index as int].1,
    decreases ops.len(),
{
    if ops.len() > 0 {
        let next = apply_op(slots, ops[0]);
        let rest = ops.drop_first();
        let hit = is_insert_at(ops[0], index);
        assert(index < next.len());
        if hit {
            assert(next[index as int].1 == slots[index as int].1 + 1);
        } else {
            assert(next[index as int] == slots[index as int]);
        }
        lemma_slot_after_ops(next, rest, index);
        assert(overwrites(ops, index) <==> hit || overwrites(rest, index)) by {
            if overwrites(rest, index) {
                let k = choose|k: int|
                    0 <= k < rest.len() && is_insert_at(#[trigger] rest[k], index);
                assert(ops[k + 1] == rest[k]);
            }
            if overwrites(ops, index) && !hit {
                let k = choose|k: int|
                    0 <= k < ops.len() && is_insert_at(#[trigger] ops[k], index);
                assert(rest[k - 1] == ops[k]);
            }
        }
    }
}

/// For every run of `append`/`insert` calls, a handle that was valid before the
/// run still yields its value afterwards unless some call of the run overwrote
/// its slot, in which case it yields nothing.
pub proof fn lemma_lookup_after_ops<T>(slots: Seq<Slot<T>>, ops: Seq<ArenaOp<T>>, h: Handle<T>)
    requires
        handle_valid(slots, h),
    ensures
        lookup(apply_ops(slots, ops), h) == if overwrites(ops, h.index_spec()) {
            None::<T>
        } else {
            lookup(slots, h)
        },
{
    lemma_slot_after_ops(slots, ops, h.index_spec());
}

/// A handle returned by `push_back` is valid right away and yields the value
/// that was pushed.
pub proof fn lemma_push_back_then_get<T>(slots: Seq<Slot<T>>, value: T, h: Handle<T>)
    requires
        h.index_spec() == slots.len(),
        h.revision_spec() == 0,
    ensures
        lookup(slots.push((value, 0nat)), h) == Some(value),
{
}

/// Manages [`Handle<T>`]s and owns the values they MIGHT refer to.
pub struct Storage<T> {
    /// The values, one per slot.
    storage: Vec<T>,
    /// The current revision of each slot, index-aligned with `storage`.
    revisions: Vec<u64>,
}

impl<T> View for Storage<T> {
    type V = Seq<Slot<T>>;

    closed spec fn view(&self) -> Seq<Slot<T>> {
        Seq::new(self.storage@.len(), |i: int| (self.storage@[i], self.revisions@[i] as nat))
    }
}

impl<T> Storage<T> {
    /// The value and revision sequences are index-aligned.
    pub closed spec fn wf(&self) -> bool {
        self.storage@.len() == self.revisions@.len()
    }

    /// An empty arena.
    pub fn new() -> (s: Self)
        ensures
            s.wf(),
            s@ == Seq::<Slot<T>>::empty(),
    {
        Storage { storage: Vec::new(), revisions: Vec::new() }
    }

    /// Number of slots in the arena.
    pub fn len(&self) -> (r: usize)
        requires
            self.wf(),
        ensures
            r == self@.len(),
    {
        self.storage.len()
    }

    /// Advances the revision counter of slot `index`, or opens the counter of
    /// a new slot at the end, and returns the counter's new value.
    fn update_revision(&mut self, index: usize) -> (r: u64)
        requires
            index <= old(self).revisions@.len(),
            index < old(self).revisions@.len() ==> old(self).revisions@[index as int] < u64::MAX,
        ensures
            final(self).storage@ == old(self).storage@,
            index < old(self).revisions@.len() ==> {
                &&& r == old(self).revisions@[index as int] + 1
                &&& final(self).revisions@ == old(self).revisions@.update(index as int, r)
            },
            index == old(self).revisions@.len() ==> {
                &&& r == 0
                &&& final(self).revisions@ == old(self).revisions@.push(0)
            },
    {
        if index < self.revisions.len() {
            let revision = self.revisions[index] + 1;
            self.revisions[index] = revision;
            revision
        } else {
            self.revisions.push(0);
            0
        }
    }

    /// Appends `resources` after the current last slot and returns one handle
    /// per item, in order. Handles issued earlier stay valid.
    pub fn append(&mut self, resources: Vec<T>) -> (handles: Vec<Handle<T>>)
        requires
            old(self).wf(),
            old(self)@.len() + resources@.len() <= usize::MAX,
        ensures
            final(self).wf(),
            final(self)@ == appended(old(self)@, resources@),
            handles@.len() == resources@.len(),
            forall|i: int|
                0 <= i < handles@.len() ==> {
                    &&& (#[trigger] handles@[i]).index_spec() == old(self)@.len() + i
                    &&& handles@[i].revision_spec() == 0
                },
    {
        let ghost items = resources@;
        let mut resources = resources;
        let resource_size = resources.len();
        let start_index = self.storage.len();
        self.storage.append(&mut resources);
        let mut handles: Vec<Handle<T>> = Vec::new();
        let mut local_index: usize = 0;
        while local_index < resource_size
            invariant
                0 <= local_index <= resource_size,
                start_index == old(self)@.len(),
                resource_size == items.len(),
                start_index + resource_size <= usize::MAX,
                old(self).wf(),
                self.storage@ == old(self).storage@ + items,
                self.revisions@.len() == start_index + local_index,
                forall|i: int|
                    0 <= i < start_index ==> self.revisions@[i] == old(self).revisions@[i],
                forall|i: int|
                    start_index <= i < start_index + local_index ==> self.revisions@[i] == 0,
                handles@.len() == local_index,
                forall|i: int|
                    0 <= i < local_index ==> {
                        &&& (#[trigger] handles@[i]).index_spec() == start_index + i
                        &&& handles@[i].revision_spec() == 0
                    },
            decreases resource_size - local_index,
        {
            let global_index = local_index + start_index;
            let revision = self.update_revision(global_index);
            handles.push(Handle::from_raw(global_index as u64, revision));
            local_index = local_index + 1;
        }
        assert(self@ =~= appended(old(self)@, items));
        handles
    }

    /// Appends one value and returns its handle; earlier handles stay valid.
    pub fn push_back(&mut self, resource: T) -> (h: Handle<T>)
        requires
            old(self).wf(),
            old(self)@.len() < usize::MAX,
        ensures
            final(self).wf(),
            final(self)@ == old(self)@.push((resource, 0nat)),
            h.index_spec() == old(self)@.len(),
            h.revision_spec() == 0,
    {
        self.storage.push(resource);
        let id = self.storage.len() - 1;
        let revision = self.update_revision(id);
        assert(self@ =~= old(self)@.push((resource, 0nat)));
        Handle::from_raw(id as u64, revision)
    }

    /// Overwrites slot `location` with `resource` and returns a handle carrying
    /// the slot's new revision; every handle issued earlier for that slot goes
    /// stale. Writing at `location == len` opens a new slot instead.
    pub fn insert(&mut self, location: usize, resource: T) -> (h: Handle<T>)
        requires
            old(self).wf(),
            location <= old(self)@.len(),
            location < old(self)@.len() ==> old(self)@[location as int].1 < u64::MAX,
        ensures
            final(self).wf(),
            final(self)@ == overwritten(old(self)@, location as nat, resource),
            h.index_spec() == location,
            h.revision_spec() == next_revision(old(self)@, location as nat),
    {
        let revision = self.update_revision(location);
        if location < self.storage.len() {
            self.storage[location] = resource;
        } else {
            self.storage.push(resource);
        }
        assert(self@ =~= overwritten(old(self)@, location as nat, resource));
        Handle::from_raw(location as u64, revision)
    }

    /// Looks up the value behind `handle`: `None` when the handle is stale or
    /// points past the end of the arena.
    pub fn get(&self, handle: Handle<T>) -> (r: Option<&T>)
        requires
            self.wf(),
        ensures
            r is Some <==> handle_valid(self@, handle),
            r matches Some(v) ==> lookup(self@, handle) == Some(*v),
    {
        let index = handle.index();
        if index >= self.revisions.len() as u64 {
            return None;
        }
        let storage_revision = self.revisions[index as usize];
        if storage_revision == handle.revision() {
            Some(&self.storage[index as usize])
        } else {
            None
        }
    }
}

} // verus!
