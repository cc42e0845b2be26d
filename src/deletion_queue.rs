//! Deferred deletion.
//!
//! A resource that nothing on the host references any more may still be read by
//! work submitted to the device in earlier cycles, so it cannot be released at
//! once. The queue holds such resources until a caller-declared number of
//! cycles has passed and only then runs their release action.
use vstd::prelude::*;

verus! {

/// A resource that can be handed to a [`DeferredDeletionQueue`] with a default
/// lifetime of its own.
pub trait DeferredDeletable {
    /// Number of cycles the resource lives on once it is queued.
    const MAX_CYCLES: u64;
}

/// One queued resource.
pub struct DeletionItem<T, F> {
    /// Cycle at which the item becomes due for deletion.
    pub end_cycle: u64,
    /// Runs once, when the item is deleted. Some resources need none and
    /// rely on being dropped.
    pub deletion_function: Option<F>,
    /// The resource itself.
    pub resource: T,
}

/// The release action of `item`, if any, may be run.
pub open spec fn cleanup_ready<T, F: FnOnce()>(item: DeletionItem<T, F>) -> bool {
    item.deletion_function matches Some(f) ==> call_requires(f, ())
}

/// An item is due once the current cycle has reached its end cycle.
pub open spec fn is_due<T, F>(item: DeletionItem<T, F>, cycle: nat) -> bool {
    item.end_cycle <= cycle
}

/// The items a sweep at `cycle` finalizes, in queue order.
pub open spec fn due_items<T, F>(items: Seq<DeletionItem<T, F>>, cycle: nat) -> Seq<DeletionItem<T, F>> {
    items.filter(|it: DeletionItem<T, F>| is_due(it, cycle))
}

/// The items a sweep at `cycle` keeps, in queue order.
pub open spec fn kept_items<T, F>(items: Seq<DeletionItem<T, F>>, cycle: nat) -> Seq<DeletionItem<T, F>> {
    items.filter(|it: DeletionItem<T, F>| !is_due(it, cycle))
}

/// The release action of `item`, if any, has run.
pub open spec fn cleanup_done<T, F: FnOnce()>(item: DeletionItem<T, F>) -> bool {
    item.deletion_function matches Some(f) ==> call_ensures(f, (), ())
}

/// The abstract state of a queue: the cycle counter and the pending items in
/// the order they were queued.
pub struct QueueModel<T, F> {
    pub cycle: nat,
    pub items: Seq<DeletionItem<T, F>>,
}

/// State after queueing `resource` for `lifetime_cycles` cycles.
pub open spec fn enqueued<T, F>(
    m: QueueModel<T, F>,
    resource: T,
    lifetime_cycles: nat,
    deletion_function: Option<F>,
) -> QueueModel<T, F> {
    QueueModel {
        cycle: m.cycle,
        items: m.items.push(
            DeletionItem {
                end_cycle: (m.cycle + lifetime_cycles) as u64,
                deletion_function,
                resource,
            },
        ),
    }
}

/// State after one `step`.
pub open spec fn stepped<T, F>(m: QueueModel<T, F>) -> QueueModel<T, F> {
    QueueModel { cycle: m.cycle + 1, items: m.items }
}

/// State after one sweep.
pub open spec fn swept<T, F>(m: QueueModel<T, F>) -> QueueModel<T, F> {
    QueueModel { cycle: m.cycle, items: kept_items(m.items, m.cycle) }
}

/// One cycle as a caller drives it: `step`, then a sweep.
pub open spec fn round<T, F>(m: QueueModel<T, F>) -> QueueModel<T, F> {
    swept(stepped(m))
}

/// State after `j` rounds.
pub open spec fn rounds<T, F>(m: QueueModel<T, F>, j: nat) -> QueueModel<T, F>
    decreases j,
{
    if j == 0 {
        m
    } else {
        round(rounds(m, (j - 1) as nat))
    }
}

/// The items that the sweep of round `j` (counted from 1) finalizes.
pub open spec fn finalized_in_round<T, F>(m: QueueModel<T, F>, j: nat) -> Seq<DeletionItem<T, F>> {
    let before = stepped(rounds(m, (j - 1) as nat));
    due_items(before.items, before.cycle)
}

/// A sweep splits the items: each is either kept or finalized.
proof fn lemma_sweep_partitions<T, F>(items: Seq<DeletionItem<T, F>>, cycle: nat)
    ensures
        kept_items(items, cycle).len() + due_items(items, cycle).len() == items.len(),
    decreases items.len(),
{
    if items.len() > 0 {
        let rest = items.drop_last();
        assert(items =~= rest.push(items.last()));
        rest.lemma_filter_push(items.last(), |it: DeletionItem<T, F>| is_due(it, cycle));
        rest.lemma_filter_push(items.last(), |it: DeletionItem<T, F>| !is_due(it, cycle));
        lemma_sweep_partitions(rest, cycle);
    }
}

/// Sweeping at a later cycle after sweeping at an earlier one is the same as
/// sweeping once at the later cycle.
proof fn lemma_kept_twice<T, F>(items: Seq<DeletionItem<T, F>>, c1: nat, c2: nat)
    requires
        c1 <= c2,
    ensures
        kept_items(kept_items(items, c1), c2) == kept_items(items, c2),
    decreases items.len(),
{
    if items.len() > 0 {
        let rest = items.drop_last();
        let last = items.last();
        assert(items =~= rest.push(last));
        rest.lemma_filter_push(last, |it: DeletionItem<T, F>| !is_due(it, c1));
        rest.lemma_filter_push(last, |it: DeletionItem<T, F>| !is_due(it, c2));
        kept_items(rest, c1).lemma_filter_push(last, |it: DeletionItem<T, F>| !is_due(it, c2));
        lemma_kept_twice(rest, c1, c2);
    }
}

/// An element of `s` survives a filter exactly when it meets the predicate.
proof fn lemma_filter_keeps<A>(s: Seq<A>, p: spec_fn(A) -> bool, x: A)
    requires
        s.contains(x),
    ensures
        s.filter(p).contains(x) <==> p(x),
{
    broadcast use vstd::seq_lib::group_filter_ensures;

    if s.filter(p).contains(x) {
        let i = choose|i: int| 0 <= i < s.filter(p).len() && s.filter(p)[i] == x;
        assert(p(s.filter(p)[i]));
    }
    if p(x) {
        let i = choose|i: int| 0 <= i < s.len() && s[i] == x;
        assert(s.filter(p).contains(s[i]));
    }
}

/// After `j >= 1` rounds the cycle has advanced by `j` and exactly the items
/// whose end cycle lies beyond it remain, in queue order.
pub proof fn lemma_rounds<T, F>(m: QueueModel<T, F>, j: nat)
    requires
        j >= 1,
    ensures
        rounds(m, j).cycle == m.cycle + j,
        rounds(m, j).items == kept_items(m.items, m.cycle + j),
    decreases j,
{
    let prev = rounds(m, (j - 1) as nat);
    assert(rounds(m, j) == round(prev));
    if j > 1 {
        lemma_rounds(m, (j - 1) as nat);
        lemma_kept_twice(m.items, (m.cycle + j - 1) as nat, m.cycle + j);
    } else {
        assert(prev == m);
    }
}

/// An item queued with a lifetime of `k` cycles is still pending after each
/// round (a `step` followed by a sweep) before its `k`-th, and is gone from
/// the `k`-th on; exactly one sweep finalizes it, that of round `k` (round 1
/// when `k` is 0).
pub proof fn lemma_retained_until_due<T, F>(
    m: QueueModel<T, F>,
    resource: T,
    k: nat,
    deletion_function: Option<F>,
    j: nat,
)
    requires
        m.cycle + k <= u64::MAX,
        j >= 1,
    ensures
        ({
            let q = enqueued(m, resource, k, deletion_function);
            let x = q.items.last();
            &&& rounds(q, j).items.contains(x) <==> j < k
            &&& finalized_in_round(q, j).contains(x) <==> j == (if k == 0 { 1 } else { k })
        }),
{
    let q = enqueued(m, resource, k, deletion_function);
    let x = q.items.last();
    assert(q.items.contains(x)) by {
        assert(q.items[q.items.len() - 1] == x);
    }
    lemma_rounds(q, j);
    lemma_filter_keeps(q.items, |it: DeletionItem<T, F>| !is_due(it, q.cycle + j), x);
    let before = stepped(rounds(q, (j - 1) as nat));
    if j == 1 {
        assert(before.items == q.items);
        lemma_filter_keeps(q.items, |it: DeletionItem<T, F>| is_due(it, q.cycle + 1), x);
    } else {
        lemma_rounds(q, (j - 1) as nat);
        lemma_filter_keeps(q.items, |it: DeletionItem<T, F>| !is_due(it, (q.cycle + j - 1) as nat), x);
        if before.items.contains(x) {
            lemma_filter_keeps(before.items, |it: DeletionItem<T, F>| is_due(it, before.cycle), x);
        } else {
            if finalized_in_round(q, j).contains(x) {
                before.items.lemma_filter_contains_rev(
                    |it: DeletionItem<T, F>| is_due(it, before.cycle),
                    x,
                );
            }
        }
    }
}

/// One call on the queue, as the laws below speak of it.
pub enum QueueOp<T, F> {
    /// `enqueue_deletion` of a resource with a lifetime and release action.
    Enqueue(T, nat, Option<F>),
    /// `step`.
    Step,
    /// A sweep.
    Sweep,
}

/// State after one call.
pub open spec fn apply_queue_op<T, F>(m: QueueModel<T, F>, op: QueueOp<T, F>) -> QueueModel<T, F> {
    match op {
        QueueOp::Enqueue(resource, k, f) => enqueued(m, resource, k, f),
        QueueOp::Step => stepped(m),
        QueueOp::Sweep => swept(m),
    }
}

/// Number of items one call finalizes.
pub open spec fn finalized_by<T, F>(m: QueueModel<T, F>, op: QueueOp<T, F>) -> nat {
    match op {
        QueueOp::Sweep => due_items(m.items, m.cycle).len(),
        _ => 0,
    }
}

/// State after a run of calls, first to last.
pub open spec fn run_queue<T, F>(m: QueueModel<T, F>, ops: Seq<QueueOp<T, F>>) -> QueueModel<T, F>
    decreases ops.len(),
{
    if ops.len() == 0 {
        m
    } else {
        run_queue(apply_queue_op(m, ops[0]), ops.drop_first())
    }
}

/// Number of items the sweeps of a run finalize.
pub open spec fn total_finalized<T, F>(m: QueueModel<T, F>, ops: Seq<QueueOp<T, F>>) -> nat
    decreases ops.len(),
{
    if ops.len() == 0 {
        0
    } else {
        finalized_by(m, ops[0]) + total_finalized(apply_queue_op(m, ops[0]), ops.drop_first())
    }
}

/// Number of enqueue calls in a run.
pub open spec fn total_enqueued<T, F>(ops: Seq<QueueOp<T, F>>) -> nat
    decreases ops.len(),
{
    if ops.len() == 0 {
        0
    } else {
        (if ops[0] is Enqueue { 1nat } else { 0nat }) + total_enqueued(ops.drop_first())
    }
}

/// However enqueues, steps and sweeps interleave, no item is lost: the items
/// pending at the end number those pending at the start plus those enqueued
/// minus those the sweeps finalized.
pub proof fn lemma_no_item_lost<T, F>(m: QueueModel<T, F>, ops: Seq<QueueOp<T, F>>)
    ensures
        run_queue(m, ops).items.len() + total_finalized(m, ops) == m.items.len() + total_enqueued(ops),
    decreases ops.len(),
{
    if ops.len() > 0 {
        let next = apply_queue_op(m, ops[0]);
        lemma_no_item_lost(next, ops.drop_first());
        if ops[0] is Sweep {
            lemma_sweep_partitions(m.items, m.cycle);
        }
    }
}

/// A queue of resources waiting for their deletion cycle.
pub struct DeferredDeletionQueue<T, F> {
    /// Number of cycles that have passed.
    cycle: u64,
    /// Pending items, oldest first.
    items: Vec<DeletionItem<T, F>>,
}

impl<T, F> View for DeferredDeletionQueue<T, F> {
    type V = QueueModel<T, F>;

    closed spec fn view(&self) -> QueueModel<T, F> {
        QueueModel { cycle: self.cycle as nat, items: self.items@ }
    }
}

impl<T, F: FnOnce()> DeferredDeletionQueue<T, F> {
    /// Every pending release action can be run.
    pub open spec fn wf(&self) -> bool {
        forall|i: int| 0 <= i < self@.items.len() ==> cleanup_ready(#[trigger] self@.items[i])
    }

    /// An empty queue at cycle 0.
    pub fn new() -> (q: Self)
        ensures
            q.wf(),
            q@.cycle == 0,
            q@.items == Seq::<DeletionItem<T, F>>::empty(),
    {
        DeferredDeletionQueue { cycle: 0, items: Vec::new() }
    }

    /// The current cycle.
    pub fn cycle(&self) -> (r: u64)
        ensures
            r == self@.cycle,
    {
        self.cycle
    }

    /// Number of pending items.
    pub fn len(&self) -> (r: usize)
        ensures
            r == self@.items.len(),
    {
        self.items.len()
    }

    /// Queues `resource` for deletion once `lifetime_cycles` more cycles have
    /// passed, with an optional action to run at that point.
    pub fn enqueue_deletion(&mut self, resource: T, lifetime_cycles: u64, deletion_function: Option<F>)
        requires
            old(self).wf(),
            old(self)@.cycle + lifetime_cycles <= u64::MAX,
            deletion_function matches Some(f) ==> call_requires(f, ()),
        ensures
            final(self).wf(),
            final(self)@ == enqueued(old(self)@, resource, lifetime_cycles as nat, deletion_function),
    {
        let end_cycle = self.cycle + lifetime_cycles;
        self.items.push(DeletionItem { end_cycle, deletion_function, resource });
        assert forall|i: int| 0 <= i < self@.items.len() implies cleanup_ready(#[trigger] self@.items[i]) by {
            if i < old(self)@.items.len() {
                assert(cleanup_ready(old(self)@.items[i]));
            }
        }
    }

    /// Queues `resource` for deletion after its type's own lifetime,
    /// [`DeferredDeletable::MAX_CYCLES`].
    pub fn enqueue_deletable(&mut self, resource: T, deletion_function: Option<F>)
        where
            T: DeferredDeletable,
        requires
            old(self).wf(),
            old(self)@.cycle + T::MAX_CYCLES <= u64::MAX,
            deletion_function matches Some(f) ==> call_requires(f, ()),
        ensures
            final(self).wf(),
            final(self)@ == enqueued(old(self)@, resource, T::MAX_CYCLES as nat, deletion_function),
    {
        self.enqueue_deletion(resource, T::MAX_CYCLES, deletion_function);
    }

    /// Steps forward by one cycle. Nothing is swept.
    pub fn step(&mut self)
        requires
            old(self)@.cycle < u64::MAX,
        ensures
            final(self)@ == stepped(old(self)@),
    {
        self.cycle = self.cycle + 1;
    }

    /// Removes every due item (end cycle at or before the current cycle) and
    /// hands them back in queue order; the items not yet due stay, in order.
    pub fn take_expired(&mut self) -> (due: Vec<DeletionItem<T, F>>)
        requires
            old(self).wf(),
        ensures
            final(self).wf(),
            final(self)@ == swept(old(self)@),
            due@ == due_items(old(self)@.items, old(self)@.cycle),
            forall|i: int| 0 <= i < due@.len() ==> cleanup_ready(#[trigger] due@[i]),
    {
        let mut pending: Vec<DeletionItem<T, F>> = Vec::new();
        std::mem::swap(&mut pending, &mut self.items);
        let ghost all = pending@;
        assert forall|i: int| 0 <= i < all.len() implies cleanup_ready(#[trigger] all[i]) by {
            assert(cleanup_ready(old(self)@.items[i]));
        }
        let cycle = self.cycle;
        let mut due: Vec<DeletionItem<T, F>> = Vec::new();
        for item in it: pending
            invariant
                it.seq() == all,
                self.cycle == cycle,
                cycle == old(self)@.cycle,
                all == old(self)@.items,
                forall|i: int| 0 <= i < all.len() ==> cleanup_ready(#[trigger] all[i]),
                self.items@ == kept_items(all.take(it.index()), cycle as nat),
                due@ == due_items(all.take(it.index()), cycle as nat),
                forall|i: int| 0 <= i < self.items@.len() ==> cleanup_ready(#[trigger] self.items@[i]),
                forall|i: int| 0 <= i < due@.len() ==> cleanup_ready(#[trigger] due@[i]),
        {
            proof {
                let k = it.index();
                assert(all.take(k + 1) =~= all.take(k).push(item));
                all.take(k).lemma_filter_push(item, |x: DeletionItem<T, F>| is_due(x, cycle as nat));
                all.take(k).lemma_filter_push(item, |x: DeletionItem<T, F>| !is_due(x, cycle as nat));
                assert(cleanup_ready(all[k]));
            }
            if item.end_cycle <= cycle {
                due.push(item);
            } else {
                self.items.push(item);
            }
        }
        proof {
            assert(all.take(all.len() as int) =~= all);
        }
        due
    }

    /// Sweeps the queue: every due item is removed and finalized in queue
    /// order, its release action run once before the resource is dropped.
    /// Items not yet due stay untouched.
    pub fn delete_expired_items(&mut self)
        requires
            old(self).wf(),
        ensures
            final(self).wf(),
            final(self)@ == swept(old(self)@),
            forall|i: int|
                0 <= i < due_items(old(self)@.items, old(self)@.cycle).len() ==> cleanup_done(
                    #[trigger] due_items(old(self)@.items, old(self)@.cycle)[i],
                ),
    {
        let due = self.take_expired();
        let ghost all = due@;
        for item in it: due
            invariant
                it.seq() == all,
                forall|i: int| 0 <= i < all.len() ==> cleanup_ready(#[trigger] all[i]),
                forall|i: int| 0 <= i < it.index() ==> cleanup_done(#[trigger] all[i]),
        {
            proof {
                assert(cleanup_ready(all[it.index()]));
            }
            let DeletionItem { end_cycle: _, deletion_function, resource: _resource } = item;
            match deletion_function {
                Some(f) => f(),
                None => {},
            }
        }
    }
}

} // verus!
