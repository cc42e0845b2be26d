use std::cell::{Cell, RefCell};
use std::rc::Rc;
use vkcore::deletion_queue::{DeferredDeletable, DeferredDeletionQueue};

type Cleanup = Box<dyn FnOnce()>;

fn counter_cleanup(counter: &Rc<Cell<u32>>) -> Option<Cleanup> {
    let c = Rc::clone(counter);
    Some(Box::new(move || c.set(c.get() + 1)))
}

#[test]
fn new_queue_is_empty_at_cycle_zero() {
    let q: DeferredDeletionQueue<u32, Cleanup> = DeferredDeletionQueue::new();
    assert_eq!(q.cycle(), 0);
    assert_eq!(q.len(), 0);
}

#[test]
fn item_retained_until_its_cycle() {
    for k in 0u64..5 {
        let counter = Rc::new(Cell::new(0));
        let mut q: DeferredDeletionQueue<u32, Cleanup> = DeferredDeletionQueue::new();
        q.enqueue_deletion(1, k, counter_cleanup(&counter));
        let mut removed_at = None;
        for j in 1u64..=8 {
            q.step();
            q.delete_expired_items();
            if q.len() == 0 && removed_at.is_none() {
                removed_at = Some(j);
            }
            if j < k {
                assert_eq!(q.len(), 1, "k = {k}, round {j}");
                assert_eq!(counter.get(), 0);
            }
        }
        assert_eq!(removed_at, Some(k.max(1)));
        assert_eq!(counter.get(), 1);
    }
}

#[test]
fn sweep_before_step_removes_zero_lifetime_item() {
    let counter = Rc::new(Cell::new(0));
    let mut q: DeferredDeletionQueue<u32, Cleanup> = DeferredDeletionQueue::new();
    q.enqueue_deletion(1, 0, counter_cleanup(&counter));
    q.enqueue_deletion(2, 1, counter_cleanup(&counter));
    q.delete_expired_items();
    assert_eq!(q.len(), 1);
    assert_eq!(counter.get(), 1);
}

#[test]
fn step_does_not_sweep() {
    let mut q: DeferredDeletionQueue<u32, Cleanup> = DeferredDeletionQueue::new();
    q.enqueue_deletion(1, 1, None);
    q.step();
    q.step();
    assert_eq!(q.cycle(), 2);
    assert_eq!(q.len(), 1);
    q.delete_expired_items();
    assert_eq!(q.len(), 0);
}

#[test]
fn live_items_are_not_deleted_early() {
    let counter = Rc::new(Cell::new(0));
    let mut q: DeferredDeletionQueue<u32, Cleanup> = DeferredDeletionQueue::new();
    q.step();
    q.step();
    q.enqueue_deletion(1, 3, counter_cleanup(&counter));
    q.delete_expired_items();
    q.step();
    q.delete_expired_items();
    q.step();
    q.delete_expired_items();
    assert_eq!(q.len(), 1);
    assert_eq!(counter.get(), 0);
    q.step();
    q.delete_expired_items();
    assert_eq!(q.len(), 0);
    assert_eq!(counter.get(), 1);
}

#[test]
fn cleanups_run_in_queue_order() {
    let log: Rc<RefCell<Vec<u32>>> = Rc::new(RefCell::new(Vec::new()));
    let mut q: DeferredDeletionQueue<u32, Cleanup> = DeferredDeletionQueue::new();
    for (id, life) in [(1u32, 2u64), (2, 0), (3, 5), (4, 1), (5, 2)] {
        let l = Rc::clone(&log);
        q.enqueue_deletion(id, life, Some(Box::new(move || l.borrow_mut().push(id))));
    }
    q.step();
    q.step();
    q.delete_expired_items();
    assert_eq!(*log.borrow(), vec![1, 2, 4, 5]);
    assert_eq!(q.len(), 1);
}

#[test]
fn take_expired_splits_in_order() {
    let mut q: DeferredDeletionQueue<u32, Cleanup> = DeferredDeletionQueue::new();
    q.enqueue_deletion(1, 0, None);
    q.enqueue_deletion(2, 3, None);
    q.enqueue_deletion(3, 0, None);
    let due = q.take_expired();
    let ids: Vec<u32> = due.iter().map(|it| it.resource).collect();
    assert_eq!(ids, vec![1, 3]);
    assert_eq!(due[0].end_cycle, 0);
    assert_eq!(q.len(), 1);
}

#[test]
fn no_item_lost_across_interleaved_calls() {
    let mut q: DeferredDeletionQueue<u32, Cleanup> = DeferredDeletionQueue::new();
    let mut enqueued = 0usize;
    let mut swept = 0usize;
    for round in 0u32..20 {
        for producer in 0u32..3 {
            q.enqueue_deletion(round * 3 + producer, ((round + producer) % 4) as u64, None);
            enqueued += 1;
        }
        let before = q.len();
        q.delete_expired_items();
        swept += before - q.len();
        q.step();
    }
    assert_eq!(q.len(), enqueued - swept);
    assert!(swept > 0);
}

struct Texture;

impl DeferredDeletable for Texture {
    const MAX_CYCLES: u64 = 3;
}

#[test]
fn deletable_types_use_their_own_lifetime() {
    let mut q: DeferredDeletionQueue<Texture, Cleanup> = DeferredDeletionQueue::new();
    q.step();
    q.enqueue_deletable(Texture, None);
    let due = q.take_expired();
    assert!(due.is_empty());
    let mut q2: DeferredDeletionQueue<Texture, Cleanup> = DeferredDeletionQueue::new();
    q2.step();
    q2.enqueue_deletable(Texture, None);
    q2.step();
    q2.step();
    q2.step();
    q2.delete_expired_items();
    assert_eq!(q2.len(), 0);
    assert_eq!(q.len(), 1);
}
