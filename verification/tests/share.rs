use async_borrow::place::{Field, Whole};
use async_borrow::{BorrowInner, Context, Poll, Ref, RefMut, ShareBox};
use std::sync::atomic::{AtomicUsize, Ordering};
use std::sync::{Arc, Mutex};
use std::task::{Wake, Waker};

/// A task that counts how often it was woken.
struct Task(AtomicUsize);

impl Wake for Task {
    fn wake(self: Arc<Self>) {
        self.0.fetch_add(1, Ordering::SeqCst);
    }
}

fn task() -> (Arc<Task>, Waker) {
    let task = Arc::new(Task(AtomicUsize::new(0)));
    let waker = Waker::from(task.clone());
    (task, waker)
}

fn woken(task: &Arc<Task>) -> usize {
    task.0.load(Ordering::SeqCst)
}

fn idle() -> Waker {
    futures::task::noop_waker()
}

fn run_due<T>(inner: &mut BorrowInner<T>) -> usize {
    let due = inner.graph.take_due();
    let count = due.len();
    for waker in due {
        waker.wake();
    }
    count
}

fn ready<R>(poll: Poll<R>) -> R {
    match poll {
        Poll::Ready(value) => value,
        Poll::Pending => panic!("the future still waits"),
    }
}

fn pending<R>(poll: Poll<R>) -> bool {
    matches!(poll, Poll::Pending)
}

#[test]
fn new_drop() {
    let (mut inner, example) = ShareBox::new(());
    assert!(example.release(&mut inner));
    assert!(inner.data.is_none());
    assert_eq!(inner.weak, 0);
}

#[test]
fn new_take() {
    let (mut inner, example) = ShareBox::new(());
    example.into_inner(&mut inner);
    assert!(inner.data.is_none());
    assert_eq!(inner.weak, 0);
}

#[test]
fn new_into_ref() {
    let (mut inner, example) = ShareBox::new(());
    let rf = example.into_ref(&mut inner);
    assert!(inner.data.is_some());
    assert!(rf.release(&mut inner));
    assert!(inner.data.is_none());
}

#[test]
fn new_into_mut() {
    let (mut inner, example) = ShareBox::new(7);
    let mut rf_mut = example.into_mut(&mut inner);
    *rf_mut.deref_mut(&mut inner) += 1;
    assert_eq!(*rf_mut.deref(&inner), 8);
    assert!(rf_mut.release(&mut inner));
    assert!(inner.data.is_none());
}

#[test]
fn lil_test() {
    let (mut inner, example) = ShareBox::new(());
    let (mut fut, rm) = example.share_mut(&mut inner);
    rm.release(&mut inner);
    let example = ready(fut.poll(&mut inner, idle()));
    example.into_inner(&mut inner);
}

#[test]
fn lib_vibe_check() {
    let (mut inner, mut example) = ShareBox::new(Mutex::new(0));
    *example.deref_mut(&mut inner).get_mut().unwrap() += 1;

    // borrow mut
    let (mut fut, mut rf_mut) = example.spawn_mut(&mut inner, |rf_mut| rf_mut);
    *rf_mut.deref_mut(&mut inner).get_mut().unwrap() += 1;
    assert!(pending(fut.poll(&mut inner, idle())));
    rf_mut.release(&mut inner);
    let example = ready(fut.poll(&mut inner, idle()));

    // borrow mut
    let (mut fut, rf_mut) = example.spawn_mut(&mut inner, |rf_mut| rf_mut);
    // forwarding borrow mut
    let (mut forward, mut forwarded) = rf_mut.cleave_mut(&mut inner, |rf_mut| rf_mut);
    *forwarded.deref_mut(&mut inner).get_mut().unwrap() += 1;
    assert!(pending(forward.poll(&mut inner, idle())));
    forwarded.release(&mut inner);
    let rf_mut = ready(forward.poll(&mut inner, idle()));
    // forwarding borrow
    let (mut forward, c) = rf_mut.cleave_ref(&mut inner, |rf| rf);
    let a = c.clone(&mut inner);
    let b = c.clone(&mut inner);
    for rf in [c, b, a] {
        assert!(pending(forward.poll(&mut inner, idle())));
        *rf.deref(&inner).lock().unwrap() += 1;
        rf.release(&mut inner);
    }
    // reaquisition
    let mut rf_mut = ready(forward.poll(&mut inner, idle()));
    *rf_mut.deref_mut(&mut inner).get_mut().unwrap() += 1;
    assert!(pending(fut.poll(&mut inner, idle())));
    rf_mut.release(&mut inner);
    let example = ready(fut.poll(&mut inner, idle()));

    // borrow
    let (mut fut, c) = example.spawn_ref(&mut inner, |rf| rf);
    let a = c.clone(&mut inner);
    let b = c.clone(&mut inner);
    for rf in [c, b, a] {
        assert!(pending(fut.poll(&mut inner, idle())));
        *rf.deref(&inner).lock().unwrap() += 1;
        rf.release(&mut inner);
    }
    let example = ready(fut.poll(&mut inner, idle()));

    // borrow mut
    let (mut fut, mut rf_mut) = example.spawn_mut(&mut inner, |rf_mut| rf_mut);
    *rf_mut.deref_mut(&mut inner).get_mut().unwrap() += 1;
    rf_mut.release(&mut inner);
    let mut example = ready(fut.poll(&mut inner, idle()));

    // reaquisition
    *example.deref_mut(&mut inner).get_mut().unwrap() += 1;
    assert_eq!(12, example.into_inner(&mut inner).into_inner().unwrap());
}

#[test]
fn context_test() {
    let (mut inner, example) = ShareBox::new((0_i8, 0_i8));
    let (mut fut, rf_mut) = example.spawn_mut(&mut inner, |rf_mut| rf_mut);
    let (mut forward, rf_mut) = rf_mut.cleave_mut(&mut inner, |rf_mut| rf_mut);
    let (mut rf_mut_left, mut rf_mut_right) = rf_mut.context(
        &mut inner,
        |place: Whole, context: Context<(i8, i8)>, inner: &mut BorrowInner<(i8, i8)>| {
            let a: RefMut<(i8, i8), i8, Field<Whole, 0>> =
                context.lift_mut(inner, Field { base: place });
            let b: RefMut<(i8, i8), i8, Field<Whole, 1>> =
                context.lift_mut(inner, Field { base: place });
            context.release(inner);
            (a, b)
        },
    );
    *rf_mut_left.deref_mut(&mut inner) += 1;
    *rf_mut_right.deref_mut(&mut inner) -= 1;
    rf_mut_left.release(&mut inner);
    assert!(pending(forward.poll(&mut inner, idle())));
    rf_mut_right.release(&mut inner);
    let mut rf_mut = ready(forward.poll(&mut inner, idle()));
    let ab = rf_mut.deref_mut(&mut inner);
    std::mem::swap(&mut ab.0, &mut ab.1);
    rf_mut.release(&mut inner);
    let x = ready(fut.poll(&mut inner, idle())).into_inner(&mut inner);
    assert_eq!(x, (-1_i8, 1_i8));
}

#[test]
fn test_into_mut_share() {
    let (mut inner, example) = ShareBox::new(());
    let mut fut = example.into_mut_share(&mut inner);
    ready(fut.poll(&mut inner, idle())).into_inner(&mut inner)
}

#[test]
fn test_into_mut_forward() {
    let (mut inner, example) = ShareBox::new(());
    let (mut fut, rf_mut) = example.spawn_mut(&mut inner, |rf_mut| rf_mut);
    let mut forward = rf_mut.into_mut_forward(&mut inner);
    let rf_mut = ready(forward.poll(&mut inner, idle()));
    assert!(forward.is_terminated());
    rf_mut.release(&mut inner);
    ready(fut.poll(&mut inner, idle())).into_inner(&mut inner)
}

#[test]
fn test_drop_forward_then_drop_future() {
    let (mut inner, example) = ShareBox::new(());
    let (mut fut, rf_mut) = example.spawn_mut(&mut inner, |rf_mut| rf_mut);
    let (forward, rf_mut) = rf_mut.forward_mut(&mut inner);
    rf_mut.release(&mut inner);
    assert!(pending(fut.poll(&mut inner, idle())));
    forward.release(&mut inner);
    ready(fut.poll(&mut inner, idle())).into_inner(&mut inner)
}

#[test]
fn test_drop_future_then_drop_forward() {
    let (mut inner, example) = ShareBox::new(());
    let (mut fut, rf_mut) = example.spawn_mut(&mut inner, |rf_mut| rf_mut);
    let (forward, rf_mut) = rf_mut.forward_mut(&mut inner);
    forward.release(&mut inner);
    assert!(pending(fut.poll(&mut inner, idle())));
    rf_mut.release(&mut inner);
    ready(fut.poll(&mut inner, idle())).into_inner(&mut inner)
}

#[test]
fn sharing_counts_pointers() {
    let (mut inner, example) = ShareBox::new(3);
    assert_eq!(inner.weak, 1);
    let (mut fut, rf) = example.share_ref(&mut inner);
    assert_eq!(inner.weak, 2);
    let copy = rf.clone(&mut inner);
    assert_eq!(inner.weak, 3);
    assert_eq!((*rf.deref(&inner), *copy.deref(&inner)), (3, 3));
    rf.release(&mut inner);
    copy.release(&mut inner);
    assert_eq!(inner.weak, 1);
    let example = ready(fut.poll(&mut inner, idle()));
    assert_eq!(*example.deref(&inner), 3);
    assert!(example.release(&mut inner));
}

#[test]
fn the_last_release_wakes_the_task() {
    let (mut inner, example) = ShareBox::new(1);
    let (mut fut, rf) = example.share_ref(&mut inner);
    let copy = rf.clone(&mut inner);
    let (task, waker) = task();
    assert!(pending(fut.poll(&mut inner, waker)));
    rf.release(&mut inner);
    assert_eq!(run_due(&mut inner), 0);
    assert_eq!(woken(&task), 0);
    copy.release(&mut inner);
    assert_eq!(run_due(&mut inner), 1);
    assert_eq!(woken(&task), 1);
    assert_eq!(run_due(&mut inner), 0);
}

#[test]
fn the_waker_of_the_latest_poll_is_woken() {
    let (mut inner, example) = ShareBox::new(1);
    let (mut fut, rf) = example.share_ref(&mut inner);
    let (first, waker) = task();
    assert!(pending(fut.poll(&mut inner, waker.clone())));
    assert!(pending(fut.poll(&mut inner, waker)));
    let (second, waker) = task();
    assert!(pending(fut.poll(&mut inner, waker)));
    rf.release(&mut inner);
    assert_eq!(run_due(&mut inner), 1);
    assert_eq!((woken(&first), woken(&second)), (0, 1));
}

#[test]
fn a_ready_future_makes_only_a_placeholder_due() {
    let (mut inner, example) = ShareBox::new(5);
    let mut fut = example.into_ref_share(&mut inner);
    assert_eq!(run_due(&mut inner), 1);
    assert!(!fut.is_terminated());
    let example = ready(fut.poll(&mut inner, idle()));
    assert!(fut.is_terminated());
    assert_eq!(example.into_inner(&mut inner), 5);
}

#[test]
fn the_drop_order_matters_only_to_wakers() {
    for reference_first in [true, false] {
        let (mut inner, example) = ShareBox::new(1);
        let (mut fut, rf_mut) = example.share_mut(&mut inner);
        let (outer, waker) = task();
        assert!(pending(fut.poll(&mut inner, waker)));
        let (mut forward, rf_mut) = rf_mut.forward_mut(&mut inner);
        let (lender, waker) = task();
        assert!(pending(forward.poll(&mut inner, waker)));
        if reference_first {
            rf_mut.release(&mut inner);
            forward.release(&mut inner);
        } else {
            forward.release(&mut inner);
            rf_mut.release(&mut inner);
        }
        run_due(&mut inner);
        assert_eq!(woken(&lender), if reference_first { 1 } else { 0 });
        assert_eq!(woken(&outer), 1);
        assert_eq!(ready(fut.poll(&mut inner, idle())).into_inner(&mut inner), 1);
    }
}

#[test]
fn an_abandoned_value_is_dropped_with_the_last_reference() {
    let value = Arc::new(());
    let (mut inner, example) = ShareBox::new(value.clone());
    let (fut, rf) = example.share_ref(&mut inner);
    let copy = rf.clone(&mut inner);
    fut.release(&mut inner);
    rf.release(&mut inner);
    assert_eq!(Arc::strong_count(&value), 2);
    assert!(copy.release(&mut inner));
    assert_eq!(Arc::strong_count(&value), 1);
    assert!(inner.data.is_none());
}

#[test]
fn an_answered_future_is_released_without_effect() {
    let (mut inner, example) = ShareBox::new(1);
    let mut fut = example.into_mut_share(&mut inner);
    let example = ready(fut.poll(&mut inner, idle()));
    fut.release(&mut inner);
    assert_eq!(inner.weak, 1);
    assert_eq!(example.into_inner(&mut inner), 1);
}

#[test]
fn a_clone_of_the_owner_owns_a_clone_of_the_value() {
    let (mut inner, mut example) = ShareBox::new(vec![1, 2]);
    let (mut other, copy) = example.clone(&inner);
    example.deref_mut(&mut inner).push(3);
    assert_eq!(copy.into_inner(&mut other), vec![1, 2]);
    assert_eq!(example.into_inner(&mut inner), vec![1, 2, 3]);
}

#[test]
fn a_mutable_reference_becomes_a_reference() {
    let (mut inner, example) = ShareBox::new(2);
    let (mut fut, rf_mut) = example.share_mut(&mut inner);
    let rf: Ref<i32> = Ref::from(rf_mut);
    let copy = rf.clone(&mut inner);
    assert_eq!(*copy.deref(&inner), 2);
    rf.release(&mut inner);
    copy.release(&mut inner);
    ready(fut.poll(&mut inner, idle())).into_inner(&mut inner);
}

#[test]
fn many_branches_outgrow_the_arena() {
    let (mut inner, example) = ShareBox::new(0u64);
    let (mut fut, mut rf_mut) = example.share_mut(&mut inner);
    let mut forwards = Vec::new();
    for _ in 0..40 {
        let (forward, next) = rf_mut.forward_mut(&mut inner);
        forwards.push(forward);
        rf_mut = next;
    }
    *rf_mut.deref_mut(&mut inner) += 1;
    while let Some(mut forward) = forwards.pop() {
        assert!(pending(forward.poll(&mut inner, idle())));
        rf_mut.release(&mut inner);
        rf_mut = ready(forward.poll(&mut inner, idle()));
        *rf_mut.deref_mut(&mut inner) += 1;
    }
    rf_mut.release(&mut inner);
    assert_eq!(ready(fut.poll(&mut inner, idle())).into_inner(&mut inner), 41);
}
