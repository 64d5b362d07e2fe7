use async_borrow::{
    BorrowInner, Poll, Ref, RefForward, RefMut, RefMutForward, RefMutShare, ShareBox, Weak,
};
use std::task::Waker;

fn idle() -> Waker {
    futures::task::noop_waker()
}

fn ready<R>(poll: Poll<R>) -> R {
    match poll {
        Poll::Ready(value) => value,
        Poll::Pending => panic!("the future still waits"),
    }
}

fn pending<R>(poll: Poll<R>) -> bool {
    matches!(poll, Poll::Pending)
}

#[test]
fn forwarding_gives_back_the_reference() {
    let (mut inner, example) = ShareBox::new(10);
    let (mut fut, rf_mut) = example.share_mut(&mut inner);
    let (mut forward, rf) = rf_mut.forward_ref(&mut inner);
    assert_eq!(forward.get(&inner), Some(&10));
    assert_eq!(*rf.deref(&inner), 10);
    assert!(pending(forward.poll(&mut inner, idle())));
    rf.release(&mut inner);
    let mut rf_mut = ready(forward.poll(&mut inner, idle()));
    assert_eq!(forward.get(&inner), None);
    *rf_mut.deref_mut(&mut inner) = 11;
    assert!(pending(fut.poll(&mut inner, idle())));
    rf_mut.release(&mut inner);
    assert_eq!(ready(fut.poll(&mut inner, idle())).into_inner(&mut inner), 11);
}

#[test]
fn a_forward_lends_further_references() {
    let (mut inner, example) = ShareBox::new(10);
    let (mut fut, rf_mut) = example.share_mut(&mut inner);
    let (mut forward, rf) = rf_mut.forward_ref(&mut inner);
    let other = forward.as_ref(&mut inner);
    rf.release(&mut inner);
    assert!(pending(forward.poll(&mut inner, idle())));
    assert_eq!(*other.deref(&inner), 10);
    other.release(&mut inner);
    ready(forward.poll(&mut inner, idle())).release(&mut inner);
    ready(fut.poll(&mut inner, idle())).release(&mut inner);
}

#[test]
fn a_share_lends_further_references() {
    let (mut inner, example) = ShareBox::new(4);
    let (mut fut, rf) = example.share_ref(&mut inner);
    assert_eq!(fut.get(&inner), Some(&4));
    let other = fut.as_ref(&mut inner);
    rf.release(&mut inner);
    assert!(pending(fut.poll(&mut inner, idle())));
    other.release(&mut inner);
    let example = ready(fut.poll(&mut inner, idle()));
    assert_eq!(fut.get(&inner), None);
    example.release(&mut inner);
}

#[test]
fn a_ready_forward_gives_back_the_reference() {
    let (mut inner, example) = ShareBox::new(4);
    let (mut fut, rf_mut) = example.share_mut(&mut inner);
    let mut forward = rf_mut.into_ref_forward(&mut inner);
    let rf_mut = ready(forward.poll(&mut inner, idle()));
    rf_mut.release(&mut inner);
    ready(fut.poll(&mut inner, idle())).release(&mut inner);
}

#[test]
fn a_generalised_share_gives_back_a_reference_that_owns() {
    let (mut inner, example) = ShareBox::new(4);
    let (fut, rf_mut) = example.share_mut(&mut inner);
    let mut fut: RefMutForward<i32> = fut.generalise();
    assert!(pending(fut.poll(&mut inner, idle())));
    rf_mut.release(&mut inner);
    let mut rf_mut = ready(fut.poll(&mut inner, idle()));
    *rf_mut.deref_mut(&mut inner) += 1;
    let (mut fut, rf_mut) = rf_mut.forward_mut(&mut inner);
    assert_eq!(*rf_mut.deref(&inner), 5);
    rf_mut.release(&mut inner);
    let rf_mut = ready(fut.poll(&mut inner, idle()));
    assert!(rf_mut.release(&mut inner));
    assert!(inner.data.is_none());
}

#[test]
fn a_generalised_share_can_be_read() {
    let (mut inner, example) = ShareBox::new(4);
    let (fut, rf) = example.share_ref(&mut inner);
    let fut: RefForward<i32> = fut.generalise();
    assert_eq!(fut.get(&inner), Some(&4));
    fut.release(&mut inner);
    rf.release(&mut inner);
    assert!(inner.data.is_none());
}

#[test]
fn futures_of_readers_become_futures_of_writers() {
    let (mut inner, example) = ShareBox::new(4);
    let (fut, rf) = example.share_ref(&mut inner);
    let mut fut = RefMutShare::from(fut);
    rf.release(&mut inner);
    let (mut fut, rf_mut) = ready(fut.poll(&mut inner, idle())).share_mut(&mut inner);
    let (forward, rf) = rf_mut.forward_ref(&mut inner);
    let mut forward = RefMutForward::from(forward);
    rf.release(&mut inner);
    ready(forward.poll(&mut inner, idle())).release(&mut inner);
    ready(fut.poll(&mut inner, idle())).release(&mut inner);
}

#[test]
fn spawning_shares_again() {
    let (mut inner, example) = ShareBox::new(1);
    let (mut fut, rf) = example.share_ref(&mut inner);
    assert!(pending(fut.spawn().poll(&mut inner, idle())));
    rf.release(&mut inner);
    let again = ready(fut.spawn().poll(&mut inner, idle()));
    assert_eq!(*again.deref(&inner), 1);
    assert!(pending(fut.poll(&mut inner, idle())));
    again.release(&mut inner);
    assert!(!fut.spawn().deref().is_terminated());
    ready(fut.spawn().deref_mut().poll(&mut inner, idle())).release(&mut inner);
}

#[test]
fn spawning_shares_mutably_again() {
    let (mut inner, example) = ShareBox::new(1);
    let (mut fut, rf_mut) = example.share_mut(&mut inner);
    assert!(pending(fut.spawn_mut().poll(&mut inner, idle())));
    rf_mut.release(&mut inner);
    let mut again = ready(fut.spawn_mut().poll(&mut inner, idle()));
    *again.deref_mut(&mut inner) += 1;
    again.release(&mut inner);
    assert_eq!(ready(fut.poll(&mut inner, idle())).into_inner(&mut inner), 2);
}

#[test]
fn splitting_lends_on_again() {
    let (mut inner, example) = ShareBox::new(1);
    let (mut fut, rf_mut) = example.share_mut(&mut inner);
    let (mut forward, rf) = rf_mut.forward_ref(&mut inner);
    assert!(pending(forward.split().poll(&mut inner, idle())));
    rf.release(&mut inner);
    let rf = ready(forward.split().poll(&mut inner, idle()));
    assert!(pending(forward.poll(&mut inner, idle())));
    rf.release(&mut inner);
    let (mut forward, rf_mut) = ready(forward.poll(&mut inner, idle())).forward_mut(&mut inner);
    rf_mut.release(&mut inner);
    let mut rf_mut = ready(forward.split_mut().poll(&mut inner, idle()));
    *rf_mut.deref_mut(&mut inner) += 1;
    rf_mut.release(&mut inner);
    ready(forward.poll(&mut inner, idle())).release(&mut inner);
    assert_eq!(ready(fut.poll(&mut inner, idle())).into_inner(&mut inner), 2);
}

fn below_three(value: &mut i32) -> bool {
    *value += 1;
    *value < 3
}

#[test]
fn spawning_goes_on_while_the_value_allows() {
    let (mut inner, example) = ShareBox::new(0);
    let mut fut = example.into_ref_share(&mut inner);
    let mut stream = fut.spawn_while(below_three);
    for expected in [1, 2] {
        let rf = ready(stream.poll_next(&mut inner, idle())).unwrap();
        assert_eq!(*rf.deref(&inner), expected);
        assert!(pending(stream.poll_next(&mut inner, idle())));
        rf.release(&mut inner);
    }
    assert!(ready(stream.poll_next(&mut inner, idle())).is_none());
    assert_eq!(ready(fut.poll(&mut inner, idle())).into_inner(&mut inner), 3);
}

#[test]
fn spawning_mutably_goes_on_while_the_value_allows() {
    let (mut inner, example) = ShareBox::new(0);
    let mut fut = example.into_mut_share(&mut inner);
    let mut stream = fut.spawn_mut_while(below_three);
    let mut rf_mut = ready(stream.poll_next(&mut inner, idle())).unwrap();
    *rf_mut.deref_mut(&mut inner) += 1;
    rf_mut.release(&mut inner);
    assert!(ready(stream.poll_next(&mut inner, idle())).is_none());
    assert_eq!(ready(fut.poll(&mut inner, idle())).into_inner(&mut inner), 3);
}

#[test]
fn splitting_goes_on_while_the_part_allows() {
    let (mut inner, example) = ShareBox::new(0);
    let (mut fut, rf_mut) = example.share_mut(&mut inner);
    let mut forward = rf_mut.into_ref_forward(&mut inner);
    let mut stream = forward.split_while(below_three);
    let rf = ready(stream.poll_next(&mut inner, idle())).unwrap();
    assert!(pending(stream.poll_next(&mut inner, idle())));
    rf.release(&mut inner);
    let rf = ready(stream.poll_next(&mut inner, idle())).unwrap();
    rf.release(&mut inner);
    assert!(ready(stream.poll_next(&mut inner, idle())).is_none());
    ready(forward.poll(&mut inner, idle())).release(&mut inner);
    assert_eq!(ready(fut.poll(&mut inner, idle())).into_inner(&mut inner), 3);
}

#[test]
fn splitting_mutably_goes_on_while_the_part_allows() {
    let (mut inner, example) = ShareBox::new(0);
    let (mut fut, rf_mut) = example.share_mut(&mut inner);
    let mut forward = rf_mut.into_mut_forward(&mut inner);
    let mut stream = forward.split_mut_while(below_three);
    let mut rf_mut = ready(stream.poll_next(&mut inner, idle())).unwrap();
    *rf_mut.deref_mut(&mut inner) = 5;
    rf_mut.release(&mut inner);
    assert!(ready(stream.poll_next(&mut inner, idle())).is_none());
    ready(forward.poll(&mut inner, idle())).release(&mut inner);
    assert_eq!(ready(fut.poll(&mut inner, idle())).into_inner(&mut inner), 6);
}

fn weak_of(inner: &mut BorrowInner<i32>, rf: &Ref<i32>) -> Weak<i32> {
    rf.downgrade(inner)
}

#[test]
fn a_weak_reference_lives_as_long_as_its_branch() {
    let (mut inner, example) = ShareBox::new(6);
    let (mut fut, rf) = example.share_ref(&mut inner);
    let weak = weak_of(&mut inner, &rf);
    let other = weak.clone(&mut inner);
    assert_eq!(inner.weak, 4);
    let upgraded = weak.upgrade(&mut inner).unwrap();
    assert_eq!(*upgraded.deref(&inner), 6);
    upgraded.release(&mut inner);
    rf.release(&mut inner);
    let example = ready(fut.poll(&mut inner, idle()));
    assert_eq!(inner.weak, 2);
    assert!(other.upgrade(&mut inner).is_none());
    assert_eq!(inner.weak, 1);
    example.release(&mut inner);
}

#[test]
fn a_weak_reference_does_not_survive_sharing_again() {
    let (mut inner, example) = ShareBox::new(6);
    let (mut fut, rf) = example.share_ref(&mut inner);
    let weak = rf.downgrade(&mut inner);
    let same = rf.downgrade(&mut inner);
    assert_eq!(weak.version, same.version);
    rf.release(&mut inner);
    let rf = ready(fut.spawn().poll(&mut inner, idle()));
    let fresh = rf.downgrade(&mut inner);
    assert!(fresh.version > weak.version);
    assert!(weak.upgrade(&mut inner).is_none());
    assert!(same.upgrade(&mut inner).is_none());
    fresh.upgrade(&mut inner).unwrap().release(&mut inner);
    rf.release(&mut inner);
    ready(fut.poll(&mut inner, idle())).release(&mut inner);
}

#[test]
fn a_weak_reference_does_not_keep_the_value() {
    let (mut inner, example) = ShareBox::new(6);
    let rf = example.into_ref(&mut inner);
    let weak = rf.downgrade(&mut inner);
    rf.release(&mut inner);
    assert!(inner.data.is_none());
    assert_eq!(inner.weak, 1);
    assert!(weak.release(&mut inner));
}

#[test]
fn mapping_changes_the_place_only() {
    let (mut inner, example) = ShareBox::new((1, 2));
    let (mut fut, rf_mut) = example.share_mut(&mut inner);
    let mut second: RefMut<(i32, i32), i32, async_borrow::place::Field<_, 1>> =
        rf_mut.map(|base| async_borrow::place::Field { base });
    *second.deref_mut(&mut inner) = 7;
    let (mut forward, rf) = second.forward_ref(&mut inner);
    assert_eq!(*rf.deref(&inner), 7);
    rf.release(&mut inner);
    ready(forward.poll(&mut inner, idle())).release(&mut inner);
    assert_eq!(ready(fut.poll(&mut inner, idle())).into_inner(&mut inner), (1, 7));
}

#[test]
fn a_ready_share_that_is_borrowed_again_waits_again() {
    let (mut inner, owner) = ShareBox::new(7);
    let mut fut = owner.into_ref_share(&mut inner);
    let rf = fut.as_ref(&mut inner);
    let other = fut.as_ref(&mut inner);
    assert!(pending(fut.poll(&mut inner, idle())));
    rf.release(&mut inner);
    assert!(pending(fut.poll(&mut inner, idle())));
    assert_eq!(*other.deref(&inner), 7);
    other.release(&mut inner);
    assert_eq!(inner.data, Some(7));
    assert_eq!(ready(fut.poll(&mut inner, idle())).into_inner(&mut inner), 7);
}

#[test]
fn a_ready_share_that_is_upgraded_to_waits_again() {
    let (mut inner, owner) = ShareBox::new(7);
    let (mut fut, rf) = owner.share_ref(&mut inner);
    let weak = weak_of(&mut inner, &rf);
    rf.release(&mut inner);
    let rf = weak.upgrade(&mut inner).unwrap();
    assert!(pending(fut.poll(&mut inner, idle())));
    rf.release(&mut inner);
    assert_eq!(inner.data, Some(7));
    assert_eq!(ready(fut.poll(&mut inner, idle())).into_inner(&mut inner), 7);
}

#[test]
fn a_ready_forward_that_is_borrowed_again_waits_again() {
    let (mut inner, owner) = ShareBox::new(7);
    let (mut outer, rf_mut) = owner.share_mut(&mut inner);
    let mut fut = rf_mut.into_ref_forward(&mut inner);
    let rf = fut.as_ref(&mut inner);
    assert!(pending(fut.poll(&mut inner, idle())));
    rf.release(&mut inner);
    let rf_mut = ready(fut.poll(&mut inner, idle()));
    assert!(pending(outer.poll(&mut inner, idle())));
    rf_mut.release(&mut inner);
    assert_eq!(ready(outer.poll(&mut inner, idle())).into_inner(&mut inner), 7);
}

#[test]
fn what_came_back_is_lent_again_or_left_ready() {
    let (mut inner, owner) = ShareBox::new(7);
    let mut fut = owner.into_ref_share(&mut inner);
    let owner = ready(fut.poll(&mut inner, idle()));
    let rf = fut.share_again(&mut inner, owner, true).unwrap();
    assert!(pending(fut.poll(&mut inner, idle())));
    rf.release(&mut inner);
    let owner = ready(fut.poll(&mut inner, idle()));
    assert!(fut.share_again(&mut inner, owner, false).is_none());
    let owner = ready(fut.poll(&mut inner, idle()));

    let (_outer, rf_mut) = owner.share_mut(&mut inner);
    let mut fut = rf_mut.into_mut_forward(&mut inner);
    let rf_mut = ready(fut.poll(&mut inner, idle()));
    let rf_mut = fut.lend_again(&mut inner, rf_mut, true).unwrap();
    assert!(pending(fut.poll(&mut inner, idle())));
    rf_mut.release(&mut inner);
    let rf_mut = ready(fut.poll(&mut inner, idle()));
    assert!(fut.lend_again(&mut inner, rf_mut, false).is_none());
    ready(fut.poll(&mut inner, idle()));
}
