use async_borrow::place::{Elem, Field, Place, Span, Whole};
use async_borrow::{Poll, Ref, RefMut, ShareBox, WideShareBox};
use std::task::Waker;

fn idle() -> Waker {
    futures::task::noop_waker()
}

fn ready<R>(poll: Poll<R>) -> R {
    match poll {
        Poll::Ready(value) => value,
        Poll::Pending => panic!("the future still waits"),
    }
}

#[test]
fn places_reach_into_values() {
    let mut value = (vec![1, 2, 3], 4);
    let first = Field::<Whole, 0> { base: Whole };
    let elem = Elem { base: first, index: 1 };
    assert_eq!(*elem.get(&value), 2);
    *elem.get_mut(&mut value) = 9;
    let span = Span { base: first, start: 1, len: 2 };
    assert_eq!(span.get::<(Vec<i32>, i32), i32>(&value), &[9, 3]);
    span.get_mut::<(Vec<i32>, i32), i32>(&mut value)[1] = 8;
    assert_eq!(value, (vec![1, 9, 8], 4));
}

#[test]
fn destructuring_nothing_gives_the_reference_back() {
    let (mut inner, example) = ShareBox::new(());
    let (mut fut, rf) = example.share_ref(&mut inner);
    rf.destructure(&mut inner);
    let (mut fut, rf_mut) = ready(fut.poll(&mut inner, idle())).share_mut(&mut inner);
    rf_mut.destructure(&mut inner);
    ready(fut.poll(&mut inner, idle())).release(&mut inner);
}

#[test]
fn destructuring_one() {
    let (mut inner, example) = ShareBox::new((5,));
    let (mut fut, rf) = example.share_ref(&mut inner);
    let (a,) = rf.destructure(&mut inner);
    assert_eq!(*a.deref(&inner), 5);
    a.release(&mut inner);
    let (mut fut, rf_mut) = ready(fut.poll(&mut inner, idle())).share_mut(&mut inner);
    let (mut a,) = rf_mut.destructure(&mut inner);
    *a.deref_mut(&mut inner) = 6;
    a.release(&mut inner);
    assert_eq!(ready(fut.poll(&mut inner, idle())).into_inner(&mut inner), (6,));
}

#[test]
fn destructuring_two() {
    let (mut inner, example) = ShareBox::new((1, 'a'));
    let (mut fut, rf) = example.share_ref(&mut inner);
    let (a, b) = rf.destructure(&mut inner);
    assert_eq!((*a.deref(&inner), *b.deref(&inner)), (1, 'a'));
    a.release(&mut inner);
    assert!(matches!(fut.poll(&mut inner, idle()), Poll::Pending));
    b.release(&mut inner);
    let (mut fut, rf_mut) = ready(fut.poll(&mut inner, idle())).share_mut(&mut inner);
    let (mut a, mut b) = rf_mut.destructure(&mut inner);
    *a.deref_mut(&mut inner) = 2;
    *b.deref_mut(&mut inner) = 'b';
    assert_eq!(*a.deref(&inner), 2);
    a.release(&mut inner);
    b.release(&mut inner);
    assert_eq!(ready(fut.poll(&mut inner, idle())).into_inner(&mut inner), (2, 'b'));
}

#[test]
fn destructuring_three() {
    let (mut inner, example) = ShareBox::new((1, 2, 3));
    let (mut fut, rf) = example.share_ref(&mut inner);
    let (a, b, c) = rf.destructure(&mut inner);
    assert_eq!((*a.deref(&inner), *b.deref(&inner), *c.deref(&inner)), (1, 2, 3));
    a.release(&mut inner);
    b.release(&mut inner);
    c.release(&mut inner);
    let (mut fut, rf_mut) = ready(fut.poll(&mut inner, idle())).share_mut(&mut inner);
    let (a, mut b, c) = rf_mut.destructure(&mut inner);
    *b.deref_mut(&mut inner) = 5;
    a.release(&mut inner);
    b.release(&mut inner);
    c.release(&mut inner);
    assert_eq!(ready(fut.poll(&mut inner, idle())).into_inner(&mut inner), (1, 5, 3));
}

#[test]
fn destructuring_four() {
    let (mut inner, example) = ShareBox::new((1, 2, 3, 4));
    let (mut fut, rf) = example.share_ref(&mut inner);
    let (a, b, c, d) = rf.destructure(&mut inner);
    assert_eq!(inner.weak, 5);
    let all = (*a.deref(&inner), *b.deref(&inner), *c.deref(&inner), *d.deref(&inner));
    assert_eq!(all, (1, 2, 3, 4));
    a.release(&mut inner);
    b.release(&mut inner);
    c.release(&mut inner);
    d.release(&mut inner);
    let (mut fut, rf_mut) = ready(fut.poll(&mut inner, idle())).share_mut(&mut inner);
    let (a, b, mut c, mut d) = rf_mut.destructure(&mut inner);
    *c.deref_mut(&mut inner) = 7;
    *d.deref_mut(&mut inner) = 8;
    a.release(&mut inner);
    b.release(&mut inner);
    c.release(&mut inner);
    d.release(&mut inner);
    assert_eq!(ready(fut.poll(&mut inner, idle())).into_inner(&mut inner), (1, 2, 7, 8));
}

#[test]
fn boxes_are_shared_by_what_they_hold() {
    let (mut inner, example): (_, WideShareBox<i32>) = ShareBox::new(Box::new(3));
    let (mut fut, rf) = example.share_wide_ref(&mut inner);
    assert_eq!(*rf.deref(&inner), 3);
    let other = fut.as_wide_ref(&mut inner);
    assert_eq!(*other.deref(&inner), 3);
    rf.release(&mut inner);
    other.release(&mut inner);
    let example = ready(fut.poll(&mut inner, idle()));
    let (mut fut, mut rf_mut) = example.share_wide_mut(&mut inner);
    *rf_mut.deref_mut(&mut inner) = 4;
    rf_mut.release(&mut inner);
    let example = ready(fut.poll(&mut inner, idle()));
    let (mut fut, seen) = example.spawn_wide_ref(&mut inner, |rf| rf);
    assert_eq!(*seen.deref(&inner), 4);
    seen.release(&mut inner);
    let example = ready(fut.poll(&mut inner, idle()));
    let (mut fut, mut lent) = example.spawn_wide_mut(&mut inner, |rf_mut| rf_mut);
    *lent.deref_mut(&mut inner) += 1;
    lent.release(&mut inner);
    assert_eq!(*ready(fut.poll(&mut inner, idle())).into_inner(&mut inner), 5);
}

#[test]
fn values_of_unknown_size_are_shared_in_a_box() {
    let words: Box<[i32]> = vec![1, 2].into_boxed_slice();
    let (mut inner, example): (_, WideShareBox<[i32]>) = ShareBox::new(words);
    let (mut fut, rf) = example.share_wide_ref(&mut inner);
    let copy = rf.clone(&mut inner);
    rf.release(&mut inner);
    copy.release(&mut inner);
    assert_eq!(ready(fut.poll(&mut inner, idle())).into_inner(&mut inner).len(), 2);
}

#[test]
fn references_follow_boxes_and_vectors() {
    let (mut inner, example) = ShareBox::new(Box::new(1));
    let (mut fut, rf) = example.share_ref(&mut inner);
    let rf = rf.into_borrow();
    assert_eq!(*rf.deref(&inner), 1);
    rf.release(&mut inner);
    let (mut fut, rf_mut) = ready(fut.poll(&mut inner, idle())).share_mut(&mut inner);
    let mut rf_mut = rf_mut.into_borrow_mut();
    *rf_mut.deref_mut(&mut inner) = 2;
    rf_mut.release(&mut inner);
    assert_eq!(*ready(fut.poll(&mut inner, idle())).into_inner(&mut inner), 2);

    let (mut inner, example) = ShareBox::new(vec![1, 2, 3]);
    let (mut fut, rf) = example.share_ref(&mut inner);
    let rf = rf.into_deref(&inner);
    assert_eq!(rf.as_slice(&inner), &[1, 2, 3]);
    Ref::first(rf, &mut inner).unwrap().release(&mut inner);
    let (mut fut, rf_mut) = ready(fut.poll(&mut inner, idle())).share_mut(&mut inner);
    let mut rf_mut = rf_mut.into_deref_mut(&inner);
    rf_mut.as_mut_slice(&mut inner)[2] = 9;
    assert_eq!(rf_mut.as_slice(&inner), &[1, 2, 9]);
    RefMut::first_mut(rf_mut, &mut inner).unwrap().release(&mut inner);
    assert_eq!(ready(fut.poll(&mut inner, idle())).into_inner(&mut inner), vec![1, 2, 9]);
}
