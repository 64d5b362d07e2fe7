use async_borrow::place::{Span, Whole};
use async_borrow::slice::exclusive::{ChunksMut, WindowClustersMut, WindowsMut};
use async_borrow::{
    BorrowInner, Poll, Ref, RefForward, RefMut, RefMutForward, RefMutShare, RefShare, ShareBox,
};
use std::task::Waker;

type Cell = BorrowInner<Vec<i32>>;
type Slice = Ref<Vec<i32>, [i32], Span<Whole>>;
type SliceMut = RefMut<Vec<i32>, [i32], Span<Whole>>;

fn idle() -> Waker {
    futures::task::noop_waker()
}

fn ready<R>(poll: Poll<R>) -> R {
    match poll {
        Poll::Ready(value) => value,
        Poll::Pending => panic!("the future still waits"),
    }
}

fn pending<R>(poll: Poll<R>) -> bool {
    matches!(poll, Poll::Pending)
}

fn slice(values: &[i32]) -> (Cell, RefShare<Vec<i32>>, Slice) {
    let (mut inner, example) = ShareBox::new(values.to_vec());
    let (fut, rf) = example.share_ref(&mut inner);
    let rf = rf.into_deref(&inner);
    (inner, fut, rf)
}

fn slice_mut(values: &[i32]) -> (Cell, RefMutShare<Vec<i32>>, SliceMut) {
    let (mut inner, example) = ShareBox::new(values.to_vec());
    let (fut, rf_mut) = example.share_mut(&mut inner);
    let rf_mut = rf_mut.into_deref_mut(&inner);
    (inner, fut, rf_mut)
}

fn read(inner: &mut Cell, rf: Slice) -> Vec<i32> {
    let values = rf.as_slice(inner).to_vec();
    rf.release(inner);
    values
}

fn read_mut(inner: &mut Cell, rf_mut: SliceMut) -> Vec<i32> {
    let values = rf_mut.as_slice(inner).to_vec();
    rf_mut.release(inner);
    values
}

/// Everything was given back.
fn back(mut inner: Cell, mut fut: RefShare<Vec<i32>>) -> Vec<i32> {
    ready(fut.poll(&mut inner, idle())).into_inner(&mut inner)
}

/// Everything was given back.
fn back_mut(mut inner: Cell, mut fut: RefMutShare<Vec<i32>>) -> Vec<i32> {
    ready(fut.poll(&mut inner, idle())).into_inner(&mut inner)
}

#[test]
fn elements_by_index() {
    let (mut inner, fut, rf) = slice(&[1, 2, 3]);
    let elem = Ref::get(rf, &mut inner, 2).unwrap();
    assert_eq!(*elem.deref(&inner), 3);
    elem.release(&mut inner);
    assert_eq!(back(inner, fut), vec![1, 2, 3]);

    let (mut inner, fut, rf) = slice(&[1, 2, 3]);
    assert!(Ref::get(rf, &mut inner, 3).is_none());
    back(inner, fut);

    let (mut inner, fut, rf_mut) = slice_mut(&[1, 2, 3]);
    let mut elem = RefMut::get_mut(rf_mut, &mut inner, 0).unwrap();
    *elem.deref_mut(&mut inner) = 9;
    elem.release(&mut inner);
    assert_eq!(back_mut(inner, fut), vec![9, 2, 3]);

    let (mut inner, fut, rf_mut) = slice_mut(&[]);
    assert!(RefMut::first_mut(rf_mut, &mut inner).is_none());
    back_mut(inner, fut);
}

#[test]
fn runs_by_range() {
    let cases: [(std::ops::Range<usize>, Option<&[i32]>); 6] = [
        (0..4, Some(&[1, 2, 3, 4])),
        (1..3, Some(&[2, 3])),
        (4..4, Some(&[])),
        (3..2, None),
        (2..5, None),
        (5..5, None),
    ];
    for (range, expected) in cases {
        let (mut inner, fut, rf) = slice(&[1, 2, 3, 4]);
        let got = Ref::range(rf, &mut inner, range.clone()).map(|rf| read(&mut inner, rf));
        assert_eq!(got.as_deref(), expected);
        back(inner, fut);

        let (mut inner, fut, rf_mut) = slice_mut(&[1, 2, 3, 4]);
        let got = RefMut::range_mut(rf_mut, &mut inner, range)
            .map(|rf_mut| read_mut(&mut inner, rf_mut));
        assert_eq!(got.as_deref(), expected);
        back_mut(inner, fut);
    }
}

#[test]
fn all_but_the_first() {
    for (values, expected) in [
        (vec![1, 2, 3], Some(vec![2, 3])),
        (vec![1], Some(vec![])),
        (vec![], None),
    ] {
        let (mut inner, fut, rf) = slice(&values);
        let got = Ref::skip_first(rf, &mut inner).map(|rf| read(&mut inner, rf));
        assert_eq!(got, expected);
        back(inner, fut);

        let (mut inner, fut, rf_mut) = slice_mut(&values);
        let got = RefMut::skip_first_mut(rf_mut, &mut inner)
            .map(|rf_mut| read_mut(&mut inner, rf_mut));
        assert_eq!(got, expected);
        back_mut(inner, fut);
    }
}

#[test]
fn splitting_off_the_first() {
    let (mut inner, fut, rf) = slice(&[1, 2, 3]);
    let (first, rest) = Ref::split_first(rf, &mut inner).unwrap();
    assert_eq!(*first.deref(&inner), 1);
    first.release(&mut inner);
    assert_eq!(read(&mut inner, rest), vec![2, 3]);
    back(inner, fut);

    let (mut inner, fut, rf) = slice(&[]);
    assert!(Ref::split_first(rf, &mut inner).is_none());
    back(inner, fut);

    let (mut inner, fut, rf_mut) = slice_mut(&[1, 2]);
    let (mut first, mut rest) = RefMut::split_first_mut(rf_mut, &mut inner).unwrap();
    *first.deref_mut(&mut inner) = 5;
    rest.as_mut_slice(&mut inner)[0] = 6;
    assert_eq!(*first.deref(&inner), 5);
    first.release(&mut inner);
    rest.release(&mut inner);
    assert_eq!(back_mut(inner, fut), vec![5, 6]);
}

#[test]
fn splitting_covers_and_does_not_overlap() {
    for mid in 0..=3 {
        let (mut inner, fut, rf) = slice(&[1, 2, 3]);
        let (head, tail) = Ref::split_at(rf, &mut inner, mid);
        let mut all = read(&mut inner, head);
        assert_eq!(all.len(), mid);
        all.extend(read(&mut inner, tail));
        assert_eq!(all, vec![1, 2, 3]);
        back(inner, fut);
    }
    let (mut inner, fut, rf_mut) = slice_mut(&[1, 2, 3]);
    let (mut head, mut tail) = RefMut::split_at_mut(rf_mut, &mut inner, 1);
    head.as_mut_slice(&mut inner)[0] = 10;
    assert_eq!(tail.as_slice(&inner), &[2, 3]);
    tail.as_mut_slice(&mut inner)[0] = 20;
    assert_eq!(head.as_slice(&inner), &[10]);
    head.release(&mut inner);
    tail.release(&mut inner);
    assert_eq!(back_mut(inner, fut), vec![10, 20, 3]);
}

#[test]
fn chunks_of_a_size() {
    for (values, size, expected) in [
        (vec![1, 2, 3, 4, 5], 2, vec![vec![1, 2], vec![3, 4], vec![5]]),
        (vec![1, 2], 2, vec![vec![1, 2]]),
        (vec![], 2, vec![vec![]]),
    ] {
        let (mut inner, fut, rf) = slice(&values);
        let mut chunks = Ref::chunks(rf, size);
        let mut got = Vec::new();
        while let Some(chunk) = chunks.next(&mut inner) {
            got.push(read(&mut inner, chunk));
        }
        assert_eq!(got, expected);
        back(inner, fut);

        let (mut inner, fut, rf_mut) = slice_mut(&values);
        let mut chunks = RefMut::chunks_mut(rf_mut, size);
        let mut got = Vec::new();
        while let Some(chunk) = chunks.next(&mut inner) {
            got.push(read_mut(&mut inner, chunk));
        }
        assert_eq!(got, expected);
        back_mut(inner, fut);
    }
}

#[test]
fn chunks_of_no_elements_make_no_progress() {
    let (mut inner, fut, rf) = slice(&[1]);
    let mut chunks = Ref::chunks(rf, 0);
    for _ in 0..3 {
        let chunk = chunks.next(&mut inner).unwrap();
        assert_eq!(read(&mut inner, chunk), Vec::<i32>::new());
    }
    let rest = chunks.rf.take().unwrap();
    assert_eq!(read(&mut inner, rest), vec![1]);
    back(inner, fut);
}

#[test]
fn windows_of_a_size() {
    for (values, size, expected) in [
        (vec![1, 2, 3], 2, vec![vec![1, 2], vec![2, 3]]),
        (vec![1, 2], 3, vec![]),
        (vec![1], 1, vec![vec![1]]),
        (vec![1], 0, vec![vec![], vec![]]),
    ] {
        let (mut inner, fut, rf) = slice(&values);
        let mut windows = Ref::windows(rf, size);
        let mut got = Vec::new();
        while let Some(window) = windows.next(&mut inner) {
            got.push(read(&mut inner, window));
        }
        assert_eq!(got, expected);
        back(inner, fut);
    }
}

#[test]
fn chunks_by_a_relation() {
    for (values, expected) in [
        (vec![1, 1, 2, 3, 3, 3], vec![vec![1, 1], vec![2], vec![3, 3, 3]]),
        (vec![7], vec![vec![7]]),
        (vec![], vec![vec![]]),
    ] {
        let (mut inner, fut, rf) = slice(&values);
        let mut chunks = Ref::chunk_by(rf, |a: &i32, b: &i32| a == b);
        let mut got = Vec::new();
        while let Some(chunk) = chunks.next(&mut inner) {
            got.push(read(&mut inner, chunk));
        }
        assert_eq!(got, expected);
        back(inner, fut);

        let (mut inner, fut, rf_mut) = slice_mut(&values);
        let mut chunks = RefMut::chunk_by_mut(rf_mut, |a: &mut i32, b: &mut i32| a == b);
        let mut got = Vec::new();
        while let Some(chunk) = chunks.next(&mut inner) {
            got.push(read_mut(&mut inner, chunk));
        }
        assert_eq!(got, expected);
        back_mut(inner, fut);
    }
}

#[test]
fn a_relation_may_change_the_elements_it_sees() {
    let (mut inner, fut, rf_mut) = slice_mut(&[1, 2, 9, 9]);
    let mut chunks = RefMut::chunk_by_mut(rf_mut, |a: &mut i32, b: &mut i32| {
        *b += *a;
        *a *= 10;
        *b < 5
    });
    let chunk = chunks.next(&mut inner).unwrap();
    assert_eq!(read_mut(&mut inner, chunk), vec![10, 30]);
    let rest = chunks.rf_mut.take().unwrap();
    assert_eq!(read_mut(&mut inner, rest), vec![12, 9]);
    assert_eq!(back_mut(inner, fut), vec![10, 30, 12, 9]);
}

#[test]
fn runs_between_elements() {
    for (values, expected) in [
        (vec![1, 0, 2, 3, 0], vec![vec![1], vec![2, 3], vec![]]),
        (vec![0, 0], vec![vec![], vec![], vec![]]),
        (vec![1, 2], vec![vec![1, 2]]),
        (vec![], vec![vec![]]),
    ] {
        let (mut inner, fut, rf) = slice(&values);
        let mut runs = Ref::split(rf, |x: &i32| *x == 0);
        let mut got = Vec::new();
        while let Some(run) = runs.next(&mut inner) {
            got.push(read(&mut inner, run));
        }
        assert_eq!(got, expected);
        back(inner, fut);

        let (mut inner, fut, rf_mut) = slice_mut(&values);
        let mut runs = RefMut::split_mut(rf_mut, |x: &mut i32| *x == 0);
        let mut got = Vec::new();
        while let Some(run) = runs.next(&mut inner) {
            got.push(read_mut(&mut inner, run));
        }
        assert_eq!(got, expected);
        back_mut(inner, fut);
    }
}

#[test]
fn runs_that_end_with_an_element() {
    for (values, expected) in [
        (vec![1, 0, 2, 3, 0], vec![vec![1, 0], vec![2, 3, 0], vec![]]),
        (vec![1, 2], vec![vec![1, 2]]),
        (vec![], vec![vec![]]),
    ] {
        let (mut inner, fut, rf) = slice(&values);
        let mut runs = Ref::split_inclusive(rf, |x: &i32| *x == 0);
        let mut got = Vec::new();
        while let Some(run) = runs.next(&mut inner) {
            got.push(read(&mut inner, run));
        }
        assert_eq!(got, expected);
        back(inner, fut);

        let (mut inner, fut, rf_mut) = slice_mut(&values);
        let mut runs = RefMut::split_inclusive_mut(rf_mut, |x: &mut i32| *x == 0);
        let mut got = Vec::new();
        while let Some(run) = runs.next(&mut inner) {
            got.push(read_mut(&mut inner, run));
        }
        assert_eq!(got, expected);
        back_mut(inner, fut);
    }
}

#[test]
fn a_test_may_change_the_elements_it_sees() {
    let (mut inner, fut, rf_mut) = slice_mut(&[1, 2, 3, 4]);
    let mut runs = RefMut::split_mut(rf_mut, |x: &mut i32| {
        *x *= 10;
        *x == 30
    });
    let run = runs.next(&mut inner).unwrap();
    assert_eq!(read_mut(&mut inner, run), vec![10, 20]);
    let rest = runs.rf_mut.take().unwrap();
    assert_eq!(read_mut(&mut inner, rest), vec![4]);
    assert_eq!(back_mut(inner, fut), vec![10, 20, 30, 4]);
}

#[test]
fn windows_are_lent_one_after_the_other() {
    let (mut inner, fut, rf_mut) = slice_mut(&[1, 2, 3]);
    let mut windows: WindowsMut<Vec<i32>, i32, Whole> =
        RefMut::windows_mut(rf_mut, &mut inner, 2);
    let mut sums = Vec::new();
    while let Some(mut window) = ready(windows.poll_next(&mut inner, idle())) {
        assert_eq!(window.as_slice(&inner).len(), 2);
        if windows.fut.is_some() {
            assert!(pending(windows.poll_next(&mut inner, idle())));
        }
        let values = window.as_mut_slice(&mut inner);
        values[1] += values[0];
        sums.push(values[1]);
        window.release(&mut inner);
    }
    assert_eq!(sums, vec![3, 6]);
    assert_eq!(back_mut(inner, fut), vec![1, 3, 6]);
}

#[test]
fn the_last_window_ends_the_stream() {
    let (mut inner, fut, rf_mut) = slice_mut(&[1]);
    let mut windows = RefMut::windows_mut(rf_mut, &mut inner, 1);
    let window = ready(windows.poll_next(&mut inner, idle())).unwrap();
    assert!(ready(windows.poll_next(&mut inner, idle())).is_none());
    window.release(&mut inner);
    back_mut(inner, fut);
}

#[test]
fn too_large_windows_give_the_elements_back() {
    let (mut inner, fut, rf_mut) = slice_mut(&[1, 2]);
    let mut windows = RefMut::windows_mut(rf_mut, &mut inner, 3);
    assert!(ready(windows.poll_next(&mut inner, idle())).is_none());
    assert!(ready(windows.poll_next(&mut inner, idle())).is_none());
    back_mut(inner, fut);
}

#[test]
fn clusters_of_windows() {
    let (mut inner, fut, rf_mut) = slice_mut(&[1, 2, 3, 4, 5]);
    let mut clusters: WindowClustersMut<Vec<i32>, i32, Whole> =
        RefMut::window_clusters_mut(rf_mut, &mut inner, 2);
    let mut got = Vec::new();
    while let Some(cluster) = ready(clusters.poll_next(&mut inner, idle())) {
        let mut cluster: ChunksMut<Vec<i32>, i32, Whole> = cluster;
        assert!(clusters.n == clusters.size || pending(clusters.poll_next(&mut inner, idle())));
        let mut windows = Vec::new();
        while let Some(chunk) = cluster.next(&mut inner) {
            windows.push(read_mut(&mut inner, chunk));
        }
        got.push(windows);
    }
    assert_eq!(
        got,
        vec![vec![vec![1, 2], vec![3, 4], vec![5]], vec![vec![2, 3], vec![4, 5]]]
    );
    back_mut(inner, fut);
}

type Forward = RefForward<Vec<i32>, [i32], Span<Whole>>;
type ForwardMut = RefMutForward<Vec<i32>, [i32], Span<Whole>>;

fn forward(values: &[i32]) -> (Cell, RefMutShare<Vec<i32>>, Forward) {
    let (mut inner, fut, rf_mut) = slice_mut(values);
    let forward = rf_mut.into_ref_forward(&mut inner);
    (inner, fut, forward)
}

fn forward_mut(values: &[i32]) -> (Cell, RefMutShare<Vec<i32>>, ForwardMut) {
    let (mut inner, fut, rf_mut) = slice_mut(values);
    let forward = rf_mut.into_mut_forward(&mut inner);
    (inner, fut, forward)
}

#[test]
fn futures_of_elements() {
    let (mut inner, fut, future) = forward(&[1, 2]);
    let mut future = RefForward::map_first(future, &mut inner).unwrap();
    let elem = ready(future.poll(&mut inner, idle()));
    assert_eq!(*elem.deref(&inner), 1);
    elem.release(&mut inner);
    back_mut(inner, fut);

    let (mut inner, fut, future) = forward_mut(&[1, 2]);
    let mut future = RefMutForward::map_by_index_mut(future, &mut inner, 1).unwrap();
    let mut elem = ready(future.poll(&mut inner, idle()));
    *elem.deref_mut(&mut inner) = 7;
    elem.release(&mut inner);
    assert_eq!(back_mut(inner, fut), vec![1, 7]);

    let (mut inner, fut, future) = forward(&[1, 2]);
    assert!(RefForward::map_by_index(future, &mut inner, 2).is_none());
    back_mut(inner, fut);

    let (mut inner, fut, future) = forward_mut(&[]);
    assert!(RefMutForward::map_first_mut(future, &mut inner).is_none());
    back_mut(inner, fut);
}

#[test]
fn futures_of_runs() {
    let cases: [(std::ops::Range<usize>, Option<&[i32]>); 6] = [
        (0..3, Some(&[1, 2, 3])),
        (1..2, Some(&[2])),
        (2..1, Some(&[])),
        (0..4, None),
        (3..3, None),
        (4..2, None),
    ];
    for (range, expected) in cases {
        let (mut inner, fut, future) = forward(&[1, 2, 3]);
        let got = RefForward::map_by_range(future, &mut inner, range.clone()).map(|mut future| {
            let rf_mut = ready(future.poll(&mut inner, idle()));
            read_mut(&mut inner, rf_mut)
        });
        assert_eq!(got.as_deref(), expected);
        back_mut(inner, fut);

        let (mut inner, fut, future) = forward_mut(&[1, 2, 3]);
        let got = RefMutForward::map_by_range_mut(future, &mut inner, range).map(|mut future| {
            let rf_mut = ready(future.poll(&mut inner, idle()));
            read_mut(&mut inner, rf_mut)
        });
        assert_eq!(got.as_deref(), expected);
        back_mut(inner, fut);
    }
}

#[test]
fn futures_of_all_but_the_first() {
    for (values, expected) in [(vec![1, 2, 3], Some(vec![2, 3])), (vec![1], None), (vec![], None)] {
        let (mut inner, fut, future) = forward(&values);
        let got = RefForward::map_skip_first(future, &mut inner).map(|mut future| {
            let rf_mut = ready(future.poll(&mut inner, idle()));
            read_mut(&mut inner, rf_mut)
        });
        assert_eq!(got, expected);
        back_mut(inner, fut);

        let (mut inner, fut, future) = forward_mut(&values);
        let got = RefMutForward::map_skip_first_mut(future, &mut inner).map(|mut future| {
            let rf_mut = ready(future.poll(&mut inner, idle()));
            read_mut(&mut inner, rf_mut)
        });
        assert_eq!(got, expected);
        back_mut(inner, fut);
    }
}

#[test]
fn cuts_at_a_place_that_was_found() {
    let (mut inner, fut, rf) = slice(&[1, 2, 3, 4]);
    let (head, rest) = Ref::cut_before(rf, &mut inner, Some(1));
    assert_eq!(read(&mut inner, head), vec![1]);
    let (head, rest) = Ref::cut_after(rest.unwrap(), &mut inner, Some(0));
    assert_eq!(read(&mut inner, head), vec![2]);
    let (head, rest) = Ref::cut_around(rest.unwrap(), &mut inner, Some(0));
    assert_eq!(read(&mut inner, head), vec![]);
    let (head, none) = Ref::cut_after(rest.unwrap(), &mut inner, None);
    assert!(none.is_none());
    assert_eq!(read(&mut inner, head), vec![4]);
    assert_eq!(back(inner, fut), vec![1, 2, 3, 4]);

    let (mut inner, fut, rf_mut) = slice_mut(&[1, 2, 3, 4]);
    let (head, rest) = RefMut::cut_before_mut(rf_mut, &mut inner, Some(1));
    assert_eq!(read_mut(&mut inner, head), vec![1]);
    let (head, rest) = RefMut::cut_after_mut(rest.unwrap(), &mut inner, Some(0));
    assert_eq!(read_mut(&mut inner, head), vec![2]);
    let (head, rest) = RefMut::cut_around_mut(rest.unwrap(), &mut inner, Some(1));
    assert_eq!(read_mut(&mut inner, head), vec![3]);
    assert_eq!(read_mut(&mut inner, rest.unwrap()), vec![]);
    assert_eq!(back_mut(inner, fut), vec![1, 2, 3, 4]);
}
