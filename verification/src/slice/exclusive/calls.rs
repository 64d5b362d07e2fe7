//! What the calls that take slices apart for change hand out, in terms of the elements.
use vstd::prelude::*;
use std::ops::Range;
use std::task::Waker;
use crate::future::RefMutForward;
use crate::inner::BorrowInner;
use crate::place::{Elem, Place, Span};
use crate::pointers::RefMut;
use crate::slice::exclusive::{
    among, ChunkByMut, ChunksMut, SplitInclusiveMut, SplitMut, WindowClustersMut, WindowsMut,
};
use crate::slice::laws;
use crate::waker::Poll;

verus! {

/// Asking for an element by its index gives a mutable reference to that element of the slice, exactly if there is
/// one. The pointer is then traded for the new one, and given back otherwise.
pub proof fn law_get_mut_hands_out_the_element<T, B: 'static, P: Place<T, Target = Vec<B>>>(
    this: RefMut<T, [B], Span<P>>,
    inner: &mut BorrowInner<T>,
    index: usize,
    elem: Option<RefMut<T, B, Elem<P>>>,
)
    requires
        this.can_trade(old(inner), 1),
        this.in_bounds(old(inner)),
        call_ensures(RefMut::<T, [B], Span<P>>::get_mut, (this, inner, index), elem),
    ensures
        elem is Some <==> index < this.borrow.len,
        elem matches Some(rf) ==> {
            &&& rf.ptr.index == this.ptr.index
            &&& rf.borrow.valid(final(inner).data->0)
            &&& rf.borrow.at(final(inner).data->0) == this.elems(old(inner))[index as int]
            &&& final(inner).traded_from(*old(inner), this.ptr.index, 1)
        },
        elem is None ==> final(inner).released_from(*old(inner), this.ptr.index),
{
}

/// Asking for the first element gives a mutable reference to it, exactly if there are elements.
pub proof fn law_first_mut_hands_out_the_first_element<T, B: 'static, P: Place<T, Target = Vec<B>>>(
    this: RefMut<T, [B], Span<P>>,
    inner: &mut BorrowInner<T>,
    elem: Option<RefMut<T, B, Elem<P>>>,
)
    requires
        this.can_trade(old(inner), 1),
        this.in_bounds(old(inner)),
        call_ensures(RefMut::<T, [B], Span<P>>::first_mut, (this, inner), elem),
    ensures
        elem is Some <==> this.borrow.len > 0,
        elem matches Some(rf) ==> {
            &&& rf.ptr.index == this.ptr.index
            &&& rf.borrow.valid(final(inner).data->0)
            &&& rf.borrow.at(final(inner).data->0) == this.elems(old(inner))[0]
            &&& final(inner).traded_from(*old(inner), this.ptr.index, 1)
        },
        elem is None ==> final(inner).released_from(*old(inner), this.ptr.index),
{
}

/// Asking for a range gives a mutable reference to those elements of the slice, in order, exactly if the range
/// ends after it starts and within the slice.
pub proof fn law_range_mut_hands_out_the_range<T, B: 'static, P: Place<T, Target = Vec<B>>>(
    this: RefMut<T, [B], Span<P>>,
    inner: &mut BorrowInner<T>,
    range: Range<usize>,
    elems: Option<RefMut<T, [B], Span<P>>>,
)
    requires
        this.can_trade(old(inner), 1),
        this.in_bounds(old(inner)),
        call_ensures(RefMut::<T, [B], Span<P>>::range_mut, (this, inner, range), elems),
    ensures
        elems is Some <==> range.start <= range.end <= this.borrow.len,
        elems matches Some(rf) ==> {
            &&& rf.ptr.index == this.ptr.index
            &&& rf.in_bounds(final(inner))
            &&& rf.elems(final(inner)) == this.elems(old(inner)).subrange(
                range.start as int,
                range.end as int,
            )
            &&& final(inner).traded_from(*old(inner), this.ptr.index, 1)
        },
        elems is None ==> final(inner).released_from(*old(inner), this.ptr.index),
{
    if range.start <= range.end <= this.borrow.len {
        laws::law_range_is_part_of_run::<T, B, P>(this.borrow, old(inner).data->0, range);
    }
}

/// Skipping the first element gives a mutable reference to all others, in order, exactly if there is a first.
pub proof fn law_skip_first_mut_hands_out_the_others<T, B: 'static, P: Place<T, Target = Vec<B>>>(
    this: RefMut<T, [B], Span<P>>,
    inner: &mut BorrowInner<T>,
    elems: Option<RefMut<T, [B], Span<P>>>,
)
    requires
        this.can_trade(old(inner), 1),
        this.in_bounds(old(inner)),
        call_ensures(RefMut::<T, [B], Span<P>>::skip_first_mut, (this, inner), elems),
    ensures
        elems is Some <==> this.borrow.len > 0,
        elems matches Some(rf) ==> {
            &&& rf.ptr.index == this.ptr.index
            &&& rf.in_bounds(final(inner))
            &&& rf.elems(final(inner)) == this.elems(old(inner)).skip(1)
            &&& final(inner).traded_from(*old(inner), this.ptr.index, 1)
        },
        elems is None ==> final(inner).released_from(*old(inner), this.ptr.index),
{
    if this.borrow.len > 0 {
        laws::law_part_of_run::<T, B, P>(this.borrow, old(inner).data->0, 1, this.borrow.len - 1);
        assert(this.elems(old(inner)).skip(1) =~= this.elems(old(inner)).subrange(
            1,
            this.borrow.len as int,
        ));
    }
}

/// Splitting off the first element gives a mutable reference to it and one to all others, in order: together
/// they are the slice.
pub proof fn law_split_first_mut_hands_out_both<T, B: 'static, P: Place<T, Target = Vec<B>>>(
    this: RefMut<T, [B], Span<P>>,
    inner: &mut BorrowInner<T>,
    split: Option<(RefMut<T, B, Elem<P>>, RefMut<T, [B], Span<P>>)>,
)
    requires
        this.can_trade(old(inner), 2),
        this.in_bounds(old(inner)),
        call_ensures(RefMut::<T, [B], Span<P>>::split_first_mut, (this, inner), split),
    ensures
        split is Some <==> this.borrow.len > 0,
        split matches Some((first, rest)) ==> {
            &&& first.ptr.index == this.ptr.index
            &&& rest.ptr.index == this.ptr.index
            &&& first.borrow.valid(final(inner).data->0)
            &&& rest.in_bounds(final(inner))
            &&& seq![first.borrow.at(final(inner).data->0)] + rest.elems(final(inner))
                == this.elems(old(inner))
            &&& final(inner).traded_from(*old(inner), this.ptr.index, 2)
        },
        split is None ==> final(inner).released_from(*old(inner), this.ptr.index),
{
    if let Some((first, rest)) = split {
        laws::law_part_of_run::<T, B, P>(this.borrow, old(inner).data->0, 1, this.borrow.len - 1);
        assert(seq![first.borrow.at(final(inner).data->0)] + rest.elems(final(inner))
            =~= this.elems(old(inner)));
    }
}

/// Splitting a slice gives a mutable reference to as many elements as were asked for and one to all others.
pub proof fn law_split_at_mut_hands_out_both<T, B: 'static, P: Place<T, Target = Vec<B>>>(
    this: RefMut<T, [B], Span<P>>,
    inner: &mut BorrowInner<T>,
    mid: usize,
    split: (RefMut<T, [B], Span<P>>, RefMut<T, [B], Span<P>>),
)
    requires
        this.can_trade(old(inner), 2),
        this.in_bounds(old(inner)),
        mid <= this.borrow.len,
        call_ensures(RefMut::<T, [B], Span<P>>::split_at_mut, (this, inner, mid), split),
    ensures
        split.0.ptr.index == this.ptr.index,
        split.1.ptr.index == this.ptr.index,
        split.0.in_bounds(final(inner)),
        split.1.in_bounds(final(inner)),
        split.0.elems(final(inner)) == this.elems(old(inner)).take(mid as int),
        split.1.elems(final(inner)) == this.elems(old(inner)).skip(mid as int),
        final(inner).traded_from(*old(inner), this.ptr.index, 2),
{
    let at = mid as int;
    laws::law_part_of_run::<T, B, P>(this.borrow, old(inner).data->0, 0, at);
    laws::law_part_of_run::<T, B, P>(this.borrow, old(inner).data->0, at, this.borrow.len - at);
    assert(this.elems(old(inner)).take(at) =~= this.elems(old(inner)).subrange(0, at));
    assert(this.elems(old(inner)).skip(at) =~= this.elems(old(inner)).subrange(
        at,
        this.borrow.len as int,
    ));
}

/// A slice that is cut before an element that was found gives the elements before it, and those from
/// it on. If none was found there is nothing to cut.
pub proof fn law_cut_before_mut_hands_out_both<T, B: 'static, P: Place<T, Target = Vec<B>>>(
    this: RefMut<T, [B], Span<P>>,
    inner: &mut BorrowInner<T>,
    found: Option<usize>,
    cut: (RefMut<T, [B], Span<P>>, Option<RefMut<T, [B], Span<P>>>),
)
    requires
        this.can_trade(old(inner), 2),
        this.in_bounds(old(inner)),
        found matches Some(n) ==> n <= this.borrow.len,
        call_ensures(RefMut::<T, [B], Span<P>>::cut_before_mut, (this, inner, found), cut),
    ensures
        match found {
            Some(n) => {
                &&& cut.1 is Some
                &&& cut.0.in_bounds(final(inner))
                &&& (cut.1->0).in_bounds(final(inner))
                &&& cut.0.elems(final(inner)) == this.elems(old(inner)).take(n as int)
                &&& (cut.1->0).elems(final(inner)) == this.elems(old(inner)).skip(n as int)
                &&& final(inner).traded_from(*old(inner), this.ptr.index, 2)
            },
            None => cut.0 == this && cut.1 is None && *final(inner) == *old(inner),
        },
{
    if let Some(n) = found {
        let (head, tail) = (n as int, n as int);
        laws::law_part_of_run::<T, B, P>(this.borrow, old(inner).data->0, 0, head);
        laws::law_part_of_run::<T, B, P>(this.borrow, old(inner).data->0, tail, this.borrow.len - tail);
        assert(this.elems(old(inner)).take(head) =~= this.elems(old(inner)).subrange(0, head));
        assert(this.elems(old(inner)).skip(tail) =~= this.elems(old(inner)).subrange(
            tail,
            this.borrow.len as int,
        ));
    }
}

/// A slice that is cut after an element that was found gives the elements up to it, and those after
/// it. If none was found there is nothing to cut.
pub proof fn law_cut_after_mut_hands_out_both<T, B: 'static, P: Place<T, Target = Vec<B>>>(
    this: RefMut<T, [B], Span<P>>,
    inner: &mut BorrowInner<T>,
    found: Option<usize>,
    cut: (RefMut<T, [B], Span<P>>, Option<RefMut<T, [B], Span<P>>>),
)
    requires
        this.can_trade(old(inner), 2),
        this.in_bounds(old(inner)),
        found matches Some(n) ==> n < this.borrow.len,
        call_ensures(RefMut::<T, [B], Span<P>>::cut_after_mut, (this, inner, found), cut),
    ensures
        match found {
            Some(n) => {
                &&& cut.1 is Some
                &&& cut.0.in_bounds(final(inner))
                &&& (cut.1->0).in_bounds(final(inner))
                &&& cut.0.elems(final(inner)) == this.elems(old(inner)).take(n + 1)
                &&& (cut.1->0).elems(final(inner)) == this.elems(old(inner)).skip(n + 1)
                &&& final(inner).traded_from(*old(inner), this.ptr.index, 2)
            },
            None => cut.0 == this && cut.1 is None && *final(inner) == *old(inner),
        },
{
    if let Some(n) = found {
        let (head, tail) = (n + 1, n + 1);
        laws::law_part_of_run::<T, B, P>(this.borrow, old(inner).data->0, 0, head);
        laws::law_part_of_run::<T, B, P>(this.borrow, old(inner).data->0, tail, this.borrow.len - tail);
        assert(this.elems(old(inner)).take(head) =~= this.elems(old(inner)).subrange(0, head));
        assert(this.elems(old(inner)).skip(tail) =~= this.elems(old(inner)).subrange(
            tail,
            this.borrow.len as int,
        ));
    }
}

/// A slice that is cut around an element that was found gives the elements before it, and those
/// after it. If none was found there is nothing to cut.
pub proof fn law_cut_around_mut_hands_out_both<T, B: 'static, P: Place<T, Target = Vec<B>>>(
    this: RefMut<T, [B], Span<P>>,
    inner: &mut BorrowInner<T>,
    found: Option<usize>,
    cut: (RefMut<T, [B], Span<P>>, Option<RefMut<T, [B], Span<P>>>),
)
    requires
        this.can_trade(old(inner), 2),
        this.in_bounds(old(inner)),
        found matches Some(n) ==> n < this.borrow.len,
        call_ensures(RefMut::<T, [B], Span<P>>::cut_around_mut, (this, inner, found), cut),
    ensures
        match found {
            Some(n) => {
                &&& cut.1 is Some
                &&& cut.0.in_bounds(final(inner))
                &&& (cut.1->0).in_bounds(final(inner))
                &&& cut.0.elems(final(inner)) == this.elems(old(inner)).take(n as int)
                &&& (cut.1->0).elems(final(inner)) == this.elems(old(inner)).skip(n + 1)
                &&& final(inner).traded_from(*old(inner), this.ptr.index, 2)
            },
            None => cut.0 == this && cut.1 is None && *final(inner) == *old(inner),
        },
{
    if let Some(n) = found {
        let (head, tail) = (n as int, n + 1);
        laws::law_part_of_run::<T, B, P>(this.borrow, old(inner).data->0, 0, head);
        laws::law_part_of_run::<T, B, P>(this.borrow, old(inner).data->0, tail, this.borrow.len - tail);
        assert(this.elems(old(inner)).take(head) =~= this.elems(old(inner)).subrange(0, head));
        assert(this.elems(old(inner)).skip(tail) =~= this.elems(old(inner)).subrange(
            tail,
            this.borrow.len as int,
        ));
    }
}

/// The next chunk has as many elements from the front of those that are left as were asked for, or all
/// of them, and then is the last. What is left after it are the others.
pub proof fn law_chunks_mut_come_in_order<T, B: 'static, P: Place<T, Target = Vec<B>>>(
    chunks: &mut ChunksMut<T, B, P>,
    inner: &mut BorrowInner<T>,
    this: RefMut<T, [B], Span<P>>,
    next: Option<RefMut<T, [B], Span<P>>>,
)
    requires
        old(chunks).rf_mut == Some(this),
        this.can_trade(old(inner), 2),
        this.in_bounds(old(inner)),
        call_ensures(ChunksMut::<T, B, P>::next, (chunks, inner), next),
    ensures
        next is Some,
        final(chunks).n == old(chunks).n,
        (next->0).in_bounds(final(inner)),
        old(chunks).n >= this.borrow.len ==> {
            &&& (next->0).elems(final(inner)) == this.elems(old(inner))
            &&& final(chunks).rf_mut is None
            &&& *final(inner) == *old(inner)
        },
        old(chunks).n < this.borrow.len ==> {
            &&& (next->0).elems(final(inner)) == this.elems(old(inner)).take(old(chunks).n as int)
            &&& final(chunks).rf_mut is Some
            &&& (final(chunks).rf_mut->0).in_bounds(final(inner))
            &&& (final(chunks).rf_mut->0).elems(final(inner)) == this.elems(old(inner)).skip(
                old(chunks).n as int,
            )
            &&& final(inner).traded_from(*old(inner), this.ptr.index, 2)
        },
{
    let n = old(chunks).n as int;
    if n < this.borrow.len {
        laws::law_part_of_run::<T, B, P>(this.borrow, old(inner).data->0, 0, n);
        laws::law_part_of_run::<T, B, P>(this.borrow, old(inner).data->0, n, this.borrow.len - n);
        assert(this.elems(old(inner)).take(n) =~= this.elems(old(inner)).subrange(0, n));
        assert(this.elems(old(inner)).skip(n) =~= this.elems(old(inner)).subrange(
            n,
            this.borrow.len as int,
        ));
    }
}

/// The future of a slice can be narrowed to one of its elements, exactly if there is such an element. It
/// waits for the same branch. Otherwise it is given back.
pub proof fn law_map_by_index_mut_waits_for_the_element<T, B: 'static, P: Place<T, Target = Vec<B>>>(
    this: RefMutForward<T, [B], Span<P>>,
    inner: &mut BorrowInner<T>,
    index: usize,
    mapped: Option<RefMutForward<T, B, Elem<P>>>,
    value: T,
)
    requires
        this.borrow.bounded(),
        this.borrow.valid::<T, B>(value),
        call_ensures(RefMutForward::<T, [B], Span<P>>::map_by_index_mut, (this, inner, index), mapped),
    ensures
        mapped is Some <==> index < this.borrow.len,
        mapped matches Some(future) ==> {
            &&& future.ptr == this.ptr
            &&& future.borrow.valid(value)
            &&& future.borrow.at(value) == this.borrow.at::<T, B>(value)[index as int]
            &&& *final(inner) == *old(inner)
        },
        mapped is None ==> final(inner).closed_from(*old(inner), this.ptr),
{
}

/// The future of a slice can be narrowed to a range of its elements, if the range starts and ends within
/// the slice. It waits for the same branch. Otherwise it is given back.
pub proof fn law_map_by_range_mut_waits_for_the_range<T, B: 'static, P: Place<T, Target = Vec<B>>>(
    this: RefMutForward<T, [B], Span<P>>,
    inner: &mut BorrowInner<T>,
    range: Range<usize>,
    mapped: Option<RefMutForward<T, [B], Span<P>>>,
    value: T,
)
    requires
        this.borrow.bounded(),
        this.borrow.valid::<T, B>(value),
        call_ensures(RefMutForward::<T, [B], Span<P>>::map_by_range_mut, (this, inner, range), mapped),
    ensures
        mapped is Some <==> range.end <= this.borrow.len && range.start < this.borrow.len,
        mapped matches Some(future) ==> {
            &&& future.ptr == this.ptr
            &&& future.borrow.valid::<T, B>(value)
            &&& future.borrow.at::<T, B>(value) == if range.start <= range.end {
                this.borrow.at::<T, B>(value).subrange(range.start as int, range.end as int)
            } else {
                Seq::empty()
            }
            &&& *final(inner) == *old(inner)
        },
        mapped is None ==> final(inner).closed_from(*old(inner), this.ptr),
{
    if range.start <= range.end <= this.borrow.len {
        laws::law_range_is_part_of_run::<T, B, P>(this.borrow, value, range);
    } else if range.end <= range.start <= this.borrow.len {
        laws::law_backward_range_is_empty::<T, B, P>(this.borrow, value, range);
    }
}

/// The future of a slice can be narrowed to its first element if there is one, and to all others if
/// there are others. It waits for the same branch. Otherwise it is given back.
pub proof fn law_map_skip_first_mut_waits_for_the_others<T, B: 'static, P: Place<T, Target = Vec<B>>>(
    this: RefMutForward<T, [B], Span<P>>,
    inner: &mut BorrowInner<T>,
    first: Option<RefMutForward<T, B, Elem<P>>>,
    others: Option<RefMutForward<T, [B], Span<P>>>,
    value: T,
)
    requires
        this.borrow.bounded(),
        this.borrow.valid::<T, B>(value),
        ({
            ||| call_ensures(RefMutForward::<T, [B], Span<P>>::map_first_mut, (this, inner), first) && others is None
            ||| call_ensures(RefMutForward::<T, [B], Span<P>>::map_skip_first_mut, (this, inner), others)
                && first is None
        }),
    ensures
        first matches Some(future) ==> {
            &&& future.ptr == this.ptr
            &&& future.borrow.valid(value)
            &&& future.borrow.at(value) == this.borrow.at::<T, B>(value)[0]
            &&& *final(inner) == *old(inner)
        },
        others matches Some(future) ==> {
            &&& future.ptr == this.ptr
            &&& future.borrow.valid::<T, B>(value)
            &&& future.borrow.at::<T, B>(value) == this.borrow.at::<T, B>(value).skip(1)
            &&& *final(inner) == *old(inner)
        },
        first is None && others is None ==> {
            &&& final(inner).closed_from(*old(inner), this.ptr)
            &&& this.borrow.len <= 1
        },
{
    if this.borrow.len > 0 {
        laws::law_part_of_run::<T, B, P>(this.borrow, value, 1, this.borrow.len - 1);
        assert(this.borrow.at::<T, B>(value).skip(1) =~= this.borrow.at::<T, B>(value).subrange(
            1,
            this.borrow.len as int,
        ));
    }
}

/// The next run has the elements up to the first of which the closure holds, or all of them, and what is
/// left are those after that one. Elements after it are as they were.
pub proof fn law_split_runs_mut_come_in_order<
    T,
    B: 'static,
    P: Place<T, Target = Vec<B>>,
    F: FnMut(&mut B) -> bool,
>(
    runs: &mut SplitMut<T, B, P, F>,
    inner: &mut BorrowInner<T>,
    this: RefMut<T, [B], Span<P>>,
    next: Option<RefMut<T, [B], Span<P>>>,
)
    requires
        old(runs).rf_mut == Some(this),
        this.can_trade(old(inner), 2),
        this.in_bounds(old(inner)),
        call_ensures(SplitMut::<T, B, P, F>::next, (runs, inner), next),
    ensures
        ({
            let (all, left) = (this.elems(old(inner)), this.elems(final(inner)));
            let n = (next->0).borrow.len as int;
            &&& next is Some
            &&& n <= all.len() == left.len()
            &&& (next->0).ptr.index == this.ptr.index
            &&& (next->0).in_bounds(final(inner))
            &&& (next->0).elems(final(inner)) == left.take(n)
            &&& final(runs).rf_mut is None ==> {
                &&& n == all.len()
                &&& final(inner).graph == old(inner).graph
                &&& final(inner).weak == old(inner).weak
            }
            &&& final(runs).rf_mut matches Some(rest) ==> {
                &&& rest.ptr.index == this.ptr.index
                &&& rest.in_bounds(final(inner))
                &&& rest.elems(final(inner)) == left.skip(n + 1)
                &&& final(inner).graph@.branches[this.ptr.index].strong
                    == old(inner).graph@.branches[this.ptr.index].strong + 1
                &&& final(inner).weak == old(inner).weak + 1
            }
            &&& this.borrow.only::<T, B>(old(inner).data->0, final(inner).data->0)
            &&& forall|i: int| n < i < all.len() ==> #[trigger] left[i] == all[i]
            &&& forall|i: int| #[trigger]
                among(i, n) ==> exists|elem: &mut B|
                    {
                        &&& *elem == all[i]
                        &&& *final(elem) == left[i]
                        &&& #[trigger] call_ensures(old(runs).f, (elem,), false)
                    }
            &&& final(runs).rf_mut is Some ==> exists|elem: &mut B|
                {
                    &&& *elem == all[n]
                    &&& *final(elem) == left[n]
                    &&& #[trigger] call_ensures(old(runs).f, (elem,), true)
                }
        }),
{
    let left = this.elems(final(inner));
    let n = (next->0).borrow.len as int;
    assert(left.take(left.len() as int) =~= left);
    if final(runs).rf_mut is Some {
        let tail = n + 1;
        laws::law_part_of_run::<T, B, P>(this.borrow, final(inner).data->0, 0, n);
        laws::law_part_of_run::<T, B, P>(
            this.borrow,
            final(inner).data->0,
            tail,
            this.borrow.len - tail,
        );
        assert(left.take(n) =~= left.subrange(0, n));
        assert(left.skip(tail) =~= left.subrange(tail, left.len() as int));
    }
}

/// The next run ends with the first element of which the closure holds, or has all of them, and what is
/// left are those after it. Elements after it are as they were.
pub proof fn law_inclusive_runs_mut_come_in_order<
    T,
    B: 'static,
    P: Place<T, Target = Vec<B>>,
    F: FnMut(&mut B) -> bool,
>(
    runs: &mut SplitInclusiveMut<T, B, P, F>,
    inner: &mut BorrowInner<T>,
    this: RefMut<T, [B], Span<P>>,
    next: Option<RefMut<T, [B], Span<P>>>,
)
    requires
        old(runs).rf_mut == Some(this),
        this.can_trade(old(inner), 2),
        this.in_bounds(old(inner)),
        call_ensures(SplitInclusiveMut::<T, B, P, F>::next, (runs, inner), next),
    ensures
        ({
            let (all, left) = (this.elems(old(inner)), this.elems(final(inner)));
            let n = (next->0).borrow.len as int;
            &&& next is Some
            &&& n <= all.len() == left.len()
            &&& (next->0).ptr.index == this.ptr.index
            &&& (next->0).in_bounds(final(inner))
            &&& (next->0).elems(final(inner)) == left.take(n)
            &&& final(runs).rf_mut is None ==> {
                &&& n == all.len()
                &&& final(inner).graph == old(inner).graph
                &&& final(inner).weak == old(inner).weak
            }
            &&& final(runs).rf_mut matches Some(rest) ==> {
                &&& rest.ptr.index == this.ptr.index
                &&& rest.in_bounds(final(inner))
                &&& rest.elems(final(inner)) == left.skip(n)
                &&& final(inner).graph@.branches[this.ptr.index].strong
                    == old(inner).graph@.branches[this.ptr.index].strong + 1
                &&& final(inner).weak == old(inner).weak + 1
            }
            &&& this.borrow.only::<T, B>(old(inner).data->0, final(inner).data->0)
            &&& forall|i: int| n - 1 < i < all.len() ==> #[trigger] left[i] == all[i]
            &&& final(runs).rf_mut is Some ==> forall|i: int| #[trigger]
                among(i, n - 1) ==> exists|elem: &mut B|
                    {
                        &&& *elem == all[i]
                        &&& *final(elem) == left[i]
                        &&& #[trigger] call_ensures(old(runs).f, (elem,), false)
                    }
            &&& final(runs).rf_mut is None ==> forall|i: int| #[trigger]
                among(i, n) ==> exists|elem: &mut B|
                    {
                        &&& *elem == all[i]
                        &&& *final(elem) == left[i]
                        &&& #[trigger] call_ensures(old(runs).f, (elem,), false)
                    }
            &&& final(runs).rf_mut is Some ==> exists|elem: &mut B|
                {
                    &&& *elem == all[n - 1]
                    &&& *final(elem) == left[n - 1]
                    &&& #[trigger] call_ensures(old(runs).f, (elem,), true)
                }
        }),
{
    let left = this.elems(final(inner));
    let n = (next->0).borrow.len as int;
    assert(left.take(left.len() as int) =~= left);
    if final(runs).rf_mut is Some {
        let tail = n;
        laws::law_part_of_run::<T, B, P>(this.borrow, final(inner).data->0, 0, n);
        laws::law_part_of_run::<T, B, P>(
            this.borrow,
            final(inner).data->0,
            tail,
            this.borrow.len - tail,
        );
        assert(left.take(n) =~= left.subrange(0, n));
        assert(left.skip(tail) =~= left.subrange(tail, left.len() as int));
    }
}

/// The next run goes on for as long as the closure holds from each element to the next, and what is left
/// are the others. Elements after the first of those are as they were.
pub proof fn law_chunks_by_relation_mut_come_in_order<
    T,
    B: 'static,
    P: Place<T, Target = Vec<B>>,
    F: FnMut(&mut B, &mut B) -> bool,
>(
    runs: &mut ChunkByMut<T, B, P, F>,
    inner: &mut BorrowInner<T>,
    this: RefMut<T, [B], Span<P>>,
    next: Option<RefMut<T, [B], Span<P>>>,
)
    requires
        old(runs).rf_mut == Some(this),
        this.can_trade(old(inner), 2),
        this.in_bounds(old(inner)),
        call_ensures(ChunkByMut::<T, B, P, F>::next, (runs, inner), next),
    ensures
        ({
            let (all, left) = (this.elems(old(inner)), this.elems(final(inner)));
            let n = (next->0).borrow.len as int;
            &&& next is Some
            &&& n <= all.len() == left.len()
            &&& (next->0).ptr.index == this.ptr.index
            &&& (next->0).in_bounds(final(inner))
            &&& (next->0).elems(final(inner)) == left.take(n)
            &&& final(runs).rf_mut is None ==> {
                &&& n == all.len()
                &&& final(inner).graph == old(inner).graph
                &&& final(inner).weak == old(inner).weak
            }
            &&& final(runs).rf_mut matches Some(rest) ==> {
                &&& rest.ptr.index == this.ptr.index
                &&& rest.in_bounds(final(inner))
                &&& rest.elems(final(inner)) == left.skip(n)
                &&& final(inner).graph@.branches[this.ptr.index].strong
                    == old(inner).graph@.branches[this.ptr.index].strong + 1
                &&& final(inner).weak == old(inner).weak + 1
            }
            &&& this.borrow.only::<T, B>(old(inner).data->0, final(inner).data->0)
            &&& forall|i: int| n < i < all.len() ==> #[trigger] left[i] == all[i]
            &&& forall|i: int| #[trigger]
                among(i, n - 1) ==> exists|x: &mut B, y: &mut B|
                    {
                        &&& *y == all[i + 1]
                        &&& *final(x) == left[i]
                        &&& #[trigger] call_ensures(old(runs).f, (x, y), true)
                    }
            &&& final(runs).rf_mut is Some ==> n > 0 && exists|x: &mut B, y: &mut B|
                {
                    &&& *y == all[n]
                    &&& *final(x) == left[n - 1]
                    &&& *final(y) == left[n]
                    &&& #[trigger] call_ensures(old(runs).f, (x, y), false)
                }
        }),
{
    let left = this.elems(final(inner));
    let n = (next->0).borrow.len as int;
    assert(left.take(left.len() as int) =~= left);
    if final(runs).rf_mut is Some {
        let tail = n;
        laws::law_part_of_run::<T, B, P>(this.borrow, final(inner).data->0, 0, n);
        laws::law_part_of_run::<T, B, P>(
            this.borrow,
            final(inner).data->0,
            tail,
            this.borrow.len - tail,
        );
        assert(left.take(n) =~= left.subrange(0, n));
        assert(left.skip(tail) =~= left.subrange(tail, left.len() as int));
    }
}

/// Once the run before it has come back the next window has as many elements from the front of those
/// that are left as were asked for, and what is left are all but the first. It is lent through the same
/// branch. If there are not as many there is none, and the future is given back.
pub proof fn law_windows_mut_come_in_order<T, B: 'static, P: Place<T, Target = Vec<B>>>(
    windows: &mut WindowsMut<T, B, P>,
    inner: &mut BorrowInner<T>,
    waker: Waker,
    poll: Poll<Option<RefMut<T, [B], Span<P>>>>,
    fut: RefMutForward<T, [B], Span<P>>,
    value: T,
)
    requires
        old(windows).fut == Some(fut),
        fut.ptr.valid(old(inner)),
        fut.borrow.bounded(),
        fut.borrow.valid::<T, B>(value),
        call_ensures(WindowsMut::<T, B, P>::poll_next, (windows, inner, waker), poll),
    ensures
        ({
            let all = fut.borrow.at::<T, B>(value);
            let size = old(windows).size as int;
            &&& final(windows).size == size
            &&& poll is Ready <==> old(inner).graph@.branches[fut.ptr.index].strong == 0
            &&& poll is Pending ==> final(windows).fut == old(windows).fut
            &&& poll matches Poll::Ready(next) ==> {
                &&& next is Some <==> size <= all.len()
                &&& next matches Some(run) ==> {
                    &&& run.ptr.index == fut.ptr.index
                    &&& run.borrow.valid::<T, B>(value)
                    &&& run.borrow.at::<T, B>(value) == all.take(size)
                }
                &&& final(windows).fut is Some <==> size <= all.len() && all.len() > 1
                &&& final(windows).fut matches Some(rest) ==> {
                    &&& rest.ptr.index == fut.ptr.index
                    &&& rest.borrow.valid::<T, B>(value)
                    &&& rest.borrow.at::<T, B>(value) == all.skip(1)
                }
            }
        }),
{
    let all = fut.borrow.at::<T, B>(value);
    let size = old(windows).size as int;
    assert(old(inner).graph@.live(fut.ptr.index));
    if size <= all.len() {
        laws::law_part_of_run::<T, B, P>(fut.borrow, value, 0, size);
        assert(all.take(size) =~= all.subrange(0, size));
    }
    if all.len() > 1 {
        laws::law_part_of_run::<T, B, P>(fut.borrow, value, 1, all.len() - 1);
        assert(all.skip(1) =~= all.subrange(1, all.len() as int));
    }
}

/// Once the cluster before it has come back the next cluster has all the elements that are left, in
/// chunks of as many as were asked for, and what is left are all but the first. There are as many
/// clusters as elements in a chunk; then the future is given back.
pub proof fn law_window_clusters_mut_come_in_order<T, B: 'static, P: Place<T, Target = Vec<B>>>(
    clusters: &mut WindowClustersMut<T, B, P>,
    inner: &mut BorrowInner<T>,
    waker: Waker,
    poll: Poll<Option<ChunksMut<T, B, P>>>,
    fut: RefMutForward<T, [B], Span<P>>,
    value: T,
)
    requires
        old(clusters).fut == Some(fut),
        old(clusters).n <= old(clusters).size,
        fut.ptr.valid(old(inner)),
        fut.borrow.bounded(),
        fut.borrow.valid::<T, B>(value),
        call_ensures(WindowClustersMut::<T, B, P>::poll_next, (clusters, inner, waker), poll),
    ensures
        ({
            let all = fut.borrow.at::<T, B>(value);
            &&& final(clusters).size == old(clusters).size
            &&& old(clusters).n == old(clusters).size ==> {
                &&& poll is Ready
                &&& poll->Ready_0 is None
                &&& final(clusters).fut is None
                &&& final(inner).closed_from(*old(inner), fut.ptr)
            }
            &&& old(clusters).n < old(clusters).size ==> {
                &&& poll is Ready <==> old(inner).graph@.branches[fut.ptr.index].strong == 0
                &&& poll is Pending ==> final(clusters).fut == old(clusters).fut
                    && final(clusters).n == old(clusters).n
                &&& poll matches Poll::Ready(next) ==> {
                    &&& final(clusters).n == old(clusters).n + 1
                    &&& next is Some
                    &&& (next->0).n == old(clusters).size
                    &&& (next->0).rf_mut is Some
                    &&& ((next->0).rf_mut->0).ptr.index == fut.ptr.index
                    &&& ((next->0).rf_mut->0).borrow.at::<T, B>(value) == all
                    &&& final(clusters).fut is Some <==> all.len() > 1
                    &&& final(clusters).fut matches Some(rest) ==> {
                        &&& rest.ptr.index == fut.ptr.index
                        &&& rest.borrow.valid::<T, B>(value)
                        &&& rest.borrow.at::<T, B>(value) == all.skip(1)
                    }
                }
            }
        }),
{
    let all = fut.borrow.at::<T, B>(value);
    assert(old(inner).graph@.live(fut.ptr.index));
    if all.len() > 1 {
        laws::law_part_of_run::<T, B, P>(fut.borrow, value, 1, all.len() - 1);
        assert(all.skip(1) =~= all.subrange(1, all.len() as int));
    }
}

/// Iterating over a slice for change begins with all of it, and goes by the size or the closure that was
/// given.
pub proof fn law_iteration_mut_begins_with_the_slice<
    T,
    B,
    P: Copy,
    F: FnMut(&mut B) -> bool,
    G: FnMut(&mut B, &mut B) -> bool,
>(
    this: RefMut<T, [B], Span<P>>,
    size: usize,
    f: F,
    g: G,
    chunks: ChunksMut<T, B, P>,
    runs: SplitMut<T, B, P, F>,
    inclusive: SplitInclusiveMut<T, B, P, F>,
    related: ChunkByMut<T, B, P, G>,
)
    requires
        call_ensures(RefMut::<T, [B], Span<P>>::chunks_mut, (this, size), chunks),
        call_ensures(RefMut::<T, [B], Span<P>>::split_mut::<F>, (this, f), runs),
        call_ensures(RefMut::<T, [B], Span<P>>::split_inclusive_mut::<F>, (this, f), inclusive),
        call_ensures(RefMut::<T, [B], Span<P>>::chunk_by_mut::<G>, (this, g), related),
    ensures
        chunks.rf_mut == Some(this) && chunks.n == size,
        runs.rf_mut == Some(this) && runs.f == f,
        inclusive.rf_mut == Some(this) && inclusive.f == f,
        related.rf_mut == Some(this) && related.f == g,
{
}

/// Windows begin with all of the slice, lent on through a new branch and ready at once. Clusters of
/// them begin so too, with none handed out.
pub proof fn law_windows_mut_begin_with_the_slice<T, B, P: Copy>(
    this: RefMut<T, [B], Span<P>>,
    size: usize,
    inner: &mut BorrowInner<T>,
    windows: WindowsMut<T, B, P>,
    clustered: &mut BorrowInner<T>,
    clusters: WindowClustersMut<T, B, P>,
)
    requires
        old(inner).can_forward(this.ptr.index),
        call_ensures(RefMut::<T, [B], Span<P>>::windows_mut, (this, inner, size), windows),
        old(clustered).can_forward(this.ptr.index),
        call_ensures(
            RefMut::<T, [B], Span<P>>::window_clusters_mut,
            (this, clustered, size),
            clusters,
        ),
    ensures
        windows.size == size,
        windows.fut matches Some(fut) && fut.borrow == this.borrow && final(inner).graph@.ready(
            fut.ptr.index,
        ) && final(inner).graph@.branches[fut.ptr.index].parent == this.ptr.index,
        final(inner).data == old(inner).data,
        final(inner).weak == old(inner).weak,
        clusters.size == size,
        clusters.n == 0,
        clusters.fut matches Some(fut) && fut.borrow == this.borrow && final(
            clustered
        ).graph@.ready(fut.ptr.index) && final(clustered).graph@.branches[fut.ptr.index].parent
            == this.ptr.index,
        final(clustered).data == old(clustered).data,
        final(clustered).weak == old(clustered).weak,
{
}

} // verus!
