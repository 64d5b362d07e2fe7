//! What the calls that take slices apart hand out, in terms of the elements.
use vstd::prelude::*;
use std::ops::Range;
use crate::future::RefForward;
use crate::inner::BorrowInner;
use crate::place::{Elem, Place, Span};
use crate::pointers::Ref;
use crate::slice::{laws, ChunkBy, Chunks, Split, SplitInclusive, Windows};

verus! {

/// Asking for an element by its index gives a reference to that element of the slice, exactly if there is
/// one. The pointer is then traded for the new one, and given back otherwise.
pub proof fn law_get_hands_out_the_element<T, B: 'static, P: Place<T, Target = Vec<B>>>(
    this: Ref<T, [B], Span<P>>,
    inner: &mut BorrowInner<T>,
    index: usize,
    elem: Option<Ref<T, B, Elem<P>>>,
)
    requires
        this.can_trade(old(inner), 1),
        this.in_bounds(old(inner)),
        call_ensures(Ref::<T, [B], Span<P>>::get, (this, inner, index), elem),
    ensures
        elem is Some <==> index < this.borrow.len,
        elem matches Some(rf) ==> {
            &&& rf.ptr.index == this.ptr.index
            &&& rf.borrow.valid(final(inner).data->0)
            &&& rf.borrow.at(final(inner).data->0) == this.elems(old(inner))[index as int]
            &&& final(inner).traded_from(*old(inner), this.ptr.index, 1)
        },
        elem is None ==> final(inner).released_from(*old(inner), this.ptr.index),
{
}

/// Asking for the first element gives a reference to it, exactly if there are elements.
pub proof fn law_first_hands_out_the_first_element<T, B: 'static, P: Place<T, Target = Vec<B>>>(
    this: Ref<T, [B], Span<P>>,
    inner: &mut BorrowInner<T>,
    elem: Option<Ref<T, B, Elem<P>>>,
)
    requires
        this.can_trade(old(inner), 1),
        this.in_bounds(old(inner)),
        call_ensures(Ref::<T, [B], Span<P>>::first, (this, inner), elem),
    ensures
        elem is Some <==> this.borrow.len > 0,
        elem matches Some(rf) ==> {
            &&& rf.ptr.index == this.ptr.index
            &&& rf.borrow.valid(final(inner).data->0)
            &&& rf.borrow.at(final(inner).data->0) == this.elems(old(inner))[0]
            &&& final(inner).traded_from(*old(inner), this.ptr.index, 1)
        },
        elem is None ==> final(inner).released_from(*old(inner), this.ptr.index),
{
}

/// Asking for a range gives a reference to those elements of the slice, in order, exactly if the range
/// ends after it starts and within the slice.
pub proof fn law_range_hands_out_the_range<T, B: 'static, P: Place<T, Target = Vec<B>>>(
    this: Ref<T, [B], Span<P>>,
    inner: &mut BorrowInner<T>,
    range: Range<usize>,
    elems: Option<Ref<T, [B], Span<P>>>,
)
    requires
        this.can_trade(old(inner), 1),
        this.in_bounds(old(inner)),
        call_ensures(Ref::<T, [B], Span<P>>::range, (this, inner, range), elems),
    ensures
        elems is Some <==> range.start <= range.end <= this.borrow.len,
        elems matches Some(rf) ==> {
            &&& rf.ptr.index == this.ptr.index
            &&& rf.in_bounds(final(inner))
            &&& rf.elems(final(inner)) == this.elems(old(inner)).subrange(
                range.start as int,
                range.end as int,
            )
            &&& final(inner).traded_from(*old(inner), this.ptr.index, 1)
        },
        elems is None ==> final(inner).released_from(*old(inner), this.ptr.index),
{
    if range.start <= range.end <= this.borrow.len {
        laws::law_range_is_part_of_run::<T, B, P>(this.borrow, old(inner).data->0, range);
    }
}

/// Skipping the first element gives a reference to all others, in order, exactly if there is a first.
pub proof fn law_skip_first_hands_out_the_others<T, B: 'static, P: Place<T, Target = Vec<B>>>(
    this: Ref<T, [B], Span<P>>,
    inner: &mut BorrowInner<T>,
    elems: Option<Ref<T, [B], Span<P>>>,
)
    requires
        this.can_trade(old(inner), 1),
        this.in_bounds(old(inner)),
        call_ensures(Ref::<T, [B], Span<P>>::skip_first, (this, inner), elems),
    ensures
        elems is Some <==> this.borrow.len > 0,
        elems matches Some(rf) ==> {
            &&& rf.ptr.index == this.ptr.index
            &&& rf.in_bounds(final(inner))
            &&& rf.elems(final(inner)) == this.elems(old(inner)).skip(1)
            &&& final(inner).traded_from(*old(inner), this.ptr.index, 1)
        },
        elems is None ==> final(inner).released_from(*old(inner), this.ptr.index),
{
    if this.borrow.len > 0 {
        laws::law_part_of_run::<T, B, P>(this.borrow, old(inner).data->0, 1, this.borrow.len - 1);
        assert(this.elems(old(inner)).skip(1) =~= this.elems(old(inner)).subrange(
            1,
            this.borrow.len as int,
        ));
    }
}

/// Splitting off the first element gives a reference to it and one to all others, in order: together
/// they are the slice.
pub proof fn law_split_first_hands_out_both<T, B: 'static, P: Place<T, Target = Vec<B>>>(
    this: Ref<T, [B], Span<P>>,
    inner: &mut BorrowInner<T>,
    split: Option<(Ref<T, B, Elem<P>>, Ref<T, [B], Span<P>>)>,
)
    requires
        this.can_trade(old(inner), 2),
        this.in_bounds(old(inner)),
        call_ensures(Ref::<T, [B], Span<P>>::split_first, (this, inner), split),
    ensures
        split is Some <==> this.borrow.len > 0,
        split matches Some((first, rest)) ==> {
            &&& first.ptr.index == this.ptr.index
            &&& rest.ptr.index == this.ptr.index
            &&& first.borrow.valid(final(inner).data->0)
            &&& rest.in_bounds(final(inner))
            &&& seq![first.borrow.at(final(inner).data->0)] + rest.elems(final(inner))
                == this.elems(old(inner))
            &&& final(inner).traded_from(*old(inner), this.ptr.index, 2)
        },
        split is None ==> final(inner).released_from(*old(inner), this.ptr.index),
{
    if let Some((first, rest)) = split {
        laws::law_part_of_run::<T, B, P>(this.borrow, old(inner).data->0, 1, this.borrow.len - 1);
        assert(seq![first.borrow.at(final(inner).data->0)] + rest.elems(final(inner))
            =~= this.elems(old(inner)));
    }
}

/// Splitting a slice gives a reference to as many elements as were asked for and one to all others.
pub proof fn law_split_at_hands_out_both<T, B: 'static, P: Place<T, Target = Vec<B>>>(
    this: Ref<T, [B], Span<P>>,
    inner: &mut BorrowInner<T>,
    mid: usize,
    split: (Ref<T, [B], Span<P>>, Ref<T, [B], Span<P>>),
)
    requires
        this.can_trade(old(inner), 2),
        this.in_bounds(old(inner)),
        mid <= this.borrow.len,
        call_ensures(Ref::<T, [B], Span<P>>::split_at, (this, inner, mid), split),
    ensures
        split.0.ptr.index == this.ptr.index,
        split.1.ptr.index == this.ptr.index,
        split.0.in_bounds(final(inner)),
        split.1.in_bounds(final(inner)),
        split.0.elems(final(inner)) == this.elems(old(inner)).take(mid as int),
        split.1.elems(final(inner)) == this.elems(old(inner)).skip(mid as int),
        final(inner).traded_from(*old(inner), this.ptr.index, 2),
{
    let at = mid as int;
    laws::law_part_of_run::<T, B, P>(this.borrow, old(inner).data->0, 0, at);
    laws::law_part_of_run::<T, B, P>(this.borrow, old(inner).data->0, at, this.borrow.len - at);
    assert(this.elems(old(inner)).take(at) =~= this.elems(old(inner)).subrange(0, at));
    assert(this.elems(old(inner)).skip(at) =~= this.elems(old(inner)).subrange(
        at,
        this.borrow.len as int,
    ));
}

/// A slice that is cut before an element that was found gives the elements before it, and those from
/// it on. If none was found there is nothing to cut.
pub proof fn law_cut_before_hands_out_both<T, B: 'static, P: Place<T, Target = Vec<B>>>(
    this: Ref<T, [B], Span<P>>,
    inner: &mut BorrowInner<T>,
    found: Option<usize>,
    cut: (Ref<T, [B], Span<P>>, Option<Ref<T, [B], Span<P>>>),
)
    requires
        this.can_trade(old(inner), 2),
        this.in_bounds(old(inner)),
        found matches Some(n) ==> n <= this.borrow.len,
        call_ensures(Ref::<T, [B], Span<P>>::cut_before, (this, inner, found), cut),
    ensures
        match found {
            Some(n) => {
                &&& cut.1 is Some
                &&& cut.0.in_bounds(final(inner))
                &&& (cut.1->0).in_bounds(final(inner))
                &&& cut.0.elems(final(inner)) == this.elems(old(inner)).take(n as int)
                &&& (cut.1->0).elems(final(inner)) == this.elems(old(inner)).skip(n as int)
                &&& final(inner).traded_from(*old(inner), this.ptr.index, 2)
            },
            None => cut.0 == this && cut.1 is None && *final(inner) == *old(inner),
        },
{
    if let Some(n) = found {
        let (head, tail) = (n as int, n as int);
        laws::law_part_of_run::<T, B, P>(this.borrow, old(inner).data->0, 0, head);
        laws::law_part_of_run::<T, B, P>(this.borrow, old(inner).data->0, tail, this.borrow.len - tail);
        assert(this.elems(old(inner)).take(head) =~= this.elems(old(inner)).subrange(0, head));
        assert(this.elems(old(inner)).skip(tail) =~= this.elems(old(inner)).subrange(
            tail,
            this.borrow.len as int,
        ));
    }
}

/// A slice that is cut after an element that was found gives the elements up to it, and those after
/// it. If none was found there is nothing to cut.
pub proof fn law_cut_after_hands_out_both<T, B: 'static, P: Place<T, Target = Vec<B>>>(
    this: Ref<T, [B], Span<P>>,
    inner: &mut BorrowInner<T>,
    found: Option<usize>,
    cut: (Ref<T, [B], Span<P>>, Option<Ref<T, [B], Span<P>>>),
)
    requires
        this.can_trade(old(inner), 2),
        this.in_bounds(old(inner)),
        found matches Some(n) ==> n < this.borrow.len,
        call_ensures(Ref::<T, [B], Span<P>>::cut_after, (this, inner, found), cut),
    ensures
        match found {
            Some(n) => {
                &&& cut.1 is Some
                &&& cut.0.in_bounds(final(inner))
                &&& (cut.1->0).in_bounds(final(inner))
                &&& cut.0.elems(final(inner)) == this.elems(old(inner)).take(n + 1)
                &&& (cut.1->0).elems(final(inner)) == this.elems(old(inner)).skip(n + 1)
                &&& final(inner).traded_from(*old(inner), this.ptr.index, 2)
            },
            None => cut.0 == this && cut.1 is None && *final(inner) == *old(inner),
        },
{
    if let Some(n) = found {
        let (head, tail) = (n + 1, n + 1);
        laws::law_part_of_run::<T, B, P>(this.borrow, old(inner).data->0, 0, head);
        laws::law_part_of_run::<T, B, P>(this.borrow, old(inner).data->0, tail, this.borrow.len - tail);
        assert(this.elems(old(inner)).take(head) =~= this.elems(old(inner)).subrange(0, head));
        assert(this.elems(old(inner)).skip(tail) =~= this.elems(old(inner)).subrange(
            tail,
            this.borrow.len as int,
        ));
    }
}

/// A slice that is cut around an element that was found gives the elements before it, and those
/// after it. If none was found there is nothing to cut.
pub proof fn law_cut_around_hands_out_both<T, B: 'static, P: Place<T, Target = Vec<B>>>(
    this: Ref<T, [B], Span<P>>,
    inner: &mut BorrowInner<T>,
    found: Option<usize>,
    cut: (Ref<T, [B], Span<P>>, Option<Ref<T, [B], Span<P>>>),
)
    requires
        this.can_trade(old(inner), 2),
        this.in_bounds(old(inner)),
        found matches Some(n) ==> n < this.borrow.len,
        call_ensures(Ref::<T, [B], Span<P>>::cut_around, (this, inner, found), cut),
    ensures
        match found {
            Some(n) => {
                &&& cut.1 is Some
                &&& cut.0.in_bounds(final(inner))
                &&& (cut.1->0).in_bounds(final(inner))
                &&& cut.0.elems(final(inner)) == this.elems(old(inner)).take(n as int)
                &&& (cut.1->0).elems(final(inner)) == this.elems(old(inner)).skip(n + 1)
                &&& final(inner).traded_from(*old(inner), this.ptr.index, 2)
            },
            None => cut.0 == this && cut.1 is None && *final(inner) == *old(inner),
        },
{
    if let Some(n) = found {
        let (head, tail) = (n as int, n + 1);
        laws::law_part_of_run::<T, B, P>(this.borrow, old(inner).data->0, 0, head);
        laws::law_part_of_run::<T, B, P>(this.borrow, old(inner).data->0, tail, this.borrow.len - tail);
        assert(this.elems(old(inner)).take(head) =~= this.elems(old(inner)).subrange(0, head));
        assert(this.elems(old(inner)).skip(tail) =~= this.elems(old(inner)).subrange(
            tail,
            this.borrow.len as int,
        ));
    }
}

/// The next chunk has as many elements from the front of those that are left as were asked for, or all
/// of them, and then is the last. What is left after it are the others.
pub proof fn law_chunks_come_in_order<T, B: 'static, P: Place<T, Target = Vec<B>>>(
    chunks: &mut Chunks<T, B, P>,
    inner: &mut BorrowInner<T>,
    this: Ref<T, [B], Span<P>>,
    next: Option<Ref<T, [B], Span<P>>>,
)
    requires
        old(chunks).rf == Some(this),
        this.can_trade(old(inner), 2),
        this.in_bounds(old(inner)),
        call_ensures(Chunks::<T, B, P>::next, (chunks, inner), next),
    ensures
        next is Some,
        final(chunks).n == old(chunks).n,
        (next->0).in_bounds(final(inner)),
        old(chunks).n >= this.borrow.len ==> {
            &&& (next->0).elems(final(inner)) == this.elems(old(inner))
            &&& final(chunks).rf is None
            &&& *final(inner) == *old(inner)
        },
        old(chunks).n < this.borrow.len ==> {
            &&& (next->0).elems(final(inner)) == this.elems(old(inner)).take(old(chunks).n as int)
            &&& final(chunks).rf is Some
            &&& (final(chunks).rf->0).in_bounds(final(inner))
            &&& (final(chunks).rf->0).elems(final(inner)) == this.elems(old(inner)).skip(
                old(chunks).n as int,
            )
            &&& final(inner).traded_from(*old(inner), this.ptr.index, 2)
        },
{
    let n = old(chunks).n as int;
    if n < this.borrow.len {
        laws::law_part_of_run::<T, B, P>(this.borrow, old(inner).data->0, 0, n);
        laws::law_part_of_run::<T, B, P>(this.borrow, old(inner).data->0, n, this.borrow.len - n);
        assert(this.elems(old(inner)).take(n) =~= this.elems(old(inner)).subrange(0, n));
        assert(this.elems(old(inner)).skip(n) =~= this.elems(old(inner)).subrange(
            n,
            this.borrow.len as int,
        ));
    }
}

/// The next window has as many elements from the front of those that are left as were asked for, and
/// leaves all but the first. If there are not as many there is none, and what is left is given back.
pub proof fn law_windows_come_in_order<T, B: 'static, P: Place<T, Target = Vec<B>>>(
    windows: &mut Windows<T, B, P>,
    inner: &mut BorrowInner<T>,
    this: Ref<T, [B], Span<P>>,
    next: Option<Ref<T, [B], Span<P>>>,
)
    requires
        old(windows).rf == Some(this),
        this.can_trade(old(inner), 2),
        this.in_bounds(old(inner)),
        call_ensures(Windows::<T, B, P>::next, (windows, inner), next),
    ensures
        final(windows).n == old(windows).n,
        next is Some <==> old(windows).n <= this.borrow.len,
        next matches Some(rf) ==> {
            &&& rf.in_bounds(final(inner))
            &&& rf.elems(final(inner)) == this.elems(old(inner)).take(old(windows).n as int)
            &&& final(windows).rf is Some <==> this.borrow.len > 0
            &&& final(windows).rf matches Some(rest) ==> {
                &&& rest.in_bounds(final(inner))
                &&& rest.elems(final(inner)) == this.elems(old(inner)).skip(1)
                &&& final(inner).traded_from(*old(inner), this.ptr.index, 2)
            }
        },
        next is None ==> {
            &&& final(windows).rf is None
            &&& final(inner).released_from(*old(inner), this.ptr.index)
        },
{
    let n = old(windows).n as int;
    if n <= this.borrow.len {
        laws::law_part_of_run::<T, B, P>(this.borrow, old(inner).data->0, 0, n);
        assert(this.elems(old(inner)).take(n) =~= this.elems(old(inner)).subrange(0, n));
        if this.borrow.len > 0 {
            laws::law_part_of_run::<T, B, P>(this.borrow, old(inner).data->0, 1, this.borrow.len - 1);
            assert(this.elems(old(inner)).skip(1) =~= this.elems(old(inner)).subrange(
                1,
                this.borrow.len as int,
            ));
        }
    }
}

/// The future of a slice can be narrowed to one of its elements, exactly if there is such an element. It
/// waits for the same branch. Otherwise it is given back.
pub proof fn law_map_by_index_waits_for_the_element<T, B: 'static, P: Place<T, Target = Vec<B>>>(
    this: RefForward<T, [B], Span<P>>,
    inner: &mut BorrowInner<T>,
    index: usize,
    mapped: Option<RefForward<T, B, Elem<P>>>,
    value: T,
)
    requires
        this.borrow.bounded(),
        this.borrow.valid::<T, B>(value),
        call_ensures(RefForward::<T, [B], Span<P>>::map_by_index, (this, inner, index), mapped),
    ensures
        mapped is Some <==> index < this.borrow.len,
        mapped matches Some(future) ==> {
            &&& future.ptr == this.ptr
            &&& future.borrow.valid(value)
            &&& future.borrow.at(value) == this.borrow.at::<T, B>(value)[index as int]
            &&& *final(inner) == *old(inner)
        },
        mapped is None ==> final(inner).closed_from(*old(inner), this.ptr),
{
}

/// The future of a slice can be narrowed to a range of its elements, if the range starts and ends within
/// the slice. It waits for the same branch. Otherwise it is given back.
pub proof fn law_map_by_range_waits_for_the_range<T, B: 'static, P: Place<T, Target = Vec<B>>>(
    this: RefForward<T, [B], Span<P>>,
    inner: &mut BorrowInner<T>,
    range: Range<usize>,
    mapped: Option<RefForward<T, [B], Span<P>>>,
    value: T,
)
    requires
        this.borrow.bounded(),
        this.borrow.valid::<T, B>(value),
        call_ensures(RefForward::<T, [B], Span<P>>::map_by_range, (this, inner, range), mapped),
    ensures
        mapped is Some <==> range.end <= this.borrow.len && range.start < this.borrow.len,
        mapped matches Some(future) ==> {
            &&& future.ptr == this.ptr
            &&& future.borrow.valid::<T, B>(value)
            &&& future.borrow.at::<T, B>(value) == if range.start <= range.end {
                this.borrow.at::<T, B>(value).subrange(range.start as int, range.end as int)
            } else {
                Seq::empty()
            }
            &&& *final(inner) == *old(inner)
        },
        mapped is None ==> final(inner).closed_from(*old(inner), this.ptr),
{
    if range.start <= range.end <= this.borrow.len {
        laws::law_range_is_part_of_run::<T, B, P>(this.borrow, value, range);
    } else if range.end <= range.start <= this.borrow.len {
        laws::law_backward_range_is_empty::<T, B, P>(this.borrow, value, range);
    }
}

/// The future of a slice can be narrowed to its first element if there is one, and to all others if
/// there are others. It waits for the same branch. Otherwise it is given back.
pub proof fn law_map_skip_first_waits_for_the_others<T, B: 'static, P: Place<T, Target = Vec<B>>>(
    this: RefForward<T, [B], Span<P>>,
    inner: &mut BorrowInner<T>,
    first: Option<RefForward<T, B, Elem<P>>>,
    others: Option<RefForward<T, [B], Span<P>>>,
    value: T,
)
    requires
        this.borrow.bounded(),
        this.borrow.valid::<T, B>(value),
        ({
            ||| call_ensures(RefForward::<T, [B], Span<P>>::map_first, (this, inner), first) && others is None
            ||| call_ensures(RefForward::<T, [B], Span<P>>::map_skip_first, (this, inner), others)
                && first is None
        }),
    ensures
        first matches Some(future) ==> {
            &&& future.ptr == this.ptr
            &&& future.borrow.valid(value)
            &&& future.borrow.at(value) == this.borrow.at::<T, B>(value)[0]
            &&& *final(inner) == *old(inner)
        },
        others matches Some(future) ==> {
            &&& future.ptr == this.ptr
            &&& future.borrow.valid::<T, B>(value)
            &&& future.borrow.at::<T, B>(value) == this.borrow.at::<T, B>(value).skip(1)
            &&& *final(inner) == *old(inner)
        },
        first is None && others is None ==> {
            &&& final(inner).closed_from(*old(inner), this.ptr)
            &&& this.borrow.len <= 1
        },
{
    if this.borrow.len > 0 {
        laws::law_part_of_run::<T, B, P>(this.borrow, value, 1, this.borrow.len - 1);
        assert(this.borrow.at::<T, B>(value).skip(1) =~= this.borrow.at::<T, B>(value).subrange(
            1,
            this.borrow.len as int,
        ));
    }
}

/// The next run has the elements up to the first of which the closure holds, or all of them. What is
/// left are those after that one.
pub proof fn law_split_runs_come_in_order<
    T,
    B: 'static,
    P: Place<T, Target = Vec<B>>,
    F: FnMut(&B) -> bool,
>(
    runs: &mut Split<T, B, P, F>,
    inner: &mut BorrowInner<T>,
    this: Ref<T, [B], Span<P>>,
    next: Option<Ref<T, [B], Span<P>>>,
)
    requires
        old(runs).rf == Some(this),
        this.can_trade(old(inner), 2),
        this.in_bounds(old(inner)),
        call_ensures(Split::<T, B, P, F>::next, (runs, inner), next),
    ensures
        ({
            let all = this.elems(old(inner));
            let n = (next->0).borrow.len as int;
            &&& next is Some
            &&& n <= all.len()
            &&& (next->0).in_bounds(final(inner))
            &&& (next->0).elems(final(inner)) == all.take(n)
            &&& final(runs).rf is None ==> n == all.len() && *final(inner) == *old(inner)
            &&& final(runs).rf matches Some(rest) ==> {
                &&& rest.in_bounds(final(inner))
                &&& rest.elems(final(inner)) == all.skip(n + 1)
                &&& final(inner).traded_from(*old(inner), this.ptr.index, 2)
            }
            &&& forall|i: int|
                0 <= i < n ==> call_ensures(old(runs).f, (&#[trigger] all[i],), false)
            &&& final(runs).rf is Some ==> n < all.len() && call_ensures(
                old(runs).f,
                (&all[n],),
                true,
            )
        }),
{
    let all = this.elems(old(inner));
    let n = (next->0).borrow.len as int;
    assert(all.take(all.len() as int) =~= all);
    if final(runs).rf is Some {
        let tail = n + 1;
        laws::law_part_of_run::<T, B, P>(this.borrow, old(inner).data->0, 0, n);
        laws::law_part_of_run::<T, B, P>(
            this.borrow,
            old(inner).data->0,
            tail,
            this.borrow.len - tail,
        );
        assert(all.take(n) =~= all.subrange(0, n));
        assert(all.skip(tail) =~= all.subrange(tail, all.len() as int));
    }
}

/// The next run ends with the first element of which the closure holds, or has all of them. What is left
/// are those after it.
pub proof fn law_inclusive_runs_come_in_order<
    T,
    B: 'static,
    P: Place<T, Target = Vec<B>>,
    F: FnMut(&B) -> bool,
>(
    runs: &mut SplitInclusive<T, B, P, F>,
    inner: &mut BorrowInner<T>,
    this: Ref<T, [B], Span<P>>,
    next: Option<Ref<T, [B], Span<P>>>,
)
    requires
        old(runs).rf == Some(this),
        this.can_trade(old(inner), 2),
        this.in_bounds(old(inner)),
        call_ensures(SplitInclusive::<T, B, P, F>::next, (runs, inner), next),
    ensures
        ({
            let all = this.elems(old(inner));
            let n = (next->0).borrow.len as int;
            &&& next is Some
            &&& n <= all.len()
            &&& (next->0).in_bounds(final(inner))
            &&& (next->0).elems(final(inner)) == all.take(n)
            &&& final(runs).rf is None ==> n == all.len() && *final(inner) == *old(inner)
            &&& final(runs).rf matches Some(rest) ==> {
                &&& rest.in_bounds(final(inner))
                &&& rest.elems(final(inner)) == all.skip(n)
                &&& final(inner).traded_from(*old(inner), this.ptr.index, 2)
            }
            &&& forall|i: int|
                0 <= i < n - 1 ==> call_ensures(old(runs).f, (&#[trigger] all[i],), false)
            &&& final(runs).rf is Some ==> n > 0 && call_ensures(
                old(runs).f,
                (&all[n - 1],),
                true,
            )
            &&& final(runs).rf is None && n > 0 ==> call_ensures(
                old(runs).f,
                (&all[n - 1],),
                false,
            )
        }),
{
    let all = this.elems(old(inner));
    let n = (next->0).borrow.len as int;
    assert(all.take(all.len() as int) =~= all);
    if final(runs).rf is Some {
        let tail = n;
        laws::law_part_of_run::<T, B, P>(this.borrow, old(inner).data->0, 0, n);
        laws::law_part_of_run::<T, B, P>(
            this.borrow,
            old(inner).data->0,
            tail,
            this.borrow.len - tail,
        );
        assert(all.take(n) =~= all.subrange(0, n));
        assert(all.skip(tail) =~= all.subrange(tail, all.len() as int));
    }
}

/// The next run goes on for as long as the closure holds from each element to the next. What is left are
/// the elements from the first that it does not hold for.
pub proof fn law_chunks_by_relation_come_in_order<
    T,
    B: 'static,
    P: Place<T, Target = Vec<B>>,
    F: FnMut(&B, &B) -> bool,
>(
    runs: &mut ChunkBy<T, B, P, F>,
    inner: &mut BorrowInner<T>,
    this: Ref<T, [B], Span<P>>,
    next: Option<Ref<T, [B], Span<P>>>,
)
    requires
        old(runs).rf == Some(this),
        this.can_trade(old(inner), 2),
        this.in_bounds(old(inner)),
        call_ensures(ChunkBy::<T, B, P, F>::next, (runs, inner), next),
    ensures
        ({
            let all = this.elems(old(inner));
            let n = (next->0).borrow.len as int;
            &&& next is Some
            &&& n <= all.len()
            &&& (next->0).in_bounds(final(inner))
            &&& (next->0).elems(final(inner)) == all.take(n)
            &&& final(runs).rf is None ==> n == all.len() && *final(inner) == *old(inner)
            &&& final(runs).rf matches Some(rest) ==> {
                &&& rest.in_bounds(final(inner))
                &&& rest.elems(final(inner)) == all.skip(n)
                &&& final(inner).traded_from(*old(inner), this.ptr.index, 2)
            }
            &&& forall|i: int, j: int|
                #![trigger all[i], all[j]]
                0 <= i < n - 1 && j == i + 1 ==> call_ensures(
                    old(runs).f,
                    (&all[i], &all[j]),
                    true,
                )
            &&& final(runs).rf is Some ==> 0 < n < all.len() && call_ensures(
                old(runs).f,
                (&all[n - 1], &all[n]),
                false,
            )
        }),
{
    let all = this.elems(old(inner));
    let n = (next->0).borrow.len as int;
    assert(all.take(all.len() as int) =~= all);
    if final(runs).rf is Some {
        let tail = n;
        laws::law_part_of_run::<T, B, P>(this.borrow, old(inner).data->0, 0, n);
        laws::law_part_of_run::<T, B, P>(
            this.borrow,
            old(inner).data->0,
            tail,
            this.borrow.len - tail,
        );
        assert(all.take(n) =~= all.subrange(0, n));
        assert(all.skip(tail) =~= all.subrange(tail, all.len() as int));
    }
}

/// Iterating over a slice begins with all of it, and goes by the size or the closure that was given.
pub proof fn law_iteration_begins_with_the_slice<
    T,
    B,
    P: Copy,
    F: FnMut(&B) -> bool,
    G: FnMut(&B, &B) -> bool,
>(
    this: Ref<T, [B], Span<P>>,
    size: usize,
    f: F,
    g: G,
    chunks: Chunks<T, B, P>,
    windows: Windows<T, B, P>,
    runs: Split<T, B, P, F>,
    inclusive: SplitInclusive<T, B, P, F>,
    related: ChunkBy<T, B, P, G>,
)
    requires
        call_ensures(Ref::<T, [B], Span<P>>::chunks, (this, size), chunks),
        call_ensures(Ref::<T, [B], Span<P>>::windows, (this, size), windows),
        call_ensures(Ref::<T, [B], Span<P>>::split::<F>, (this, f), runs),
        call_ensures(Ref::<T, [B], Span<P>>::split_inclusive::<F>, (this, f), inclusive),
        call_ensures(Ref::<T, [B], Span<P>>::chunk_by::<G>, (this, g), related),
    ensures
        chunks.rf == Some(this) && chunks.n == size,
        windows.rf == Some(this) && windows.n == size,
        runs.rf == Some(this) && runs.f == f,
        inclusive.rf == Some(this) && inclusive.f == f,
        related.rf == Some(this) && related.f == g,
{
}

} // verus!
