//! What holds of the runs that a slice is taken apart into.
use vstd::prelude::*;
use std::ops::Range;
use crate::graph::model::GraphView;
use crate::inner::BorrowInner;
use crate::place::{Place, Span};

verus! {

/// A run has as many elements as it tells, which are those of the vector from its start on.
pub proof fn law_run_of_vector<T, E: 'static, P: Place<T, Target = Vec<E>>>(
    span: Span<P>,
    value: T,
    index: int,
)
    requires
        span.valid::<T, E>(value),
        0 <= index < span.len,
    ensures
        span.at::<T, E>(value).len() == span.len,
        span.at::<T, E>(value)[index] == span.base.at(value)@[span.start + index],
{
}

/// The run over a range has the elements of the range: what is handed out for a range of a slice is
/// that part of the slice.
pub proof fn law_range_is_part_of_run<T, E: 'static, P: Place<T, Target = Vec<E>>>(
    span: Span<P>,
    value: T,
    range: Range<usize>,
)
    requires
        span.bounded(),
        span.valid::<T, E>(value),
        range.start <= range.end <= span.len,
    ensures
        span.over(range).bounded(),
        span.over(range).valid::<T, E>(value),
        span.over(range).len == range.end - range.start,
        span.over(range).at::<T, E>(value) == span.at::<T, E>(value).subrange(
            range.start as int,
            range.end as int,
        ),
{
    assert(span.over(range).at::<T, E>(value) =~= span.at::<T, E>(value).subrange(
        range.start as int,
        range.end as int,
    ));
}

/// The run over a range that ends before it starts has no elements.
pub proof fn law_backward_range_is_empty<T, E: 'static, P: Place<T, Target = Vec<E>>>(
    span: Span<P>,
    value: T,
    range: Range<usize>,
)
    requires
        span.bounded(),
        span.valid::<T, E>(value),
        range.end <= range.start <= span.len,
    ensures
        span.over(range).bounded(),
        span.over(range).valid::<T, E>(value),
        span.over(range).at::<T, E>(value) == Seq::<E>::empty(),
{
    assert(span.over(range).at::<T, E>(value) =~= Seq::<E>::empty());
}

/// A part of a run has the elements of the run from its start on, as many as it has.
pub proof fn law_part_of_run<T, E: 'static, P: Place<T, Target = Vec<E>>>(
    span: Span<P>,
    value: T,
    start: int,
    len: int,
)
    requires
        span.bounded(),
        span.valid::<T, E>(value),
        0 <= start,
        0 <= len,
        start + len <= span.len,
    ensures
        span.part(start, len).bounded(),
        span.part(start, len).valid::<T, E>(value),
        span.part(start, len).len == len,
        span.part(start, len).at::<T, E>(value) == span.at::<T, E>(value).subrange(
            start,
            start + len,
        ),
{
    assert(span.part(start, len).at::<T, E>(value) =~= span.at::<T, E>(value).subrange(
        start,
        start + len,
    ));
}

/// Changing a part of a run changes the run there and nowhere else, and nothing outside of the run.
pub proof fn law_changed_part_of_run<T, E: 'static, P: Place<T, Target = Vec<E>>>(
    span: Span<P>,
    before: T,
    after: T,
    start: int,
    len: int,
)
    requires
        span.bounded(),
        span.valid::<T, E>(before),
        0 <= start,
        0 <= len,
        start + len <= span.len,
        span.base.valid(after),
        span.part(start, len).only::<T, E>(before, after),
    ensures
        span.valid::<T, E>(after),
        span.only::<T, E>(before, after),
        span.at::<T, E>(after) == span.at::<T, E>(before).take(start) + span.part(start, len).at::<
            T,
            E,
        >(after) + span.at::<T, E>(before).skip(start + len),
{
    let part = span.part(start, len);
    let (old_elems, new_elems) = (span.base.at(before)@, span.base.at(after)@);
    assert forall|i: int|
        0 <= i < new_elems.len() && !(part.start <= i < part.start
            + part.len) implies #[trigger] new_elems[i] == old_elems[i] by {
        if i < part.start {
            assert(new_elems.take(part.start as int)[i] == old_elems.take(part.start as int)[i]);
        } else {
            let j = i - part.start - part.len;
            assert(new_elems.skip(part.start + part.len)[j] == old_elems.skip(
                part.start + part.len,
            )[j]);
        }
    }
    assert(new_elems.take(span.start as int) =~= old_elems.take(span.start as int));
    assert(new_elems.skip(span.start + span.len) =~= old_elems.skip(span.start + span.len));
    assert(span.at::<T, E>(after) =~= span.at::<T, E>(before).take(start) + part.at::<T, E>(after)
        + span.at::<T, E>(before).skip(start + len));
}

/// Changing a run leaves every element of the vector outside of it, and how many there are.
pub proof fn law_run_is_apart<T, E: 'static, P: Place<T, Target = Vec<E>>>(
    span: Span<P>,
    before: T,
    after: T,
    index: int,
)
    requires
        span.valid::<T, E>(before),
        span.only::<T, E>(before, after),
        0 <= index < span.base.at(before)@.len(),
        index < span.start || span.start + span.len <= index,
    ensures
        span.base.only(before, after),
        span.base.at(after)@.len() == span.base.at(before)@.len(),
        span.base.at(after)@[index] == span.base.at(before)@[index],
{
    let (old_elems, new_elems) = (span.base.at(before)@, span.base.at(after)@);
    if index < span.start {
        assert(new_elems.take(span.start as int)[index] == old_elems.take(
            span.start as int,
        )[index]);
    } else {
        let end = span.start + span.len;
        assert(new_elems.skip(end)[index - end] == old_elems.skip(end)[index - end]);
    }
}

/// Lending elements on again. Once they are handed out one pointer is held through their branch; its
/// future waits for them if more are to come, and is dropped after the last. If they could not be
/// handed out the branch is gone, and whatever is left is borrowed as before.
pub proof fn law_window_is_lent_on<T>(
    before: BorrowInner<T>,
    after: BorrowInner<T>,
    lent: GraphView,
    index: usize,
    handed_out: bool,
    len: usize,
)
    requires
        lent.forest(),
        lent.rooted(),
        lent.pending(index),
        lent.branches[index].strong == 1,
        lent.borrows(index) == 1,
        after.windowed_from(before, lent, index, handed_out, len),
    ensures
        handed_out ==> {
            &&& after.graph@.live(index)
            &&& after.graph@.branches[index].strong == 1
            &&& after.graph@.branches[index].parent == lent.branches[index].parent
            &&& after.graph@.branches[index].waker is Some <==> len > 1
            &&& after.data == before.data
            &&& after.graph@.due == lent.due
            &&& after.graph@.branches.dom() == lent.branches.dom()
            &&& forall|k: usize|
                k != index && lent.live(k) ==> #[trigger] after.graph@.branches[k]
                    == lent.branches[k]
            &&& after.weak == before.weak + if len > 1 {
                1int
            } else {
                0
            }
        },
        !handed_out ==> {
            &&& !after.graph@.live(index)
            &&& forall|k: usize| #[trigger]
                after.graph@.live(k) ==> lent.live(k) && after.graph@.borrows(k) == lent.borrows(k)
            &&& lent.branches[index].parent == crate::graph::END ==> after.data is None
            &&& after.weak == before.weak - 1
        },
{
    let g = lent.untracked(index).0;
    if handed_out {
        assert(after.graph@.branches.dom() =~= lent.branches.dom());
    } else {
        crate::graph::model::lemma_untracked(lent, index);
        assert(lent.live(index));
        assert(g.ready(index));
        crate::laws::borrows::law_release_takes_one_borrow(lent, index);
        crate::laws::borrows::law_dropped_ready_future_gives_back(g, index);
        assert forall|k: usize| #[trigger] after.graph@.live(k) implies lent.live(k)
            && after.graph@.borrows(k) == lent.borrows(k) by {
            assert(g.live(k));
        }
    }
}

} // verus!
