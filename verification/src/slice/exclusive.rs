//! Taking slices apart for change.
use vstd::prelude::*;
use std::marker::PhantomData;
use std::ops::Range;
use std::task::Waker;
use crate::future::RefMutForward;
use crate::graph::model::GraphView;
use crate::inner::{BorrowInner, SharedPtr};
use crate::place::{Elem, Place, Span};
use crate::pointers::{Context, RefMut};
use crate::waker::Poll;

pub mod calls;

verus! {

impl<T> BorrowInner<T> {
    /// Whether lending elements on again through the branch `index` left this, where `lent` is the
    /// graph with them lent. If they could not be handed out, they were given back at once and the
    /// future with them. If they were the last, of `len`, only the future was given back.
    pub open spec fn windowed_from(
        &self,
        before: BorrowInner<T>,
        lent: GraphView,
        index: usize,
        handed_out: bool,
        len: usize,
    ) -> bool {
        &&& self.wf()
        &&& if !handed_out {
            &&& self.settled_from(before, lent.untracked(index).0.future_closed(index))
            &&& self.weak == before.weak - 1
        } else if len > 1 {
            &&& self.graph@ == lent
            &&& self.data == before.data
            &&& self.holds(index)
            &&& self.awaits(index)
            &&& self.weak == before.weak + 1
        } else {
            &&& self.graph@ == lent.future_closed(index).0
            &&& self.data == before.data
            &&& self.weak == before.weak
        }
    }
}

impl<T, B, P> RefMutForward<T, [B], Span<P>> {
    /// The future of one element. Without such an element the future is given back.
    pub fn map_by_index_mut(this: Self, inner: &mut BorrowInner<T>, index: usize) -> (mapped: Option<
        RefMutForward<T, B, Elem<P>>,
    >)
        requires
            this.borrow.bounded(),
            this.ptr.shared is Some ==> this.ptr.valid(old(inner)),
        ensures
            match mapped {
                Some(future) => {
                    &&& index < this.borrow.len
                    &&& future.ptr == this.ptr
                    &&& future.borrow == this.borrow.elem(index)
                    &&& *final(inner) == *old(inner)
                },
                None => {
                    &&& index >= this.borrow.len
                    &&& final(inner).closed_from(*old(inner), this.ptr)
                },
            },
    {
        if index < this.borrow.len {
            Some(
                RefMutForward {
                    ptr: this.ptr,
                    borrow: this.borrow.narrow(index),
                    target: PhantomData,
                },
            )
        } else {
            this.ptr.release(inner);
            None
        }
    }

    /// The future of a run of the elements. If the run starts or ends past the last element the
    /// future is given back.
    pub fn map_by_range_mut(this: Self, inner: &mut BorrowInner<T>, range: Range<usize>) -> (mapped: Option<
        RefMutForward<T, [B], Span<P>>,
    >)
        requires
            this.borrow.bounded(),
            this.ptr.shared is Some ==> this.ptr.valid(old(inner)),
        ensures
            match mapped {
                Some(future) => {
                    &&& range.end <= this.borrow.len && range.start < this.borrow.len
                    &&& future.ptr == this.ptr
                    &&& future.borrow == this.borrow.over(range)
                    &&& *final(inner) == *old(inner)
                },
                None => {
                    &&& range.end > this.borrow.len || range.start >= this.borrow.len
                    &&& final(inner).closed_from(*old(inner), this.ptr)
                },
            },
    {
        if range.end <= this.borrow.len && range.start < this.borrow.len {
            let len: usize = if range.start < range.end {
                range.end - range.start
            } else {
                0
            };
            Some(
                RefMutForward {
                    ptr: this.ptr,
                    borrow: this.borrow.sub(range.start, len),
                    target: PhantomData,
                },
            )
        } else {
            this.ptr.release(inner);
            None
        }
    }

    /// The future of the first element. Without elements the future is given back.
    pub fn map_first_mut(this: Self, inner: &mut BorrowInner<T>) -> (mapped: Option<
        RefMutForward<T, B, Elem<P>>,
    >)
        requires
            this.borrow.bounded(),
            this.ptr.shared is Some ==> this.ptr.valid(old(inner)),
        ensures
            match mapped {
                Some(future) => {
                    &&& this.borrow.len > 0
                    &&& future.ptr == this.ptr
                    &&& future.borrow == this.borrow.elem(0)
                    &&& *final(inner) == *old(inner)
                },
                None => {
                    &&& this.borrow.len == 0
                    &&& final(inner).closed_from(*old(inner), this.ptr)
                },
            },
    {
        RefMutForward::map_by_index_mut(this, inner, 0)
    }

    /// The future of all elements but the first. If no other is left the future is given back.
    pub fn map_skip_first_mut(this: Self, inner: &mut BorrowInner<T>) -> (mapped: Option<
        RefMutForward<T, [B], Span<P>>,
    >)
        requires
            this.borrow.bounded(),
            this.ptr.shared is Some ==> this.ptr.valid(old(inner)),
        ensures
            match mapped {
                Some(future) => {
                    &&& this.borrow.len > 1
                    &&& future.ptr == this.ptr
                    &&& future.borrow == this.borrow.part(1, this.borrow.len - 1)
                    &&& *final(inner) == *old(inner)
                },
                None => {
                    &&& this.borrow.len <= 1
                    &&& final(inner).closed_from(*old(inner), this.ptr)
                },
            },
    {
        let len: usize = this.borrow.len;
        RefMutForward::map_by_range_mut(this, inner, 1..len)
    }
}

impl<T, B, P: Copy> RefMut<T, [B], Span<P>> {
    /// Whether the reference may be used, and cloned `count` times.
    pub open spec fn can_trade(&self, inner: &BorrowInner<T>, count: int) -> bool {
        self.borrow.bounded() && inner.can_clone_times(self.ptr.index, count)
    }

    /// A mutable reference to one element. Without such an element the reference is given back.
    pub fn get_mut(this: Self, inner: &mut BorrowInner<T>, index: usize) -> (elem: Option<
        RefMut<T, B, Elem<P>>,
    >)
        requires
            this.can_trade(old(inner), 1),
        ensures
            match elem {
                Some(rf_mut) => {
                    &&& index < this.borrow.len
                    &&& rf_mut == RefMut::<T, B, Elem<P>>::through(
                        this.ptr.index,
                        this.borrow.elem(index),
                    )
                    &&& final(inner).traded_from(*old(inner), this.ptr.index, 1)
                },
                None => {
                    &&& index >= this.borrow.len
                    &&& final(inner).released_from(*old(inner), this.ptr.index)
                },
            },
    {
        let ghost before = *inner;
        let context = Context { ptr: this.ptr };
        if index < this.borrow.len {
            let rf_mut = context.lift_mut(inner, this.borrow.narrow(index));
            context.release(inner);
            proof {
                inner.lemma_traded(before, this.ptr.index, 1);
            }
            Some(rf_mut)
        } else {
            context.release(inner);
            None
        }
    }

    /// A mutable reference to a run of the elements. Without such a run the reference is given back.
    pub fn range_mut(this: Self, inner: &mut BorrowInner<T>, range: Range<usize>) -> (elems: Option<
        RefMut<T, [B], Span<P>>,
    >)
        requires
            this.can_trade(old(inner), 1),
        ensures
            match elems {
                Some(rf_mut) => {
                    &&& range.start <= range.end <= this.borrow.len
                    &&& rf_mut == RefMut::<T, [B], Span<P>>::through(
                        this.ptr.index,
                        this.borrow.over(range),
                    )
                    &&& final(inner).traded_from(*old(inner), this.ptr.index, 1)
                },
                None => {
                    &&& !(range.start <= range.end <= this.borrow.len)
                    &&& final(inner).released_from(*old(inner), this.ptr.index)
                },
            },
    {
        let ghost before = *inner;
        let context = Context { ptr: this.ptr };
        if range.start <= range.end && range.end <= this.borrow.len {
            let rf_mut = context.lift_mut(
                inner,
                this.borrow.sub(range.start, range.end - range.start),
            );
            context.release(inner);
            proof {
                inner.lemma_traded(before, this.ptr.index, 1);
            }
            Some(rf_mut)
        } else {
            context.release(inner);
            None
        }
    }

    /// A mutable reference to the first element. Without elements the reference is given back.
    pub fn first_mut(this: Self, inner: &mut BorrowInner<T>) -> (elem: Option<RefMut<T, B, Elem<P>>>)
        requires
            this.can_trade(old(inner), 1),
        ensures
            match elem {
                Some(rf_mut) => {
                    &&& this.borrow.len > 0
                    &&& rf_mut == RefMut::<T, B, Elem<P>>::through(this.ptr.index, this.borrow.elem(0))
                    &&& final(inner).traded_from(*old(inner), this.ptr.index, 1)
                },
                None => {
                    &&& this.borrow.len == 0
                    &&& final(inner).released_from(*old(inner), this.ptr.index)
                },
            },
    {
        RefMut::get_mut(this, inner, 0)
    }

    /// A mutable reference to all elements but the first. Without elements the reference is given back.
    pub fn skip_first_mut(this: Self, inner: &mut BorrowInner<T>) -> (elems: Option<
        RefMut<T, [B], Span<P>>,
    >)
        requires
            this.can_trade(old(inner), 1),
        ensures
            match elems {
                Some(rf_mut) => {
                    &&& this.borrow.len > 0
                    &&& rf_mut == RefMut::<T, [B], Span<P>>::through(
                        this.ptr.index,
                        this.borrow.part(1, this.borrow.len - 1),
                    )
                    &&& final(inner).traded_from(*old(inner), this.ptr.index, 1)
                },
                None => {
                    &&& this.borrow.len == 0
                    &&& final(inner).released_from(*old(inner), this.ptr.index)
                },
            },
    {
        let len: usize = this.borrow.len;
        RefMut::range_mut(this, inner, 1..len)
    }

    /// Mutable references to the first element and to all others. Without elements the reference is given
    /// back.
    pub fn split_first_mut(this: Self, inner: &mut BorrowInner<T>) -> (split: Option<
        (RefMut<T, B, Elem<P>>, RefMut<T, [B], Span<P>>),
    >)
        requires
            this.can_trade(old(inner), 2),
        ensures
            match split {
                Some((first, rest)) => {
                    &&& this.borrow.len > 0
                    &&& first == RefMut::<T, B, Elem<P>>::through(
                        this.ptr.index,
                        this.borrow.elem(0),
                    )
                    &&& rest == RefMut::<T, [B], Span<P>>::through(
                        this.ptr.index,
                        this.borrow.part(1, this.borrow.len - 1),
                    )
                    &&& final(inner).traded_from(*old(inner), this.ptr.index, 2)
                },
                None => {
                    &&& this.borrow.len == 0
                    &&& final(inner).released_from(*old(inner), this.ptr.index)
                },
            },
    {
        let ghost before = *inner;
        let ghost strong = before.graph@.branches[this.ptr.index].strong;
        let context = Context { ptr: this.ptr };
        if this.borrow.len > 0 {
            let first = context.lift_mut(inner, this.borrow.narrow(0));
            let rest = context.lift_mut(inner, this.borrow.sub(1, this.borrow.len - 1));
            proof {
                crate::tuple::lemma_with_strong(
                    before.graph@,
                    this.ptr.index,
                    strong + 1,
                    strong + 2,
                );
            }
            context.release(inner);
            proof {
                inner.lemma_traded(before, this.ptr.index, 2);
            }
            Some((first, rest))
        } else {
            context.release(inner);
            None
        }
    }

    /// Mutable references to the first `mid` elements and to all others.
    pub fn split_at_mut(this: Self, inner: &mut BorrowInner<T>, mid: usize) -> (split: (
        RefMut<T, [B], Span<P>>,
        RefMut<T, [B], Span<P>>,
    ))
        requires
            this.can_trade(old(inner), 2),
            mid <= this.borrow.len,
        ensures
            split.0 == RefMut::<T, [B], Span<P>>::through(
                this.ptr.index,
                this.borrow.part(0, mid as int),
            ),
            split.1 == RefMut::<T, [B], Span<P>>::through(
                this.ptr.index,
                this.borrow.part(mid as int, this.borrow.len - mid),
            ),
            final(inner).traded_from(*old(inner), this.ptr.index, 2),
    {
        let ghost before = *inner;
        let ghost strong = before.graph@.branches[this.ptr.index].strong;
        let context = Context { ptr: this.ptr };
        let head = context.lift_mut(inner, this.borrow.sub(0, mid));
        let tail = context.lift_mut(inner, this.borrow.sub(mid, this.borrow.len - mid));
        proof {
            crate::tuple::lemma_with_strong(before.graph@, this.ptr.index, strong + 1, strong + 2);
        }
        context.release(inner);
        proof {
            inner.lemma_traded(before, this.ptr.index, 2);
        }
        (head, tail)
    }

    /// References to the elements before the one that was found, and to that and all after it. If none
    /// was found, the reference itself.
    pub fn cut_before_mut(this: Self, inner: &mut BorrowInner<T>, found: Option<usize>) -> (cut: (
        RefMut<T, [B], Span<P>>,
        Option<RefMut<T, [B], Span<P>>>,
    ))
        requires
            this.can_trade(old(inner), 2),
            found matches Some(n) ==> n <= this.borrow.len,
        ensures
            match found {
                Some(n) => {
                    &&& cut.0 == RefMut::<T, [B], Span<P>>::through(this.ptr.index, this.borrow.part(0, n as int))
                    &&& cut.1 == Some(
                        RefMut::<T, [B], Span<P>>::through(
                            this.ptr.index,
                            this.borrow.part(n as int, this.borrow.len - n),
                        ),
                    )
                    &&& final(inner).traded_from(*old(inner), this.ptr.index, 2)
                },
                None => cut == (this, None::<RefMut<T, [B], Span<P>>>) && *final(inner) == *old(inner),
            },
    {
        match found {
            Some(n) => {
                let (head, tail) = RefMut::split_at_mut(this, inner, n);
                (head, Some(tail))
            },
            None => (this, None),
        }
    }

    /// References to the elements up to and with the one that was found, and to all after it. If none
    /// was found, the reference itself.
    pub fn cut_after_mut(this: Self, inner: &mut BorrowInner<T>, found: Option<usize>) -> (cut: (
        RefMut<T, [B], Span<P>>,
        Option<RefMut<T, [B], Span<P>>>,
    ))
        requires
            this.can_trade(old(inner), 2),
            found matches Some(n) ==> n < this.borrow.len,
        ensures
            match found {
                Some(n) => {
                    &&& cut.0 == RefMut::<T, [B], Span<P>>::through(this.ptr.index, this.borrow.part(0, n + 1))
                    &&& cut.1 == Some(
                        RefMut::<T, [B], Span<P>>::through(
                            this.ptr.index,
                            this.borrow.part(n + 1, this.borrow.len - n - 1),
                        ),
                    )
                    &&& final(inner).traded_from(*old(inner), this.ptr.index, 2)
                },
                None => cut == (this, None::<RefMut<T, [B], Span<P>>>) && *final(inner) == *old(inner),
            },
    {
        match found {
            Some(n) => {
                let (head, tail) = RefMut::split_at_mut(this, inner, n + 1);
                (head, Some(tail))
            },
            None => (this, None),
        }
    }

    /// References to the elements before the one that was found, and to all after it. If none was
    /// found, the reference itself.
    pub fn cut_around_mut(this: Self, inner: &mut BorrowInner<T>, found: Option<usize>) -> (cut: (
        RefMut<T, [B], Span<P>>,
        Option<RefMut<T, [B], Span<P>>>,
    ))
        requires
            this.can_trade(old(inner), 2),
            found matches Some(n) ==> n < this.borrow.len,
        ensures
            match found {
                Some(n) => {
                    &&& cut.0 == RefMut::<T, [B], Span<P>>::through(this.ptr.index, this.borrow.part(0, n as int))
                    &&& cut.1 == Some(
                        RefMut::<T, [B], Span<P>>::through(
                            this.ptr.index,
                            this.borrow.part(n + 1, this.borrow.len - n - 1),
                        ),
                    )
                    &&& final(inner).traded_from(*old(inner), this.ptr.index, 2)
                },
                None => cut == (this, None::<RefMut<T, [B], Span<P>>>) && *final(inner) == *old(inner),
            },
    {
        match found {
            Some(n) => {
                let ghost before = *inner;
                let ghost index = this.ptr.index;
                let (head, tail) = RefMut::split_at_mut(this, inner, n);
                proof {
                    let strong = before.graph@.branches[index].strong;
                    crate::tuple::lemma_with_strong(before.graph@, index, strong + 1, strong + 1);
                }
                (head, RefMut::skip_first_mut(tail, inner))
            },
            None => (this, None),
        }
    }

    /// Runs of elements of which `f` holds from each to the next.
    pub fn chunk_by_mut<F: FnMut(&mut B, &mut B) -> bool>(this: Self, f: F) -> (chunks: ChunkByMut<T, B, P, F>)
        ensures
            chunks.rf_mut == Some(this),
            chunks.f == f,
    {
        ChunkByMut { rf_mut: Some(this), f }
    }

    /// Runs of `size` elements. The last may be shorter.
    pub fn chunks_mut(this: Self, size: usize) -> (chunks: ChunksMut<T, B, P>)
        ensures
            chunks.rf_mut == Some(this),
            chunks.n == size,
    {
        ChunksMut { rf_mut: Some(this), n: size }
    }

    /// The runs between the elements of which `f` holds.
    pub fn split_mut<F: FnMut(&mut B) -> bool>(this: Self, f: F) -> (runs: SplitMut<T, B, P, F>)
        ensures
            runs.rf_mut == Some(this),
            runs.f == f,
    {
        SplitMut { rf_mut: Some(this), f }
    }

    /// The runs that end with the elements of which `f` holds.
    pub fn split_inclusive_mut<F: FnMut(&mut B) -> bool>(this: Self, f: F) -> (runs: SplitInclusiveMut<
        T,
        B,
        P,
        F,
    >)
        ensures
            runs.rf_mut == Some(this),
            runs.f == f,
    {
        SplitInclusiveMut { rf_mut: Some(this), f }
    }

    /// All runs of `size` elements, one after the other.
    pub fn windows_mut(this: Self, inner: &mut BorrowInner<T>, size: usize) -> (windows: WindowsMut<
        T,
        B,
        P,
    >)
        requires
            old(inner).can_forward(this.ptr.index),
        ensures
            windows.fut == Some(
                RefMutForward::<T, [B], Span<P>>::through(
                    old(inner).graph@.next_index(),
                    this.borrow,
                ),
            ),
            windows.size == size,
            (windows.fut->0).ptr.valid(final(inner)),
            final(inner).returned_from(*old(inner), this.ptr.index),
            final(inner).weak == old(inner).weak,
    {
        WindowsMut { fut: Some(this.into_mut_forward(inner)), size }
    }

    /// All runs of `size` elements, in clusters that do not overlap, one cluster after the other.
    pub fn window_clusters_mut(this: Self, inner: &mut BorrowInner<T>, size: usize) -> (clusters:
        WindowClustersMut<T, B, P>)
        requires
            old(inner).can_forward(this.ptr.index),
        ensures
            clusters.fut == Some(
                RefMutForward::<T, [B], Span<P>>::through(
                    old(inner).graph@.next_index(),
                    this.borrow,
                ),
            ),
            clusters.size == size,
            clusters.n == 0,
            (clusters.fut->0).ptr.valid(final(inner)),
            final(inner).returned_from(*old(inner), this.ptr.index),
            final(inner).weak == old(inner).weak,
    {
        WindowClustersMut { fut: Some(this.into_mut_forward(inner)), size, n: 0 }
    }
}

/// Mutable references to runs of elements of which `f` holds from each to the next.
pub struct ChunkByMut<T, B, P, F: FnMut(&mut B, &mut B) -> bool> {
    /// The elements that are left.
    pub rf_mut: Option<RefMut<T, [B], Span<P>>>,
    /// Whether two elements belong together.
    pub f: F,
}

/// Mutable references to runs of a given number of elements.
pub struct ChunksMut<T, B, P> {
    /// The elements that are left.
    pub rf_mut: Option<RefMut<T, [B], Span<P>>>,
    /// The number of elements.
    pub n: usize,
}

/// Mutable references to runs of elements that end with one of which `f` holds.
pub struct SplitInclusiveMut<T, B, P, F: FnMut(&mut B) -> bool> {
    /// The elements that are left.
    pub rf_mut: Option<RefMut<T, [B], Span<P>>>,
    /// Whether a run ends with an element.
    pub f: F,
}

/// Mutable references to the runs between elements of which `f` holds.
pub struct SplitMut<T, B, P, F: FnMut(&mut B) -> bool> {
    /// The elements that are left.
    pub rf_mut: Option<RefMut<T, [B], Span<P>>>,
    /// Whether an element ends a run.
    pub f: F,
}

/// Mutable references to all runs of a given number of elements, each lent once the one before has
/// come back.
pub struct WindowsMut<T, B, P> {
    /// The future of the elements that are left.
    pub fut: Option<RefMutForward<T, [B], Span<P>>>,
    /// The number of elements.
    pub size: usize,
}

/// Clusters of mutable references to runs of a given number of elements: each cluster starts one
/// element further on than the one before, and is lent once that has come back.
pub struct WindowClustersMut<T, B, P> {
    /// The future of the elements that are left.
    pub fut: Option<RefMutForward<T, [B], Span<P>>>,
    /// The number of elements.
    pub size: usize,
    /// The number of clusters so far.
    pub n: usize,
}

impl<T, B: 'static, P: Place<T, Target = Vec<B>>> RefMut<T, [B], Span<P>> {
    /// Whether the value has the elements.
    pub open spec fn in_bounds(&self, inner: &BorrowInner<T>) -> bool {
        inner.holds(self.ptr.index) && self.borrow.valid::<T, B>(inner.data->0)
    }

    /// The elements.
    pub open spec fn elems(&self, inner: &BorrowInner<T>) -> Seq<B> {
        self.borrow.at::<T, B>(inner.data->0)
    }

    /// The elements.
    pub fn as_slice<'a>(&self, inner: &'a BorrowInner<T>) -> (elems: &'a [B])
        requires
            self.in_bounds(inner),
        ensures
            elems@ == self.elems(inner),
            elems@.len() == self.borrow.len,
    {
        proof {
            inner.lemma_holds(self.ptr.index);
        }
        self.borrow.get(self.ptr.shared.get_ref(inner))
    }

    /// The elements, to be changed. Nothing else is, and there are as many afterwards.
    pub fn as_mut_slice<'a>(&mut self, inner: &'a mut BorrowInner<T>) -> (elems: &'a mut [B])
        requires
            old(self).in_bounds(old(inner)),
        ensures
            *final(self) == *old(self),
            elems@ == old(self).elems(old(inner)),
            elems@.len() == old(self).borrow.len,
            final(inner).data is Some,
            final(inner).graph == old(inner).graph,
            final(inner).weak == old(inner).weak,
            final(elems)@.len() == elems@.len() ==> {
                &&& old(self).borrow.valid::<T, B>(final(inner).data->0)
                &&& old(self).elems(final(inner)) == final(elems)@
                &&& old(self).borrow.only::<T, B>(old(inner).data->0, final(inner).data->0)
            },
    {
        proof {
            inner.lemma_holds(self.ptr.index);
        }
        self.borrow.get_mut(self.ptr.shared.get_mut(inner))
    }
}

impl<T, B, P: Copy> ChunksMut<T, B, P> {
    /// The next run: as many elements as are asked for, or all that are left.
    pub fn next(&mut self, inner: &mut BorrowInner<T>) -> (next: Option<RefMut<T, [B], Span<P>>>)
        requires
            old(self).rf_mut is Some ==> (old(self).rf_mut->0).can_trade(old(inner), 2),
        ensures
            final(self).n == old(self).n,
            match old(self).rf_mut {
                None => next is None && final(self).rf_mut is None && *final(inner) == *old(inner),
                Some(rf_mut) => {
                    let (n, len) = (old(self).n, rf_mut.borrow.len);
                    if n >= len {
                        next == Some(rf_mut) && final(self).rf_mut is None && *final(inner) == *old(inner)
                    } else {
                        &&& next == Some(
                            RefMut::<T, [B], Span<P>>::through(
                                rf_mut.ptr.index,
                                rf_mut.borrow.part(0, n as int),
                            ),
                        )
                        &&& final(self).rf_mut == Some(
                            RefMut::<T, [B], Span<P>>::through(
                                rf_mut.ptr.index,
                                rf_mut.borrow.part(n as int, len - n),
                            ),
                        )
                        &&& final(inner).traded_from(*old(inner), rf_mut.ptr.index, 2)
                    }
                },
            },
    {
        match self.rf_mut.take() {
            Some(rf_mut) => {
                if self.n >= rf_mut.borrow.len {
                    return Some(rf_mut);
                }
                let (head, tail) = RefMut::split_at_mut(rf_mut, inner, self.n);
                self.rf_mut = Some(tail);
                Some(head)
            },
            None => None,
        }
    }
}

impl<T, B, P: Copy> WindowsMut<T, B, P> {
    /// Polls for the next run: once the one before has come back, as many elements as are asked for,
    /// from one element further on. If fewer are left, they are given back.
    pub fn poll_next(&mut self, inner: &mut BorrowInner<T>, waker: Waker) -> (poll: Poll<
        Option<RefMut<T, [B], Span<P>>>,
    >)
        requires
            old(self).fut matches Some(fut) ==> {
                &&& fut.ptr.valid(old(inner))
                &&& fut.borrow.bounded()
                &&& old(inner).weak + 2 <= usize::MAX
            },
        ensures
            final(self).size == old(self).size,
            match old(self).fut {
                None => {
                    &&& poll == Poll::<Option<RefMut<T, [B], Span<P>>>>::Ready(None)
                    &&& final(self).fut is None
                    &&& *final(inner) == *old(inner)
                },
                Some(fut) => {
                    let (index, span, size) = (fut.ptr.index, fut.borrow, old(self).size);
                    let graph = old(inner).graph@;
                    match poll {
                        Poll::Pending => {
                            &&& final(self).fut == old(self).fut
                            &&& fut.ptr.valid(final(inner))
                            &&& final(inner).waits_from(*old(inner), index, waker)
                            &&& final(inner).weak == old(inner).weak
                        },
                        Poll::Ready(next) => {
                            &&& graph.ready(index)
                            &&& exists|lent: GraphView|
                                {
                                    &&& #[trigger] lent.lent_from(
                                        graph.vacated(index),
                                        graph.branches[index].parent,
                                    )
                                    &&& final(inner).windowed_from(
                                        *old(inner),
                                        lent,
                                        index,
                                        size <= span.len,
                                        span.len,
                                    )
                                }
                            &&& next == if size <= span.len {
                                Some(
                                    RefMut::<T, [B], Span<P>>::through(
                                        index,
                                        span.part(0, size as int),
                                    ),
                                )
                            } else {
                                None
                            }
                            &&& final(self).fut == if size <= span.len && span.len > 1 {
                                Some(
                                    RefMutForward::<T, [B], Span<P>>::through(
                                        index,
                                        span.part(1, span.len - 1),
                                    ),
                                )
                            } else {
                                None
                            }
                        },
                    }
                },
            },
    {
        match self.fut.take() {
            Some(mut fut) => {
                let ghost before = *inner;
                let ghost index = fut.ptr.index;
                match fut.poll(inner, waker) {
                    Poll::Ready(came_back) => {
                        let (fut, rf_mut) = came_back.forward_mut(inner);
                        let ghost lent = *inner;
                        assert(lent.graph@.lent_from(
                            before.graph@.vacated(index),
                            before.graph@.branches[index].parent,
                        ));
                        match RefMut::range_mut(rf_mut, inner, 0..self.size) {
                            Some(elems) => {
                                proof {
                                    crate::tuple::lemma_with_same_strong(lent.graph@, index);
                                }
                                self.fut = RefMutForward::map_skip_first_mut(fut, inner);
                                Poll::Ready(Some(elems))
                            },
                            None => {
                                fut.release(inner);
                                Poll::Ready(None)
                            },
                        }
                    },
                    Poll::Pending => {
                        assert(fut.ptr.shared->0 == (SharedPtr { inner: PhantomData::<T> }));
                        assert((old(self).fut->0).ptr.shared->0 == (SharedPtr {
                            inner: PhantomData::<T>,
                        }));
                        self.fut = Some(fut);
                        Poll::Pending
                    },
                }
            },
            None => Poll::Ready(None),
        }
    }
}

impl<T, B, P: Copy> WindowClustersMut<T, B, P> {
    /// Polls for the next cluster: once the one before has come back, the elements that are left in
    /// runs of as many as are asked for. There are as many clusters as elements in a run.
    pub fn poll_next(&mut self, inner: &mut BorrowInner<T>, waker: Waker) -> (poll: Poll<
        Option<ChunksMut<T, B, P>>,
    >)
        requires
            old(self).n <= old(self).size,
            old(self).fut matches Some(fut) ==> {
                &&& fut.ptr.valid(old(inner))
                &&& fut.borrow.bounded()
                &&& old(inner).weak + 1 <= usize::MAX
            },
        ensures
            final(self).n <= final(self).size,
            final(self).size == old(self).size,
            match old(self).fut {
                None => {
                    &&& poll == Poll::<Option<ChunksMut<T, B, P>>>::Ready(None)
                    &&& final(self).fut is None
                    &&& final(self).n == old(self).n
                    &&& *final(inner) == *old(inner)
                },
                Some(fut) => {
                    let (index, span, size) = (fut.ptr.index, fut.borrow, old(self).size);
                    let graph = old(inner).graph@;
                    if old(self).n == size {
                        &&& poll == Poll::<Option<ChunksMut<T, B, P>>>::Ready(None)
                        &&& final(self).fut is None
                        &&& final(self).n == old(self).n
                        &&& final(inner).closed_from(*old(inner), fut.ptr)
                    } else {
                        match poll {
                            Poll::Pending => {
                                &&& final(self).fut == old(self).fut
                                &&& final(self).n == old(self).n
                                &&& fut.ptr.valid(final(inner))
                                &&& final(inner).waits_from(*old(inner), index, waker)
                                &&& final(inner).weak == old(inner).weak
                            },
                            Poll::Ready(next) => {
                                &&& graph.ready(index)
                                &&& exists|lent: GraphView|
                                    {
                                        &&& #[trigger] lent.lent_from(
                                            graph.vacated(index),
                                            graph.branches[index].parent,
                                        )
                                        &&& final(inner).windowed_from(
                                            *old(inner),
                                            lent,
                                            index,
                                            true,
                                            span.len,
                                        )
                                    }
                                &&& next == Some(
                                    ChunksMut {
                                        rf_mut: Some(
                                            RefMut::<T, [B], Span<P>>::through(index, span),
                                        ),
                                        n: size,
                                    },
                                )
                                &&& final(self).n == old(self).n + 1
                                &&& final(self).fut == if span.len > 1 {
                                    Some(
                                        RefMutForward::<T, [B], Span<P>>::through(
                                            index,
                                            span.part(1, span.len - 1),
                                        ),
                                    )
                                } else {
                                    None
                                }
                            },
                        }
                    }
                },
            },
    {
        match self.fut.take() {
            Some(mut fut) => {
                let ghost before = *inner;
                let ghost index = fut.ptr.index;
                if self.n == self.size {
                    fut.ptr.release(inner);
                    return Poll::Ready(None);
                }
                match fut.poll(inner, waker) {
                    Poll::Ready(came_back) => {
                        self.n += 1;
                        let (fut, rf_mut) = came_back.forward_mut(inner);
                        assert(inner.graph@.lent_from(
                            before.graph@.vacated(index),
                            before.graph@.branches[index].parent,
                        ));
                        self.fut = RefMutForward::map_skip_first_mut(fut, inner);
                        Poll::Ready(Some(RefMut::chunks_mut(rf_mut, self.size)))
                    },
                    Poll::Pending => {
                        assert(fut.ptr.shared->0 == (SharedPtr { inner: PhantomData::<T> }));
                        assert((old(self).fut->0).ptr.shared->0 == (SharedPtr {
                            inner: PhantomData::<T>,
                        }));
                        self.fut = Some(fut);
                        Poll::Pending
                    },
                }
            },
            None => Poll::Ready(None),
        }
    }
}

/// Whether `i` is one of the first `n` numbers.
pub open spec fn among(i: int, n: int) -> bool {
    0 <= i < n
}

/// Finds the first of the elements of `span` of which `f` holds. Elements up to there may be changed
/// by `f`, and no others.
fn find_mut<T, B: 'static, P: Place<T, Target = Vec<B>>, F: FnMut(&mut B) -> bool>(
    f: &mut F,
    span: &Span<P>,
    inner: &mut BorrowInner<T>,
) -> (found: Option<usize>)
    requires
        span.bounded(),
        old(inner).data is Some,
        span.valid::<T, B>(old(inner).data->0),
        forall|i: int, elem: &mut B|
            0 <= i < span.len && *elem == #[trigger] span.at::<T, B>(old(inner).data->0)[i]
                ==> #[trigger] call_requires(*old(f), (elem,)),
    ensures
        *final(f) == *old(f),
        final(inner).graph == old(inner).graph,
        final(inner).weak == old(inner).weak,
        final(inner).data is Some,
        span.valid::<T, B>(final(inner).data->0),
        span.only::<T, B>(old(inner).data->0, final(inner).data->0),
        match found {
            Some(n) => {
                &&& n < span.len
                &&& forall|i: int| #[trigger]
                    among(i, n as int) ==> exists|elem: &mut B|
                        {
                            &&& *elem == span.at::<T, B>(old(inner).data->0)[i]
                            &&& *final(elem) == span.at::<T, B>(final(inner).data->0)[i]
                            &&& #[trigger] call_ensures(*old(f), (elem,), false)
                        }
                &&& exists|elem: &mut B|
                    {
                        &&& *elem == span.at::<T, B>(old(inner).data->0)[n as int]
                        &&& *final(elem) == span.at::<T, B>(final(inner).data->0)[n as int]
                        &&& #[trigger] call_ensures(*old(f), (elem,), true)
                    }
                &&& forall|i: int|
                    n < i < span.len ==> #[trigger] span.at::<T, B>(final(inner).data->0)[i]
                        == span.at::<T, B>(old(inner).data->0)[i]
            },
            None => forall|i: int| #[trigger]
                among(i, span.len as int) ==> exists|elem: &mut B|
                    {
                        &&& *elem == span.at::<T, B>(old(inner).data->0)[i]
                        &&& *final(elem) == span.at::<T, B>(final(inner).data->0)[i]
                        &&& #[trigger] call_ensures(*old(f), (elem,), false)
                    },
        },
{
    let ghost before = *inner;
    let ghost all = span.at::<T, B>(inner.data->0);
    let mut n: usize = 0;
    let mut ends: bool = false;
    proof {
        span.lemma_only::<T, B>(inner.data->0, inner.data->0, inner.data->0);
    }
    while n < span.len && !ends
        invariant
            n <= span.len,
            span.bounded(),
            span.valid::<T, B>(before.data->0),
            all == span.at::<T, B>(before.data->0),
            inner.data is Some,
            inner.graph == before.graph,
            inner.weak == before.weak,
            span.valid::<T, B>(inner.data->0),
            span.only::<T, B>(before.data->0, inner.data->0),
            *f == *old(f),
            forall|i: int, elem: &mut B|
                0 <= i < span.len && *elem == #[trigger] all[i]
                    ==> #[trigger] call_requires(*f, (elem,)),
            forall|i: int| #[trigger]
                among(i, n as int) ==> exists|elem: &mut B|
                    {
                        &&& *elem == all[i]
                        &&& *final(elem) == span.at::<T, B>(inner.data->0)[i]
                        &&& #[trigger] call_ensures(*f, (elem,), false)
                    },
            ends ==> n < span.len && exists|elem: &mut B|
                {
                    &&& *elem == all[n as int]
                    &&& *final(elem) == span.at::<T, B>(inner.data->0)[n as int]
                    &&& #[trigger] call_ensures(*f, (elem,), true)
                },
            forall|i: int|
                n <= i < span.len && !(ends && i == n) ==> #[trigger] span.at::<T, B>(
                    inner.data->0,
                )[i] == all[i],
        decreases
                span.len - n,
                (if ends {
                    0int
                } else {
                    1
                }),
    {
        let ghost data = inner.data->0;
        let place = span.narrow(n);
        assert(span.at::<T, B>(data)[n as int] == all[n as int]);
        let holds: bool = (*f)(place.get_mut(inner.data.as_mut().unwrap()));
        assert(exists|elem: &mut B|
            {
                &&& *elem == all[n as int]
                &&& *final(elem) == place.at(inner.data->0)
                &&& #[trigger] call_ensures(*f, (elem,), holds)
            });
        proof {
            span.lemma_elem::<T, B>(data, inner.data->0, n);
            span.lemma_only::<T, B>(before.data->0, data, inner.data->0);
            assert forall|i: int| #[trigger] among(i, n as int) implies exists|
                elem: &mut B,
            |
                {
                    &&& *elem == all[i]
                    &&& *final(elem) == span.at::<T, B>(inner.data->0)[i]
                    &&& #[trigger] call_ensures(*f, (elem,), false)
                } by {
                assert(span.at::<T, B>(inner.data->0)[i] == span.at::<T, B>(data)[i]);
            }
        }
        if holds {
            ends = true;
        } else {
            n += 1;
            assert forall|i: int| #[trigger] among(i, n as int) implies exists|
                elem: &mut B,
            |
                {
                    &&& *elem == all[i]
                    &&& *final(elem) == span.at::<T, B>(inner.data->0)[i]
                    &&& #[trigger] call_ensures(*f, (elem,), false)
                } by {
                if i < n - 1 {
                    assert(among(i, n - 1));
                }
            }
        }
    }
    if ends {
        Some(n)
    } else {
        None
    }
}

impl<T, B: 'static, P: Place<T, Target = Vec<B>>, F: FnMut(&mut B) -> bool> SplitMut<T, B, P, F> {
    /// The next run: up to the first element of which `f` holds, which is skipped.
    /// Elements up to there may be changed by `f`, and no others.
    pub fn next(&mut self, inner: &mut BorrowInner<T>) -> (next: Option<RefMut<T, [B], Span<P>>>)
        requires
            old(self).rf_mut matches Some(rf_mut) ==> {
                &&& rf_mut.can_trade(old(inner), 2)
                &&& rf_mut.in_bounds(old(inner))
                &&& forall|i: int, elem: &mut B|
                    0 <= i < rf_mut.borrow.len && *elem == #[trigger] rf_mut.elems(old(inner))[i]
                        ==> #[trigger] call_requires(old(self).f, (elem,))
            },
        ensures
            final(self).f == old(self).f,
            match old(self).rf_mut {
                None => {
                    &&& next is None
                    &&& final(self).rf_mut is None
                    &&& *final(inner) == *old(inner)
                },
                Some(rf_mut) => {
                    let index = rf_mut.ptr.index;
                    let all = rf_mut.elems(old(inner));
                    let left = rf_mut.elems(final(inner));
                    let n = (next->0).borrow.len as int;
                    &&& next is Some
                    &&& 0 <= n <= all.len()
                    &&& final(inner).holds(index)
                    &&& rf_mut.in_bounds(final(inner))
                    &&& rf_mut.borrow.only::<T, B>(old(inner).data->0, final(inner).data->0)
                    &&& forall|i: int| #[trigger]
                        among(i, n) ==> exists|elem: &mut B|
                            {
                                &&& *elem == all[i]
                                &&& *final(elem) == left[i]
                                &&& #[trigger] call_ensures(old(self).f, (elem,), false)
                            }
                    &&& n == all.len() ==> {
                        &&& next == Some(rf_mut)
                        &&& final(self).rf_mut is None
                        &&& final(inner).graph == old(inner).graph
                        &&& final(inner).weak == old(inner).weak
                    }
                    &&& n < all.len() ==> {
                        &&& exists|elem: &mut B|
                            {
                                &&& *elem == all[n as int]
                                &&& *final(elem) == left[n as int]
                                &&& #[trigger] call_ensures(old(self).f, (elem,), true)
                            }
                        &&& next == Some(
                            RefMut::<T, [B], Span<P>>::through(
                                index,
                                rf_mut.borrow.part(0, n as int),
                            ),
                        )
                        &&& final(self).rf_mut == Some(
                            RefMut::<T, [B], Span<P>>::through(
                                index,
                                rf_mut.borrow.part(n + 1, all.len() - n - 1),
                            ),
                        )
                        &&& final(inner).graph@ == old(inner).graph@.with_strong(
                            index,
                            old(inner).graph@.branches[index].strong + 1,
                        )
                        &&& final(inner).weak == old(inner).weak + 1
                    }
                    &&& forall|i: int|
                        n < i < all.len() ==> #[trigger] left[i] == all[i]
                },
            },
    {
        match self.rf_mut.take() {
            Some(rf_mut) => {
                proof {
                    inner.lemma_holds(rf_mut.ptr.index);
                }
                let found: Option<usize> = find_mut(&mut self.f, &rf_mut.borrow, inner);
                let (run, rest) = RefMut::cut_around_mut(rf_mut, inner, found);
                self.rf_mut = rest;
                Some(run)
            },
            None => None,
        }
    }
}

impl<T, B: 'static, P: Place<T, Target = Vec<B>>, F: FnMut(&mut B) -> bool> SplitInclusiveMut<T, B, P, F> {
    /// The next run: up to and with the first element of which `f` holds.
    /// Elements up to there may be changed by `f`, and no others.
    pub fn next(&mut self, inner: &mut BorrowInner<T>) -> (next: Option<RefMut<T, [B], Span<P>>>)
        requires
            old(self).rf_mut matches Some(rf_mut) ==> {
                &&& rf_mut.can_trade(old(inner), 2)
                &&& rf_mut.in_bounds(old(inner))
                &&& forall|i: int, elem: &mut B|
                    0 <= i < rf_mut.borrow.len && *elem == #[trigger] rf_mut.elems(old(inner))[i]
                        ==> #[trigger] call_requires(old(self).f, (elem,))
            },
        ensures
            final(self).f == old(self).f,
            match old(self).rf_mut {
                None => {
                    &&& next is None
                    &&& final(self).rf_mut is None
                    &&& *final(inner) == *old(inner)
                },
                Some(rf_mut) => {
                    let index = rf_mut.ptr.index;
                    let all = rf_mut.elems(old(inner));
                    let left = rf_mut.elems(final(inner));
                    let n = if final(self).rf_mut is Some {
                        (next->0).borrow.len - 1
                    } else {
                        all.len() as int
                    };
                    &&& next is Some
                    &&& 0 <= n <= all.len()
                    &&& final(inner).holds(index)
                    &&& rf_mut.in_bounds(final(inner))
                    &&& rf_mut.borrow.only::<T, B>(old(inner).data->0, final(inner).data->0)
                    &&& forall|i: int| #[trigger]
                        among(i, n) ==> exists|elem: &mut B|
                            {
                                &&& *elem == all[i]
                                &&& *final(elem) == left[i]
                                &&& #[trigger] call_ensures(old(self).f, (elem,), false)
                            }
                    &&& n == all.len() ==> {
                        &&& next == Some(rf_mut)
                        &&& final(self).rf_mut is None
                        &&& final(inner).graph == old(inner).graph
                        &&& final(inner).weak == old(inner).weak
                    }
                    &&& n < all.len() ==> {
                        &&& exists|elem: &mut B|
                            {
                                &&& *elem == all[n as int]
                                &&& *final(elem) == left[n as int]
                                &&& #[trigger] call_ensures(old(self).f, (elem,), true)
                            }
                        &&& next == Some(
                            RefMut::<T, [B], Span<P>>::through(
                                index,
                                rf_mut.borrow.part(0, n + 1),
                            ),
                        )
                        &&& final(self).rf_mut == Some(
                            RefMut::<T, [B], Span<P>>::through(
                                index,
                                rf_mut.borrow.part(n + 1, all.len() - n - 1),
                            ),
                        )
                        &&& final(inner).graph@ == old(inner).graph@.with_strong(
                            index,
                            old(inner).graph@.branches[index].strong + 1,
                        )
                        &&& final(inner).weak == old(inner).weak + 1
                    }
                    &&& final(self).rf_mut is Some ==> {
                        let before = (next->0).borrow.len - 1;
                        forall|i: int| #[trigger]
                            among(i, before) ==> exists|elem: &mut B|
                                {
                                    &&& *elem == all[i]
                                    &&& *final(elem) == left[i]
                                    &&& #[trigger] call_ensures(old(self).f, (elem,), false)
                                }
                    }
                    &&& final(self).rf_mut is None ==> forall|i: int| #[trigger]
                        among(i, all.len() as int) ==> exists|elem: &mut B|
                            {
                                &&& *elem == all[i]
                                &&& *final(elem) == left[i]
                                &&& #[trigger] call_ensures(old(self).f, (elem,), false)
                            }
                    &&& forall|i: int|
                        n < i < all.len() ==> #[trigger] left[i] == all[i]
                },
            },
    {
        match self.rf_mut.take() {
            Some(rf_mut) => {
                proof {
                    inner.lemma_holds(rf_mut.ptr.index);
                }
                let found: Option<usize> = find_mut(&mut self.f, &rf_mut.borrow, inner);
                let (run, rest) = RefMut::cut_after_mut(rf_mut, inner, found);
                self.rf_mut = rest;
                Some(run)
            },
            None => None,
        }
    }
}

/// Whether `passed` may be the values at which the first elements of `all` were passed on from one
/// pair to the next, where `left` is what they were left at.
pub open spec fn passed_on<B>(passed: Seq<B>, all: Seq<B>, left: Seq<B>) -> bool {
    passed.len() > 0 && passed[0] == all[0] && passed.last() == left[passed.len() - 1]
}

impl<
    T,
    B: 'static,
    P: Place<T, Target = Vec<B>>,
    F: FnMut(&mut B, &mut B) -> bool,
> ChunkByMut<T, B, P, F> {
    /// The next run: as long as `f` holds from each element to the next. Elements up to the one after
    /// the run may be changed by `f`, and no others.
    pub fn next(&mut self, inner: &mut BorrowInner<T>) -> (next: Option<RefMut<T, [B], Span<P>>>)
        requires
            old(self).rf_mut matches Some(rf_mut) ==> {
                &&& rf_mut.can_trade(old(inner), 2)
                &&& rf_mut.in_bounds(old(inner))
                &&& forall|j: int, x: &mut B, y: &mut B|
                    1 <= j < rf_mut.borrow.len && (j == 1 ==> *x == rf_mut.elems(old(inner))[0])
                        && *y == #[trigger] rf_mut.elems(old(inner))[j]
                        ==> #[trigger] call_requires(old(self).f, (x, y))
            },
        ensures
            final(self).f == old(self).f,
            match old(self).rf_mut {
                None => {
                    &&& next is None
                    &&& final(self).rf_mut is None
                    &&& *final(inner) == *old(inner)
                },
                Some(rf_mut) => {
                    let index = rf_mut.ptr.index;
                    let all = rf_mut.elems(old(inner));
                    let left = rf_mut.elems(final(inner));
                    let n = (next->0).borrow.len as int;
                    let pairs = if n < all.len() {
                        n
                    } else {
                        all.len() - 1
                    };
                    &&& next is Some
                    &&& n <= all.len()
                    &&& final(inner).holds(index)
                    &&& rf_mut.in_bounds(final(inner))
                    &&& rf_mut.borrow.only::<T, B>(old(inner).data->0, final(inner).data->0)
                    &&& n == all.len() ==> {
                        &&& next == Some(rf_mut)
                        &&& final(self).rf_mut is None
                        &&& final(inner).graph == old(inner).graph
                        &&& final(inner).weak == old(inner).weak
                    }
                    &&& n < all.len() ==> {
                        &&& n > 0
                        &&& next == Some(
                            RefMut::<T, [B], Span<P>>::through(index, rf_mut.borrow.part(0, n)),
                        )
                        &&& final(self).rf_mut == Some(
                            RefMut::<T, [B], Span<P>>::through(
                                index,
                                rf_mut.borrow.part(n, all.len() - n),
                            ),
                        )
                        &&& final(inner).graph@ == old(inner).graph@.with_strong(
                            index,
                            old(inner).graph@.branches[index].strong + 1,
                        )
                        &&& final(inner).weak == old(inner).weak + 1
                    }
                    &&& forall|i: int| pairs < i < all.len() ==> #[trigger] left[i] == all[i]
                },
            },
            old(self).rf_mut matches Some(rf_mut) ==> rf_mut.borrow.len > 0 ==> {
                let all = rf_mut.elems(old(inner));
                let left = rf_mut.elems(final(inner));
                let n = (next->0).borrow.len;
                exists|passed: Seq<B>| {
                    &&& #[trigger] passed_on(passed, all, left)
                    &&& passed.len() == n + (if n < all.len() {
                        1int
                    } else {
                        0
                    })
                    &&& forall|i: int| #[trigger]
                        among(i, n - 1) ==> exists|x: &mut B, y: &mut B|
                            {
                                &&& *x == passed[i] && *y == all[i + 1]
                                &&& *final(x) == left[i] && *final(y) == passed[i + 1]
                                &&& #[trigger] call_ensures(old(self).f, (x, y), true)
                            }
                    &&& n < all.len() ==> exists|x: &mut B, y: &mut B|
                        {
                            &&& *x == passed[n - 1] && *y == all[n as int]
                            &&& *final(x) == left[n - 1] && *final(y) == passed[n as int]
                            &&& #[trigger] call_ensures(old(self).f, (x, y), false)
                        }
                }
            },
    {
        match self.rf_mut.take() {
            Some(rf_mut) => {
                let ghost before = *inner;
                let ghost lent = rf_mut;
                let ghost all = rf_mut.elems(inner);
                let ghost index = rf_mut.ptr.index;
                let span = rf_mut.borrow;
                let mut n: usize = 1;
                let mut ends: bool = false;
                let ghost mut passed: Seq<B> = seq![all[0]];
                proof {
                    inner.lemma_holds(index);
                    span.lemma_only::<T, B>(inner.data->0, inner.data->0, inner.data->0);
                }
                while n < span.len && !ends
                    invariant
                        1 <= n,
                        n <= span.len || n == 1,
                        span.bounded(),
                        span.valid::<T, B>(before.data->0),
                        all == span.at::<T, B>(before.data->0),
                        inner.data is Some,
                        inner.graph == before.graph,
                        inner.weak == before.weak,
                        span.valid::<T, B>(inner.data->0),
                        span.only::<T, B>(before.data->0, inner.data->0),
                        self.f == old(self).f,
                        self.rf_mut is None,
                        forall|j: int, x: &mut B, y: &mut B|
                            1 <= j < span.len && (j == 1 ==> *x == all[0]) && *y
                                == #[trigger] all[j] ==> #[trigger] call_requires(
                                old(self).f,
                                (x, y),
                            ),
                        passed.len() == if ends {
                            n + 1
                        } else {
                            n as int
                        },
                        passed[0] == all[0],
                        passed.last() == span.at::<T, B>(inner.data->0)[passed.len() - 1],
                        forall|i: int| #[trigger]
                            among(i, n - 1) ==> exists|x: &mut B, y: &mut B|
                                {
                                    &&& *x == passed[i] && *y == all[i + 1]
                                    &&& *final(x) == span.at::<T, B>(inner.data->0)[i]
                                    &&& *final(y) == passed[i + 1]
                                    &&& #[trigger] call_ensures(old(self).f, (x, y), true)
                                },
                        ends ==> n < span.len && exists|x: &mut B, y: &mut B|
                            {
                                &&& *x == passed[n - 1] && *y == all[n as int]
                                &&& *final(x) == span.at::<T, B>(inner.data->0)[n - 1]
                                &&& *final(y) == passed[n as int]
                                &&& #[trigger] call_ensures(old(self).f, (x, y), false)
                            },
                        forall|i: int|
                            passed.len() <= i < span.len ==> #[trigger] span.at::<T, B>(
                                inner.data->0,
                            )[i] == all[i],
                    decreases
                            span.len - n,
                            (if ends {
                                0int
                            } else {
                                1
                            }),
                {
                    let ghost data = inner.data->0;
                    let ghost then = span.at::<T, B>(data);
                    let ghost was = passed;
                    let elems: &mut [B] = span.get_mut(inner.data.as_mut().unwrap());
                    let (head, tail) = elems.split_at_mut(n);
                    let holds: bool = (self.f)(
                        head.last_mut().unwrap(),
                        tail.first_mut().unwrap(),
                    );
                    proof {
                        let now = span.at::<T, B>(inner.data->0);
                        assert(then[n as int] == all[n as int]);
                        passed = passed.push(now[n as int]);
                        span.lemma_only::<T, B>(before.data->0, data, inner.data->0);
                    }
                    assert(exists|x: &mut B, y: &mut B|
                        {
                            &&& *x == was[n - 1] && *y == all[n as int]
                            &&& *final(x) == span.at::<T, B>(inner.data->0)[n - 1]
                            &&& *final(y) == passed[n as int]
                            &&& #[trigger] call_ensures(old(self).f, (x, y), holds)
                        });
                    assert forall|i: int| #[trigger] among(i, n - 1) implies exists|
                        x: &mut B,
                        y: &mut B,
                    |
                        {
                            &&& *x == passed[i] && *y == all[i + 1]
                            &&& *final(x) == span.at::<T, B>(inner.data->0)[i]
                            &&& *final(y) == passed[i + 1]
                            &&& #[trigger] call_ensures(old(self).f, (x, y), true)
                        } by {
                        assert(span.at::<T, B>(inner.data->0)[i] == then[i]);
                        assert(passed[i] == was[i] && passed[i + 1] == was[i + 1]);
                    }
                    if holds {
                        n += 1;
                        assert forall|i: int| #[trigger] among(i, n - 1) implies exists|
                            x: &mut B,
                            y: &mut B,
                        |
                            {
                                &&& *x == passed[i] && *y == all[i + 1]
                                &&& *final(x) == span.at::<T, B>(inner.data->0)[i]
                                &&& *final(y) == passed[i + 1]
                                &&& #[trigger] call_ensures(old(self).f, (x, y), true)
                            } by {
                            if i < n - 2 {
                                assert(among(i, n - 2));
                            }
                        }
                    } else {
                        ends = true;
                    }
                }
                if ends {
                    let (head, rest) = RefMut::cut_before_mut(rf_mut, inner, Some(n));
                    self.rf_mut = rest;
                    assert(passed_on(passed, all, lent.elems(inner)));
                    assert forall|i: int| #[trigger] among(i, head.borrow.len - 1) implies exists|
                        x: &mut B,
                        y: &mut B,
                    |
                        {
                            &&& *x == passed[i] && *y == all[i + 1]
                            &&& *final(x) == lent.elems(inner)[i]
                            &&& *final(y) == passed[i + 1]
                            &&& #[trigger] call_ensures(old(self).f, (x, y), true)
                        } by {
                        assert(among(i, n - 1));
                    }
                    assert(exists|x: &mut B, y: &mut B|
                        {
                            &&& *x == passed[n - 1] && *y == all[n as int]
                            &&& *final(x) == lent.elems(inner)[n - 1]
                            &&& *final(y) == passed[n as int]
                            &&& #[trigger] call_ensures(old(self).f, (x, y), false)
                        });
                    Some(head)
                } else {
                    proof {
                        if span.len > 0 {
                            assert(passed_on(passed, all, lent.elems(inner)));
                            assert forall|i: int| #[trigger] among(i, span.len - 1) implies exists|
                                x: &mut B,
                                y: &mut B,
                            |
                                {
                                    &&& *x == passed[i] && *y == all[i + 1]
                                    &&& *final(x) == lent.elems(inner)[i]
                                    &&& *final(y) == passed[i + 1]
                                    &&& #[trigger] call_ensures(old(self).f, (x, y), true)
                                } by {
                                assert(among(i, n - 1));
                            }
                        }
                    }
                    Some(rf_mut)
                }
            },
            None => None,
        }
    }
}

} // verus!
