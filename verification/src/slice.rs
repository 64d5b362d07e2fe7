//! Taking slices apart.
//!
//! A reference to a run of elements of a vector can be narrowed to fewer elements, or traded for
//! references to runs that do not overlap.
use vstd::prelude::*;
use std::marker::PhantomData;
use std::ops::Range;
use crate::future::RefForward;
use crate::inner::{BorrowInner, FuturePtr};
use crate::place::{Elem, Place, Span};
use crate::pointers::{Context, Ref};

pub mod calls;
pub mod exclusive;
pub mod laws;

verus! {

impl<P> Span<P> {
    /// Whether the end of the run can be counted.
    pub open spec fn bounded(&self) -> bool {
        self.start + self.len <= usize::MAX
    }

    /// The elements from `start` on, `len` of them.
    pub open spec fn part(&self, start: int, len: int) -> Span<P> {
        Span { base: self.base, start: (self.start + start) as usize, len: len as usize }
    }

    /// The elements of `range`. If it ends before it starts there are none.
    pub open spec fn over(&self, range: Range<usize>) -> Span<P> {
        self.part(
            range.start as int,
            if range.start < range.end {
                range.end - range.start
            } else {
                0
            },
        )
    }

    /// The place of the element `index`.
    pub(crate) fn narrow(self, index: usize) -> (elem: Elem<P>)
        requires
            self.bounded(),
            index < self.len,
        ensures
            elem == self.elem(index),
    {
        Elem { base: self.base, index: self.start + index }
    }

    /// The elements from `start` on, `len` of them.
    pub(crate) fn sub(self, start: usize, len: usize) -> (span: Span<P>)
        requires
            self.bounded(),
            start <= self.len,
        ensures
            span == self.part(start as int, len as int),
    {
        Span { base: self.base, start: self.start + start, len }
    }
}

impl<T> BorrowInner<T> {
    /// Whether giving back `future` left this, if it had not been answered.
    pub open spec fn closed_from<I: crate::inner::Index>(
        &self,
        before: BorrowInner<T>,
        future: FuturePtr<T, I>,
    ) -> bool {
        if future.shared is Some {
            &&& self.wf()
            &&& self.settled_from(before, before.graph@.future_closed(future.index.index()))
            &&& self.weak == before.weak - 1
        } else {
            *self == before
        }
    }

    /// Whether giving back a borrow pointer to `index` left this.
    pub open spec fn released_from(&self, before: BorrowInner<T>, index: usize) -> bool {
        &&& self.wf()
        &&& self.settled_from(before, before.graph@.untracked(index))
        &&& self.weak == before.weak - 1
    }
}

impl<T, B, P> RefForward<T, [B], Span<P>> {
    /// The future of one element. Without such an element the future is given back.
    pub fn map_by_index(this: Self, inner: &mut BorrowInner<T>, index: usize) -> (mapped: Option<
        RefForward<T, B, Elem<P>>,
    >)
        requires
            this.borrow.bounded(),
            this.ptr.shared is Some ==> this.ptr.valid(old(inner)),
        ensures
            match mapped {
                Some(future) => {
                    &&& index < this.borrow.len
                    &&& future.ptr == this.ptr
                    &&& future.borrow == this.borrow.elem(index)
                    &&& *final(inner) == *old(inner)
                },
                None => {
                    &&& index >= this.borrow.len
                    &&& final(inner).closed_from(*old(inner), this.ptr)
                },
            },
    {
        if index < this.borrow.len {
            Some(
                RefForward {
                    ptr: this.ptr,
                    borrow: this.borrow.narrow(index),
                    target: PhantomData,
                },
            )
        } else {
            this.ptr.release(inner);
            None
        }
    }

    /// The future of a run of the elements. If the run starts or ends past the last element the
    /// future is given back.
    pub fn map_by_range(this: Self, inner: &mut BorrowInner<T>, range: Range<usize>) -> (mapped: Option<
        RefForward<T, [B], Span<P>>,
    >)
        requires
            this.borrow.bounded(),
            this.ptr.shared is Some ==> this.ptr.valid(old(inner)),
        ensures
            match mapped {
                Some(future) => {
                    &&& range.end <= this.borrow.len && range.start < this.borrow.len
                    &&& future.ptr == this.ptr
                    &&& future.borrow == this.borrow.over(range)
                    &&& *final(inner) == *old(inner)
                },
                None => {
                    &&& range.end > this.borrow.len || range.start >= this.borrow.len
                    &&& final(inner).closed_from(*old(inner), this.ptr)
                },
            },
    {
        if range.end <= this.borrow.len && range.start < this.borrow.len {
            let len: usize = if range.start < range.end {
                range.end - range.start
            } else {
                0
            };
            Some(
                RefForward {
                    ptr: this.ptr,
                    borrow: this.borrow.sub(range.start, len),
                    target: PhantomData,
                },
            )
        } else {
            this.ptr.release(inner);
            None
        }
    }

    /// The future of the first element. Without elements the future is given back.
    pub fn map_first(this: Self, inner: &mut BorrowInner<T>) -> (mapped: Option<
        RefForward<T, B, Elem<P>>,
    >)
        requires
            this.borrow.bounded(),
            this.ptr.shared is Some ==> this.ptr.valid(old(inner)),
        ensures
            match mapped {
                Some(future) => {
                    &&& this.borrow.len > 0
                    &&& future.ptr == this.ptr
                    &&& future.borrow == this.borrow.elem(0)
                    &&& *final(inner) == *old(inner)
                },
                None => {
                    &&& this.borrow.len == 0
                    &&& final(inner).closed_from(*old(inner), this.ptr)
                },
            },
    {
        RefForward::map_by_index(this, inner, 0)
    }

    /// The future of all elements but the first. If no other is left the future is given back.
    pub fn map_skip_first(this: Self, inner: &mut BorrowInner<T>) -> (mapped: Option<
        RefForward<T, [B], Span<P>>,
    >)
        requires
            this.borrow.bounded(),
            this.ptr.shared is Some ==> this.ptr.valid(old(inner)),
        ensures
            match mapped {
                Some(future) => {
                    &&& this.borrow.len > 1
                    &&& future.ptr == this.ptr
                    &&& future.borrow == this.borrow.part(1, this.borrow.len - 1)
                    &&& *final(inner) == *old(inner)
                },
                None => {
                    &&& this.borrow.len <= 1
                    &&& final(inner).closed_from(*old(inner), this.ptr)
                },
            },
    {
        let len: usize = this.borrow.len;
        RefForward::map_by_range(this, inner, 1..len)
    }
}

impl<T, B, P: Copy> Ref<T, [B], Span<P>> {
    /// Whether the reference may be used, and cloned `count` times.
    pub open spec fn can_trade(&self, inner: &BorrowInner<T>, count: int) -> bool {
        self.borrow.bounded() && inner.can_clone_times(self.ptr.index, count)
    }

    /// A reference to one element. Without such an element the reference is given back.
    pub fn get(this: Self, inner: &mut BorrowInner<T>, index: usize) -> (elem: Option<
        Ref<T, B, Elem<P>>,
    >)
        requires
            this.can_trade(old(inner), 1),
        ensures
            match elem {
                Some(rf) => {
                    &&& index < this.borrow.len
                    &&& rf == Ref::<T, B, Elem<P>>::through(
                        this.ptr.index,
                        this.borrow.elem(index),
                    )
                    &&& final(inner).traded_from(*old(inner), this.ptr.index, 1)
                },
                None => {
                    &&& index >= this.borrow.len
                    &&& final(inner).released_from(*old(inner), this.ptr.index)
                },
            },
    {
        let ghost before = *inner;
        let context = Context { ptr: this.ptr };
        if index < this.borrow.len {
            let rf = context.lift_ref(inner, this.borrow.narrow(index));
            context.release(inner);
            proof {
                inner.lemma_traded(before, this.ptr.index, 1);
            }
            Some(rf)
        } else {
            context.release(inner);
            None
        }
    }

    /// A reference to a run of the elements. Without such a run the reference is given back.
    pub fn range(this: Self, inner: &mut BorrowInner<T>, range: Range<usize>) -> (elems: Option<
        Ref<T, [B], Span<P>>,
    >)
        requires
            this.can_trade(old(inner), 1),
        ensures
            match elems {
                Some(rf) => {
                    &&& range.start <= range.end <= this.borrow.len
                    &&& rf == Ref::<T, [B], Span<P>>::through(
                        this.ptr.index,
                        this.borrow.over(range),
                    )
                    &&& final(inner).traded_from(*old(inner), this.ptr.index, 1)
                },
                None => {
                    &&& !(range.start <= range.end <= this.borrow.len)
                    &&& final(inner).released_from(*old(inner), this.ptr.index)
                },
            },
    {
        let ghost before = *inner;
        let context = Context { ptr: this.ptr };
        if range.start <= range.end && range.end <= this.borrow.len {
            let rf = context.lift_ref(
                inner,
                this.borrow.sub(range.start, range.end - range.start),
            );
            context.release(inner);
            proof {
                inner.lemma_traded(before, this.ptr.index, 1);
            }
            Some(rf)
        } else {
            context.release(inner);
            None
        }
    }

    /// A reference to the first element. Without elements the reference is given back.
    pub fn first(this: Self, inner: &mut BorrowInner<T>) -> (elem: Option<Ref<T, B, Elem<P>>>)
        requires
            this.can_trade(old(inner), 1),
        ensures
            match elem {
                Some(rf) => {
                    &&& this.borrow.len > 0
                    &&& rf == Ref::<T, B, Elem<P>>::through(this.ptr.index, this.borrow.elem(0))
                    &&& final(inner).traded_from(*old(inner), this.ptr.index, 1)
                },
                None => {
                    &&& this.borrow.len == 0
                    &&& final(inner).released_from(*old(inner), this.ptr.index)
                },
            },
    {
        Ref::get(this, inner, 0)
    }

    /// A reference to all elements but the first. Without elements the reference is given back.
    pub fn skip_first(this: Self, inner: &mut BorrowInner<T>) -> (elems: Option<
        Ref<T, [B], Span<P>>,
    >)
        requires
            this.can_trade(old(inner), 1),
        ensures
            match elems {
                Some(rf) => {
                    &&& this.borrow.len > 0
                    &&& rf == Ref::<T, [B], Span<P>>::through(
                        this.ptr.index,
                        this.borrow.part(1, this.borrow.len - 1),
                    )
                    &&& final(inner).traded_from(*old(inner), this.ptr.index, 1)
                },
                None => {
                    &&& this.borrow.len == 0
                    &&& final(inner).released_from(*old(inner), this.ptr.index)
                },
            },
    {
        let len: usize = this.borrow.len;
        Ref::range(this, inner, 1..len)
    }

    /// References to the first element and to all others. Without elements the reference is given
    /// back.
    pub fn split_first(this: Self, inner: &mut BorrowInner<T>) -> (split: Option<
        (Ref<T, B, Elem<P>>, Ref<T, [B], Span<P>>),
    >)
        requires
            this.can_trade(old(inner), 2),
        ensures
            match split {
                Some((first, rest)) => {
                    &&& this.borrow.len > 0
                    &&& first == Ref::<T, B, Elem<P>>::through(
                        this.ptr.index,
                        this.borrow.elem(0),
                    )
                    &&& rest == Ref::<T, [B], Span<P>>::through(
                        this.ptr.index,
                        this.borrow.part(1, this.borrow.len - 1),
                    )
                    &&& final(inner).traded_from(*old(inner), this.ptr.index, 2)
                },
                None => {
                    &&& this.borrow.len == 0
                    &&& final(inner).released_from(*old(inner), this.ptr.index)
                },
            },
    {
        let ghost before = *inner;
        let ghost strong = before.graph@.branches[this.ptr.index].strong;
        let context = Context { ptr: this.ptr };
        if this.borrow.len > 0 {
            let first = context.lift_ref(inner, this.borrow.narrow(0));
            let rest = context.lift_ref(inner, this.borrow.sub(1, this.borrow.len - 1));
            proof {
                crate::tuple::lemma_with_strong(
                    before.graph@,
                    this.ptr.index,
                    strong + 1,
                    strong + 2,
                );
            }
            context.release(inner);
            proof {
                inner.lemma_traded(before, this.ptr.index, 2);
            }
            Some((first, rest))
        } else {
            context.release(inner);
            None
        }
    }

    /// References to the first `mid` elements and to all others.
    pub fn split_at(this: Self, inner: &mut BorrowInner<T>, mid: usize) -> (split: (
        Ref<T, [B], Span<P>>,
        Ref<T, [B], Span<P>>,
    ))
        requires
            this.can_trade(old(inner), 2),
            mid <= this.borrow.len,
        ensures
            split.0 == Ref::<T, [B], Span<P>>::through(
                this.ptr.index,
                this.borrow.part(0, mid as int),
            ),
            split.1 == Ref::<T, [B], Span<P>>::through(
                this.ptr.index,
                this.borrow.part(mid as int, this.borrow.len - mid),
            ),
            final(inner).traded_from(*old(inner), this.ptr.index, 2),
    {
        let ghost before = *inner;
        let ghost strong = before.graph@.branches[this.ptr.index].strong;
        let context = Context { ptr: this.ptr };
        let head = context.lift_ref(inner, this.borrow.sub(0, mid));
        let tail = context.lift_ref(inner, this.borrow.sub(mid, this.borrow.len - mid));
        proof {
            crate::tuple::lemma_with_strong(before.graph@, this.ptr.index, strong + 1, strong + 2);
        }
        context.release(inner);
        proof {
            inner.lemma_traded(before, this.ptr.index, 2);
        }
        (head, tail)
    }

    /// References to the elements before the one that was found, and to that and all after it. If none
    /// was found, the reference itself.
    pub fn cut_before(this: Self, inner: &mut BorrowInner<T>, found: Option<usize>) -> (cut: (
        Ref<T, [B], Span<P>>,
        Option<Ref<T, [B], Span<P>>>,
    ))
        requires
            this.can_trade(old(inner), 2),
            found matches Some(n) ==> n <= this.borrow.len,
        ensures
            match found {
                Some(n) => {
                    &&& cut.0 == Ref::<T, [B], Span<P>>::through(this.ptr.index, this.borrow.part(0, n as int))
                    &&& cut.1 == Some(
                        Ref::<T, [B], Span<P>>::through(
                            this.ptr.index,
                            this.borrow.part(n as int, this.borrow.len - n),
                        ),
                    )
                    &&& final(inner).traded_from(*old(inner), this.ptr.index, 2)
                },
                None => cut == (this, None::<Ref<T, [B], Span<P>>>) && *final(inner) == *old(inner),
            },
    {
        match found {
            Some(n) => {
                let (head, tail) = Ref::split_at(this, inner, n);
                (head, Some(tail))
            },
            None => (this, None),
        }
    }

    /// References to the elements up to and with the one that was found, and to all after it. If none
    /// was found, the reference itself.
    pub fn cut_after(this: Self, inner: &mut BorrowInner<T>, found: Option<usize>) -> (cut: (
        Ref<T, [B], Span<P>>,
        Option<Ref<T, [B], Span<P>>>,
    ))
        requires
            this.can_trade(old(inner), 2),
            found matches Some(n) ==> n < this.borrow.len,
        ensures
            match found {
                Some(n) => {
                    &&& cut.0 == Ref::<T, [B], Span<P>>::through(this.ptr.index, this.borrow.part(0, n + 1))
                    &&& cut.1 == Some(
                        Ref::<T, [B], Span<P>>::through(
                            this.ptr.index,
                            this.borrow.part(n + 1, this.borrow.len - n - 1),
                        ),
                    )
                    &&& final(inner).traded_from(*old(inner), this.ptr.index, 2)
                },
                None => cut == (this, None::<Ref<T, [B], Span<P>>>) && *final(inner) == *old(inner),
            },
    {
        match found {
            Some(n) => {
                let (head, tail) = Ref::split_at(this, inner, n + 1);
                (head, Some(tail))
            },
            None => (this, None),
        }
    }

    /// References to the elements before the one that was found, and to all after it. If none was
    /// found, the reference itself.
    pub fn cut_around(this: Self, inner: &mut BorrowInner<T>, found: Option<usize>) -> (cut: (
        Ref<T, [B], Span<P>>,
        Option<Ref<T, [B], Span<P>>>,
    ))
        requires
            this.can_trade(old(inner), 2),
            found matches Some(n) ==> n < this.borrow.len,
        ensures
            match found {
                Some(n) => {
                    &&& cut.0 == Ref::<T, [B], Span<P>>::through(this.ptr.index, this.borrow.part(0, n as int))
                    &&& cut.1 == Some(
                        Ref::<T, [B], Span<P>>::through(
                            this.ptr.index,
                            this.borrow.part(n + 1, this.borrow.len - n - 1),
                        ),
                    )
                    &&& final(inner).traded_from(*old(inner), this.ptr.index, 2)
                },
                None => cut == (this, None::<Ref<T, [B], Span<P>>>) && *final(inner) == *old(inner),
            },
    {
        match found {
            Some(n) => {
                let ghost before = *inner;
                let ghost index = this.ptr.index;
                let (head, tail) = Ref::split_at(this, inner, n);
                proof {
                    let strong = before.graph@.branches[index].strong;
                    crate::tuple::lemma_with_strong(before.graph@, index, strong + 1, strong + 1);
                }
                (head, Ref::skip_first(tail, inner))
            },
            None => (this, None),
        }
    }

    /// Runs of elements of which `f` holds from each to the next.
    pub fn chunk_by<F: FnMut(&B, &B) -> bool>(this: Self, f: F) -> (chunks: ChunkBy<T, B, P, F>)
        ensures
            chunks.rf == Some(this),
            chunks.f == f,
    {
        ChunkBy { rf: Some(this), f }
    }

    /// Runs of `size` elements. The last may be shorter.
    pub fn chunks(this: Self, size: usize) -> (chunks: Chunks<T, B, P>)
        ensures
            chunks.rf == Some(this),
            chunks.n == size,
    {
        Chunks { rf: Some(this), n: size }
    }

    /// The runs between the elements of which `f` holds.
    pub fn split<F: FnMut(&B) -> bool>(this: Self, f: F) -> (runs: Split<T, B, P, F>)
        ensures
            runs.rf == Some(this),
            runs.f == f,
    {
        Split { rf: Some(this), f }
    }

    /// The runs that end with the elements of which `f` holds.
    pub fn split_inclusive<F: FnMut(&B) -> bool>(this: Self, f: F) -> (runs: SplitInclusive<
        T,
        B,
        P,
        F,
    >)
        ensures
            runs.rf == Some(this),
            runs.f == f,
    {
        SplitInclusive { rf: Some(this), f }
    }

    /// All runs of `size` elements.
    pub fn windows(this: Self, size: usize) -> (windows: Windows<T, B, P>)
        ensures
            windows.rf == Some(this),
            windows.n == size,
    {
        Windows { rf: Some(this), n: size }
    }
}

/// References to runs of elements of which `f` holds from each to the next.
pub struct ChunkBy<T, B, P, F: FnMut(&B, &B) -> bool> {
    /// The elements that are left.
    pub rf: Option<Ref<T, [B], Span<P>>>,
    /// Whether two elements belong together.
    pub f: F,
}

/// References to runs of a given number of elements.
pub struct Chunks<T, B, P> {
    /// The elements that are left.
    pub rf: Option<Ref<T, [B], Span<P>>>,
    /// The number of elements.
    pub n: usize,
}

/// References to runs of elements that end with one of which `f` holds.
pub struct SplitInclusive<T, B, P, F: FnMut(&B) -> bool> {
    /// The elements that are left.
    pub rf: Option<Ref<T, [B], Span<P>>>,
    /// Whether a run ends with an element.
    pub f: F,
}

/// References to the runs between elements of which `f` holds.
pub struct Split<T, B, P, F: FnMut(&B) -> bool> {
    /// The elements that are left.
    pub rf: Option<Ref<T, [B], Span<P>>>,
    /// Whether an element ends a run.
    pub f: F,
}

/// References to all runs of a given number of elements.
pub struct Windows<T, B, P> {
    /// The elements that are left.
    pub rf: Option<Ref<T, [B], Span<P>>>,
    /// The number of elements.
    pub n: usize,
}

impl<T, B: 'static, P: Place<T, Target = Vec<B>>> Ref<T, [B], Span<P>> {
    /// Whether the value has the elements.
    pub open spec fn in_bounds(&self, inner: &BorrowInner<T>) -> bool {
        inner.holds(self.ptr.index) && self.borrow.valid::<T, B>(inner.data->0)
    }

    /// The elements.
    pub open spec fn elems(&self, inner: &BorrowInner<T>) -> Seq<B> {
        self.borrow.at::<T, B>(inner.data->0)
    }

    /// The elements.
    pub fn as_slice<'a>(&self, inner: &'a BorrowInner<T>) -> (elems: &'a [B])
        requires
            self.in_bounds(inner),
        ensures
            elems@ == self.elems(inner),
            elems@.len() == self.borrow.len,
    {
        proof {
            inner.lemma_holds(self.ptr.index);
        }
        self.borrow.get(self.ptr.shared.get_ref(inner))
    }
}

impl<T, B, P: Copy> Chunks<T, B, P> {
    /// The next run: as many elements as are asked for, or all that are left.
    pub fn next(&mut self, inner: &mut BorrowInner<T>) -> (next: Option<Ref<T, [B], Span<P>>>)
        requires
            old(self).rf is Some ==> (old(self).rf->0).can_trade(old(inner), 2),
        ensures
            final(self).n == old(self).n,
            match old(self).rf {
                None => next is None && final(self).rf is None && *final(inner) == *old(inner),
                Some(rf) => {
                    let (n, len) = (old(self).n, rf.borrow.len);
                    if n >= len {
                        next == Some(rf) && final(self).rf is None && *final(inner) == *old(inner)
                    } else {
                        &&& next == Some(
                            Ref::<T, [B], Span<P>>::through(
                                rf.ptr.index,
                                rf.borrow.part(0, n as int),
                            ),
                        )
                        &&& final(self).rf == Some(
                            Ref::<T, [B], Span<P>>::through(
                                rf.ptr.index,
                                rf.borrow.part(n as int, len - n),
                            ),
                        )
                        &&& final(inner).traded_from(*old(inner), rf.ptr.index, 2)
                    }
                },
            },
    {
        match self.rf.take() {
            Some(rf) => {
                if self.n >= rf.borrow.len {
                    return Some(rf);
                }
                let (head, tail) = Ref::split_at(rf, inner, self.n);
                self.rf = Some(tail);
                Some(head)
            },
            None => None,
        }
    }
}

impl<T, B, P: Copy> Windows<T, B, P> {
    /// The next run: as many elements as are asked for, from one element further on. If fewer are
    /// left, the reference to them is given back.
    pub fn next(&mut self, inner: &mut BorrowInner<T>) -> (next: Option<Ref<T, [B], Span<P>>>)
        requires
            old(self).rf is Some ==> (old(self).rf->0).can_trade(old(inner), 2),
        ensures
            final(self).n == old(self).n,
            match old(self).rf {
                None => next is None && final(self).rf is None && *final(inner) == *old(inner),
                Some(rf) => {
                    let (n, len) = (old(self).n, rf.borrow.len);
                    if n > len {
                        &&& next is None
                        &&& final(self).rf is None
                        &&& final(inner).released_from(*old(inner), rf.ptr.index)
                    } else {
                        &&& next == Some(
                            Ref::<T, [B], Span<P>>::through(
                                rf.ptr.index,
                                rf.borrow.part(0, n as int),
                            ),
                        )
                        &&& len == 0 ==> {
                            &&& final(self).rf is None
                            &&& final(inner).traded_from(*old(inner), rf.ptr.index, 1)
                        }
                        &&& len > 0 ==> {
                            &&& final(self).rf == Some(
                                Ref::<T, [B], Span<P>>::through(
                                    rf.ptr.index,
                                    rf.borrow.part(1, len - 1),
                                ),
                            )
                            &&& final(inner).traded_from(*old(inner), rf.ptr.index, 2)
                        }
                    }
                },
            },
    {
        match self.rf.take() {
            Some(rf) => {
                let ghost before = *inner;
                let ghost index = rf.ptr.index;
                let ghost strong = before.graph@.branches[index].strong;
                let copy = rf.clone(inner);
                proof {
                    crate::tuple::lemma_with_strong(before.graph@, index, strong + 1, strong as int);
                    crate::tuple::lemma_with_strong(
                        before.graph@,
                        index,
                        strong + 1,
                        strong + 1,
                    );
                    crate::tuple::lemma_with_same_strong(before.graph@, index);
                }
                match Ref::range(copy, inner, 0..self.n) {
                    Some(elems) => {
                        self.rf = Ref::skip_first(rf, inner);
                        Some(elems)
                    },
                    None => {
                        rf.release(inner);
                        None
                    },
                }
            },
            None => None,
        }
    }
}

impl<T, B: 'static, P: Place<T, Target = Vec<B>>, F: FnMut(&B, &B) -> bool> ChunkBy<T, B, P, F> {
    /// The next run: as long as `f` holds from each element to the next.
    pub fn next(&mut self, inner: &mut BorrowInner<T>) -> (next: Option<Ref<T, [B], Span<P>>>)
        requires
            old(self).rf matches Some(rf) ==> {
                &&& rf.can_trade(old(inner), 2)
                &&& rf.in_bounds(old(inner))
                &&& forall|i: int, j: int|
                    #![trigger rf.elems(old(inner))[i], rf.elems(old(inner))[j]]
                    0 <= i < rf.borrow.len - 1 && j == i + 1 ==> call_requires(
                        old(self).f,
                        (&rf.elems(old(inner))[i], &rf.elems(old(inner))[j]),
                    )
            },
        ensures
            final(self).f == old(self).f,
            match old(self).rf {
                None => next is None && final(self).rf is None && *final(inner) == *old(inner),
                Some(rf) => {
                    let elems = rf.elems(old(inner));
                    let n = (next->0).borrow.len;
                    &&& next is Some
                    &&& n <= elems.len()
                    &&& forall|i: int, j: int|
                        #![trigger elems[i], elems[j]]
                        0 <= i < n - 1 && j == i + 1 ==> call_ensures(
                            old(self).f,
                            (&elems[i], &elems[j]),
                            true,
                        )
                    &&& n == elems.len() ==> {
                        &&& next == Some(rf)
                        &&& final(self).rf is None
                        &&& *final(inner) == *old(inner)
                    }
                    &&& n < elems.len() ==> {
                        &&& n > 0
                        &&& call_ensures(old(self).f, (&elems[n - 1], &elems[n as int]), false)
                        &&& next == Some(
                            Ref::<T, [B], Span<P>>::through(
                                rf.ptr.index,
                                rf.borrow.part(0, n as int),
                            ),
                        )
                        &&& final(self).rf == Some(
                            Ref::<T, [B], Span<P>>::through(
                                rf.ptr.index,
                                rf.borrow.part(n as int, elems.len() - n),
                            ),
                        )
                        &&& final(inner).traded_from(*old(inner), rf.ptr.index, 2)
                    }
                },
            },
    {
        match self.rf.take() {
            Some(rf) => {
                let ghost all = rf.elems(inner);
                let elems = rf.as_slice(inner);
                let len: usize = rf.borrow.len;
                let mut n: usize = 1;
                let mut ends: bool = false;
                while n < len && !ends
                    invariant
                        1 <= n,
                        ends ==> n < len && call_ensures(
                            self.f,
                            (&all[n - 1], &all[n as int]),
                            false,
                        ),
                        elems@ == all,
                        all.len() == len,
                        self.f == old(self).f,
                        self.rf is None,
                        forall|i: int, j: int|
                            #![trigger all[i], all[j]]
                            0 <= i < len - 1 && j == i + 1 ==> call_requires(
                                self.f,
                                (&all[i], &all[j]),
                            ),
                        forall|i: int, j: int|
                            #![trigger all[i], all[j]]
                            0 <= i < n - 1 && j == i + 1 ==> call_ensures(
                                self.f,
                                (&all[i], &all[j]),
                                true,
                            ),
                    decreases
                            len - n,
                            (if ends {
                                0int
                            } else {
                                1
                            }),
                {
                    assert(all[n - 1] == elems@[n - 1] && all[n as int] == elems@[n as int]);
                    if (self.f)(&elems[n - 1], &elems[n]) {
                        n += 1;
                    } else {
                        ends = true;
                    }
                }
                let found: Option<usize> = if ends {
                    Some(n)
                } else {
                    None
                };
                let (run, rest) = Ref::cut_before(rf, inner, found);
                self.rf = rest;
                Some(run)
            },
            None => None,
        }
    }
}

impl<T, B: 'static, P: Place<T, Target = Vec<B>>, F: FnMut(&B) -> bool> SplitInclusive<T, B, P, F> {
    /// The next run: up to and with the first element of which `f` holds.
    pub fn next(&mut self, inner: &mut BorrowInner<T>) -> (next: Option<Ref<T, [B], Span<P>>>)
        requires
            old(self).rf matches Some(rf) ==> {
                &&& rf.can_trade(old(inner), 2)
                &&& rf.in_bounds(old(inner))
                &&& forall|i: int|
                    0 <= i < rf.borrow.len ==> call_requires(
                        old(self).f,
                        (&#[trigger] rf.elems(old(inner))[i],),
                    )
            },
        ensures
            final(self).f == old(self).f,
            match old(self).rf {
                None => next is None && final(self).rf is None && *final(inner) == *old(inner),
                Some(rf) => {
                    let elems = rf.elems(old(inner));
                    let n = (next->0).borrow.len;
                    &&& next is Some
                    &&& n <= elems.len()
                    &&& final(self).rf is None ==> {
                        &&& next == Some(rf)
                        &&& forall|i: int|
                            0 <= i < n ==> call_ensures(
                                old(self).f,
                                (&#[trigger] elems[i],),
                                false,
                            )
                        &&& *final(inner) == *old(inner)
                    }
                    &&& final(self).rf is Some ==> {
                        &&& n > 0
                        &&& forall|i: int|
                            0 <= i < n ==> call_ensures(
                                old(self).f,
                                (&#[trigger] elems[i],),
                                i == n - 1,
                            )
                        &&& next == Some(
                            Ref::<T, [B], Span<P>>::through(
                                rf.ptr.index,
                                rf.borrow.part(0, n as int),
                            ),
                        )
                        &&& final(self).rf == Some(
                            Ref::<T, [B], Span<P>>::through(
                                rf.ptr.index,
                                rf.borrow.part(n as int, elems.len() - n),
                            ),
                        )
                        &&& final(inner).traded_from(*old(inner), rf.ptr.index, 2)
                    }
                },
            },
    {
        match self.rf.take() {
            Some(rf) => {
                let ghost all = rf.elems(inner);
                let elems = rf.as_slice(inner);
                let len: usize = rf.borrow.len;
                let mut n: usize = 0;
                let mut ends: bool = false;
                while n < len && !ends
                    invariant
                        n <= len,
                        ends ==> n < len && call_ensures(self.f, (&all[n as int],), true),
                        elems@ == all,
                        all.len() == len,
                        self.f == old(self).f,
                        self.rf is None,
                        forall|i: int|
                            0 <= i < len ==> call_requires(self.f, (&#[trigger] all[i],)),
                        forall|i: int|
                            0 <= i < n ==> call_ensures(self.f, (&#[trigger] all[i],), false),
                    decreases
                            len - n,
                            (if ends {
                                0int
                            } else {
                                1
                            }),
                {
                    assert(all[n as int] == elems@[n as int]);
                    if (self.f)(&elems[n]) {
                        ends = true;
                    } else {
                        n += 1;
                    }
                }
                let found: Option<usize> = if ends {
                    Some(n)
                } else {
                    None
                };
                let (run, rest) = Ref::cut_after(rf, inner, found);
                self.rf = rest;
                Some(run)
            },
            None => None,
        }
    }
}

impl<T, B: 'static, P: Place<T, Target = Vec<B>>, F: FnMut(&B) -> bool> Split<T, B, P, F> {
    /// The next run: up to the first element of which `f` holds, which is skipped.
    pub fn next(&mut self, inner: &mut BorrowInner<T>) -> (next: Option<Ref<T, [B], Span<P>>>)
        requires
            old(self).rf matches Some(rf) ==> {
                &&& rf.can_trade(old(inner), 2)
                &&& rf.in_bounds(old(inner))
                &&& forall|i: int|
                    0 <= i < rf.borrow.len ==> call_requires(
                        old(self).f,
                        (&#[trigger] rf.elems(old(inner))[i],),
                    )
            },
        ensures
            final(self).f == old(self).f,
            match old(self).rf {
                None => next is None && final(self).rf is None && *final(inner) == *old(inner),
                Some(rf) => {
                    let elems = rf.elems(old(inner));
                    let n = (next->0).borrow.len;
                    &&& next is Some
                    &&& n <= elems.len()
                    &&& forall|i: int|
                        0 <= i < n ==> call_ensures(old(self).f, (&#[trigger] elems[i],), false)
                    &&& n == elems.len() ==> {
                        &&& next == Some(rf)
                        &&& final(self).rf is None
                        &&& *final(inner) == *old(inner)
                    }
                    &&& n < elems.len() ==> {
                        &&& call_ensures(old(self).f, (&elems[n as int],), true)
                        &&& next == Some(
                            Ref::<T, [B], Span<P>>::through(
                                rf.ptr.index,
                                rf.borrow.part(0, n as int),
                            ),
                        )
                        &&& final(self).rf == Some(
                            Ref::<T, [B], Span<P>>::through(
                                rf.ptr.index,
                                rf.borrow.part(n + 1, elems.len() - n - 1),
                            ),
                        )
                        &&& final(inner).traded_from(*old(inner), rf.ptr.index, 2)
                    }
                },
            },
    {
        match self.rf.take() {
            Some(rf) => {
                let ghost all = rf.elems(inner);
                let elems = rf.as_slice(inner);
                let len: usize = rf.borrow.len;
                let mut n: usize = 0;
                let mut ends: bool = false;
                while n < len && !ends
                    invariant
                        n <= len,
                        ends ==> n < len && call_ensures(self.f, (&all[n as int],), true),
                        elems@ == all,
                        all.len() == len,
                        self.f == old(self).f,
                        self.rf is None,
                        forall|i: int|
                            0 <= i < len ==> call_requires(self.f, (&#[trigger] all[i],)),
                        forall|i: int|
                            0 <= i < n ==> call_ensures(self.f, (&#[trigger] all[i],), false),
                    decreases
                            len - n,
                            (if ends {
                                0int
                            } else {
                                1
                            }),
                {
                    assert(all[n as int] == elems@[n as int]);
                    if (self.f)(&elems[n]) {
                        ends = true;
                    } else {
                        n += 1;
                    }
                }
                let found: Option<usize> = if ends {
                    Some(n)
                } else {
                    None
                };
                let (run, rest) = Ref::cut_around(rf, inner, found);
                self.rf = rest;
                Some(run)
            },
            None => None,
        }
    }
}

/// An element of a run is the element at its place.
pub proof fn law_element_of_run<T, E: 'static, P: Place<T, Target = Vec<E>>>(
    span: Span<P>,
    value: T,
    index: usize,
)
    requires
        span.bounded(),
        span.valid::<T, E>(value),
        index < span.len,
    ensures
        span.elem(index).valid(value),
        span.elem(index).at(value) == span.at::<T, E>(value)[index as int],
{
}

/// Splitting a run loses no element: the elements of the two parts are those of the run, in order.
pub proof fn law_split_covers<T, E: 'static, P: Place<T, Target = Vec<E>>>(
    span: Span<P>,
    value: T,
    mid: usize,
)
    requires
        span.bounded(),
        span.valid::<T, E>(value),
        mid <= span.len,
    ensures
        span.part(0, mid as int).valid::<T, E>(value),
        span.part(mid as int, span.len - mid).valid::<T, E>(value),
        span.part(0, mid as int).at::<T, E>(value) + span.part(mid as int, span.len - mid).at::<
            T,
            E,
        >(value) == span.at::<T, E>(value),
{
    assert(span.part(0, mid as int).at::<T, E>(value) + span.part(mid as int, span.len - mid).at::<
        T,
        E,
    >(value) =~= span.at::<T, E>(value));
}

/// The parts of a run that is split do not overlap: changing the one leaves the other as it was.
pub proof fn law_split_is_disjoint<T, E: 'static, P: Place<T, Target = Vec<E>>>(
    span: Span<P>,
    before: T,
    after: T,
    mid: usize,
)
    requires
        span.bounded(),
        span.valid::<T, E>(before),
        mid <= span.len,
    ensures
        span.part(0, mid as int).only::<T, E>(before, after) ==> span.part(
            mid as int,
            span.len - mid,
        ).at::<T, E>(after) == span.part(mid as int, span.len - mid).at::<T, E>(before),
        span.part(mid as int, span.len - mid).only::<T, E>(before, after) ==> span.part(
            0,
            mid as int,
        ).at::<T, E>(after) == span.part(0, mid as int).at::<T, E>(before),
{
    let (head, tail) = (span.part(0, mid as int), span.part(mid as int, span.len - mid));
    let (old_elems, new_elems) = (span.base.at(before)@, span.base.at(after)@);
    if head.only::<T, E>(before, after) {
        assert forall|i: int| 0 <= i < tail.len implies tail.at::<T, E>(after)[i] == tail.at::<
            T,
            E,
        >(before)[i] by {
            assert(new_elems.skip(span.start + mid)[i] == old_elems.skip(span.start + mid)[i]);
        }
        assert(tail.at::<T, E>(after) =~= tail.at::<T, E>(before));
    }
    if tail.only::<T, E>(before, after) {
        assert forall|i: int| 0 <= i < head.len implies head.at::<T, E>(after)[i] == head.at::<
            T,
            E,
        >(before)[i] by {
            let at = span.start + i;
            assert(new_elems.take(span.start + mid)[at] == old_elems.take(span.start + mid)[at]);
        }
        assert(head.at::<T, E>(after) =~= head.at::<T, E>(before));
    }
}

} // verus!
