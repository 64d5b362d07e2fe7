//! Taking tuples apart.
//!
//! A reference to a tuple can be traded for references to its components.
use vstd::prelude::*;
use crate::graph::END;
use crate::graph::model::GraphView;
use crate::inner::BorrowInner;
use crate::place::{Field, Place};
use crate::pointers::{Context, Ref, RefMut};

pub mod calls;

verus! {

/// Setting a count twice is setting it once.
pub proof fn lemma_with_strong(g: GraphView, index: usize, first: int, second: int)
    ensures
        g.with_strong(index, first).with_strong(index, second) == g.with_strong(index, second),
{
    assert(g.with_strong(index, first).with_strong(index, second).branches =~= g.with_strong(
        index,
        second,
    ).branches);
}

/// Setting a count to what it is changes nothing.
pub proof fn lemma_with_same_strong(g: GraphView, index: usize)
    requires
        g.live(index),
    ensures
        g.with_strong(index, g.branches[index].strong as int) == g,
{
    assert(g.with_strong(index, g.branches[index].strong as int).branches =~= g.branches);
}

impl<T> BorrowInner<T> {
    /// Whether a borrow pointer to `index` can be cloned `count` times.
    pub open spec fn can_clone_times(&self, index: usize, count: int) -> bool {
        &&& self.holds(index)
        &&& index != END
        &&& self.graph@.branches[index].strong + count <= usize::MAX
        &&& self.weak + count <= usize::MAX
    }

    /// Whether a borrow pointer to `index` was traded for `count` of them.
    pub open spec fn traded_from(&self, before: BorrowInner<T>, index: usize, count: int) -> bool {
        &&& self.holds(index)
        &&& self.graph@ == before.graph@.with_strong(
            index,
            before.graph@.branches[index].strong + count - 1,
        )
        &&& self.graph@.borrows(index) == before.graph@.borrows(index) + count - 1
        &&& self.data == before.data
        &&& self.weak == before.weak + count - 1
    }

    /// Letting go of the pointer that was cloned `count` times completes the trade.
    pub proof fn lemma_traded(self, before: BorrowInner<T>, index: usize, count: int)
        requires
            before.can_clone_times(index, count),
            count >= 1,
            self.wf(),
            self.weak == before.weak + count - 1,
            self.data == before.data,
            self.graph@ == before.graph@.with_strong(
                index,
                before.graph@.branches[index].strong + count,
            ).untracked(index).0,
        ensures
            self.traded_from(before, index, count),
    {
        let strong = before.graph@.branches[index].strong;
        lemma_with_strong(before.graph@, index, strong + count, strong + count - 1);
        let branch = crate::graph::model::BranchView {
            strong: (strong + count - 1) as usize,
            ..before.graph@.branches[index]
        };
        crate::graph::model::lemma_with_branch_children(before.graph@, index, branch);
        assert(self.graph@.children(index) == before.graph@.children(index));
    }
}

impl<T, P> Ref<T, (), P> {
    /// Trades the reference for nothing: it is given back.
    pub fn destructure(self, inner: &mut BorrowInner<T>)
        requires
            self.valid(old(inner)),
        ensures
            final(inner).wf(),
            final(inner).settled_from(*old(inner), old(inner).graph@.untracked(self.ptr.index)),
            final(inner).weak == old(inner).weak - 1,
    {
        let context = Context { ptr: self.ptr };
        context.release(inner);
    }
}

impl<T, B0, P: Copy> Ref<T, (B0,), P> {
    /// Trades the reference for one to the component.
    pub fn destructure(self, inner: &mut BorrowInner<T>) -> (parts: (
        Ref<T, B0, Field<P, 0>>,
    ))
        requires
            old(inner).can_clone_times(self.ptr.index, 1),
        ensures
            parts.0 == Ref::<T, B0, Field<P, 0>>::through(
                self.ptr.index,
                Field { base: self.borrow },
            ),
            final(inner).traded_from(*old(inner), self.ptr.index, 1),
    {
        let ghost before = *inner;
        let ghost index = self.ptr.index;
        let ghost strong = before.graph@.branches[index].strong;
        let context = Context { ptr: self.ptr };
        let b0 = context.lift_ref(inner, Field { base: self.borrow });
        context.release(inner);
        proof {
            inner.lemma_traded(before, index, 1);
        }
        (b0,)
    }
}

impl<T, B0, B1, P: Copy> Ref<T, (B0, B1), P> {
    /// Trades the reference for one to each component.
    pub fn destructure(self, inner: &mut BorrowInner<T>) -> (parts: (
        Ref<T, B0, Field<P, 0>>,
        Ref<T, B1, Field<P, 1>>,
    ))
        requires
            old(inner).can_clone_times(self.ptr.index, 2),
        ensures
            parts.0 == Ref::<T, B0, Field<P, 0>>::through(
                self.ptr.index,
                Field { base: self.borrow },
            ),
            parts.1 == Ref::<T, B1, Field<P, 1>>::through(
                self.ptr.index,
                Field { base: self.borrow },
            ),
            final(inner).traded_from(*old(inner), self.ptr.index, 2),
    {
        let ghost before = *inner;
        let ghost index = self.ptr.index;
        let ghost strong = before.graph@.branches[index].strong;
        let context = Context { ptr: self.ptr };
        let b0 = context.lift_ref(inner, Field { base: self.borrow });
        let b1 = context.lift_ref(inner, Field { base: self.borrow });
        proof {
            lemma_with_strong(before.graph@, index, strong + 1, strong + 2);
        }
        context.release(inner);
        proof {
            inner.lemma_traded(before, index, 2);
        }
        (b0, b1)
    }
}

impl<T, B0, B1, B2, P: Copy> Ref<T, (B0, B1, B2), P> {
    /// Trades the reference for one to each component.
    pub fn destructure(self, inner: &mut BorrowInner<T>) -> (parts: (
        Ref<T, B0, Field<P, 0>>,
        Ref<T, B1, Field<P, 1>>,
        Ref<T, B2, Field<P, 2>>,
    ))
        requires
            old(inner).can_clone_times(self.ptr.index, 3),
        ensures
            parts.0 == Ref::<T, B0, Field<P, 0>>::through(
                self.ptr.index,
                Field { base: self.borrow },
            ),
            parts.1 == Ref::<T, B1, Field<P, 1>>::through(
                self.ptr.index,
                Field { base: self.borrow },
            ),
            parts.2 == Ref::<T, B2, Field<P, 2>>::through(
                self.ptr.index,
                Field { base: self.borrow },
            ),
            final(inner).traded_from(*old(inner), self.ptr.index, 3),
    {
        let ghost before = *inner;
        let ghost index = self.ptr.index;
        let ghost strong = before.graph@.branches[index].strong;
        let context = Context { ptr: self.ptr };
        let b0 = context.lift_ref(inner, Field { base: self.borrow });
        let b1 = context.lift_ref(inner, Field { base: self.borrow });
        proof {
            lemma_with_strong(before.graph@, index, strong + 1, strong + 2);
        }
        let b2 = context.lift_ref(inner, Field { base: self.borrow });
        proof {
            lemma_with_strong(before.graph@, index, strong + 2, strong + 3);
        }
        context.release(inner);
        proof {
            inner.lemma_traded(before, index, 3);
        }
        (b0, b1, b2)
    }
}

impl<T, B0, B1, B2, B3, P: Copy> Ref<T, (B0, B1, B2, B3), P> {
    /// Trades the reference for one to each component.
    pub fn destructure(self, inner: &mut BorrowInner<T>) -> (parts: (
        Ref<T, B0, Field<P, 0>>,
        Ref<T, B1, Field<P, 1>>,
        Ref<T, B2, Field<P, 2>>,
        Ref<T, B3, Field<P, 3>>,
    ))
        requires
            old(inner).can_clone_times(self.ptr.index, 4),
        ensures
            parts.0 == Ref::<T, B0, Field<P, 0>>::through(
                self.ptr.index,
                Field { base: self.borrow },
            ),
            parts.1 == Ref::<T, B1, Field<P, 1>>::through(
                self.ptr.index,
                Field { base: self.borrow },
            ),
            parts.2 == Ref::<T, B2, Field<P, 2>>::through(
                self.ptr.index,
                Field { base: self.borrow },
            ),
            parts.3 == Ref::<T, B3, Field<P, 3>>::through(
                self.ptr.index,
                Field { base: self.borrow },
            ),
            final(inner).traded_from(*old(inner), self.ptr.index, 4),
    {
        let ghost before = *inner;
        let ghost index = self.ptr.index;
        let ghost strong = before.graph@.branches[index].strong;
        let context = Context { ptr: self.ptr };
        let b0 = context.lift_ref(inner, Field { base: self.borrow });
        let b1 = context.lift_ref(inner, Field { base: self.borrow });
        proof {
            lemma_with_strong(before.graph@, index, strong + 1, strong + 2);
        }
        let b2 = context.lift_ref(inner, Field { base: self.borrow });
        proof {
            lemma_with_strong(before.graph@, index, strong + 2, strong + 3);
        }
        let b3 = context.lift_ref(inner, Field { base: self.borrow });
        proof {
            lemma_with_strong(before.graph@, index, strong + 3, strong + 4);
        }
        context.release(inner);
        proof {
            inner.lemma_traded(before, index, 4);
        }
        (b0, b1, b2, b3)
    }
}

impl<T, P> RefMut<T, (), P> {
    /// Trades the reference for nothing: it is given back.
    pub fn destructure(self, inner: &mut BorrowInner<T>)
        requires
            self.valid(old(inner)),
        ensures
            final(inner).wf(),
            final(inner).settled_from(*old(inner), old(inner).graph@.untracked(self.ptr.index)),
            final(inner).weak == old(inner).weak - 1,
    {
        let context = Context { ptr: self.ptr };
        context.release(inner);
    }
}

impl<T, B0, P: Copy> RefMut<T, (B0,), P> {
    /// Trades the reference for one to the component.
    pub fn destructure(self, inner: &mut BorrowInner<T>) -> (parts: (
        RefMut<T, B0, Field<P, 0>>,
    ))
        requires
            old(inner).can_clone_times(self.ptr.index, 1),
        ensures
            parts.0 == RefMut::<T, B0, Field<P, 0>>::through(
                self.ptr.index,
                Field { base: self.borrow },
            ),
            final(inner).traded_from(*old(inner), self.ptr.index, 1),
    {
        let ghost before = *inner;
        let ghost index = self.ptr.index;
        let ghost strong = before.graph@.branches[index].strong;
        let context = Context { ptr: self.ptr };
        let b0 = context.lift_mut(inner, Field { base: self.borrow });
        context.release(inner);
        proof {
            inner.lemma_traded(before, index, 1);
        }
        (b0,)
    }
}

impl<T, B0, B1, P: Copy> RefMut<T, (B0, B1), P> {
    /// Trades the reference for one to each component.
    pub fn destructure(self, inner: &mut BorrowInner<T>) -> (parts: (
        RefMut<T, B0, Field<P, 0>>,
        RefMut<T, B1, Field<P, 1>>,
    ))
        requires
            old(inner).can_clone_times(self.ptr.index, 2),
        ensures
            parts.0 == RefMut::<T, B0, Field<P, 0>>::through(
                self.ptr.index,
                Field { base: self.borrow },
            ),
            parts.1 == RefMut::<T, B1, Field<P, 1>>::through(
                self.ptr.index,
                Field { base: self.borrow },
            ),
            final(inner).traded_from(*old(inner), self.ptr.index, 2),
    {
        let ghost before = *inner;
        let ghost index = self.ptr.index;
        let ghost strong = before.graph@.branches[index].strong;
        let context = Context { ptr: self.ptr };
        let b0 = context.lift_mut(inner, Field { base: self.borrow });
        let b1 = context.lift_mut(inner, Field { base: self.borrow });
        proof {
            lemma_with_strong(before.graph@, index, strong + 1, strong + 2);
        }
        context.release(inner);
        proof {
            inner.lemma_traded(before, index, 2);
        }
        (b0, b1)
    }
}

impl<T, B0, B1, B2, P: Copy> RefMut<T, (B0, B1, B2), P> {
    /// Trades the reference for one to each component.
    pub fn destructure(self, inner: &mut BorrowInner<T>) -> (parts: (
        RefMut<T, B0, Field<P, 0>>,
        RefMut<T, B1, Field<P, 1>>,
        RefMut<T, B2, Field<P, 2>>,
    ))
        requires
            old(inner).can_clone_times(self.ptr.index, 3),
        ensures
            parts.0 == RefMut::<T, B0, Field<P, 0>>::through(
                self.ptr.index,
                Field { base: self.borrow },
            ),
            parts.1 == RefMut::<T, B1, Field<P, 1>>::through(
                self.ptr.index,
                Field { base: self.borrow },
            ),
            parts.2 == RefMut::<T, B2, Field<P, 2>>::through(
                self.ptr.index,
                Field { base: self.borrow },
            ),
            final(inner).traded_from(*old(inner), self.ptr.index, 3),
    {
        let ghost before = *inner;
        let ghost index = self.ptr.index;
        let ghost strong = before.graph@.branches[index].strong;
        let context = Context { ptr: self.ptr };
        let b0 = context.lift_mut(inner, Field { base: self.borrow });
        let b1 = context.lift_mut(inner, Field { base: self.borrow });
        proof {
            lemma_with_strong(before.graph@, index, strong + 1, strong + 2);
        }
        let b2 = context.lift_mut(inner, Field { base: self.borrow });
        proof {
            lemma_with_strong(before.graph@, index, strong + 2, strong + 3);
        }
        context.release(inner);
        proof {
            inner.lemma_traded(before, index, 3);
        }
        (b0, b1, b2)
    }
}

impl<T, B0, B1, B2, B3, P: Copy> RefMut<T, (B0, B1, B2, B3), P> {
    /// Trades the reference for one to each component.
    pub fn destructure(self, inner: &mut BorrowInner<T>) -> (parts: (
        RefMut<T, B0, Field<P, 0>>,
        RefMut<T, B1, Field<P, 1>>,
        RefMut<T, B2, Field<P, 2>>,
        RefMut<T, B3, Field<P, 3>>,
    ))
        requires
            old(inner).can_clone_times(self.ptr.index, 4),
        ensures
            parts.0 == RefMut::<T, B0, Field<P, 0>>::through(
                self.ptr.index,
                Field { base: self.borrow },
            ),
            parts.1 == RefMut::<T, B1, Field<P, 1>>::through(
                self.ptr.index,
                Field { base: self.borrow },
            ),
            parts.2 == RefMut::<T, B2, Field<P, 2>>::through(
                self.ptr.index,
                Field { base: self.borrow },
            ),
            parts.3 == RefMut::<T, B3, Field<P, 3>>::through(
                self.ptr.index,
                Field { base: self.borrow },
            ),
            final(inner).traded_from(*old(inner), self.ptr.index, 4),
    {
        let ghost before = *inner;
        let ghost index = self.ptr.index;
        let ghost strong = before.graph@.branches[index].strong;
        let context = Context { ptr: self.ptr };
        let b0 = context.lift_mut(inner, Field { base: self.borrow });
        let b1 = context.lift_mut(inner, Field { base: self.borrow });
        proof {
            lemma_with_strong(before.graph@, index, strong + 1, strong + 2);
        }
        let b2 = context.lift_mut(inner, Field { base: self.borrow });
        proof {
            lemma_with_strong(before.graph@, index, strong + 2, strong + 3);
        }
        let b3 = context.lift_mut(inner, Field { base: self.borrow });
        proof {
            lemma_with_strong(before.graph@, index, strong + 3, strong + 4);
        }
        context.release(inner);
        proof {
            inner.lemma_traded(before, index, 4);
        }
        (b0, b1, b2, b3)
    }
}

/// The components of a pair do not overlap: changing the one leaves the other as it was.
pub proof fn law_components_are_disjoint<T, A: 'static, B: 'static, P: Place<T, Target = (A, B)>>(
    base: P,
    before: T,
    after: T,
)
    ensures
        ({
            let first = Field::<P, 0> { base };
            let second = Field::<P, 1> { base };
            &&& first.only(before, after) ==> second.at(after) == second.at(before)
            &&& second.only(before, after) ==> first.at(after) == first.at(before)
        }),
{
}

/// The components of a triple do not overlap: changing one leaves the others as they were.
pub proof fn law_components_of_triple_are_disjoint<
    T,
    A: 'static,
    B: 'static,
    C: 'static,
    P: Place<T, Target = (A, B, C)>,
>(base: P, before: T, after: T)
    ensures
        ({
            let first = Field::<P, 0> { base };
            let second = Field::<P, 1> { base };
            let third = Field::<P, 2> { base };
            &&& first.only(before, after) ==> {
                &&& second.at(after) == second.at(before)
                &&& third.at(after) == third.at(before)
            }
            &&& second.only(before, after) ==> {
                &&& first.at(after) == first.at(before)
                &&& third.at(after) == third.at(before)
            }
            &&& third.only(before, after) ==> {
                &&& first.at(after) == first.at(before)
                &&& second.at(after) == second.at(before)
            }
        }),
{
}

/// The components of a quadruple do not overlap: changing one leaves the others as they were.
pub proof fn law_components_of_quadruple_are_disjoint<
    T,
    A: 'static,
    B: 'static,
    C: 'static,
    D: 'static,
    P: Place<T, Target = (A, B, C, D)>,
>(base: P, before: T, after: T)
    ensures
        ({
            let first = Field::<P, 0> { base };
            let second = Field::<P, 1> { base };
            let third = Field::<P, 2> { base };
            let fourth = Field::<P, 3> { base };
            &&& first.only(before, after) ==> {
                &&& second.at(after) == second.at(before)
                &&& third.at(after) == third.at(before)
                &&& fourth.at(after) == fourth.at(before)
            }
            &&& second.only(before, after) ==> {
                &&& first.at(after) == first.at(before)
                &&& third.at(after) == third.at(before)
                &&& fourth.at(after) == fourth.at(before)
            }
            &&& third.only(before, after) ==> {
                &&& first.at(after) == first.at(before)
                &&& second.at(after) == second.at(before)
                &&& fourth.at(after) == fourth.at(before)
            }
            &&& fourth.only(before, after) ==> {
                &&& first.at(after) == first.at(before)
                &&& second.at(after) == second.at(before)
                &&& third.at(after) == third.at(before)
            }
        }),
{
}

} // verus!
