//! What the calls that take tuples apart hand out, in terms of the components.
use vstd::prelude::*;
use crate::inner::BorrowInner;
use crate::place::{Field, Place};
use crate::pointers::{Ref, RefMut};

verus! {

/// A tuple of one is taken apart into a reference to its component, in place of the one to the tuple.
/// All of them are counted, and the value stays as it is.
pub proof fn law_one_is_taken_apart<
    T,
    A: 'static,
    P: Place<T, Target = (A,)>,
>(
    this: Ref<T, (A,), P>,
    inner: &mut BorrowInner<T>,
    parts: (
        Ref<T, A, Field<P, 0>>,
    ),
)
    requires
        old(inner).can_clone_times(this.ptr.index, 1),
        this.borrow.valid(old(inner).data->0),
        call_ensures(Ref::<T, (A,), P>::destructure, (this, inner), parts),
    ensures
        ({
            let tuple = this.borrow.at(old(inner).data->0);
            &&& parts.0.ptr.index == this.ptr.index
            &&& parts.0.borrow.valid(final(inner).data->0)
            &&& parts.0.borrow.at(final(inner).data->0) == tuple.0
            &&& final(inner).graph@.branches[this.ptr.index].strong
                == old(inner).graph@.branches[this.ptr.index].strong
            &&& final(inner).weak == old(inner).weak
            &&& final(inner).data == old(inner).data
        }),
{
}

/// A pair is taken apart into a reference to each component, in place of the one to the pair.
/// All of them are counted, and the value stays as it is.
pub proof fn law_pair_is_taken_apart<
    T,
    A: 'static,
    B: 'static,
    P: Place<T, Target = (A, B)>,
>(
    this: Ref<T, (A, B), P>,
    inner: &mut BorrowInner<T>,
    parts: (
        Ref<T, A, Field<P, 0>>,
        Ref<T, B, Field<P, 1>>,
    ),
)
    requires
        old(inner).can_clone_times(this.ptr.index, 2),
        this.borrow.valid(old(inner).data->0),
        call_ensures(Ref::<T, (A, B), P>::destructure, (this, inner), parts),
    ensures
        ({
            let tuple = this.borrow.at(old(inner).data->0);
            &&& parts.0.ptr.index == this.ptr.index
            &&& parts.0.borrow.valid(final(inner).data->0)
            &&& parts.0.borrow.at(final(inner).data->0) == tuple.0
            &&& parts.1.ptr.index == this.ptr.index
            &&& parts.1.borrow.valid(final(inner).data->0)
            &&& parts.1.borrow.at(final(inner).data->0) == tuple.1
            &&& final(inner).graph@.branches[this.ptr.index].strong
                == old(inner).graph@.branches[this.ptr.index].strong + 2 - 1
            &&& final(inner).weak == old(inner).weak + 2 - 1
            &&& final(inner).data == old(inner).data
        }),
{
}

/// A triple is taken apart into a reference to each component, in place of the one to the triple.
/// All of them are counted, and the value stays as it is.
pub proof fn law_triple_is_taken_apart<
    T,
    A: 'static,
    B: 'static,
    C: 'static,
    P: Place<T, Target = (A, B, C)>,
>(
    this: Ref<T, (A, B, C), P>,
    inner: &mut BorrowInner<T>,
    parts: (
        Ref<T, A, Field<P, 0>>,
        Ref<T, B, Field<P, 1>>,
        Ref<T, C, Field<P, 2>>,
    ),
)
    requires
        old(inner).can_clone_times(this.ptr.index, 3),
        this.borrow.valid(old(inner).data->0),
        call_ensures(Ref::<T, (A, B, C), P>::destructure, (this, inner), parts),
    ensures
        ({
            let tuple = this.borrow.at(old(inner).data->0);
            &&& parts.0.ptr.index == this.ptr.index
            &&& parts.0.borrow.valid(final(inner).data->0)
            &&& parts.0.borrow.at(final(inner).data->0) == tuple.0
            &&& parts.1.ptr.index == this.ptr.index
            &&& parts.1.borrow.valid(final(inner).data->0)
            &&& parts.1.borrow.at(final(inner).data->0) == tuple.1
            &&& parts.2.ptr.index == this.ptr.index
            &&& parts.2.borrow.valid(final(inner).data->0)
            &&& parts.2.borrow.at(final(inner).data->0) == tuple.2
            &&& final(inner).graph@.branches[this.ptr.index].strong
                == old(inner).graph@.branches[this.ptr.index].strong + 3 - 1
            &&& final(inner).weak == old(inner).weak + 3 - 1
            &&& final(inner).data == old(inner).data
        }),
{
}

/// A quadruple is taken apart into a reference to each component, in place of the one to it.
/// All of them are counted, and the value stays as it is.
pub proof fn law_quadruple_is_taken_apart<
    T,
    A: 'static,
    B: 'static,
    C: 'static,
    D: 'static,
    P: Place<T, Target = (A, B, C, D)>,
>(
    this: Ref<T, (A, B, C, D), P>,
    inner: &mut BorrowInner<T>,
    parts: (
        Ref<T, A, Field<P, 0>>,
        Ref<T, B, Field<P, 1>>,
        Ref<T, C, Field<P, 2>>,
        Ref<T, D, Field<P, 3>>,
    ),
)
    requires
        old(inner).can_clone_times(this.ptr.index, 4),
        this.borrow.valid(old(inner).data->0),
        call_ensures(Ref::<T, (A, B, C, D), P>::destructure, (this, inner), parts),
    ensures
        ({
            let tuple = this.borrow.at(old(inner).data->0);
            &&& parts.0.ptr.index == this.ptr.index
            &&& parts.0.borrow.valid(final(inner).data->0)
            &&& parts.0.borrow.at(final(inner).data->0) == tuple.0
            &&& parts.1.ptr.index == this.ptr.index
            &&& parts.1.borrow.valid(final(inner).data->0)
            &&& parts.1.borrow.at(final(inner).data->0) == tuple.1
            &&& parts.2.ptr.index == this.ptr.index
            &&& parts.2.borrow.valid(final(inner).data->0)
            &&& parts.2.borrow.at(final(inner).data->0) == tuple.2
            &&& parts.3.ptr.index == this.ptr.index
            &&& parts.3.borrow.valid(final(inner).data->0)
            &&& parts.3.borrow.at(final(inner).data->0) == tuple.3
            &&& final(inner).graph@.branches[this.ptr.index].strong
                == old(inner).graph@.branches[this.ptr.index].strong + 4 - 1
            &&& final(inner).weak == old(inner).weak + 4 - 1
            &&& final(inner).data == old(inner).data
        }),
{
}

/// A tuple of one is taken apart into a mutable reference to its component, in place of the one to the tuple.
/// All of them are counted, and the value stays as it is.
pub proof fn law_one_is_taken_apart_for_change<
    T,
    A: 'static,
    P: Place<T, Target = (A,)>,
>(
    this: RefMut<T, (A,), P>,
    inner: &mut BorrowInner<T>,
    parts: (
        RefMut<T, A, Field<P, 0>>,
    ),
)
    requires
        old(inner).can_clone_times(this.ptr.index, 1),
        this.borrow.valid(old(inner).data->0),
        call_ensures(RefMut::<T, (A,), P>::destructure, (this, inner), parts),
    ensures
        ({
            let tuple = this.borrow.at(old(inner).data->0);
            &&& parts.0.ptr.index == this.ptr.index
            &&& parts.0.borrow.valid(final(inner).data->0)
            &&& parts.0.borrow.at(final(inner).data->0) == tuple.0
            &&& final(inner).graph@.branches[this.ptr.index].strong
                == old(inner).graph@.branches[this.ptr.index].strong
            &&& final(inner).weak == old(inner).weak
            &&& final(inner).data == old(inner).data
        }),
{
}

/// A pair is taken apart into a mutable reference to each component, in place of the one to the pair.
/// All of them are counted, and the value stays as it is.
pub proof fn law_pair_is_taken_apart_for_change<
    T,
    A: 'static,
    B: 'static,
    P: Place<T, Target = (A, B)>,
>(
    this: RefMut<T, (A, B), P>,
    inner: &mut BorrowInner<T>,
    parts: (
        RefMut<T, A, Field<P, 0>>,
        RefMut<T, B, Field<P, 1>>,
    ),
)
    requires
        old(inner).can_clone_times(this.ptr.index, 2),
        this.borrow.valid(old(inner).data->0),
        call_ensures(RefMut::<T, (A, B), P>::destructure, (this, inner), parts),
    ensures
        ({
            let tuple = this.borrow.at(old(inner).data->0);
            &&& parts.0.ptr.index == this.ptr.index
            &&& parts.0.borrow.valid(final(inner).data->0)
            &&& parts.0.borrow.at(final(inner).data->0) == tuple.0
            &&& parts.1.ptr.index == this.ptr.index
            &&& parts.1.borrow.valid(final(inner).data->0)
            &&& parts.1.borrow.at(final(inner).data->0) == tuple.1
            &&& final(inner).graph@.branches[this.ptr.index].strong
                == old(inner).graph@.branches[this.ptr.index].strong + 2 - 1
            &&& final(inner).weak == old(inner).weak + 2 - 1
            &&& final(inner).data == old(inner).data
        }),
{
}

/// A triple is taken apart into a mutable reference to each component, in place of the one to the triple.
/// All of them are counted, and the value stays as it is.
pub proof fn law_triple_is_taken_apart_for_change<
    T,
    A: 'static,
    B: 'static,
    C: 'static,
    P: Place<T, Target = (A, B, C)>,
>(
    this: RefMut<T, (A, B, C), P>,
    inner: &mut BorrowInner<T>,
    parts: (
        RefMut<T, A, Field<P, 0>>,
        RefMut<T, B, Field<P, 1>>,
        RefMut<T, C, Field<P, 2>>,
    ),
)
    requires
        old(inner).can_clone_times(this.ptr.index, 3),
        this.borrow.valid(old(inner).data->0),
        call_ensures(RefMut::<T, (A, B, C), P>::destructure, (this, inner), parts),
    ensures
        ({
            let tuple = this.borrow.at(old(inner).data->0);
            &&& parts.0.ptr.index == this.ptr.index
            &&& parts.0.borrow.valid(final(inner).data->0)
            &&& parts.0.borrow.at(final(inner).data->0) == tuple.0
            &&& parts.1.ptr.index == this.ptr.index
            &&& parts.1.borrow.valid(final(inner).data->0)
            &&& parts.1.borrow.at(final(inner).data->0) == tuple.1
            &&& parts.2.ptr.index == this.ptr.index
            &&& parts.2.borrow.valid(final(inner).data->0)
            &&& parts.2.borrow.at(final(inner).data->0) == tuple.2
            &&& final(inner).graph@.branches[this.ptr.index].strong
                == old(inner).graph@.branches[this.ptr.index].strong + 3 - 1
            &&& final(inner).weak == old(inner).weak + 3 - 1
            &&& final(inner).data == old(inner).data
        }),
{
}

/// A quadruple is taken apart into a mutable reference to each component, in place of the one to it.
/// All of them are counted, and the value stays as it is.
pub proof fn law_quadruple_is_taken_apart_for_change<
    T,
    A: 'static,
    B: 'static,
    C: 'static,
    D: 'static,
    P: Place<T, Target = (A, B, C, D)>,
>(
    this: RefMut<T, (A, B, C, D), P>,
    inner: &mut BorrowInner<T>,
    parts: (
        RefMut<T, A, Field<P, 0>>,
        RefMut<T, B, Field<P, 1>>,
        RefMut<T, C, Field<P, 2>>,
        RefMut<T, D, Field<P, 3>>,
    ),
)
    requires
        old(inner).can_clone_times(this.ptr.index, 4),
        this.borrow.valid(old(inner).data->0),
        call_ensures(RefMut::<T, (A, B, C, D), P>::destructure, (this, inner), parts),
    ensures
        ({
            let tuple = this.borrow.at(old(inner).data->0);
            &&& parts.0.ptr.index == this.ptr.index
            &&& parts.0.borrow.valid(final(inner).data->0)
            &&& parts.0.borrow.at(final(inner).data->0) == tuple.0
            &&& parts.1.ptr.index == this.ptr.index
            &&& parts.1.borrow.valid(final(inner).data->0)
            &&& parts.1.borrow.at(final(inner).data->0) == tuple.1
            &&& parts.2.ptr.index == this.ptr.index
            &&& parts.2.borrow.valid(final(inner).data->0)
            &&& parts.2.borrow.at(final(inner).data->0) == tuple.2
            &&& parts.3.ptr.index == this.ptr.index
            &&& parts.3.borrow.valid(final(inner).data->0)
            &&& parts.3.borrow.at(final(inner).data->0) == tuple.3
            &&& final(inner).graph@.branches[this.ptr.index].strong
                == old(inner).graph@.branches[this.ptr.index].strong + 4 - 1
            &&& final(inner).weak == old(inner).weak + 4 - 1
            &&& final(inner).data == old(inner).data
        }),
{
}

/// Taking apart nothing gives the reference back.
pub proof fn law_nothing_is_taken_apart<T, P>(
    this: Ref<T, (), P>,
    this_mut: RefMut<T, (), P>,
    inner: &mut BorrowInner<T>,
    inner_mut: &mut BorrowInner<T>,
)
    requires
        old(inner).holds(this.ptr.index),
        call_ensures(Ref::<T, (), P>::destructure, (this, inner), ()),
        old(inner_mut).holds(this_mut.ptr.index),
        call_ensures(RefMut::<T, (), P>::destructure, (this_mut, inner_mut), ()),
    ensures
        final(inner).released_from(*old(inner), this.ptr.index),
        final(inner_mut).released_from(*old(inner_mut), this_mut.ptr.index),
{
}

} // verus!
