//! The smart pointers.
use vstd::prelude::*;
use std::marker::PhantomData;
use crate::future::{RefForward, RefMutForward, RefMutShare, RefShare};
use crate::graph::{self, END};
use crate::graph::model::GraphView;
use crate::inner::{BorrowInner, BorrowPtr, First, FuturePtr, SharedPtr};
use crate::place::{Place, Span, Unboxed, Whole};

verus! {

/// The right to make references to parts of a shared value.
pub struct Context<T> {
    /// The borrow pointer that each reference gets a clone of.
    pub ptr: BorrowPtr<T>,
}

impl<T> Context<T> {
    /// Another context.
    pub fn clone(&self, inner: &mut BorrowInner<T>) -> (context: Self)
        requires
            old(inner).can_clone(self.ptr.index),
        ensures
            context.ptr.index == self.ptr.index,
            final(inner).holds(self.ptr.index),
            final(inner).graph@ == old(inner).graph@.with_strong(
                self.ptr.index,
                old(inner).graph@.branches[self.ptr.index].strong + 1,
            ),
            final(inner).data == old(inner).data,
            final(inner).weak == old(inner).weak + 1,
    {
        Context { ptr: self.ptr.clone(inner) }
    }

    /// A reference to the part at `rf`.
    pub fn contextualise_ref<B: ?Sized, P>(self, rf: P) -> (made: Ref<T, B, P>)
        ensures
            made == Ref::<T, B, P>::through(self.ptr.index, rf),
    {
        Ref { ptr: self.ptr, borrow: rf, target: PhantomData }
    }

    /// A mutable reference to the part at `rf`.
    pub fn contextualise_mut<B: ?Sized, P>(self, rf: P) -> (made: RefMut<T, B, P>)
        ensures
            made == RefMut::<T, B, P>::through(self.ptr.index, rf),
    {
        RefMut { ptr: self.ptr, borrow: rf, target: PhantomData }
    }

    /// A reference to the part at `rf`, from a clone of the context.
    pub fn lift_ref<B: ?Sized, P>(&self, inner: &mut BorrowInner<T>, rf: P) -> (made: Ref<T, B, P>)
        requires
            old(inner).can_clone(self.ptr.index),
        ensures
            made == Ref::<T, B, P>::through(self.ptr.index, rf),
            final(inner).holds(self.ptr.index),
            final(inner).graph@ == old(inner).graph@.with_strong(
                self.ptr.index,
                old(inner).graph@.branches[self.ptr.index].strong + 1,
            ),
            final(inner).data == old(inner).data,
            final(inner).weak == old(inner).weak + 1,
    {
        self.clone(inner).contextualise_ref(rf)
    }

    /// A mutable reference to the part at `rf_mut`, from a clone of the context.
    pub fn lift_mut<B: ?Sized, P>(&self, inner: &mut BorrowInner<T>, rf_mut: P) -> (made: RefMut<
        T,
        B,
        P,
    >)
        requires
            old(inner).can_clone(self.ptr.index),
        ensures
            made == RefMut::<T, B, P>::through(self.ptr.index, rf_mut),
            final(inner).holds(self.ptr.index),
            final(inner).graph@ == old(inner).graph@.with_strong(
                self.ptr.index,
                old(inner).graph@.branches[self.ptr.index].strong + 1,
            ),
            final(inner).data == old(inner).data,
            final(inner).weak == old(inner).weak + 1,
    {
        self.clone(inner).contextualise_mut(rf_mut)
    }

    /// Gives the context back.
    pub fn release(self, inner: &mut BorrowInner<T>) -> (last: bool)
        requires
            old(inner).holds(self.ptr.index),
        ensures
            final(inner).wf(),
            final(inner).settled_from(*old(inner), old(inner).graph@.untracked(self.ptr.index)),
            final(inner).weak == old(inner).weak - 1,
            last == (final(inner).weak == 0),
    {
        self.ptr.release(inner)
    }
}

/// The owner of a value that can be shared.
pub struct ShareBox<T> {
    /// The pointer to the allocation.
    pub ptr: SharedPtr<T>,
}

impl<T> ShareBox<T> {
    /// An allocation that holds `value`, and its owner.
    pub fn new(value: T) -> (made: (BorrowInner<T>, Self))
        ensures
            made.0.owned(),
            made.0.weak == 1,
            made.0.data == Some(value),
            made.0.graph@.versions == Seq::new(7, |i: int| 0u64),
            made.0.graph@.due.len() == 0,
    {
        let (inner, ptr) = SharedPtr::new(value);
        (inner, ShareBox { ptr })
    }

    fn into_shared(self) -> (shared: SharedPtr<T>)
        ensures
            shared == self.ptr,
    {
        self.ptr
    }

    /// Converts the owner into a new ready [`RefShare`] future.
    pub fn into_ref_share(self, inner: &mut BorrowInner<T>) -> (future: RefShare<T>)
        requires
            old(inner).owned(),
        ensures
            future.ptr.valid(final(inner)),
            final(inner).graph@.ready(0),
            final(inner).returned_from(*old(inner), END),
            final(inner).weak == old(inner).weak,
    {
        let _root: usize = inner.forward_and_return(END);
        RefShare { ptr: FuturePtr { shared: Some(self.into_shared()), index: First } }
    }

    /// Converts the owner into a new ready [`RefMutShare`] future.
    pub fn into_mut_share(self, inner: &mut BorrowInner<T>) -> (future: RefMutShare<T>)
        requires
            old(inner).owned(),
        ensures
            future.ptr.valid(final(inner)),
            final(inner).graph@.ready(0),
            final(inner).returned_from(*old(inner), END),
            final(inner).weak == old(inner).weak,
    {
        let _root: usize = inner.forward_and_return(END);
        RefMutShare { ptr: FuturePtr { shared: Some(self.into_shared()), index: First } }
    }

    /// Shares the value: a reference, and the future that waits for it to be given back.
    pub fn share_ref(self, inner: &mut BorrowInner<T>) -> (shared: (RefShare<T>, Ref<T>))
        requires
            old(inner).owned(),
            old(inner).weak < usize::MAX,
        ensures
            shared.0.ptr.valid(final(inner)),
            shared.1 == Ref::<T>::through(0, Whole),
            final(inner).holds(0),
            final(inner).forwarded_from(*old(inner), END),
            final(inner).weak == old(inner).weak + 1,
    {
        inner.share();
        let shared = self.into_shared();
        let ptr = shared.clone(inner);
        (
            RefShare { ptr: FuturePtr { shared: Some(ptr), index: First } },
            Ref { ptr: BorrowPtr { shared, index: 0 }, borrow: Whole, target: PhantomData },
        )
    }

    /// Shares the value mutably: a mutable reference, and the future that waits for it to be given
    /// back.
    pub fn share_mut(self, inner: &mut BorrowInner<T>) -> (shared: (RefMutShare<T>, RefMut<T>))
        requires
            old(inner).owned(),
            old(inner).weak < usize::MAX,
        ensures
            shared.0.ptr.valid(final(inner)),
            shared.1 == RefMut::<T>::through(0, Whole),
            final(inner).holds(0),
            final(inner).forwarded_from(*old(inner), END),
            final(inner).weak == old(inner).weak + 1,
    {
        inner.share();
        let shared = self.into_shared();
        let ptr = shared.clone(inner);
        (
            RefMutShare { ptr: FuturePtr { shared: Some(ptr), index: First } },
            RefMut { ptr: BorrowPtr { shared, index: 0 }, borrow: Whole, target: PhantomData },
        )
    }

    /// Shares the value with `f`, and hands over what it returns.
    pub fn spawn_ref<U>(self, inner: &mut BorrowInner<T>, f: impl FnOnce(Ref<T>) -> U) -> (spawned: (
        RefShare<T>,
        U,
    ))
        requires
            old(inner).owned(),
            old(inner).weak < usize::MAX,
            f.requires((Ref::through(0, Whole),)),
        ensures
            spawned.0.ptr.valid(final(inner)),
            f.ensures((Ref::through(0, Whole),), spawned.1),
            final(inner).holds(0),
            final(inner).forwarded_from(*old(inner), END),
            final(inner).weak == old(inner).weak + 1,
    {
        let (future, rf) = self.share_ref(inner);
        let returned = f(rf);
        (future, returned)
    }

    /// Shares the value mutably with `f`, and hands over what it returns.
    pub fn spawn_mut<U>(
        self,
        inner: &mut BorrowInner<T>,
        f: impl FnOnce(RefMut<T>) -> U,
    ) -> (spawned: (RefMutShare<T>, U))
        requires
            old(inner).owned(),
            old(inner).weak < usize::MAX,
            f.requires((RefMut::through(0, Whole),)),
        ensures
            spawned.0.ptr.valid(final(inner)),
            f.ensures((RefMut::through(0, Whole),), spawned.1),
            final(inner).holds(0),
            final(inner).forwarded_from(*old(inner), END),
            final(inner).weak == old(inner).weak + 1,
    {
        let (future, rf_mut) = self.share_mut(inner);
        let returned = f(rf_mut);
        (future, returned)
    }

    /// A reference that nobody waits for: the value is dropped with the last one.
    pub fn into_ref(self, inner: &mut BorrowInner<T>) -> (rf: Ref<T>)
        requires
            old(inner).owned(),
        ensures
            rf == Ref::<T>::through(0, Whole),
            final(inner).holds(0),
            final(inner).graph@.closed(0),
            final(inner).given_away_from(*old(inner)),
            final(inner).weak == old(inner).weak,
    {
        inner.share_and_forget();
        Ref {
            ptr: BorrowPtr { shared: self.into_shared(), index: 0 },
            borrow: Whole,
            target: PhantomData,
        }
    }

    /// A mutable reference that nobody waits for: the value is dropped with it.
    pub fn into_mut(self, inner: &mut BorrowInner<T>) -> (rf_mut: RefMut<T>)
        requires
            old(inner).owned(),
        ensures
            rf_mut == RefMut::<T>::through(0, Whole),
            final(inner).holds(0),
            final(inner).graph@.closed(0),
            final(inner).given_away_from(*old(inner)),
            final(inner).weak == old(inner).weak,
    {
        inner.share_and_forget();
        RefMut {
            ptr: BorrowPtr { shared: self.into_shared(), index: 0 },
            borrow: Whole,
            target: PhantomData,
        }
    }

    /// Moves the value out.
    pub fn into_inner(self, inner: &mut BorrowInner<T>) -> (value: T)
        requires
            old(inner).owned(),
        ensures
            value == old(inner).data->0,
            final(inner).wf(),
            final(inner).data is None,
            final(inner).graph == old(inner).graph,
            final(inner).weak == old(inner).weak - 1,
    {
        let value = inner.data.take().unwrap();
        self.into_shared().release(inner);
        value
    }

    /// The value.
    pub fn deref<'a>(&self, inner: &'a BorrowInner<T>) -> (value: &'a T)
        requires
            inner.owned(),
        ensures
            *value == inner.data->0,
    {
        self.ptr.get_ref(inner)
    }

    /// The value, to be changed.
    pub fn deref_mut<'a>(&mut self, inner: &'a mut BorrowInner<T>) -> (value: &'a mut T)
        requires
            old(inner).owned(),
        ensures
            *value == old(inner).data->0,
            final(inner).data == Some(*final(value)),
            final(inner).graph == old(inner).graph,
            final(inner).weak == old(inner).weak,
    {
        self.ptr.get_mut(inner)
    }

    /// The owner of a clone of the value, in an allocation of its own.
    pub fn clone(&self, inner: &BorrowInner<T>) -> (made: (BorrowInner<T>, Self)) where T: Clone
        requires
            inner.owned(),
        ensures
            made.0.owned(),
            made.0.weak == 1,
            cloned(inner.data->0, made.0.data->0),
            made.0.graph@.versions == Seq::new(7, |i: int| 0u64),
            made.0.graph@.due.len() == 0,
    {
        ShareBox::new(T::clone(self.deref(inner)))
    }

    /// Drops the value, and gives the pointer to the allocation back.
    pub fn release(self, inner: &mut BorrowInner<T>) -> (last: bool)
        requires
            old(inner).owned(),
        ensures
            final(inner).wf(),
            final(inner).data is None,
            final(inner).graph == old(inner).graph,
            final(inner).weak == old(inner).weak - 1,
            last == (final(inner).weak == 0),
    {
        inner.data = None;
        self.ptr.release(inner)
    }
}

/// A reference that does not keep the value.
pub struct Weak<T, B: ?Sized = T, P = Whole> {
    /// The pointer to the allocation.
    pub shared: SharedPtr<T>,
    /// The place of the part.
    pub borrow: P,
    /// The branch.
    pub index: usize,
    /// The version of the branch.
    pub version: u64,
    /// The part.
    pub target: PhantomData<B>,
}

impl<T, B: ?Sized, P> Weak<T, B, P> {
    /// Whether the reference was taken of a branch of `inner`.
    pub open spec fn valid(&self, inner: &BorrowInner<T>) -> bool {
        &&& inner.wf()
        &&& inner.weak > 0
        &&& self.index < inner.graph@.versions.len()
        &&& self.version % 2 == 1
    }

    /// A reference, if the branch has not been freed since. If it has, the pointer is given back.
    ///
    /// A future that was ready waits for that reference too.
    pub fn upgrade(self, inner: &mut BorrowInner<T>) -> (upgraded: Option<Ref<T, B, P>>)
        requires
            self.valid(old(inner)),
            old(inner).graph@.versions[self.index as int] == self.version ==> old(
                inner,
            ).graph@.branches[self.index].strong < usize::MAX,
        ensures
            final(inner).wf(),
            final(inner).data == old(inner).data,
            match upgraded {
                Some(rf) => {
                    &&& old(inner).graph@.versions[self.index as int] == self.version
                    &&& old(inner).graph@.live(self.index)
                    &&& rf == Ref::<T, B, P>::through(self.index, self.borrow)
                    &&& final(inner).holds(self.index)
                    &&& final(inner).graph@.tracked_from(old(inner).graph@, self.index)
                    &&& old(inner).awaits(self.index) ==> final(inner).awaits(self.index)
                    &&& final(inner).weak == old(inner).weak
                },
                None => {
                    &&& old(inner).graph@.versions[self.index as int] != self.version
                    &&& final(inner).graph@ == old(inner).graph@
                    &&& final(inner).weak == old(inner).weak - 1
                },
            },
    {
        let ghost before = *inner;
        if inner.graph.try_upgrade_weak_unchecked(self.index, self.version) {
            proof {
                graph::model::lemma_tracked(before.graph@, inner.graph@, self.index);
                assert(before.graph@.branches.dom().contains(self.index));
            }
            Some(
                Ref {
                    ptr: BorrowPtr { shared: self.shared, index: self.index },
                    borrow: self.borrow,
                    target: PhantomData,
                },
            )
        } else {
            self.shared.release(inner);
            None
        }
    }

    /// Another such reference.
    pub fn clone(&self, inner: &mut BorrowInner<T>) -> (weak: Self) where P: Copy
        requires
            old(inner).weak < usize::MAX,
        ensures
            weak == *self,
            *final(inner) == (BorrowInner { weak: (old(inner).weak + 1) as usize, ..*old(inner) }),
    {
        Weak {
            shared: self.shared.clone(inner),
            borrow: self.borrow,
            index: self.index,
            version: self.version,
            target: PhantomData,
        }
    }

    /// Gives the reference back.
    pub fn release(self, inner: &mut BorrowInner<T>) -> (last: bool)
        requires
            old(inner).weak > 0,
        ensures
            *final(inner) == (BorrowInner { weak: (old(inner).weak - 1) as usize, ..*old(inner) }),
            last == (final(inner).weak == 0),
    {
        self.shared.release(inner)
    }
}

/// A reference to a part of a shared value.
pub struct Ref<T, B: ?Sized = T, P = Whole> {
    /// The borrow pointer.
    pub ptr: BorrowPtr<T>,
    /// The place of the part.
    pub borrow: P,
    /// The part.
    pub target: PhantomData<B>,
}

impl<T, B: ?Sized, P> Ref<T, B, P> {
    /// The reference to the part at `borrow` through the branch `index`.
    pub open spec fn through(index: usize, borrow: P) -> Self {
        Ref {
            ptr: BorrowPtr { shared: SharedPtr { inner: PhantomData }, index },
            borrow,
            target: PhantomData,
        }
    }

    /// Whether the reference may be used.
    pub open spec fn valid(&self, inner: &BorrowInner<T>) -> bool {
        inner.holds(self.ptr.index)
    }

    /// A reference to the same part that does not keep the value.
    pub fn downgrade(&self, inner: &mut BorrowInner<T>) -> (weak: Weak<T, B, P>) where P: Copy
        requires
            self.valid(old(inner)),
            self.ptr.index != END,
            graph::weak_version(old(inner).graph@.versions[self.ptr.index as int]) < u64::MAX,
            old(inner).weak < usize::MAX,
        ensures
            weak.valid(final(inner)),
            self.valid(final(inner)),
            weak.index == self.ptr.index,
            weak.borrow == self.borrow,
            weak.version == graph::weak_version(
                old(inner).graph@.versions[self.ptr.index as int],
            ),
            final(inner).graph@ == (GraphView {
                versions: old(inner).graph@.versions.update(self.ptr.index as int, weak.version),
                ..old(inner).graph@
            }),
            final(inner).data == old(inner).data,
            final(inner).weak == old(inner).weak + 1,
    {
        let ghost before = *inner;
        let version: u64 = inner.graph.track_weak_unchecked(self.ptr.index);
        proof {
            assert forall|k: usize| #[trigger] inner.graph@.live(k) implies (
            inner.graph@.branches[k].parent == END <==> k == 0) by {
                assert(before.graph@.live(k));
            }
            assert(before.graph@.branches.dom().contains(self.ptr.index));
        }
        Weak {
            shared: self.ptr.shared.clone(inner),
            borrow: self.borrow,
            index: self.ptr.index,
            version,
            target: PhantomData,
        }
    }

    /// A reference to the part that `f` makes of the place.
    pub fn map<C: ?Sized, Q>(self, f: impl FnOnce(P) -> Q) -> (mapped: Ref<T, C, Q>)
        requires
            f.requires((self.borrow,)),
        ensures
            mapped.ptr == self.ptr,
            f.ensures((self.borrow,), mapped.borrow),
    {
        Ref { ptr: self.ptr, borrow: f(self.borrow), target: PhantomData }
    }

    /// Hands the place and the right to make references to parts of it to `f`.
    pub fn context<R>(
        self,
        inner: &mut BorrowInner<T>,
        f: impl FnOnce(P, Context<T>, &mut BorrowInner<T>) -> R,
    ) -> (result: R)
        requires
            forall|x: &mut BorrowInner<T>|
                *x == *old(inner) ==> #[trigger] call_requires(
                    f,
                    (self.borrow, Context { ptr: self.ptr }, x),
                ),
        ensures
            exists|x: &mut BorrowInner<T>|
                *x == *old(inner) && *final(x) == *final(inner) && #[trigger] call_ensures(
                    f,
                    (self.borrow, Context { ptr: self.ptr }, x),
                    result,
                ),
    {
        f(self.borrow, Context { ptr: self.ptr }, inner)
    }

    /// The part.
    pub fn deref<'a>(&self, inner: &'a BorrowInner<T>) -> (part: &'a B) where
        P: Place<T, Target = B>,
        B: Sized + 'static,

        requires
            self.valid(inner),
            self.borrow.valid(inner.data->0),
        ensures
            *part == self.borrow.at(inner.data->0),
    {
        proof {
            inner.lemma_holds(self.ptr.index);
        }
        self.borrow.get(self.ptr.shared.get_ref(inner))
    }

    /// Another reference to the same part.
    pub fn clone(&self, inner: &mut BorrowInner<T>) -> (rf: Self) where P: Copy
        requires
            old(inner).can_clone(self.ptr.index),
        ensures
            rf == *self,
            rf.valid(final(inner)),
            final(inner).graph@ == old(inner).graph@.with_strong(
                self.ptr.index,
                old(inner).graph@.branches[self.ptr.index].strong + 1,
            ),
            final(inner).graph@.borrows(self.ptr.index) == old(inner).graph@.borrows(
                self.ptr.index,
            ) + 1,
            final(inner).data == old(inner).data,
            final(inner).weak == old(inner).weak + 1,
    {
        Ref { ptr: self.ptr.clone(inner), borrow: self.borrow, target: PhantomData }
    }

    /// Gives the reference back. The value is dropped if nobody borrows it then, nor waits for it.
    pub fn release(self, inner: &mut BorrowInner<T>) -> (last: bool)
        requires
            self.valid(old(inner)),
        ensures
            final(inner).wf(),
            final(inner).settled_from(*old(inner), old(inner).graph@.untracked(self.ptr.index)),
            final(inner).weak == old(inner).weak - 1,
            last == (final(inner).weak == 0),
    {
        self.ptr.release(inner)
    }
}

/// A mutable reference to a part of a shared value.
pub struct RefMut<T, B: ?Sized = T, P = Whole> {
    /// The borrow pointer.
    pub ptr: BorrowPtr<T>,
    /// The place of the part.
    pub borrow: P,
    /// The part.
    pub target: PhantomData<B>,
}

impl<T, B: ?Sized, P> RefMut<T, B, P> {
    /// The mutable reference to the part at `borrow` through the branch `index`.
    pub open spec fn through(index: usize, borrow: P) -> Self {
        RefMut {
            ptr: BorrowPtr { shared: SharedPtr { inner: PhantomData }, index },
            borrow,
            target: PhantomData,
        }
    }

    /// Whether the reference may be used.
    pub open spec fn valid(&self, inner: &BorrowInner<T>) -> bool {
        inner.holds(self.ptr.index)
    }

    /// Gives up mutability.
    pub fn into_ref(self) -> (rf: Ref<T, B, P>)
        ensures
            rf == Ref::<T, B, P>::through(self.ptr.index, self.borrow),
    {
        Ref { ptr: self.ptr, borrow: self.borrow, target: PhantomData }
    }

    /// Converts the reference into a new ready [`RefForward`] future.
    pub fn into_ref_forward(self, inner: &mut BorrowInner<T>) -> (future: RefForward<T, B, P>)
        requires
            old(inner).can_forward(self.ptr.index),
        ensures
            future == RefForward::<T, B, P>::through(old(inner).graph@.next_index(), self.borrow),
            future.ptr.valid(final(inner)),
            final(inner).graph@.ready(future.ptr.index),
            final(inner).returned_from(*old(inner), self.ptr.index),
            final(inner).weak == old(inner).weak,
    {
        let index: usize = inner.forward_and_return(self.ptr.index);
        RefForward {
            ptr: FuturePtr { shared: Some(self.ptr.shared), index },
            borrow: self.borrow,
            target: PhantomData,
        }
    }

    /// Converts the reference into a new ready [`RefMutForward`] future.
    pub fn into_mut_forward(self, inner: &mut BorrowInner<T>) -> (future: RefMutForward<T, B, P>)
        requires
            old(inner).can_forward(self.ptr.index),
        ensures
            future == RefMutForward::<T, B, P>::through(
                old(inner).graph@.next_index(),
                self.borrow,
            ),
            future.ptr.valid(final(inner)),
            final(inner).graph@.ready(future.ptr.index),
            final(inner).returned_from(*old(inner), self.ptr.index),
            final(inner).weak == old(inner).weak,
    {
        let index: usize = inner.forward_and_return(self.ptr.index);
        RefMutForward {
            ptr: FuturePtr { shared: Some(self.ptr.shared), index },
            borrow: self.borrow,
            target: PhantomData,
        }
    }

    /// Lends the reference on: a reference to the part, and the future that waits for it to be given
    /// back.
    pub fn forward_ref(self, inner: &mut BorrowInner<T>) -> (forwarded: (
        RefForward<T, B, P>,
        Ref<T, B, P>,
    )) where P: Copy
        requires
            old(inner).can_forward(self.ptr.index),
            old(inner).weak < usize::MAX,
        ensures
            ({
                let index = old(inner).graph@.next_index();
                &&& forwarded.0 == RefForward::<T, B, P>::through(index, self.borrow)
                &&& forwarded.0.ptr.valid(final(inner))
                &&& forwarded.1 == Ref::<T, B, P>::through(index, self.borrow)
                &&& forwarded.1.valid(final(inner))
            }),
            final(inner).forwarded_from(*old(inner), self.ptr.index),
            final(inner).weak == old(inner).weak + 1,
    {
        let index: usize = inner.forward(self.ptr.index);
        let shared = self.ptr.shared;
        let ptr = shared.clone(inner);
        (
            RefForward {
                ptr: FuturePtr { shared: Some(ptr), index },
                borrow: self.borrow,
                target: PhantomData,
            },
            Ref { ptr: BorrowPtr { shared, index }, borrow: self.borrow, target: PhantomData },
        )
    }

    /// Lends the reference on mutably: a mutable reference to the part, and the future that waits
    /// for it to be given back.
    pub fn forward_mut(self, inner: &mut BorrowInner<T>) -> (forwarded: (
        RefMutForward<T, B, P>,
        RefMut<T, B, P>,
    )) where P: Copy
        requires
            old(inner).can_forward(self.ptr.index),
            old(inner).weak < usize::MAX,
        ensures
            ({
                let index = old(inner).graph@.next_index();
                &&& forwarded.0 == RefMutForward::<T, B, P>::through(index, self.borrow)
                &&& forwarded.0.ptr.valid(final(inner))
                &&& forwarded.1 == RefMut::<T, B, P>::through(index, self.borrow)
                &&& forwarded.1.valid(final(inner))
            }),
            final(inner).forwarded_from(*old(inner), self.ptr.index),
            final(inner).weak == old(inner).weak + 1,
    {
        let index: usize = inner.forward(self.ptr.index);
        let shared = self.ptr.shared;
        let ptr = shared.clone(inner);
        (
            RefMutForward {
                ptr: FuturePtr { shared: Some(ptr), index },
                borrow: self.borrow,
                target: PhantomData,
            },
            RefMut { ptr: BorrowPtr { shared, index }, borrow: self.borrow, target: PhantomData },
        )
    }

    /// Lends the reference on to `f`, and hands over what it returns.
    pub fn cleave_ref<U>(
        self,
        inner: &mut BorrowInner<T>,
        f: impl FnOnce(Ref<T, B, P>) -> U,
    ) -> (cleft: (RefForward<T, B, P>, U)) where P: Copy
        requires
            old(inner).can_forward(self.ptr.index),
            old(inner).weak < usize::MAX,
            f.requires((Ref::through(old(inner).graph@.next_index(), self.borrow),)),
        ensures
            ({
                let index = old(inner).graph@.next_index();
                &&& cleft.0 == RefForward::<T, B, P>::through(index, self.borrow)
                &&& cleft.0.ptr.valid(final(inner))
                &&& f.ensures((Ref::through(index, self.borrow),), cleft.1)
                &&& final(inner).holds(index)
            }),
            final(inner).forwarded_from(*old(inner), self.ptr.index),
            final(inner).weak == old(inner).weak + 1,
    {
        let (future, rf) = self.forward_ref(inner);
        let returned = f(rf);
        (future, returned)
    }

    /// Lends the reference on mutably to `f`, and hands over what it returns.
    pub fn cleave_mut<U>(
        self,
        inner: &mut BorrowInner<T>,
        f: impl FnOnce(RefMut<T, B, P>) -> U,
    ) -> (cleft: (RefMutForward<T, B, P>, U)) where P: Copy
        requires
            old(inner).can_forward(self.ptr.index),
            old(inner).weak < usize::MAX,
            f.requires((RefMut::through(old(inner).graph@.next_index(), self.borrow),)),
        ensures
            ({
                let index = old(inner).graph@.next_index();
                &&& cleft.0 == RefMutForward::<T, B, P>::through(index, self.borrow)
                &&& cleft.0.ptr.valid(final(inner))
                &&& f.ensures((RefMut::through(index, self.borrow),), cleft.1)
                &&& final(inner).holds(index)
            }),
            final(inner).forwarded_from(*old(inner), self.ptr.index),
            final(inner).weak == old(inner).weak + 1,
    {
        let (future, rf_mut) = self.forward_mut(inner);
        let returned = f(rf_mut);
        (future, returned)
    }

    /// A mutable reference to the part that `f` makes of the place.
    pub fn map<C: ?Sized, Q>(self, f: impl FnOnce(P) -> Q) -> (mapped: RefMut<T, C, Q>)
        requires
            f.requires((self.borrow,)),
        ensures
            mapped.ptr == self.ptr,
            f.ensures((self.borrow,), mapped.borrow),
    {
        RefMut { ptr: self.ptr, borrow: f(self.borrow), target: PhantomData }
    }

    /// Hands the place and the right to make references to parts of it to `f`.
    pub fn context<R>(
        self,
        inner: &mut BorrowInner<T>,
        f: impl FnOnce(P, Context<T>, &mut BorrowInner<T>) -> R,
    ) -> (result: R)
        requires
            forall|x: &mut BorrowInner<T>|
                *x == *old(inner) ==> #[trigger] call_requires(
                    f,
                    (self.borrow, Context { ptr: self.ptr }, x),
                ),
        ensures
            exists|x: &mut BorrowInner<T>|
                *x == *old(inner) && *final(x) == *final(inner) && #[trigger] call_ensures(
                    f,
                    (self.borrow, Context { ptr: self.ptr }, x),
                    result,
                ),
    {
        f(self.borrow, Context { ptr: self.ptr }, inner)
    }

    /// The part.
    pub fn deref<'a>(&self, inner: &'a BorrowInner<T>) -> (part: &'a B) where
        P: Place<T, Target = B>,
        B: Sized + 'static,

        requires
            self.valid(inner),
            self.borrow.valid(inner.data->0),
        ensures
            *part == self.borrow.at(inner.data->0),
    {
        proof {
            inner.lemma_holds(self.ptr.index);
        }
        self.borrow.get(self.ptr.shared.get_ref(inner))
    }

    /// The part, to be changed. Nothing else is.
    pub fn deref_mut<'a>(&mut self, inner: &'a mut BorrowInner<T>) -> (part: &'a mut B) where
        P: Place<T, Target = B>,
        B: Sized + 'static,

        requires
            old(self).valid(old(inner)),
            old(self).borrow.valid(old(inner).data->0),
        ensures
            *final(self) == *old(self),
            *part == old(self).borrow.at(old(inner).data->0),
            final(inner).data is Some,
            old(self).borrow.valid(final(inner).data->0),
            old(self).borrow.at(final(inner).data->0) == *final(part),
            old(self).borrow.only(old(inner).data->0, final(inner).data->0),
            final(inner).graph == old(inner).graph,
            final(inner).weak == old(inner).weak,
    {
        proof {
            inner.lemma_holds(self.ptr.index);
        }
        self.borrow.get_mut(self.ptr.shared.get_mut(inner))
    }

    /// Gives the reference back. The value is dropped if nobody borrows it then, nor waits for it.
    pub fn release(self, inner: &mut BorrowInner<T>) -> (last: bool)
        requires
            self.valid(old(inner)),
        ensures
            final(inner).wf(),
            final(inner).settled_from(*old(inner), old(inner).graph@.untracked(self.ptr.index)),
            final(inner).weak == old(inner).weak - 1,
            last == (final(inner).weak == 0),
    {
        self.ptr.release(inner)
    }
}

impl<T, B: ?Sized, P> From<RefMut<T, B, P>> for Ref<T, B, P> {
    fn from(value: RefMut<T, B, P>) -> (rf: Self) {
        value.into_ref()
    }
}

impl<T, B: ?Sized, P> vstd::std_specs::convert::FromSpecImpl<RefMut<T, B, P>> for Ref<T, B, P> {
    open spec fn obeys_from_spec() -> bool {
        true
    }

    open spec fn from_spec(value: RefMut<T, B, P>) -> Self {
        Ref::through(value.ptr.index, value.borrow)
    }
}

impl<U: ?Sized> Ref<Box<U>, Box<U>> {
    /// A reference to what the box holds.
    pub fn into_deref(self) -> (rf: Ref<Box<U>, U, Unboxed>)
        ensures
            rf == Ref::<Box<U>, U, Unboxed>::through(self.ptr.index, Unboxed),
    {
        Ref { ptr: self.ptr, borrow: Unboxed, target: PhantomData }
    }

    /// A reference to what the box holds.
    pub fn into_borrow(self) -> (rf: Ref<Box<U>, U, Unboxed>)
        ensures
            rf == Ref::<Box<U>, U, Unboxed>::through(self.ptr.index, Unboxed),
    {
        self.into_deref()
    }
}

impl<U: ?Sized> RefMut<Box<U>, Box<U>> {
    /// A mutable reference to what the box holds.
    pub fn into_deref_mut(self) -> (rf_mut: RefMut<Box<U>, U, Unboxed>)
        ensures
            rf_mut == RefMut::<Box<U>, U, Unboxed>::through(self.ptr.index, Unboxed),
    {
        RefMut { ptr: self.ptr, borrow: Unboxed, target: PhantomData }
    }

    /// A mutable reference to what the box holds.
    pub fn into_borrow_mut(self) -> (rf_mut: RefMut<Box<U>, U, Unboxed>)
        ensures
            rf_mut == RefMut::<Box<U>, U, Unboxed>::through(self.ptr.index, Unboxed),
    {
        self.into_deref_mut()
    }
}

impl<T, E: 'static, P: Place<T, Target = Vec<E>>> Ref<T, Vec<E>, P> {
    /// A reference to the elements of the vector.
    pub fn into_deref(self, inner: &BorrowInner<T>) -> (rf: Ref<T, [E], Span<P>>)
        requires
            self.valid(inner),
            self.borrow.valid(inner.data->0),
        ensures
            rf == Ref::<T, [E], Span<P>>::through(
                self.ptr.index,
                Span {
                    base: self.borrow,
                    start: 0,
                    len: self.borrow.at(inner.data->0)@.len() as usize,
                },
            ),
            rf.borrow.valid::<T, E>(inner.data->0),
    {
        let len: usize = self.deref(inner).len();
        Ref {
            ptr: self.ptr,
            borrow: Span { base: self.borrow, start: 0, len },
            target: PhantomData,
        }
    }
}

impl<T, E: 'static, P: Place<T, Target = Vec<E>>> RefMut<T, Vec<E>, P> {
    /// A mutable reference to the elements of the vector.
    pub fn into_deref_mut(self, inner: &BorrowInner<T>) -> (rf_mut: RefMut<T, [E], Span<P>>)
        requires
            self.valid(inner),
            self.borrow.valid(inner.data->0),
        ensures
            rf_mut == RefMut::<T, [E], Span<P>>::through(
                self.ptr.index,
                Span {
                    base: self.borrow,
                    start: 0,
                    len: self.borrow.at(inner.data->0)@.len() as usize,
                },
            ),
            rf_mut.borrow.valid::<T, E>(inner.data->0),
    {
        let len: usize = self.deref(inner).len();
        RefMut {
            ptr: self.ptr,
            borrow: Span { base: self.borrow, start: 0, len },
            target: PhantomData,
        }
    }
}

} // verus!
