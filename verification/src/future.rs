//! The futures that wait for what was lent to be given back.
use vstd::prelude::*;
use std::marker::PhantomData;
use std::task::Waker;
use crate::graph::END;
use crate::inner::{BorrowInner, BorrowPtr, First, FuturePtr, SharedPtr};
use crate::place::{Place, Whole};
use crate::pointers::{Ref, RefMut, ShareBox};
use crate::waker::Poll;

verus! {

/// The future of a value that is shared. While it waits, the value may be read.
pub struct RefShare<T> {
    /// The pointer that waits for the root.
    pub ptr: FuturePtr<T, First>,
}

/// The future of a value that is shared mutably.
pub struct RefMutShare<T> {
    /// The pointer that waits for the root.
    pub ptr: FuturePtr<T, First>,
}

/// The future of a mutable reference that was lent on. While it waits, the part may be read.
pub struct RefForward<T, B: ?Sized = T, P = Whole> {
    /// The pointer that waits for the branch.
    pub ptr: FuturePtr<T, usize>,
    /// The place of the part.
    pub borrow: P,
    /// The part.
    pub target: PhantomData<B>,
}

/// The future of a mutable reference that was lent on mutably.
pub struct RefMutForward<T, B: ?Sized = T, P = Whole> {
    /// The pointer that waits for the branch.
    pub ptr: FuturePtr<T, usize>,
    /// The place of the part.
    pub borrow: P,
    /// The part.
    pub target: PhantomData<B>,
}

impl<T, B: ?Sized, P> RefForward<T, B, P> {
    /// The future of the part at `borrow` through the branch `index`.
    pub open spec fn through(index: usize, borrow: P) -> Self {
        RefForward {
            ptr: FuturePtr { shared: Some(SharedPtr { inner: PhantomData }), index },
            borrow,
            target: PhantomData,
        }
    }
}

impl<T, B: ?Sized, P> RefMutForward<T, B, P> {
    /// The future of the part at `borrow` through the branch `index`.
    pub open spec fn through(index: usize, borrow: P) -> Self {
        RefMutForward {
            ptr: FuturePtr { shared: Some(SharedPtr { inner: PhantomData }), index },
            borrow,
            target: PhantomData,
        }
    }
}

impl<T> RefShare<T> {
    /// Waits for the value, to share it again.
    pub fn spawn(&mut self) -> (spawn: SpawnRef<'_, T>)
        ensures
            *spawn.fut == *old(self),
            *final(self) == *final(spawn.fut),
    {
        SpawnRef { fut: self }
    }

    /// Shares the value again and again, as long as `f` agrees to the value that came back.
    pub fn spawn_while<F: FnMut(&mut T) -> bool>(&mut self, f: F) -> (spawn: SpawnRefWhile<'_, T, F>)
        ensures
            *spawn.fut == *old(self),
            *final(self) == *final(spawn.fut),
            spawn.f == f,
    {
        SpawnRefWhile { fut: self, f }
    }

    /// The value, until it has come back.
    pub fn get<'a>(&self, inner: &'a BorrowInner<T>) -> (value: Option<&'a T>)
        requires
            self.ptr.shared is Some ==> self.ptr.valid(inner),
        ensures
            value is Some <==> self.ptr.shared is Some,
            value is Some ==> *value->0 == inner.data->0,
    {
        match &self.ptr.shared {
            Some(shared) => {
                proof {
                    inner.lemma_awaits(0);
                }
                Some(shared.get_ref(inner))
            },
            None => None,
        }
    }

    /// Another reference to the value. If nothing else borrows it, the future waits for this one.
    pub fn as_ref(&self, inner: &mut BorrowInner<T>) -> (rf: Ref<T>)
        requires
            self.ptr.valid(old(inner)),
            old(inner).graph@.branches[0].strong < usize::MAX,
            old(inner).weak < usize::MAX,
        ensures
            rf == Ref::<T>::through(0, Whole),
            rf.valid(final(inner)),
            self.ptr.valid(final(inner)),
            final(inner).tracked_from(*old(inner), 0),
            final(inner).graph@.borrows(0) == old(inner).graph@.borrows(0) + 1,
            final(inner).weak == old(inner).weak + 1,
    {
        let shared = match &self.ptr.shared {
            Some(shared) => shared.clone(inner),
            None => SharedPtr { inner: PhantomData },
        };
        inner.track(0);
        Ref { ptr: BorrowPtr { shared, index: 0 }, borrow: Whole, target: PhantomData }
    }

    /// The same future, as that of a reference to the whole value.
    pub fn generalise(self) -> (future: RefForward<T>)
        requires
            self.ptr.shared is Some,
        ensures
            future == RefForward::<T>::through(0, Whole),
    {
        assert(self.ptr.shared->0 == (SharedPtr { inner: PhantomData::<T> }));
        RefForward { ptr: self.ptr.generalise(), borrow: Whole, target: PhantomData }
    }

    /// Whether the value has come back.
    pub fn is_terminated(&self) -> (terminated: bool)
        ensures
            terminated == self.ptr.shared is None,
    {
        self.ptr.is_terminated()
    }

    /// Polls for the value.
    pub fn poll(&mut self, inner: &mut BorrowInner<T>, waker: Waker) -> (poll: Poll<ShareBox<T>>)
        requires
            old(self).ptr.valid(old(inner)),
        ensures
            final(inner).weak == old(inner).weak,
            match poll {
                Poll::Ready(_) => {
                    &&& final(self).ptr.shared is None
                    &&& old(inner).graph@.ready(0)
                    &&& final(inner).graph@ == old(inner).graph@.vacated(0)
                    &&& final(inner).data == old(inner).data
                    &&& final(inner).owned()
                },
                Poll::Pending => {
                    &&& final(self).ptr.valid(final(inner))
                    &&& final(inner).waits_from(*old(inner), 0, waker)
                },
            },
    {
        match self.ptr.poll_shared(inner, waker) {
            Poll::Ready(ptr) => Poll::Ready(ShareBox { ptr }),
            Poll::Pending => Poll::Pending,
        }
    }

    /// Shares the value that came back with `owner` again, or if not `again`, leaves it ready.
    pub fn share_again(
        &mut self,
        inner: &mut BorrowInner<T>,
        owner: ShareBox<T>,
        again: bool,
    ) -> (rf: Option<Ref<T>>)
        requires
            old(inner).owned(),
            old(inner).weak < usize::MAX,
        ensures
            rf is Some <==> again,
            final(self).ptr.valid(final(inner)),
            final(inner).data == old(inner).data,
            match rf {
                Some(rf) => {
                    &&& rf == Ref::<T>::through(0, Whole)
                    &&& rf.valid(final(inner))
                    &&& final(inner).graph@.lent_from(old(inner).graph@, END)
                    &&& final(inner).weak == old(inner).weak + 1
                },
                None => {
                    &&& final(inner).graph@.returned_from(old(inner).graph@, END)
                    &&& final(inner).weak == old(inner).weak
                },
            },
    {
        if again {
            let (fut, rf) = owner.share_ref(inner);
            *self = fut;
            Some(rf)
        } else {
            *self = owner.into_ref_share(inner);
            None
        }
    }

    /// Gives the future back: the value is dropped with the last reference.
    pub fn release(self, inner: &mut BorrowInner<T>)
        requires
            self.ptr.shared is Some ==> self.ptr.valid(old(inner)),
        ensures
            self.ptr.shared is None ==> *final(inner) == *old(inner),
            self.ptr.shared is Some ==> {
                &&& final(inner).wf()
                &&& final(inner).settled_from(*old(inner), old(inner).graph@.future_closed(0))
                &&& final(inner).weak == old(inner).weak - 1
            },
    {
        self.ptr.release(inner)
    }
}

impl<T> RefMutShare<T> {
    /// Waits for the value, to share it mutably again.
    pub fn spawn_mut(&mut self) -> (spawn: SpawnRefMut<'_, T>)
        ensures
            *spawn.fut == *old(self),
            *final(self) == *final(spawn.fut),
    {
        SpawnRefMut { fut: self }
    }

    /// Shares the value mutably again and again, as long as `f` agrees to the value that came back.
    pub fn spawn_mut_while<F: FnMut(&mut T) -> bool>(&mut self, f: F) -> (spawn: SpawnRefMutWhile<
        '_,
        T,
        F,
    >)
        ensures
            *spawn.fut == *old(self),
            *final(self) == *final(spawn.fut),
            spawn.f == f,
    {
        SpawnRefMutWhile { fut: self, f }
    }

    /// The same future, as that of a mutable reference to the whole value.
    pub fn generalise(self) -> (future: RefMutForward<T>)
        requires
            self.ptr.shared is Some,
        ensures
            future == RefMutForward::<T>::through(0, Whole),
    {
        assert(self.ptr.shared->0 == (SharedPtr { inner: PhantomData::<T> }));
        RefMutForward { ptr: self.ptr.generalise(), borrow: Whole, target: PhantomData }
    }

    /// Whether the value has come back.
    pub fn is_terminated(&self) -> (terminated: bool)
        ensures
            terminated == self.ptr.shared is None,
    {
        self.ptr.is_terminated()
    }

    /// Polls for the value.
    pub fn poll(&mut self, inner: &mut BorrowInner<T>, waker: Waker) -> (poll: Poll<ShareBox<T>>)
        requires
            old(self).ptr.valid(old(inner)),
        ensures
            final(inner).weak == old(inner).weak,
            match poll {
                Poll::Ready(_) => {
                    &&& final(self).ptr.shared is None
                    &&& old(inner).graph@.ready(0)
                    &&& final(inner).graph@ == old(inner).graph@.vacated(0)
                    &&& final(inner).data == old(inner).data
                    &&& final(inner).owned()
                },
                Poll::Pending => {
                    &&& final(self).ptr.valid(final(inner))
                    &&& final(inner).waits_from(*old(inner), 0, waker)
                },
            },
    {
        match self.ptr.poll_shared(inner, waker) {
            Poll::Ready(ptr) => Poll::Ready(ShareBox { ptr }),
            Poll::Pending => Poll::Pending,
        }
    }

    /// Shares the value that came back with `owner` again, or if not `again`, leaves it ready.
    pub fn share_again(
        &mut self,
        inner: &mut BorrowInner<T>,
        owner: ShareBox<T>,
        again: bool,
    ) -> (rf: Option<RefMut<T>>)
        requires
            old(inner).owned(),
            old(inner).weak < usize::MAX,
        ensures
            rf is Some <==> again,
            final(self).ptr.valid(final(inner)),
            final(inner).data == old(inner).data,
            match rf {
                Some(rf) => {
                    &&& rf == RefMut::<T>::through(0, Whole)
                    &&& rf.valid(final(inner))
                    &&& final(inner).graph@.lent_from(old(inner).graph@, END)
                    &&& final(inner).weak == old(inner).weak + 1
                },
                None => {
                    &&& final(inner).graph@.returned_from(old(inner).graph@, END)
                    &&& final(inner).weak == old(inner).weak
                },
            },
    {
        if again {
            let (fut, rf) = owner.share_mut(inner);
            *self = fut;
            Some(rf)
        } else {
            *self = owner.into_mut_share(inner);
            None
        }
    }

    /// Gives the future back: the value is dropped with the last reference.
    pub fn release(self, inner: &mut BorrowInner<T>)
        requires
            self.ptr.shared is Some ==> self.ptr.valid(old(inner)),
        ensures
            self.ptr.shared is None ==> *final(inner) == *old(inner),
            self.ptr.shared is Some ==> {
                &&& final(inner).wf()
                &&& final(inner).settled_from(*old(inner), old(inner).graph@.future_closed(0))
                &&& final(inner).weak == old(inner).weak - 1
            },
    {
        self.ptr.release(inner)
    }
}

impl<T> From<RefShare<T>> for RefMutShare<T> {
    fn from(value: RefShare<T>) -> (future: Self) {
        RefMutShare { ptr: value.ptr }
    }
}

impl<T> vstd::std_specs::convert::FromSpecImpl<RefShare<T>> for RefMutShare<T> {
    open spec fn obeys_from_spec() -> bool {
        true
    }

    open spec fn from_spec(value: RefShare<T>) -> Self {
        RefMutShare { ptr: value.ptr }
    }
}

impl<T, B: ?Sized, P> RefForward<T, B, P> {
    /// Waits for the reference, to lend it on again.
    pub fn split(&mut self) -> (split: SplitRef<'_, T, B, P>)
        ensures
            *split.fut == *old(self),
            *final(self) == *final(split.fut),
    {
        SplitRef { fut: self }
    }

    /// Lends the reference on again and again, as long as `f` agrees to the part that came back.
    pub fn split_while<F: FnMut(&mut B) -> bool>(&mut self, f: F) -> (split: SplitRefWhile<
        '_,
        T,
        B,
        P,
        F,
    >)
        ensures
            *split.fut == *old(self),
            *final(self) == *final(split.fut),
            split.f == f,
    {
        SplitRefWhile { fut: self, f }
    }

    /// The whole value, until the reference has come back.
    pub fn get<'a>(&self, inner: &'a BorrowInner<T>) -> (value: Option<&'a T>)
        requires
            self.ptr.shared is Some ==> self.ptr.valid(inner),
        ensures
            value is Some <==> self.ptr.shared is Some,
            value is Some ==> *value->0 == inner.data->0,
    {
        match &self.ptr.shared {
            Some(shared) => {
                proof {
                    inner.lemma_awaits(self.ptr.index);
                }
                Some(shared.get_ref(inner))
            },
            None => None,
        }
    }

    /// Another reference to the part. If nothing else borrows it, the future waits for this one.
    pub fn as_ref(&self, inner: &mut BorrowInner<T>) -> (rf: Ref<T, B, P>) where P: Copy
        requires
            self.ptr.valid(old(inner)),
            old(inner).graph@.branches[self.ptr.index].strong < usize::MAX,
            old(inner).weak < usize::MAX,
        ensures
            rf == Ref::<T, B, P>::through(self.ptr.index, self.borrow),
            rf.valid(final(inner)),
            self.ptr.valid(final(inner)),
            final(inner).tracked_from(*old(inner), self.ptr.index),
            final(inner).graph@.borrows(self.ptr.index) == old(inner).graph@.borrows(self.ptr.index) + 1,
            final(inner).weak == old(inner).weak + 1,
    {
        let shared = match &self.ptr.shared {
            Some(shared) => shared.clone(inner),
            None => SharedPtr { inner: PhantomData },
        };
        inner.track(self.ptr.index);
        Ref {
            ptr: BorrowPtr { shared, index: self.ptr.index },
            borrow: self.borrow,
            target: PhantomData,
        }
    }

    /// Whether the reference has come back.
    pub fn is_terminated(&self) -> (terminated: bool)
        ensures
            terminated == self.ptr.shared is None,
    {
        self.ptr.is_terminated()
    }

    /// Polls for the reference.
    pub fn poll(&mut self, inner: &mut BorrowInner<T>, waker: Waker) -> (poll: Poll<RefMut<T, B, P>>)
        where P: Copy
        requires
            old(self).ptr.valid(old(inner)),
        ensures
            final(self).ptr.index == old(self).ptr.index,
            final(self).borrow == old(self).borrow,
            final(inner).weak == old(inner).weak,
            match poll {
                Poll::Ready(rf_mut) => {
                    let parent = old(inner).graph@.branches[old(self).ptr.index].parent;
                    &&& final(self).ptr.shared is None
                    &&& old(inner).graph@.ready(old(self).ptr.index)
                    &&& rf_mut == RefMut::<T, B, P>::through(parent, old(self).borrow)
                    &&& rf_mut.valid(final(inner))
                    &&& final(inner).graph@ == old(inner).graph@.vacated(old(self).ptr.index)
                    &&& final(inner).data == old(inner).data
                },
                Poll::Pending => {
                    &&& final(self).ptr.valid(final(inner))
                    &&& final(inner).waits_from(*old(inner), old(self).ptr.index, waker)
                },
            },
    {
        match self.ptr.poll_borrow(inner, waker) {
            Poll::Ready(ptr) => Poll::Ready(
                RefMut { ptr, borrow: self.borrow, target: PhantomData },
            ),
            Poll::Pending => Poll::Pending,
        }
    }

    /// Lends the reference that came back on again, or if not `again`, leaves it ready.
    pub fn lend_again(
        &mut self,
        inner: &mut BorrowInner<T>,
        came_back: RefMut<T, B, P>,
        again: bool,
    ) -> (rf: Option<Ref<T, B, P>>) where P: Copy
        requires
            old(inner).can_forward(came_back.ptr.index),
            old(inner).weak < usize::MAX,
        ensures
            rf is Some <==> again,
            *final(self) == RefForward::<T, B, P>::through(
                old(inner).graph@.next_index(),
                came_back.borrow,
            ),
            final(self).ptr.valid(final(inner)),
            final(inner).data == old(inner).data,
            match rf {
                Some(rf) => {
                    &&& rf == Ref::<T, B, P>::through(
                        old(inner).graph@.next_index(),
                        came_back.borrow,
                    )
                    &&& rf.valid(final(inner))
                    &&& final(inner).graph@.lent_from(old(inner).graph@, came_back.ptr.index)
                    &&& final(inner).weak == old(inner).weak + 1
                },
                None => {
                    &&& final(inner).graph@.returned_from(old(inner).graph@, came_back.ptr.index)
                    &&& final(inner).weak == old(inner).weak
                },
            },
    {
        if again {
            let (fut, rf) = came_back.forward_ref(inner);
            *self = fut;
            Some(rf)
        } else {
            *self = came_back.into_ref_forward(inner);
            None
        }
    }

    /// Gives the future back: with the last reference, the one that was lent on is given back.
    pub fn release(self, inner: &mut BorrowInner<T>)
        requires
            self.ptr.shared is Some ==> self.ptr.valid(old(inner)),
        ensures
            self.ptr.shared is None ==> *final(inner) == *old(inner),
            self.ptr.shared is Some ==> {
                &&& final(inner).wf()
                &&& final(inner).settled_from(
                    *old(inner),
                    old(inner).graph@.future_closed(self.ptr.index),
                )
                &&& final(inner).weak == old(inner).weak - 1
            },
    {
        self.ptr.release(inner)
    }
}

impl<T, B: ?Sized, P> RefMutForward<T, B, P> {
    /// Waits for the reference, to lend it on mutably again.
    pub fn split_mut(&mut self) -> (split: SplitRefMut<'_, T, B, P>)
        ensures
            *split.fut == *old(self),
            *final(self) == *final(split.fut),
    {
        SplitRefMut { fut: self }
    }

    /// Lends the reference on mutably again and again, as long as `f` agrees to the part that came
    /// back.
    pub fn split_mut_while<F: FnMut(&mut B) -> bool>(&mut self, f: F) -> (split: SplitRefMutWhile<
        '_,
        T,
        B,
        P,
        F,
    >)
        ensures
            *split.fut == *old(self),
            *final(self) == *final(split.fut),
            split.f == f,
    {
        SplitRefMutWhile { fut: self, f }
    }

    /// Whether the reference has come back.
    pub fn is_terminated(&self) -> (terminated: bool)
        ensures
            terminated == self.ptr.shared is None,
    {
        self.ptr.is_terminated()
    }

    /// Polls for the reference.
    pub fn poll(&mut self, inner: &mut BorrowInner<T>, waker: Waker) -> (poll: Poll<RefMut<T, B, P>>)
        where P: Copy
        requires
            old(self).ptr.valid(old(inner)),
        ensures
            final(self).ptr.index == old(self).ptr.index,
            final(self).borrow == old(self).borrow,
            final(inner).weak == old(inner).weak,
            match poll {
                Poll::Ready(rf_mut) => {
                    let parent = old(inner).graph@.branches[old(self).ptr.index].parent;
                    &&& final(self).ptr.shared is None
                    &&& old(inner).graph@.ready(old(self).ptr.index)
                    &&& rf_mut == RefMut::<T, B, P>::through(parent, old(self).borrow)
                    &&& rf_mut.valid(final(inner))
                    &&& final(inner).graph@ == old(inner).graph@.vacated(old(self).ptr.index)
                    &&& final(inner).data == old(inner).data
                },
                Poll::Pending => {
                    &&& final(self).ptr.valid(final(inner))
                    &&& final(inner).waits_from(*old(inner), old(self).ptr.index, waker)
                },
            },
    {
        match self.ptr.poll_borrow(inner, waker) {
            Poll::Ready(ptr) => Poll::Ready(
                RefMut { ptr, borrow: self.borrow, target: PhantomData },
            ),
            Poll::Pending => Poll::Pending,
        }
    }

    /// Lends the reference that came back on again, or if not `again`, leaves it ready.
    pub fn lend_again(
        &mut self,
        inner: &mut BorrowInner<T>,
        came_back: RefMut<T, B, P>,
        again: bool,
    ) -> (rf: Option<RefMut<T, B, P>>) where P: Copy
        requires
            old(inner).can_forward(came_back.ptr.index),
            old(inner).weak < usize::MAX,
        ensures
            rf is Some <==> again,
            *final(self) == RefMutForward::<T, B, P>::through(
                old(inner).graph@.next_index(),
                came_back.borrow,
            ),
            final(self).ptr.valid(final(inner)),
            final(inner).data == old(inner).data,
            match rf {
                Some(rf) => {
                    &&& rf == RefMut::<T, B, P>::through(
                        old(inner).graph@.next_index(),
                        came_back.borrow,
                    )
                    &&& rf.valid(final(inner))
                    &&& final(inner).graph@.lent_from(old(inner).graph@, came_back.ptr.index)
                    &&& final(inner).weak == old(inner).weak + 1
                },
                None => {
                    &&& final(inner).graph@.returned_from(old(inner).graph@, came_back.ptr.index)
                    &&& final(inner).weak == old(inner).weak
                },
            },
    {
        if again {
            let (fut, rf) = came_back.forward_mut(inner);
            *self = fut;
            Some(rf)
        } else {
            *self = came_back.into_mut_forward(inner);
            None
        }
    }

    /// Gives the future back: with the last reference, the one that was lent on is given back.
    pub fn release(self, inner: &mut BorrowInner<T>)
        requires
            self.ptr.shared is Some ==> self.ptr.valid(old(inner)),
        ensures
            self.ptr.shared is None ==> *final(inner) == *old(inner),
            self.ptr.shared is Some ==> {
                &&& final(inner).wf()
                &&& final(inner).settled_from(
                    *old(inner),
                    old(inner).graph@.future_closed(self.ptr.index),
                )
                &&& final(inner).weak == old(inner).weak - 1
            },
    {
        self.ptr.release(inner)
    }
}

impl<T, B: ?Sized, P> From<RefForward<T, B, P>> for RefMutForward<T, B, P> {
    fn from(value: RefForward<T, B, P>) -> (future: Self) {
        RefMutForward { ptr: value.ptr, borrow: value.borrow, target: PhantomData }
    }
}

impl<T, B: ?Sized, P> vstd::std_specs::convert::FromSpecImpl<RefForward<T, B, P>> for RefMutForward<T, B, P> {
    open spec fn obeys_from_spec() -> bool {
        true
    }

    open spec fn from_spec(value: RefForward<T, B, P>) -> Self {
        RefMutForward { ptr: value.ptr, borrow: value.borrow, target: PhantomData }
    }
}

/// The future of a reference to a value that is to be shared again.
pub struct SpawnRef<'f, T> {
    /// The future of the value.
    pub fut: &'f mut RefShare<T>,
}

/// The future of a mutable reference to a value that is to be shared again.
pub struct SpawnRefMut<'f, T> {
    /// The future of the value.
    pub fut: &'f mut RefMutShare<T>,
}

/// The future of a reference to a part that is to be lent on again.
pub struct SplitRef<'f, T, B: ?Sized, P = Whole> {
    /// The future of the part.
    pub fut: &'f mut RefForward<T, B, P>,
}

/// The future of a mutable reference to a part that is to be lent on again.
pub struct SplitRefMut<'f, T, B: ?Sized, P = Whole> {
    /// The future of the part.
    pub fut: &'f mut RefMutForward<T, B, P>,
}

/// References to a value that is shared again and again.
pub struct SpawnRefWhile<'f, T, F: FnMut(&mut T) -> bool> {
    /// The future of the value.
    pub fut: &'f mut RefShare<T>,
    /// Whether to go on.
    pub f: F,
}

/// Mutable references to a value that is shared again and again.
pub struct SpawnRefMutWhile<'f, T, F: FnMut(&mut T) -> bool> {
    /// The future of the value.
    pub fut: &'f mut RefMutShare<T>,
    /// Whether to go on.
    pub f: F,
}

/// References to a part that is lent on again and again.
pub struct SplitRefWhile<'f, T, B: ?Sized, P, F: FnMut(&mut B) -> bool> {
    /// The future of the part.
    pub fut: &'f mut RefForward<T, B, P>,
    /// Whether to go on.
    pub f: F,
}

/// Mutable references to a part that is lent on again and again.
pub struct SplitRefMutWhile<'f, T, B: ?Sized, P, F: FnMut(&mut B) -> bool> {
    /// The future of the part.
    pub fut: &'f mut RefMutForward<T, B, P>,
    /// Whether to go on.
    pub f: F,
}

impl<'f, T> SpawnRef<'f, T> {
    /// Polls for a reference: once the value has come back it is shared again.
    pub fn poll(&mut self, inner: &mut BorrowInner<T>, waker: Waker) -> (poll: Poll<Ref<T>>)
        requires
            old(self).fut.ptr.valid(old(inner)),
            old(inner).weak < usize::MAX,
        ensures
            *final(final(self).fut) == *final(old(self).fut),
            final(self).fut.ptr.valid(final(inner)),
            match poll {
                Poll::Ready(rf) => {
                    &&& old(inner).graph@.ready(0)
                    &&& rf == Ref::<T>::through(0, Whole)
                    &&& rf.valid(final(inner))
                    &&& final(inner).graph@.lent_from(old(inner).graph@.vacated(0), END)
                    &&& final(inner).data == old(inner).data
                    &&& final(inner).weak == old(inner).weak + 1
                },
                Poll::Pending => {
                    &&& final(inner).waits_from(*old(inner), 0, waker)
                    &&& final(inner).weak == old(inner).weak
                },
            },
    {
        match self.fut.poll(inner, waker) {
            Poll::Ready(owner) => {
                let (fut, rf) = owner.share_ref(inner);
                *self.fut = fut;
                Poll::Ready(rf)
            },
            Poll::Pending => Poll::Pending,
        }
    }

    /// The future that is waited for.
    pub fn deref(&self) -> (fut: &RefShare<T>)
        ensures
            *fut == *old(self.fut),
    {
        self.fut
    }

    /// The future that is waited for, to be changed.
    pub fn deref_mut(&mut self) -> (fut: &mut RefShare<T>)
        ensures
            *fut == *old(self).fut,
            *final(fut) == *final(self).fut,
            *final(final(self).fut) == *final(old(self).fut),
    {
        self.fut
    }
}

impl<'f, T> SpawnRefMut<'f, T> {
    /// Polls for a mutable reference: once the value has come back it is shared again.
    pub fn poll(&mut self, inner: &mut BorrowInner<T>, waker: Waker) -> (poll: Poll<RefMut<T>>)
        requires
            old(self).fut.ptr.valid(old(inner)),
            old(inner).weak < usize::MAX,
        ensures
            *final(final(self).fut) == *final(old(self).fut),
            final(self).fut.ptr.valid(final(inner)),
            match poll {
                Poll::Ready(rf_mut) => {
                    &&& old(inner).graph@.ready(0)
                    &&& rf_mut == RefMut::<T>::through(0, Whole)
                    &&& rf_mut.valid(final(inner))
                    &&& final(inner).graph@.lent_from(old(inner).graph@.vacated(0), END)
                    &&& final(inner).data == old(inner).data
                    &&& final(inner).weak == old(inner).weak + 1
                },
                Poll::Pending => {
                    &&& final(inner).waits_from(*old(inner), 0, waker)
                    &&& final(inner).weak == old(inner).weak
                },
            },
    {
        match self.fut.poll(inner, waker) {
            Poll::Ready(owner) => {
                let (fut, rf_mut) = owner.share_mut(inner);
                *self.fut = fut;
                Poll::Ready(rf_mut)
            },
            Poll::Pending => Poll::Pending,
        }
    }

    /// The future that is waited for.
    pub fn deref(&self) -> (fut: &RefMutShare<T>)
        ensures
            *fut == *old(self.fut),
    {
        self.fut
    }

    /// The future that is waited for, to be changed.
    pub fn deref_mut(&mut self) -> (fut: &mut RefMutShare<T>)
        ensures
            *fut == *old(self).fut,
            *final(fut) == *final(self).fut,
            *final(final(self).fut) == *final(old(self).fut),
    {
        self.fut
    }
}

impl<'f, T, B: ?Sized, P: Copy> SplitRef<'f, T, B, P> {
    /// Polls for a reference: once the part has come back it is lent on again.
    pub fn poll(&mut self, inner: &mut BorrowInner<T>, waker: Waker) -> (poll: Poll<Ref<T, B, P>>)
        requires
            old(self).fut.ptr.valid(old(inner)),
            old(inner).weak < usize::MAX,
        ensures
            *final(final(self).fut) == *final(old(self).fut),
            final(self).fut.ptr.valid(final(inner)),
            final(self).fut.ptr.index == old(self).fut.ptr.index,
            final(self).fut.borrow == old(self).fut.borrow,
            ({
                let index = old(self).fut.ptr.index;
                match poll {
                    Poll::Ready(rf) => {
                        &&& old(inner).graph@.ready(index)
                        &&& rf == Ref::<T, B, P>::through(index, old(self).fut.borrow)
                        &&& rf.valid(final(inner))
                        &&& final(inner).graph@.lent_from(
                            old(inner).graph@.vacated(index),
                            old(inner).graph@.branches[index].parent,
                        )
                        &&& final(inner).data == old(inner).data
                        &&& final(inner).weak == old(inner).weak + 1
                    },
                    Poll::Pending => {
                        &&& final(inner).waits_from(*old(inner), index, waker)
                        &&& final(inner).weak == old(inner).weak
                    },
                }
            }),
    {
        match self.fut.poll(inner, waker) {
            Poll::Ready(came_back) => {
                let (fut, rf) = came_back.forward_ref(inner);
                *self.fut = fut;
                Poll::Ready(rf)
            },
            Poll::Pending => Poll::Pending,
        }
    }

    /// The future that is waited for.
    pub fn deref(&self) -> (fut: &RefForward<T, B, P>)
        ensures
            *fut == *old(self.fut),
    {
        self.fut
    }

    /// The future that is waited for, to be changed.
    pub fn deref_mut(&mut self) -> (fut: &mut RefForward<T, B, P>)
        ensures
            *fut == *old(self).fut,
            *final(fut) == *final(self).fut,
            *final(final(self).fut) == *final(old(self).fut),
    {
        self.fut
    }
}

impl<'f, T, B: ?Sized, P: Copy> SplitRefMut<'f, T, B, P> {
    /// Polls for a mutable reference: once the part has come back it is lent on again.
    pub fn poll(&mut self, inner: &mut BorrowInner<T>, waker: Waker) -> (poll: Poll<RefMut<T, B, P>>)
        requires
            old(self).fut.ptr.valid(old(inner)),
            old(inner).weak < usize::MAX,
        ensures
            *final(final(self).fut) == *final(old(self).fut),
            final(self).fut.ptr.valid(final(inner)),
            final(self).fut.ptr.index == old(self).fut.ptr.index,
            final(self).fut.borrow == old(self).fut.borrow,
            ({
                let index = old(self).fut.ptr.index;
                match poll {
                    Poll::Ready(rf_mut) => {
                        &&& old(inner).graph@.ready(index)
                        &&& rf_mut == RefMut::<T, B, P>::through(index, old(self).fut.borrow)
                        &&& rf_mut.valid(final(inner))
                        &&& final(inner).graph@.lent_from(
                            old(inner).graph@.vacated(index),
                            old(inner).graph@.branches[index].parent,
                        )
                        &&& final(inner).data == old(inner).data
                        &&& final(inner).weak == old(inner).weak + 1
                    },
                    Poll::Pending => {
                        &&& final(inner).waits_from(*old(inner), index, waker)
                        &&& final(inner).weak == old(inner).weak
                    },
                }
            }),
    {
        match self.fut.poll(inner, waker) {
            Poll::Ready(came_back) => {
                let (fut, rf_mut) = came_back.forward_mut(inner);
                *self.fut = fut;
                Poll::Ready(rf_mut)
            },
            Poll::Pending => Poll::Pending,
        }
    }

    /// The future that is waited for.
    pub fn deref(&self) -> (fut: &RefMutForward<T, B, P>)
        ensures
            *fut == *old(self.fut),
    {
        self.fut
    }

    /// The future that is waited for, to be changed.
    pub fn deref_mut(&mut self) -> (fut: &mut RefMutForward<T, B, P>)
        ensures
            *fut == *old(self).fut,
            *final(fut) == *final(self).fut,
            *final(final(self).fut) == *final(old(self).fut),
    {
        self.fut
    }
}

impl<'f, T, F: FnMut(&mut T) -> bool> SpawnRefWhile<'f, T, F> {
    /// Polls for the next reference: once the value has come back, it is shared again if `f` agrees
    /// to it, and left ready if not.
    pub fn poll_next(&mut self, inner: &mut BorrowInner<T>, waker: Waker) -> (poll: Poll<
        Option<Ref<T>>,
    >)
        requires
            old(self).fut.ptr.valid(old(inner)),
            old(inner).weak < usize::MAX,
            forall|value: &mut T|
                *value == old(inner).data->0 ==> #[trigger] call_requires(old(self).f, (value,)),
        ensures
            final(self).f == old(self).f,
            *final(final(self).fut) == *final(old(self).fut),
            final(self).fut.ptr.valid(final(inner)),
            match poll {
                Poll::Ready(next) => {
                    &&& old(inner).graph@.ready(0)
                    &&& exists|value: &mut T|
                        {
                            &&& *value == old(inner).data->0
                            &&& Some(*final(value)) == final(inner).data
                            &&& #[trigger] call_ensures(old(self).f, (value,), next is Some)
                        }
                    &&& match next {
                        Some(rf) => {
                            &&& rf == Ref::<T>::through(0, Whole)
                            &&& rf.valid(final(inner))
                            &&& final(inner).graph@.lent_from(old(inner).graph@.vacated(0), END)
                            &&& final(inner).weak == old(inner).weak + 1
                        },
                        None => {
                            &&& final(inner).graph@.returned_from(
                                old(inner).graph@.vacated(0),
                                END,
                            )
                            &&& final(inner).weak == old(inner).weak
                        },
                    }
                },
                Poll::Pending => {
                    &&& final(inner).waits_from(*old(inner), 0, waker)
                    &&& final(inner).weak == old(inner).weak
                },
            },
    {
        match self.fut.poll(inner, waker) {
            Poll::Ready(mut owner) => {
                let again: bool = (self.f)(owner.deref_mut(inner));
                Poll::Ready(self.fut.share_again(inner, owner, again))
            },
            Poll::Pending => Poll::Pending,
        }
    }

    /// The future that is waited for.
    pub fn deref(&self) -> (fut: &RefShare<T>)
        ensures
            *fut == *old(self.fut),
    {
        self.fut
    }

    /// The future that is waited for, to be changed.
    pub fn deref_mut(&mut self) -> (fut: &mut RefShare<T>)
        ensures
            *fut == *old(self).fut,
            *final(fut) == *final(self).fut,
            *final(final(self).fut) == *final(old(self).fut),
    {
        self.fut
    }
}

impl<'f, T, F: FnMut(&mut T) -> bool> SpawnRefMutWhile<'f, T, F> {
    /// Polls for the next mutable reference: once the value has come back, it is shared again if `f` agrees
    /// to it, and left ready if not.
    pub fn poll_next(&mut self, inner: &mut BorrowInner<T>, waker: Waker) -> (poll: Poll<
        Option<RefMut<T>>,
    >)
        requires
            old(self).fut.ptr.valid(old(inner)),
            old(inner).weak < usize::MAX,
            forall|value: &mut T|
                *value == old(inner).data->0 ==> #[trigger] call_requires(old(self).f, (value,)),
        ensures
            final(self).f == old(self).f,
            *final(final(self).fut) == *final(old(self).fut),
            final(self).fut.ptr.valid(final(inner)),
            match poll {
                Poll::Ready(next) => {
                    &&& old(inner).graph@.ready(0)
                    &&& exists|value: &mut T|
                        {
                            &&& *value == old(inner).data->0
                            &&& Some(*final(value)) == final(inner).data
                            &&& #[trigger] call_ensures(old(self).f, (value,), next is Some)
                        }
                    &&& match next {
                        Some(rf_mut) => {
                            &&& rf_mut == RefMut::<T>::through(0, Whole)
                            &&& rf_mut.valid(final(inner))
                            &&& final(inner).graph@.lent_from(old(inner).graph@.vacated(0), END)
                            &&& final(inner).weak == old(inner).weak + 1
                        },
                        None => {
                            &&& final(inner).graph@.returned_from(
                                old(inner).graph@.vacated(0),
                                END,
                            )
                            &&& final(inner).weak == old(inner).weak
                        },
                    }
                },
                Poll::Pending => {
                    &&& final(inner).waits_from(*old(inner), 0, waker)
                    &&& final(inner).weak == old(inner).weak
                },
            },
    {
        match self.fut.poll(inner, waker) {
            Poll::Ready(mut owner) => {
                let again: bool = (self.f)(owner.deref_mut(inner));
                Poll::Ready(self.fut.share_again(inner, owner, again))
            },
            Poll::Pending => Poll::Pending,
        }
    }

    /// The future that is waited for.
    pub fn deref(&self) -> (fut: &RefMutShare<T>)
        ensures
            *fut == *old(self.fut),
    {
        self.fut
    }

    /// The future that is waited for, to be changed.
    pub fn deref_mut(&mut self) -> (fut: &mut RefMutShare<T>)
        ensures
            *fut == *old(self).fut,
            *final(fut) == *final(self).fut,
            *final(final(self).fut) == *final(old(self).fut),
    {
        self.fut
    }
}

impl<
    'f,
    T,
    B: 'static,
    P: Place<T, Target = B>,
    F: FnMut(&mut B) -> bool,
> SplitRefWhile<'f, T, B, P, F> {
    /// Polls for the next reference: once the part has come back, it is lent on again if `f` agrees
    /// to it, and left ready if not.
    pub fn poll_next(&mut self, inner: &mut BorrowInner<T>, waker: Waker) -> (poll: Poll<
        Option<Ref<T, B, P>>,
    >)
        requires
            old(self).fut.ptr.valid(old(inner)),
            old(self).fut.borrow.valid(old(inner).data->0),
            old(inner).weak < usize::MAX,
            forall|part: &mut B|
                *part == old(self).fut.borrow.at(old(inner).data->0) ==> #[trigger] call_requires(
                    old(self).f,
                    (part,),
                ),
        ensures
            final(self).f == old(self).f,
            *final(final(self).fut) == *final(old(self).fut),
            final(self).fut.ptr.valid(final(inner)),
            final(self).fut.ptr.index == old(self).fut.ptr.index,
            final(self).fut.borrow == old(self).fut.borrow,
            ({
                let index = old(self).fut.ptr.index;
                let borrow = old(self).fut.borrow;
                let parent = old(inner).graph@.branches[index].parent;
                match poll {
                    Poll::Ready(next) => {
                        &&& old(inner).graph@.ready(index)
                        &&& borrow.only(old(inner).data->0, final(inner).data->0)
                        &&& exists|part: &mut B|
                            {
                                &&& *part == borrow.at(old(inner).data->0)
                                &&& *final(part) == borrow.at(final(inner).data->0)
                                &&& #[trigger] call_ensures(old(self).f, (part,), next is Some)
                            }
                        &&& match next {
                            Some(rf) => {
                                &&& rf == Ref::<T, B, P>::through(index, borrow)
                                &&& rf.valid(final(inner))
                                &&& final(inner).graph@.lent_from(
                                    old(inner).graph@.vacated(index),
                                    parent,
                                )
                                &&& final(inner).weak == old(inner).weak + 1
                            },
                            None => {
                                &&& final(inner).graph@.returned_from(
                                    old(inner).graph@.vacated(index),
                                    parent,
                                )
                                &&& final(inner).weak == old(inner).weak
                            },
                        }
                    },
                    Poll::Pending => {
                            &&& final(inner).waits_from(*old(inner), index, waker)
                        &&& final(inner).weak == old(inner).weak
                    },
                }
            }),
    {
        match self.fut.poll(inner, waker) {
            Poll::Ready(mut came_back) => {
                let again: bool = (self.f)(came_back.deref_mut(inner));
                Poll::Ready(self.fut.lend_again(inner, came_back, again))
            },
            Poll::Pending => Poll::Pending,
        }
    }

    /// The future that is waited for.
    pub fn deref(&self) -> (fut: &RefForward<T, B, P>)
        ensures
            *fut == *old(self.fut),
    {
        self.fut
    }

    /// The future that is waited for, to be changed.
    pub fn deref_mut(&mut self) -> (fut: &mut RefForward<T, B, P>)
        ensures
            *fut == *old(self).fut,
            *final(fut) == *final(self).fut,
            *final(final(self).fut) == *final(old(self).fut),
    {
        self.fut
    }
}

impl<
    'f,
    T,
    B: 'static,
    P: Place<T, Target = B>,
    F: FnMut(&mut B) -> bool,
> SplitRefMutWhile<'f, T, B, P, F> {
    /// Polls for the next mutable reference: once the part has come back, it is lent on again if `f` agrees
    /// to it, and left ready if not.
    pub fn poll_next(&mut self, inner: &mut BorrowInner<T>, waker: Waker) -> (poll: Poll<
        Option<RefMut<T, B, P>>,
    >)
        requires
            old(self).fut.ptr.valid(old(inner)),
            old(self).fut.borrow.valid(old(inner).data->0),
            old(inner).weak < usize::MAX,
            forall|part: &mut B|
                *part == old(self).fut.borrow.at(old(inner).data->0) ==> #[trigger] call_requires(
                    old(self).f,
                    (part,),
                ),
        ensures
            final(self).f == old(self).f,
            *final(final(self).fut) == *final(old(self).fut),
            final(self).fut.ptr.valid(final(inner)),
            final(self).fut.ptr.index == old(self).fut.ptr.index,
            final(self).fut.borrow == old(self).fut.borrow,
            ({
                let index = old(self).fut.ptr.index;
                let borrow = old(self).fut.borrow;
                let parent = old(inner).graph@.branches[index].parent;
                match poll {
                    Poll::Ready(next) => {
                        &&& old(inner).graph@.ready(index)
                        &&& borrow.only(old(inner).data->0, final(inner).data->0)
                        &&& exists|part: &mut B|
                            {
                                &&& *part == borrow.at(old(inner).data->0)
                                &&& *final(part) == borrow.at(final(inner).data->0)
                                &&& #[trigger] call_ensures(old(self).f, (part,), next is Some)
                            }
                        &&& match next {
                            Some(rf_mut) => {
                                &&& rf_mut == RefMut::<T, B, P>::through(index, borrow)
                                &&& rf_mut.valid(final(inner))
                                &&& final(inner).graph@.lent_from(
                                    old(inner).graph@.vacated(index),
                                    parent,
                                )
                                &&& final(inner).weak == old(inner).weak + 1
                            },
                            None => {
                                &&& final(inner).graph@.returned_from(
                                    old(inner).graph@.vacated(index),
                                    parent,
                                )
                                &&& final(inner).weak == old(inner).weak
                            },
                        }
                    },
                    Poll::Pending => {
                            &&& final(inner).waits_from(*old(inner), index, waker)
                        &&& final(inner).weak == old(inner).weak
                    },
                }
            }),
    {
        match self.fut.poll(inner, waker) {
            Poll::Ready(mut came_back) => {
                let again: bool = (self.f)(came_back.deref_mut(inner));
                Poll::Ready(self.fut.lend_again(inner, came_back, again))
            },
            Poll::Pending => Poll::Pending,
        }
    }

    /// The future that is waited for.
    pub fn deref(&self) -> (fut: &RefMutForward<T, B, P>)
        ensures
            *fut == *old(self.fut),
    {
        self.fut
    }

    /// The future that is waited for, to be changed.
    pub fn deref_mut(&mut self) -> (fut: &mut RefMutForward<T, B, P>)
        ensures
            *fut == *old(self).fut,
            *final(fut) == *final(self).fut,
            *final(final(self).fut) == *final(old(self).fut),
    {
        self.fut
    }
}

} // verus!
