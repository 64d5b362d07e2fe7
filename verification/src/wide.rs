//! Sharing values of unknown size, in a box.
use vstd::prelude::*;
use crate::future::{RefForward, RefMutForward, RefMutShare, RefShare};
use crate::graph::END;
use crate::inner::BorrowInner;
use crate::place::Unboxed;
use crate::pointers::{Ref, RefMut, ShareBox, Weak};

verus! {

/// The owner of a boxed value.
#[allow(type_alias_bounds)]
pub type WideShareBox<T: ?Sized> = ShareBox<Box<T>>;

/// A reference into a boxed value that does not keep it.
#[allow(type_alias_bounds)]
pub type WideWeak<T: ?Sized, B: ?Sized = T, P = Unboxed> = Weak<Box<T>, B, P>;

/// A reference into a boxed value.
#[allow(type_alias_bounds)]
pub type WideRef<T: ?Sized, B: ?Sized = T, P = Unboxed> = Ref<Box<T>, B, P>;

/// A mutable reference into a boxed value.
#[allow(type_alias_bounds)]
pub type WideRefMut<T: ?Sized, B: ?Sized = T, P = Unboxed> = RefMut<Box<T>, B, P>;

/// The future of a boxed value that is shared.
#[allow(type_alias_bounds)]
pub type WideRefShare<T: ?Sized> = RefShare<Box<T>>;

/// The future of a boxed value that is shared mutably.
#[allow(type_alias_bounds)]
pub type WideRefMutShare<T: ?Sized> = RefMutShare<Box<T>>;

/// The future of a mutable reference into a boxed value that was lent on.
#[allow(type_alias_bounds)]
pub type WideRefForward<T: ?Sized, B: ?Sized = T, P = Unboxed> = RefForward<Box<T>, B, P>;

/// The future of a mutable reference into a boxed value that was lent on mutably.
#[allow(type_alias_bounds)]
pub type WideRefMutForward<T: ?Sized, B: ?Sized = T, P = Unboxed> = RefMutForward<Box<T>, B, P>;

impl<T: ?Sized> ShareBox<Box<T>> {
    /// Shares what the box holds.
    pub fn share_wide_ref(self, inner: &mut BorrowInner<Box<T>>) -> (shared: (
        WideRefShare<T>,
        WideRef<T>,
    ))
        requires
            old(inner).owned(),
            old(inner).weak < usize::MAX,
        ensures
            shared.0.ptr.valid(final(inner)),
            shared.1 == WideRef::<T>::through(0, Unboxed),
            shared.1.valid(final(inner)),
            final(inner).forwarded_from(*old(inner), END),
            final(inner).weak == old(inner).weak + 1,
    {
        let (future, rf) = self.share_ref(inner);
        (future, rf.into_deref())
    }

    /// Shares what the box holds mutably.
    pub fn share_wide_mut(self, inner: &mut BorrowInner<Box<T>>) -> (shared: (
        WideRefMutShare<T>,
        WideRefMut<T>,
    ))
        requires
            old(inner).owned(),
            old(inner).weak < usize::MAX,
        ensures
            shared.0.ptr.valid(final(inner)),
            shared.1 == WideRefMut::<T>::through(0, Unboxed),
            shared.1.valid(final(inner)),
            final(inner).forwarded_from(*old(inner), END),
            final(inner).weak == old(inner).weak + 1,
    {
        let (future, rf_mut) = self.share_mut(inner);
        (future, rf_mut.into_deref_mut())
    }

    /// Shares what the box holds with `f`, and hands over what it returns.
    pub fn spawn_wide_ref<U>(
        self,
        inner: &mut BorrowInner<Box<T>>,
        f: impl FnOnce(WideRef<T>) -> U,
    ) -> (spawned: (WideRefShare<T>, U))
        requires
            old(inner).owned(),
            old(inner).weak < usize::MAX,
            f.requires((WideRef::<T>::through(0, Unboxed),)),
        ensures
            spawned.0.ptr.valid(final(inner)),
            f.ensures((WideRef::<T>::through(0, Unboxed),), spawned.1),
            final(inner).holds(0),
            final(inner).forwarded_from(*old(inner), END),
            final(inner).weak == old(inner).weak + 1,
    {
        let (future, rf) = self.share_wide_ref(inner);
        let returned = f(rf);
        (future, returned)
    }

    /// Shares what the box holds mutably with `f`, and hands over what it returns.
    pub fn spawn_wide_mut<U>(
        self,
        inner: &mut BorrowInner<Box<T>>,
        f: impl FnOnce(WideRefMut<T>) -> U,
    ) -> (spawned: (WideRefMutShare<T>, U))
        requires
            old(inner).owned(),
            old(inner).weak < usize::MAX,
            f.requires((WideRefMut::<T>::through(0, Unboxed),)),
        ensures
            spawned.0.ptr.valid(final(inner)),
            f.ensures((WideRefMut::<T>::through(0, Unboxed),), spawned.1),
            final(inner).holds(0),
            final(inner).forwarded_from(*old(inner), END),
            final(inner).weak == old(inner).weak + 1,
    {
        let (future, rf_mut) = self.share_wide_mut(inner);
        let returned = f(rf_mut);
        (future, returned)
    }
}

impl<T: ?Sized> RefShare<Box<T>> {
    /// Another reference to what the box holds. If nothing else borrows it, the future waits for
    /// this one.
    pub fn as_wide_ref(&self, inner: &mut BorrowInner<Box<T>>) -> (rf: WideRef<T>)
        requires
            self.ptr.valid(old(inner)),
            old(inner).graph@.branches[0].strong < usize::MAX,
            old(inner).weak < usize::MAX,
        ensures
            rf == WideRef::<T>::through(0, Unboxed),
            rf.valid(final(inner)),
            self.ptr.valid(final(inner)),
            final(inner).tracked_from(*old(inner), 0),
            final(inner).graph@.borrows(0) == old(inner).graph@.borrows(0) + 1,
            final(inner).weak == old(inner).weak + 1,
    {
        self.as_ref(inner).into_deref()
    }
}

} // verus!
