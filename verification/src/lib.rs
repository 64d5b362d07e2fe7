//! Borrowing without lifetimes.
//!
//! Ownership and borrowing are recreated on the heap. A value is put in an allocation by
//! [`ShareBox::new`]. By-value methods lend it: they return a smart pointer, and a future that
//! gives back the previous privileges once the number of references has come down to zero.
//!
//! The allocation, a [`BorrowInner`], is explicit: every method that uses it takes it as an
//! argument. Pointers and futures are tokens that are given back by their `release` methods, and
//! the wakers whose tasks became due are handed out by [`graph::Graph::take_due`].
use vstd::prelude::*;

pub mod collections;
pub mod contract;
pub mod future;
pub mod graph;
pub mod inner;
pub mod laws;
pub mod place;
pub mod pointers;
pub mod scope;
pub mod slice;
pub mod tuple;
pub mod waker;
pub mod wide;

pub use future::{
    RefForward, RefMutForward, RefMutShare, RefShare, SpawnRef, SpawnRefMut, SpawnRefMutWhile,
    SpawnRefWhile, SplitRef, SplitRefMut, SplitRefMutWhile, SplitRefWhile,
};
pub use inner::BorrowInner;
pub use pointers::{Context, Ref, RefMut, ShareBox, Weak};
pub use waker::Poll;
pub use wide::{
    WideRef, WideRefForward, WideRefMut, WideRefMutForward, WideRefMutShare, WideRefShare,
    WideShareBox, WideWeak,
};

verus! {

} // verus!
