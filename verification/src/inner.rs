//! The shared allocation, and the raw pointers to it.
//!
//! A pointer here is a token. What it points to, the [`BorrowInner`], is handed to every method
//! that uses it, and a token is given back by its `release` method.
use vstd::prelude::*;
use std::marker::PhantomData;
use std::task::Waker;
use crate::graph::{self, Graph, END};
use crate::graph::model::{BranchView, GraphView};
use crate::waker::Poll;

verus! {

/// A shared value, the record of who borrows it, and the number of pointers to them.
pub struct BorrowInner<T> {
    /// The number of pointers to the allocation.
    pub weak: usize,
    /// The record of who borrows the value.
    pub graph: Graph,
    /// The value, until it is dropped or moved out.
    pub data: Option<T>,
}

impl<T> BorrowInner<T> {
    /// Well-formedness: the branches form one tree, and while there are any the value is there.
    pub open spec fn wf(&self) -> bool {
        &&& self.graph.wf()
        &&& self.graph@.rooted()
        &&& !self.graph@.branches.dom().is_empty() ==> self.data is Some
    }

    /// Whether nobody borrows the value, so that its owner may use it.
    pub open spec fn owned(&self) -> bool {
        &&& self.wf()
        &&& self.graph@.branches.dom().is_empty()
        &&& self.data is Some
        &&& self.weak > 0
    }

    /// Whether a borrow pointer to the branch `index` is held. A pointer to [`END`], above the root,
    /// is the only one.
    pub open spec fn holds(&self, index: usize) -> bool {
        &&& self.wf()
        &&& self.weak > 0
        &&& if index == END {
            self.owned()
        } else {
            self.graph@.live(index) && self.graph@.borrows(index) >= 1
        }
    }

    /// Whether a borrow pointer to the branch `index` is held, in a graph that has room for another
    /// branch.
    pub open spec fn can_forward(&self, index: usize) -> bool {
        self.holds(index) && (index != END ==> self.graph@.has_room())
    }

    /// Whether a borrow pointer to the branch `index` is held and can be cloned.
    pub open spec fn can_clone(&self, index: usize) -> bool {
        &&& self.holds(index)
        &&& index != END
        &&& self.graph@.branches[index].strong < usize::MAX
        &&& self.weak < usize::MAX
    }

    /// Whether the future of the branch `index` is held.
    pub open spec fn awaits(&self, index: usize) -> bool {
        &&& self.wf()
        &&& self.graph@.pending(index) || self.graph@.ready(index)
        &&& self.weak > 0
    }

    /// Whether a branch was added in place of a borrow pointer to `parent`, with one borrow pointer
    /// and a future that waits.
    pub open spec fn forwarded_from(&self, before: BorrowInner<T>, parent: usize) -> bool {
        self.graph@.lent_from(before.graph@, parent) && self.data == before.data
    }

    /// Whether a branch was added in place of a borrow pointer to `parent`, whose own borrow pointer
    /// was given back at once.
    pub open spec fn returned_from(&self, before: BorrowInner<T>, parent: usize) -> bool {
        self.graph@.returned_from(before.graph@, parent) && self.data == before.data
    }

    /// Whether a root was added to the graph of `before`, with one borrow pointer and no future.
    pub open spec fn given_away_from(&self, before: BorrowInner<T>) -> bool {
        &&& self.graph@ == before.graph@.allocated(
            BranchView { parent: END, strong: 1, waker: None },
        )
        &&& self.data == before.data
    }

    /// Whether the graph is `after`, and the value is dropped if `root_freed`.
    pub open spec fn settled_from(
        &self,
        before: BorrowInner<T>,
        after: (GraphView, bool),
    ) -> bool {
        &&& self.graph@ == after.0
        &&& self.data == if after.1 {
            None
        } else {
            before.data
        }
    }

    /// Whether another borrow pointer to `index` was added to `before`. A future that was ready waits
    /// again.
    pub open spec fn tracked_from(&self, before: BorrowInner<T>, index: usize) -> bool {
        self.graph@.tracked_from(before.graph@, index) && self.data == before.data
    }

    /// Whether polling the future of `index` in `before`, which had to wait, left this: `waker` is
    /// kept, unless the one that was there wakes the same task.
    pub open spec fn waits_from(&self, before: BorrowInner<T>, index: usize, waker: Waker) -> bool {
        self.graph@.waits_from(before.graph@, index, waker) && self.data == before.data
    }

    /// Adds the root.
    pub(crate) fn share(&mut self)
        requires
            old(self).owned(),
        ensures
            final(self).forwarded_from(*old(self), END),
            final(self).weak == old(self).weak,
            final(self).holds(0),
            final(self).awaits(0),
    {
        let _index: usize = self.forward(END);
    }

    /// Adds a branch in place of a borrow pointer to `parent`.
    pub(crate) fn forward(&mut self, parent: usize) -> (index: usize)
        requires
            old(self).can_forward(parent),
        ensures
            final(self).forwarded_from(*old(self), parent),
            final(self).weak == old(self).weak,
            index == old(self).graph@.next_index(),
            parent == END ==> index == 0,
            final(self).holds(index),
            final(self).awaits(index),
    {
        let ghost before = *self;
        let index: usize = self.graph.forward(parent);
        proof {
            let waker = self.graph@.branches[index].waker->0;
            if parent != END {
                assert(before.graph@.branches.dom().contains(parent));
            }
            graph::model::lemma_forwarded_rooted(before.graph@, parent, waker);
            graph::model::lemma_forwarded_forest(before.graph@, parent, waker);
        }
        index
    }

    /// Counts another borrow pointer to `index`.
    pub(crate) fn track(&mut self, index: usize)
        requires
            old(self).wf(),
            old(self).graph@.live(index),
            old(self).graph@.branches[index].strong < usize::MAX,
            old(self).weak > 0,
        ensures
            final(self).holds(index),
            final(self).tracked_from(*old(self), index),
            final(self).weak == old(self).weak,
            final(self).graph@.borrows(index) == old(self).graph@.borrows(index) + 1,
            old(self).awaits(index) ==> final(self).awaits(index),
    {
        let ghost before = *self;
        self.graph.track_borrow_unchecked(index);
        proof {
            graph::model::lemma_tracked(before.graph@, self.graph@, index);
            assert(before.graph@.branches.dom().contains(index));
        }
    }

    /// While the value is borrowed it is there.
    pub proof fn lemma_holds(self, index: usize)
        requires
            self.holds(index),
        ensures
            self.data is Some,
    {
        if index != END {
            assert(self.graph@.branches.dom().contains(index));
        }
    }

    /// While the value is waited for it is there.
    pub proof fn lemma_awaits(self, index: usize)
        requires
            self.awaits(index),
        ensures
            self.data is Some,
    {
        assert(self.graph@.branches.dom().contains(index));
    }

    /// Gives back a borrow pointer to `index`, and drops the value if that frees the root.
    pub(crate) fn untrack(&mut self, index: usize)
        requires
            old(self).holds(index),
        ensures
            final(self).wf(),
            final(self).settled_from(*old(self), old(self).graph@.untracked(index)),
            final(self).weak == old(self).weak,
    {
        proof {
            if index != END {
                graph::model::lemma_untracked(self.graph@, index);
            }
        }
        if self.graph.untrack_borrow_unchecked(index) {
            self.data = None;
        }
    }

    /// Adds a branch in place of a borrow pointer to `parent`, and gives its borrow pointer back.
    pub(crate) fn forward_and_return(&mut self, parent: usize) -> (index: usize)
        requires
            old(self).can_forward(parent),
        ensures
            final(self).returned_from(*old(self), parent),
            final(self).weak == old(self).weak,
            index == old(self).graph@.next_index(),
            parent == END ==> index == 0,
            final(self).graph@.ready(index),
            final(self).awaits(index),
    {
        let ghost before = *self;
        let index: usize = self.forward(parent);
        let ghost forwarded = self.graph@;
        self.untrack(index);
        proof {
            assert(forwarded.untracked(index).0.branches =~= before.graph@.allocated(
                BranchView { parent, strong: 0, waker: None },
            ).branches);
        }
        index
    }

    /// Adds the root, and drops its future.
    pub(crate) fn share_and_forget(&mut self)
        requires
            old(self).owned(),
        ensures
            final(self).given_away_from(*old(self)),
            final(self).weak == old(self).weak,
            final(self).graph@.closed(0),
            final(self).holds(0),
    {
        let ghost before = *self;
        self.share();
        let ghost shared = self.graph@;
        self.close(0);
        proof {
            let branch = BranchView { waker: None, ..shared.branches[0] };
            assert(self.graph@.branches =~= before.graph@.allocated(
                BranchView { parent: END, strong: 1, waker: None },
            ).branches);
            graph::model::lemma_with_branch_children(shared, 0, branch);
            assert(self.graph@.children(0) == shared.children(0));
        }
    }

    /// Drops the future of `index`, and the value if that frees the root.
    pub(crate) fn close(&mut self, index: usize)
        requires
            old(self).awaits(index),
        ensures
            final(self).wf(),
            final(self).settled_from(*old(self), old(self).graph@.future_closed(index)),
            final(self).weak == old(self).weak,
    {
        proof {
            graph::model::lemma_future_closed(self.graph@, index);
        }
        if self.graph.close_future_unchecked(index) {
            self.data = None;
        }
    }

    /// Polls the future of `index`. Once it is ready the branch is freed and its parent returned.
    pub(crate) fn poll(&mut self, index: usize, waker: Waker) -> (poll: Poll<usize>)
        requires
            old(self).awaits(index),
        ensures
            final(self).weak == old(self).weak,
            match poll {
                Poll::Ready(parent) => {
                    &&& old(self).graph@.ready(index)
                    &&& parent == old(self).graph@.branches[index].parent
                    &&& final(self).graph@ == old(self).graph@.vacated(index)
                    &&& final(self).data == old(self).data
                    &&& final(self).holds(parent)
                    &&& index == 0 ==> final(self).owned()
                },
                Poll::Pending => {
                    &&& final(self).awaits(index)
                    &&& final(self).waits_from(*old(self), index, waker)
                },
            },
    {
        let ghost before = *self;
        let poll = self.graph.poll_unchecked(index, waker);
        proof {
            assert(before.graph@.branches.dom().contains(index));
            match poll {
                Poll::Ready(parent) => {
                    assert(before.graph@.children(index).is_empty());
                    graph::model::lemma_vacated_rooted(before.graph@, index);
                },
                Poll::Pending => {
                    let branch = BranchView {
                        waker: Some(waker),
                        ..before.graph@.branches[index]
                    };
                    graph::model::lemma_with_branch_rooted(before.graph@, index, branch);
                },
            }
        }
        poll
    }
}

/// A pointer to the allocation.
pub struct SharedPtr<T> {
    /// The value that the allocation holds.
    pub inner: PhantomData<T>,
}

impl<T> SharedPtr<T> {
    /// An allocation that holds `data`, and the pointer to it.
    pub fn new(data: T) -> (shared: (BorrowInner<T>, Self))
        ensures
            shared.0.owned(),
            shared.0.weak == 1,
            shared.0.data == Some(data),
            shared.0.graph@.versions == Seq::new(7, |i: int| 0u64),
            shared.0.graph@.due.len() == 0,
    {
        (
            BorrowInner { weak: 1, graph: Graph::new(), data: Some(data) },
            SharedPtr { inner: PhantomData },
        )
    }

    /// The value.
    pub fn get_ref<'a>(&self, inner: &'a BorrowInner<T>) -> (data: &'a T)
        requires
            inner.data is Some,
        ensures
            *data == inner.data->0,
    {
        inner.data.as_ref().unwrap()
    }

    /// The value, to be changed.
    pub fn get_mut<'a>(&mut self, inner: &'a mut BorrowInner<T>) -> (data: &'a mut T)
        requires
            old(inner).data is Some,
        ensures
            *data == old(inner).data->0,
            final(inner).data == Some(*final(data)),
            final(inner).graph == old(inner).graph,
            final(inner).weak == old(inner).weak,
    {
        inner.data.as_mut().unwrap()
    }

    /// Another pointer to the allocation.
    pub fn clone(&self, inner: &mut BorrowInner<T>) -> (shared: Self)
        requires
            old(inner).weak < usize::MAX,
        ensures
            *final(inner) == (BorrowInner { weak: (old(inner).weak + 1) as usize, ..*old(inner) }),
    {
        inner.weak += 1;
        SharedPtr { inner: PhantomData }
    }

    /// Gives the pointer back, and returns whether it was the last one, so that the allocation is
    /// to be freed.
    pub fn release(self, inner: &mut BorrowInner<T>) -> (last: bool)
        requires
            old(inner).weak > 0,
        ensures
            *final(inner) == (BorrowInner { weak: (old(inner).weak - 1) as usize, ..*old(inner) }),
            last == (final(inner).weak == 0),
    {
        inner.weak -= 1;
        inner.weak == 0
    }
}

/// A pointer to the allocation that borrows the value, through one branch.
pub struct BorrowPtr<T> {
    /// The pointer to the allocation.
    pub shared: SharedPtr<T>,
    /// The branch.
    pub index: usize,
}

impl<T> BorrowPtr<T> {
    /// Another pointer that borrows the value through the same branch.
    pub fn clone(&self, inner: &mut BorrowInner<T>) -> (ptr: Self)
        requires
            old(inner).can_clone(self.index),
        ensures
            ptr.index == self.index,
            final(inner).holds(self.index),
            final(inner).graph@.borrows(self.index) == old(inner).graph@.borrows(self.index) + 1,
            final(inner).graph@ == old(inner).graph@.with_strong(
                self.index,
                old(inner).graph@.branches[self.index].strong + 1,
            ),
            final(inner).data == old(inner).data,
            final(inner).weak == old(inner).weak + 1,
    {
        inner.track(self.index);
        BorrowPtr { shared: self.shared.clone(inner), index: self.index }
    }

    /// Gives the pointer back. The value is dropped if nobody borrows it then, nor waits for it.
    pub fn release(self, inner: &mut BorrowInner<T>) -> (last: bool)
        requires
            old(inner).holds(self.index),
        ensures
            final(inner).wf(),
            final(inner).settled_from(*old(inner), old(inner).graph@.untracked(self.index)),
            final(inner).weak == old(inner).weak - 1,
            last == (final(inner).weak == 0),
    {
        inner.untrack(self.index);
        self.shared.release(inner)
    }
}

/// Something that tells a branch.
pub trait Index: Sized {
    /// The branch.
    spec fn index(&self) -> usize;

    /// The branch.
    fn get(&self) -> (index: usize)
        ensures
            index == self.index(),
    ;
}

impl Index for usize {
    open spec fn index(&self) -> usize {
        *self
    }

    fn get(&self) -> (index: usize) {
        *self
    }
}

/// The root.
pub struct First;

impl Index for First {
    open spec fn index(&self) -> usize {
        0
    }

    fn get(&self) -> (index: usize) {
        0
    }
}

/// A pointer to the allocation that waits for a branch to be given back.
pub struct FuturePtr<T, I: Index> {
    /// The pointer to the allocation, until the future is answered.
    pub shared: Option<SharedPtr<T>>,
    /// The branch.
    pub index: I,
}

impl<T, I: Index> FuturePtr<T, I> {
    /// Whether the future still waits, or is about to be answered.
    pub open spec fn valid(&self, inner: &BorrowInner<T>) -> bool {
        self.shared is Some && inner.awaits(self.index.index())
    }

    /// The same future, with the branch told by its index.
    pub fn generalise(self) -> (future: FuturePtr<T, usize>)
        ensures
            future.shared == self.shared,
            future.index == self.index.index(),
    {
        FuturePtr { index: self.index.get(), shared: self.shared }
    }

    /// Whether the future has been answered.
    pub fn is_terminated(&self) -> (terminated: bool)
        ensures
            terminated == self.shared is None,
    {
        self.shared.is_none()
    }

    /// Polls for the branch. Once nobody borrows through it any more, its parent and the pointer
    /// to the allocation are handed over.
    pub fn poll(&mut self, inner: &mut BorrowInner<T>, waker: Waker) -> (poll: Poll<
        (usize, SharedPtr<T>),
    >)
        requires
            old(self).valid(old(inner)),
        ensures
            final(self).index == old(self).index,
            final(inner).weak == old(inner).weak,
            ({
                let index = old(self).index.index();
                match poll {
                    Poll::Ready((parent, _)) => {
                        &&& final(self).shared is None
                        &&& old(inner).graph@.ready(index)
                        &&& parent == old(inner).graph@.branches[index].parent
                        &&& final(inner).graph@ == old(inner).graph@.vacated(index)
                        &&& final(inner).data == old(inner).data
                        &&& final(inner).holds(parent)
                        &&& index == 0 ==> final(inner).owned()
                    },
                    Poll::Pending => {
                        &&& final(self).valid(final(inner))
                        &&& final(inner).waits_from(*old(inner), index, waker)
                    },
                }
            }),
    {
        match inner.poll(self.index.get(), waker) {
            Poll::Ready(parent) => Poll::Ready((parent, self.shared.take().unwrap())),
            Poll::Pending => Poll::Pending,
        }
    }

    /// Gives the pointer back: whoever borrows through the branch is no longer waited for. The
    /// value is dropped if nobody borrows it, nor waits for it.
    pub fn release(self, inner: &mut BorrowInner<T>)
        requires
            self.shared is Some ==> self.valid(old(inner)),
        ensures
            self.shared is None ==> *final(inner) == *old(inner),
            self.shared is Some ==> {
                &&& final(inner).wf()
                &&& final(inner).settled_from(
                    *old(inner),
                    old(inner).graph@.future_closed(self.index.index()),
                )
                &&& final(inner).weak == old(inner).weak - 1
            },
    {
        match self.shared {
            Some(shared) => {
                inner.close(self.index.get());
                shared.release(inner);
            },
            None => (),
        }
    }
}

impl<T> FuturePtr<T, First> {
    /// Polls for the root: once it is given back, so is ownership.
    pub fn poll_shared(&mut self, inner: &mut BorrowInner<T>, waker: Waker) -> (poll: Poll<
        SharedPtr<T>,
    >)
        requires
            old(self).valid(old(inner)),
        ensures
            final(inner).weak == old(inner).weak,
            match poll {
                Poll::Ready(_) => {
                    &&& final(self).shared is None
                    &&& old(inner).graph@.ready(0)
                    &&& final(inner).graph@ == old(inner).graph@.vacated(0)
                    &&& final(inner).data == old(inner).data
                    &&& final(inner).owned()
                },
                Poll::Pending => {
                    &&& final(self).valid(final(inner))
                    &&& final(inner).waits_from(*old(inner), 0, waker)
                },
            },
    {
        match self.poll(inner, waker) {
            Poll::Ready((_, shared)) => Poll::Ready(shared),
            Poll::Pending => Poll::Pending,
        }
    }
}

impl<T> FuturePtr<T, usize> {
    /// Polls for a forwarded branch: once it is given back, so is the borrow pointer that it stands
    /// for.
    pub fn poll_borrow(&mut self, inner: &mut BorrowInner<T>, waker: Waker) -> (poll: Poll<
        BorrowPtr<T>,
    >)
        requires
            old(self).valid(old(inner)),
        ensures
            final(self).index == old(self).index,
            final(inner).weak == old(inner).weak,
            match poll {
                Poll::Ready(ptr) => {
                    &&& final(self).shared is None
                    &&& old(inner).graph@.ready(old(self).index)
                    &&& ptr.index == old(inner).graph@.branches[old(self).index].parent
                    &&& final(inner).graph@ == old(inner).graph@.vacated(old(self).index)
                    &&& final(inner).data == old(inner).data
                    &&& final(inner).holds(ptr.index)
                },
                Poll::Pending => {
                    &&& final(self).valid(final(inner))
                    &&& final(inner).waits_from(*old(inner), old(self).index, waker)
                },
            },
    {
        match self.poll(inner, waker) {
            Poll::Ready((index, shared)) => Poll::Ready(BorrowPtr { shared, index }),
            Poll::Pending => Poll::Pending,
        }
    }
}

} // verus!
