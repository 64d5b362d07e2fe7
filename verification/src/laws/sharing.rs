//! What the calls that share a value do, and how they relate to each other.
//!
//! A call is told by what it is given, what it returns and what it leaves behind. Where calls follow
//! each other, what the one leaves is what the next is given.
use vstd::prelude::*;
use std::task::Waker;
use crate::future::{
    RefForward, RefMutForward, RefMutShare, RefShare, SpawnRef, SpawnRefMut, SpawnRefMutWhile,
    SpawnRefWhile, SplitRef, SplitRefMut, SplitRefMutWhile, SplitRefWhile,
};
use crate::graph::END;
use crate::inner::BorrowInner;
use crate::laws::{borrows, steps};
use crate::place::{Place, Span};
use crate::pointers::{Ref, RefMut, ShareBox, Weak};
use crate::waker::Poll;

verus! {

/// What is shared comes back: once the reference is given back the poll for the value is answered, and
/// its owner can move it out.
pub proof fn law_shared_value_comes_back<T>(
    value: T,
    made: (BorrowInner<T>, ShareBox<T>),
    share: &mut BorrowInner<T>,
    shared: (RefShare<T>, Ref<T>),
    give_back: &mut BorrowInner<T>,
    last: bool,
    future: &mut RefShare<T>,
    answer: &mut BorrowInner<T>,
    waker: Waker,
    poll: Poll<ShareBox<T>>,
    take: &mut BorrowInner<T>,
    taken: T,
)
    requires
        call_ensures(ShareBox::<T>::new, (value,), made),
        *old(share) == made.0,
        call_ensures(ShareBox::<T>::share_ref, (made.1, share), shared),
        *old(give_back) == *final(share),
        call_ensures(Ref::<T>::release, (shared.1, give_back), last),
        *old(future) == shared.0,
        *old(answer) == *final(give_back),
        call_ensures(RefShare::<T>::poll, (future, answer, waker), poll),
        *old(take) == *final(answer),
        poll is Ready ==> call_ensures(ShareBox::<T>::into_inner, (poll->Ready_0, take), taken),
    ensures
        !last,
        poll is Ready,
        taken == value,
        final(take).data is None,
        final(take).weak == 0,
        final(take).graph@.branches.dom().is_empty(),
{
    let g = final(share).graph@;
    assert(g.branches[0].strong == 1);
    assert(g.live(0));
}

/// What is shared mutably comes back as it was left: whatever the mutable reference made of the value
/// is what its owner gets.
pub proof fn law_changed_value_comes_back<T: 'static>(
    owner: ShareBox<T>,
    share: &mut BorrowInner<T>,
    shared: (RefMutShare<T>, RefMut<T>),
    rf_mut: &mut RefMut<T>,
    change: &mut BorrowInner<T>,
    part: &mut T,
    give_back: &mut BorrowInner<T>,
    last: bool,
    future: &mut RefMutShare<T>,
    answer: &mut BorrowInner<T>,
    waker: Waker,
    poll: Poll<ShareBox<T>>,
)
    requires
        old(share).owned(),
        old(share).weak < usize::MAX,
        call_ensures(ShareBox::<T>::share_mut, (owner, share), shared),
        *old(rf_mut) == shared.1,
        *old(change) == *final(share),
        call_ensures(RefMut::<T>::deref_mut, (rf_mut, change), part),
        *old(give_back) == *final(change),
        call_ensures(RefMut::<T>::release, (shared.1, give_back), last),
        *old(future) == shared.0,
        *old(answer) == *final(give_back),
        call_ensures(RefMutShare::<T>::poll, (future, answer, waker), poll),
    ensures
        *old(part) == old(share).data->0,
        poll is Ready,
        final(answer).owned(),
        final(answer).data == Some(*final(part)),
        final(answer).weak == old(share).weak,
{
    let g = final(share).graph@;
    assert(g.branches[0].strong == 1);
    assert(g.live(0));
}

/// A value is waited for until the last reference is given back: while a clone is held the poll is not
/// answered, and the value stays where it is.
pub proof fn law_clone_is_waited_for<T>(
    owner: ShareBox<T>,
    share: &mut BorrowInner<T>,
    shared: (RefShare<T>, Ref<T>),
    clone: &mut BorrowInner<T>,
    copy: Ref<T>,
    give_back: &mut BorrowInner<T>,
    last: bool,
    future: &mut RefShare<T>,
    answer: &mut BorrowInner<T>,
    waker: Waker,
    poll: Poll<ShareBox<T>>,
)
    requires
        old(share).owned(),
        old(share).weak + 1 < usize::MAX,
        call_ensures(ShareBox::<T>::share_ref, (owner, share), shared),
        *old(clone) == *final(share),
        call_ensures(Ref::<T>::clone, (&shared.1, clone), copy),
        *old(give_back) == *final(clone),
        call_ensures(Ref::<T>::release, (shared.1, give_back), last),
        *old(future) == shared.0,
        *old(answer) == *final(give_back),
        call_ensures(RefShare::<T>::poll, (future, answer, waker), poll),
    ensures
        !last,
        poll is Pending,
        final(answer).data == old(share).data,
        final(answer).holds(0),
        copy.valid(final(answer)),
{
    let g = final(clone).graph@;
    assert(g.branches[0].strong == 2);
    let h = final(give_back).graph@;
    assert(h.branches[0].strong == 1);
    steps::law_waiting_changes_only_the_waker(h, final(answer).graph@, 0, waker);
    assert(h.live(0));
    borrows::law_release_takes_one_borrow(g, 0);
    assert(h.borrows(0) == g.borrows(0) - 1);
    assert(final(share).graph@.borrows(0) == 1);
    assert(g.borrows(0) == 2);
    assert(final(answer).graph@.children(0) =~= h.children(0)) by {
        assert forall|k: usize| final(answer).graph@.children(0).contains(k) implies h.children(
            0,
        ).contains(k) by {
            assert(final(answer).graph@.branches.dom().contains(k));
            assert(h.live(k));
        }
        assert forall|k: usize| h.children(0).contains(k) implies final(answer).graph@.children(
            0,
        ).contains(k) by {
            assert(h.live(k));
            assert(final(answer).graph@.branches.dom().contains(k));
        }
    }
}

/// A value that nobody waits for is dropped with the last reference, and not before.
pub proof fn law_abandoned_value_is_dropped<T>(
    owner: ShareBox<T>,
    share: &mut BorrowInner<T>,
    shared: (RefShare<T>, Ref<T>),
    abandon: &mut BorrowInner<T>,
    give_back: &mut BorrowInner<T>,
    last: bool,
)
    requires
        old(share).owned(),
        old(share).weak < usize::MAX,
        call_ensures(ShareBox::<T>::share_ref, (owner, share), shared),
        *old(abandon) == *final(share),
        call_ensures(RefShare::<T>::release, (shared.0, abandon), ()),
        *old(give_back) == *final(abandon),
        call_ensures(Ref::<T>::release, (shared.1, give_back), last),
    ensures
        final(abandon).data == old(share).data,
        final(abandon).graph@.closed(0),
        final(give_back).data is None,
        final(give_back).graph@.branches.dom().is_empty(),
        final(give_back).weak == old(share).weak - 1,
        last <==> final(give_back).weak == 0,
{
    let g = final(share).graph@;
    assert(g.live(0));
    assert(g.branches[0].strong == 1);
    let h = final(abandon).graph@;
    assert(h.branches[0].strong == 1);
    assert(h.branches[0].parent == END);
    assert(h.branches[0].waker is None);
    let f = h.vacated(0);
    assert(f.untracked(END) == (f, true));
    assert(h.untracked(0) == (f, true));
    assert(f.branches.dom() =~= Set::<usize>::empty());
}

/// A value that is given away at once is dropped with its last reference.
pub proof fn law_value_given_away_is_dropped<T>(
    owner: ShareBox<T>,
    give_away: &mut BorrowInner<T>,
    rf: Ref<T>,
    give_back: &mut BorrowInner<T>,
    last: bool,
)
    requires
        old(give_away).owned(),
        call_ensures(ShareBox::<T>::into_ref, (owner, give_away), rf),
        *old(give_back) == *final(give_away),
        call_ensures(Ref::<T>::release, (rf, give_back), last),
    ensures
        final(give_away).data == old(give_away).data,
        final(give_away).weak == old(give_away).weak,
        final(give_back).data is None,
        final(give_back).graph@.branches.dom().is_empty(),
        final(give_back).weak == old(give_away).weak - 1,
{
    steps::law_giving_away_adds_a_closed_root(*old(give_away), *final(give_away));
    let h = final(give_away).graph@;
    let f = h.vacated(0);
    assert(f.untracked(END) == (f, true));
    assert(h.untracked(0) == (f, true));
    assert(f.branches.dom() =~= Set::<usize>::empty());
}

/// What is shared only to be waited for comes back at once.
pub proof fn law_ready_share_comes_back_at_once<T>(
    owner: ShareBox<T>,
    share: &mut BorrowInner<T>,
    shared: RefShare<T>,
    future: &mut RefShare<T>,
    answer: &mut BorrowInner<T>,
    waker: Waker,
    poll: Poll<ShareBox<T>>,
)
    requires
        old(share).owned(),
        call_ensures(ShareBox::<T>::into_ref_share, (owner, share), shared),
        *old(future) == shared,
        *old(answer) == *final(share),
        call_ensures(RefShare::<T>::poll, (future, answer, waker), poll),
    ensures
        poll is Ready,
        final(answer).owned(),
        final(answer).data == old(share).data,
        final(answer).weak == old(share).weak,
        final(future).ptr.shared is None,
{
}

/// What is lent on comes back: once the reference is given back the poll is answered with a mutable
/// reference to the same part through the branch that it was lent from, and every branch is as it was.
pub proof fn law_lent_reference_comes_back<T, B: ?Sized, P: Copy>(
    this: RefMut<T, B, P>,
    lend: &mut BorrowInner<T>,
    lent: (RefForward<T, B, P>, Ref<T, B, P>),
    give_back: &mut BorrowInner<T>,
    last: bool,
    future: &mut RefForward<T, B, P>,
    answer: &mut BorrowInner<T>,
    waker: Waker,
    poll: Poll<RefMut<T, B, P>>,
)
    requires
        old(lend).can_forward(this.ptr.index),
        old(lend).weak < usize::MAX,
        call_ensures(RefMut::<T, B, P>::forward_ref, (this, lend), lent),
        *old(give_back) == *final(lend),
        call_ensures(Ref::<T, B, P>::release, (lent.1, give_back), last),
        *old(future) == lent.0,
        *old(answer) == *final(give_back),
        call_ensures(RefForward::<T, B, P>::poll, (future, answer, waker), poll),
    ensures
        lent.1.borrow == this.borrow,
        poll matches Poll::Ready(rf_mut) && rf_mut.ptr.index == this.ptr.index && rf_mut.borrow
            == this.borrow,
        final(answer).graph@.branches == old(lend).graph@.branches,
        final(answer).data == old(lend).data,
        final(answer).weak == old(lend).weak,
{
    let (g, h) = (old(lend).graph@, final(lend).graph@);
    let index = g.next_index();
    assert(h.branches[index].strong == 1);
    assert(h.live(index) && index != END);
    old(lend).graph.lemma_next_index();
    assert(final(answer).graph@.branches =~= g.branches);
}

/// What is lent on mutably comes back, as it was left.
pub proof fn law_mutably_lent_reference_comes_back<T, B: ?Sized, P: Copy>(
    this: RefMut<T, B, P>,
    lend: &mut BorrowInner<T>,
    lent: (RefMutForward<T, B, P>, RefMut<T, B, P>),
    give_back: &mut BorrowInner<T>,
    last: bool,
    future: &mut RefMutForward<T, B, P>,
    answer: &mut BorrowInner<T>,
    waker: Waker,
    poll: Poll<RefMut<T, B, P>>,
)
    requires
        old(lend).can_forward(this.ptr.index),
        old(lend).weak < usize::MAX,
        call_ensures(RefMut::<T, B, P>::forward_mut, (this, lend), lent),
        old(give_back).graph == final(lend).graph,
        old(give_back).weak == final(lend).weak,
        old(give_back).data is Some,
        call_ensures(RefMut::<T, B, P>::release, (lent.1, give_back), last),
        *old(future) == lent.0,
        *old(answer) == *final(give_back),
        call_ensures(RefMutForward::<T, B, P>::poll, (future, answer, waker), poll),
    ensures
        lent.1.borrow == this.borrow,
        poll matches Poll::Ready(rf_mut) && rf_mut.ptr.index == this.ptr.index && rf_mut.borrow
            == this.borrow,
        final(answer).graph@.branches == old(lend).graph@.branches,
        final(answer).data == old(give_back).data,
        final(answer).weak == old(lend).weak,
{
    let (g, h) = (old(lend).graph@, final(lend).graph@);
    let index = g.next_index();
    assert(h.branches[index].strong == 1);
    assert(h.live(index) && index != END);
    old(lend).graph.lemma_next_index();
    assert(final(answer).graph@.branches =~= g.branches);
}

/// A weak reference gives a reference to the same part for as long as its branch is live, which keeps
/// the value like any other. It leaves the borrows as they are until it is upgraded.
pub proof fn law_weak_reference_gives_the_same_part<T, B: ?Sized, P: Copy>(
    rf: Ref<T, B, P>,
    take: &mut BorrowInner<T>,
    weak: Weak<T, B, P>,
    upgrade: &mut BorrowInner<T>,
    upgraded: Option<Ref<T, B, P>>,
)
    requires
        rf.valid(old(take)),
        rf.ptr.index != END,
        old(take).graph@.branches[rf.ptr.index].strong < usize::MAX,
        call_ensures(Ref::<T, B, P>::downgrade, (&rf, take), weak),
        *old(upgrade) == *final(take),
        call_ensures(Weak::<T, B, P>::upgrade, (weak, upgrade), upgraded),
    ensures
        final(take).graph@.branches == old(take).graph@.branches,
        final(take).data == old(take).data,
        final(take).weak == old(take).weak + 1,
        upgraded matches Some(again) && again.ptr.index == rf.ptr.index && again.borrow
            == rf.borrow,
        final(upgrade).graph@.branches[rf.ptr.index].strong
            == old(take).graph@.branches[rf.ptr.index].strong + 1,
        final(upgrade).data == old(take).data,
        final(upgrade).weak == final(take).weak,
{
    steps::law_tracking_adds_one_pointer(old(upgrade).graph@, final(upgrade).graph@, rf.ptr.index);
}

/// A value that came back and is to be shared again is, with the same future: it waits for one new
/// reference, and the value is as it came back. Until then nothing is handed out.
pub proof fn law_spawned_reference_is_shared_again<T>(
    spawn: &mut SpawnRef<'_, T>,
    inner: &mut BorrowInner<T>,
    waker: Waker,
    poll: Poll<Ref<T>>,
)
    requires
        old(spawn).fut.ptr.valid(old(inner)),
        old(inner).weak < usize::MAX,
        call_ensures(SpawnRef::<'_, T>::poll, (spawn, inner, waker), poll),
    ensures
        poll is Ready <==> old(inner).graph@.branches[0].strong == 0,
        poll is Ready ==> {
            &&& final(inner).graph@.pending(0)
            &&& final(inner).graph@.branches[0].strong == 1
            &&& final(inner).graph@.branches[0].parent == END
            &&& final(inner).weak == old(inner).weak + 1
        },
        poll is Pending ==> final(inner).weak == old(inner).weak,
        final(inner).data == old(inner).data,
        final(spawn).fut.ptr.valid(final(inner)),
{
    let g = old(inner).graph@;
    assert(g.live(0));
}

/// A value that came back and is to be shared mutably again is, with the same future.
pub proof fn law_spawned_mutable_reference_is_shared_again<T>(
    spawn: &mut SpawnRefMut<'_, T>,
    inner: &mut BorrowInner<T>,
    waker: Waker,
    poll: Poll<RefMut<T>>,
)
    requires
        old(spawn).fut.ptr.valid(old(inner)),
        old(inner).weak < usize::MAX,
        call_ensures(SpawnRefMut::<'_, T>::poll, (spawn, inner, waker), poll),
    ensures
        poll is Ready <==> old(inner).graph@.branches[0].strong == 0,
        poll is Ready ==> {
            &&& final(inner).graph@.pending(0)
            &&& final(inner).graph@.branches[0].strong == 1
            &&& final(inner).graph@.branches[0].parent == END
            &&& final(inner).weak == old(inner).weak + 1
        },
        poll is Pending ==> final(inner).weak == old(inner).weak,
        final(inner).data == old(inner).data,
        final(spawn).fut.ptr.valid(final(inner)),
{
    let g = old(inner).graph@;
    assert(g.live(0));
}

/// A part that came back and is to be lent on again is, through the same branch and under the same
/// parent: the future waits for one new reference to the same part.
pub proof fn law_split_reference_is_lent_again<T, B: ?Sized, P: Copy>(
    split: &mut SplitRef<'_, T, B, P>,
    inner: &mut BorrowInner<T>,
    waker: Waker,
    poll: Poll<Ref<T, B, P>>,
)
    requires
        old(split).fut.ptr.valid(old(inner)),
        old(inner).weak < usize::MAX,
        call_ensures(SplitRef::<'_, T, B, P>::poll, (split, inner, waker), poll),
    ensures
        ({
            let index = old(split).fut.ptr.index;
            let (g, h) = (old(inner).graph@, final(inner).graph@);
            &&& poll is Ready <==> g.branches[index].strong == 0
            &&& poll matches Poll::Ready(rf) ==> {
                &&& rf.ptr.index == index
                &&& rf.borrow == old(split).fut.borrow
                &&& h.pending(index)
                &&& h.branches[index].strong == 1
                &&& h.branches[index].parent == g.branches[index].parent
                &&& h.branches.dom() == g.branches.dom()
                &&& forall|k: usize| #[trigger]
                    g.live(k) && k != index ==> h.branches[k] == g.branches[k]
                &&& final(inner).weak == old(inner).weak + 1
            }
            &&& final(inner).data == old(inner).data
            &&& final(split).fut.ptr.index == index
        }),
{
    let index = old(split).fut.ptr.index;
    let (g, h) = (old(inner).graph@, final(inner).graph@);
    assert(g.live(index));
    if poll is Ready {
        steps::law_freeing_removes_one_branch(g, index);
        assert(h.branches.dom() =~= g.branches.dom());
    }
}

/// A part that came back and is to be lent on mutably again is, through the same branch and under the
/// same parent.
pub proof fn law_split_mutable_reference_is_lent_again<T, B: ?Sized, P: Copy>(
    split: &mut SplitRefMut<'_, T, B, P>,
    inner: &mut BorrowInner<T>,
    waker: Waker,
    poll: Poll<RefMut<T, B, P>>,
)
    requires
        old(split).fut.ptr.valid(old(inner)),
        old(inner).weak < usize::MAX,
        call_ensures(SplitRefMut::<'_, T, B, P>::poll, (split, inner, waker), poll),
    ensures
        ({
            let index = old(split).fut.ptr.index;
            let (g, h) = (old(inner).graph@, final(inner).graph@);
            &&& poll is Ready <==> g.branches[index].strong == 0
            &&& poll matches Poll::Ready(rf_mut) ==> {
                &&& rf_mut.ptr.index == index
                &&& rf_mut.borrow == old(split).fut.borrow
                &&& h.pending(index)
                &&& h.branches[index].strong == 1
                &&& h.branches[index].parent == g.branches[index].parent
                &&& h.branches.dom() == g.branches.dom()
                &&& forall|k: usize| #[trigger]
                    g.live(k) && k != index ==> h.branches[k] == g.branches[k]
                &&& final(inner).weak == old(inner).weak + 1
            }
            &&& final(inner).data == old(inner).data
            &&& final(split).fut.ptr.index == index
        }),
{
    let index = old(split).fut.ptr.index;
    let (g, h) = (old(inner).graph@, final(inner).graph@);
    assert(g.live(index));
    if poll is Ready {
        steps::law_freeing_removes_one_branch(g, index);
        assert(h.branches.dom() =~= g.branches.dom());
    }
}

/// A value that came back is shown to the closure, and shared again if that agrees to it. If not it is
/// left ready. Whatever the closure makes of it is what is shared.
pub proof fn law_value_is_shared_while_agreed<T, F: FnMut(&mut T) -> bool>(
    spawn: &mut SpawnRefWhile<'_, T, F>,
    inner: &mut BorrowInner<T>,
    waker: Waker,
    poll: Poll<Option<Ref<T>>>,
)
    requires
        old(spawn).fut.ptr.valid(old(inner)),
        old(inner).weak < usize::MAX,
        call_ensures(SpawnRefWhile::<'_, T, F>::poll_next, (spawn, inner, waker), poll),
    ensures
        ({
            let (g, h) = (old(inner).graph@, final(inner).graph@);
            &&& poll is Ready <==> g.branches[0].strong == 0
            &&& poll is Pending ==> {
                &&& final(inner).data == old(inner).data
                &&& final(inner).weak == old(inner).weak
            }
            &&& poll matches Poll::Ready(next) ==> {
                &&& exists|value: &mut T|
                    {
                        &&& *value == old(inner).data->0
                        &&& final(inner).data == Some(*final(value))
                        &&& #[trigger] call_ensures(old(spawn).f, (value,), next is Some)
                    }
                &&& h.branches.dom() == set![0usize]
                &&& h.branches[0].parent == END
                &&& next is Some ==> h.pending(0) && h.branches[0].strong == 1
                    && final(inner).weak == old(inner).weak + 1
                &&& next is None ==> h.ready(0) && final(inner).weak == old(inner).weak
            }
            &&& final(spawn).fut.ptr.valid(final(inner))
        }),
{
    let (g, h) = (old(inner).graph@, final(inner).graph@);
    assert(g.live(0));
    if poll is Ready {
        assert(g.children(0).is_empty());
        crate::laws::law_root_is_last(g);
        assert(h.branches.dom() =~= set![0usize]);
    }
}

/// A value that came back is shown to the closure, and shared mutably again if that agrees to it. If not it is
/// left ready. Whatever the closure makes of it is what is shared.
pub proof fn law_value_is_shared_mutably_while_agreed<T, F: FnMut(&mut T) -> bool>(
    spawn: &mut SpawnRefMutWhile<'_, T, F>,
    inner: &mut BorrowInner<T>,
    waker: Waker,
    poll: Poll<Option<RefMut<T>>>,
)
    requires
        old(spawn).fut.ptr.valid(old(inner)),
        old(inner).weak < usize::MAX,
        call_ensures(SpawnRefMutWhile::<'_, T, F>::poll_next, (spawn, inner, waker), poll),
    ensures
        ({
            let (g, h) = (old(inner).graph@, final(inner).graph@);
            &&& poll is Ready <==> g.branches[0].strong == 0
            &&& poll is Pending ==> {
                &&& final(inner).data == old(inner).data
                &&& final(inner).weak == old(inner).weak
            }
            &&& poll matches Poll::Ready(next) ==> {
                &&& exists|value: &mut T|
                    {
                        &&& *value == old(inner).data->0
                        &&& final(inner).data == Some(*final(value))
                        &&& #[trigger] call_ensures(old(spawn).f, (value,), next is Some)
                    }
                &&& h.branches.dom() == set![0usize]
                &&& h.branches[0].parent == END
                &&& next is Some ==> h.pending(0) && h.branches[0].strong == 1
                    && final(inner).weak == old(inner).weak + 1
                &&& next is None ==> h.ready(0) && final(inner).weak == old(inner).weak
            }
            &&& final(spawn).fut.ptr.valid(final(inner))
        }),
{
    let (g, h) = (old(inner).graph@, final(inner).graph@);
    assert(g.live(0));
    if poll is Ready {
        assert(g.children(0).is_empty());
        crate::laws::law_root_is_last(g);
        assert(h.branches.dom() =~= set![0usize]);
    }
}

/// A part that came back is shown to the closure, and lent on again if that agrees to it, through the same
/// branch. If not it is left ready. The closure changes nothing outside of the part.
pub proof fn law_part_is_lent_while_agreed<
    T,
    B: 'static,
    P: Place<T, Target = B>,
    F: FnMut(&mut B) -> bool,
>(
    split: &mut SplitRefWhile<'_, T, B, P, F>,
    inner: &mut BorrowInner<T>,
    waker: Waker,
    poll: Poll<Option<Ref<T, B, P>>>,
)
    requires
        old(split).fut.ptr.valid(old(inner)),
        old(split).fut.borrow.valid(old(inner).data->0),
        old(inner).weak < usize::MAX,
        call_ensures(SplitRefWhile::<'_, T, B, P, F>::poll_next, (split, inner, waker), poll),
    ensures
        ({
            let index = old(split).fut.ptr.index;
            let borrow = old(split).fut.borrow;
            let (g, h) = (old(inner).graph@, final(inner).graph@);
            &&& poll is Ready <==> g.branches[index].strong == 0
            &&& poll matches Poll::Ready(next) ==> {
                &&& borrow.only(old(inner).data->0, final(inner).data->0)
                &&& exists|part: &mut B|
                    {
                        &&& *part == borrow.at(old(inner).data->0)
                        &&& *final(part) == borrow.at(final(inner).data->0)
                        &&& #[trigger] call_ensures(old(split).f, (part,), next is Some)
                    }
                &&& h.branches.dom() == g.branches.dom()
                &&& h.branches[index].parent == g.branches[index].parent
                &&& forall|k: usize| #[trigger]
                    g.live(k) && k != index ==> h.branches[k] == g.branches[k]
                &&& next matches Some(rf) ==> {
                    &&& rf.ptr.index == index
                    &&& rf.borrow == borrow
                    &&& h.pending(index)
                    &&& h.branches[index].strong == 1
                    &&& final(inner).weak == old(inner).weak + 1
                }
                &&& next is None ==> h.ready(index) && final(inner).weak == old(inner).weak
            }
            &&& poll is Pending ==> {
                &&& final(inner).data == old(inner).data
                &&& final(inner).weak == old(inner).weak
            }
            &&& final(split).fut.ptr.valid(final(inner))
            &&& final(split).fut.ptr.index == index
            &&& final(split).fut.borrow == borrow
        }),
{
    let index = old(split).fut.ptr.index;
    let (g, h) = (old(inner).graph@, final(inner).graph@);
    assert(g.live(index));
    if poll is Ready {
        steps::law_freeing_removes_one_branch(g, index);
        assert(h.branches.dom() =~= g.branches.dom());
    }
}

/// A part that came back is shown to the closure, and lent on mutably again if that agrees to it, through the same
/// branch. If not it is left ready. The closure changes nothing outside of the part.
pub proof fn law_part_is_lent_mutably_while_agreed<
    T,
    B: 'static,
    P: Place<T, Target = B>,
    F: FnMut(&mut B) -> bool,
>(
    split: &mut SplitRefMutWhile<'_, T, B, P, F>,
    inner: &mut BorrowInner<T>,
    waker: Waker,
    poll: Poll<Option<RefMut<T, B, P>>>,
)
    requires
        old(split).fut.ptr.valid(old(inner)),
        old(split).fut.borrow.valid(old(inner).data->0),
        old(inner).weak < usize::MAX,
        call_ensures(SplitRefMutWhile::<'_, T, B, P, F>::poll_next, (split, inner, waker), poll),
    ensures
        ({
            let index = old(split).fut.ptr.index;
            let borrow = old(split).fut.borrow;
            let (g, h) = (old(inner).graph@, final(inner).graph@);
            &&& poll is Ready <==> g.branches[index].strong == 0
            &&& poll matches Poll::Ready(next) ==> {
                &&& borrow.only(old(inner).data->0, final(inner).data->0)
                &&& exists|part: &mut B|
                    {
                        &&& *part == borrow.at(old(inner).data->0)
                        &&& *final(part) == borrow.at(final(inner).data->0)
                        &&& #[trigger] call_ensures(old(split).f, (part,), next is Some)
                    }
                &&& h.branches.dom() == g.branches.dom()
                &&& h.branches[index].parent == g.branches[index].parent
                &&& forall|k: usize| #[trigger]
                    g.live(k) && k != index ==> h.branches[k] == g.branches[k]
                &&& next matches Some(rf) ==> {
                    &&& rf.ptr.index == index
                    &&& rf.borrow == borrow
                    &&& h.pending(index)
                    &&& h.branches[index].strong == 1
                    &&& final(inner).weak == old(inner).weak + 1
                }
                &&& next is None ==> h.ready(index) && final(inner).weak == old(inner).weak
            }
            &&& poll is Pending ==> {
                &&& final(inner).data == old(inner).data
                &&& final(inner).weak == old(inner).weak
            }
            &&& final(split).fut.ptr.valid(final(inner))
            &&& final(split).fut.ptr.index == index
            &&& final(split).fut.borrow == borrow
        }),
{
    let index = old(split).fut.ptr.index;
    let (g, h) = (old(inner).graph@, final(inner).graph@);
    assert(g.live(index));
    if poll is Ready {
        steps::law_freeing_removes_one_branch(g, index);
        assert(h.branches.dom() =~= g.branches.dom());
    }
}

/// The slice of a vector has all of its elements.
pub proof fn law_slice_of_vector_has_all_elements<T, E: 'static, P: Place<T, Target = Vec<E>>>(
    this: Ref<T, Vec<E>, P>,
    inner: BorrowInner<T>,
    elems: Ref<T, [E], Span<P>>,
)
    requires
        this.valid(&inner),
        this.borrow.valid(inner.data->0),
        call_ensures(Ref::<T, Vec<E>, P>::into_deref, (this, &inner), elems),
    ensures
        elems.ptr.index == this.ptr.index,
        elems.in_bounds(&inner),
        elems.elems(&inner) == this.borrow.at(inner.data->0)@,
{
    let all = this.borrow.at(inner.data->0)@;
    assert(this.borrow.at(inner.data->0).len() == all.len());
    assert(elems.elems(&inner) =~= all);
}

/// Giving back a reference to a branch takes one borrow from it and none from any other that is left.
/// The value is dropped if that frees the root, and otherwise stays as it is.
pub proof fn law_reference_is_given_back<T>(
    before: BorrowInner<T>,
    after: BorrowInner<T>,
    index: usize,
)
    requires
        before.holds(index),
        index != END,
        after.released_from(before, index),
    ensures
        after.weak == before.weak - 1,
        forall|k: usize| #[trigger]
            after.graph@.live(k) ==> before.graph@.live(k) && after.graph@.borrows(k)
                == before.graph@.borrows(k) - borrows::one_if(k, index),
        after.data == before.data || after.data is None,
        before.graph@.branches[index].strong > 1 ==> after.data == before.data,
        after.data is None ==> !after.graph@.live(0),
{
    borrows::law_release_takes_one_borrow(before.graph@, index);
    before.lemma_holds(index);
}

/// Giving back a future that was answered does nothing. One that waits leaves its branch closed, and
/// one that is ready frees it.
pub proof fn law_future_is_given_back<T>(
    before: BorrowInner<T>,
    after: BorrowInner<T>,
    future: crate::inner::FuturePtr<T, usize>,
)
    requires
        future.shared is Some ==> future.valid(&before),
        after.closed_from(before, future),
    ensures
        future.shared is None ==> after == before,
        future.shared is Some ==> {
            &&& after.weak == before.weak - 1
            &&& before.graph@.pending(future.index) ==> {
                &&& after.graph@.closed(future.index)
                &&& after.graph@.branches.dom() == before.graph@.branches.dom()
                &&& after.graph@.branches[future.index].strong
                    == before.graph@.branches[future.index].strong
                &&& after.data == before.data
            }
            &&& before.graph@.ready(future.index) ==> {
                &&& !after.graph@.live(future.index)
                &&& forall|k: usize| #[trigger]
                    after.graph@.live(k) ==> before.graph@.live(k) && after.graph@.borrows(k)
                        == before.graph@.borrows(k)
            }
        },
{
    if future.shared is Some {
        let g = before.graph@;
        if g.pending(future.index) {
            borrows::law_dropped_future_no_longer_waits(g, future.index);
            assert(after.graph@.branches.dom() =~= g.branches.dom());
        } else {
            borrows::law_dropped_ready_future_gives_back(g, future.index);
        }
    }
}

} // verus!
