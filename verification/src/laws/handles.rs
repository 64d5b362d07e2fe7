//! What the smaller calls on owners, references and futures do.
use vstd::prelude::*;
use std::task::Waker;
use crate::future::{RefForward, RefMutForward, RefMutShare, RefShare};
use crate::graph::{Graph, END};
use crate::graph::model::BranchView;
use crate::inner::BorrowInner;
use crate::laws::{borrows, steps};
use crate::place::{Place, Span, Unboxed, Whole};
use crate::pointers::{Context, Ref, RefMut, ShareBox, Weak};
use crate::waker::Poll;

verus! {

/// A new graph is empty, and gives out its nodes from the first on.
pub proof fn law_new_graph_is_empty(capacity: usize, graph: Graph, usual: Graph)
    requires
        call_ensures(Graph::with_capacity, (capacity,), graph),
        call_ensures(Graph::new, (), usual),
    ensures
        graph@.branches == Map::<usize, BranchView>::empty(),
        usual@.branches == Map::<usize, BranchView>::empty(),
        graph@.next_index() == 0,
        usual@.next_index() == 0,
        graph@.versions.len() == capacity,
        graph@.vacant.len() == capacity,
        forall|i: int| 0 <= i < capacity ==> #[trigger] graph@.vacant[i] == i,
        forall|i: int| 0 <= i < capacity ==> #[trigger] graph@.versions[i] == 0,
        graph@.due.len() == 0,
        usual@.due.len() == 0,
{
}

/// A mutable reference that nobody waits for keeps the value until it is given back, and takes it
/// along.
pub proof fn law_value_given_away_mutably_is_dropped<T>(
    owner: ShareBox<T>,
    give_away: &mut BorrowInner<T>,
    rf_mut: RefMut<T>,
    give_back: &mut BorrowInner<T>,
    last: bool,
)
    requires
        old(give_away).owned(),
        call_ensures(ShareBox::<T>::into_mut, (owner, give_away), rf_mut),
        *old(give_back) == *final(give_away),
        call_ensures(RefMut::<T>::release, (rf_mut, give_back), last),
    ensures
        rf_mut.ptr.index == 0,
        final(give_away).data == old(give_away).data,
        final(give_away).holds(0),
        final(give_back).data is None,
        final(give_back).graph@.branches.dom().is_empty(),
        final(give_back).weak == old(give_away).weak - 1,
        last <==> final(give_back).weak == 0,
{
    steps::law_giving_away_adds_a_closed_root(*old(give_away), *final(give_away));
    let h = final(give_away).graph@;
    let f = h.vacated(0);
    assert(f.untracked(END) == (f, true));
    assert(h.untracked(0) == (f, true));
    assert(f.branches.dom() =~= Set::<usize>::empty());
}

/// An owner has the value, and takes it along when dropped.
pub proof fn law_owner_has_the_value<T>(
    value: T,
    made: (BorrowInner<T>, ShareBox<T>),
    read: &T,
    owner: &mut ShareBox<T>,
    change: &mut BorrowInner<T>,
    part: &mut T,
    drop: &mut BorrowInner<T>,
    last: bool,
)
    requires
        call_ensures(ShareBox::<T>::new, (value,), made),
        call_ensures(ShareBox::<T>::deref, (&made.1, &made.0), read),
        *old(owner) == made.1,
        *old(change) == made.0,
        call_ensures(ShareBox::<T>::deref_mut, (owner, change), part),
        *old(drop) == *final(change),
        call_ensures(ShareBox::<T>::release, (made.1, drop), last),
    ensures
        made.0.owned(),
        *read == value,
        *old(part) == value,
        final(change).data == Some(*final(part)),
        final(change).graph == made.0.graph,
        final(drop).data is None,
        last,
{
}

/// What is shared mutably only to be waited for comes back at once.
pub proof fn law_ready_mutable_share_comes_back_at_once<T>(
    owner: ShareBox<T>,
    share: &mut BorrowInner<T>,
    shared: RefMutShare<T>,
    future: &mut RefMutShare<T>,
    answer: &mut BorrowInner<T>,
    waker: Waker,
    poll: Poll<ShareBox<T>>,
)
    requires
        old(share).owned(),
        call_ensures(ShareBox::<T>::into_mut_share, (owner, share), shared),
        *old(future) == shared,
        *old(answer) == *final(share),
        call_ensures(RefMutShare::<T>::poll, (future, answer, waker), poll),
    ensures
        poll is Ready,
        final(answer).owned(),
        final(answer).data == old(share).data,
        final(answer).weak == old(share).weak,
        final(future).ptr.shared is None,
{
}

/// A reference that is turned into a future that is ready comes back at once, with the same part and
/// through the same branch.
pub proof fn law_ready_forward_comes_back_at_once<T, B: ?Sized, P: Copy>(
    this: RefMut<T, B, P>,
    lend: &mut BorrowInner<T>,
    lent: RefForward<T, B, P>,
    future: &mut RefForward<T, B, P>,
    answer: &mut BorrowInner<T>,
    waker: Waker,
    poll: Poll<RefMut<T, B, P>>,
)
    requires
        old(lend).can_forward(this.ptr.index),
        call_ensures(RefMut::<T, B, P>::into_ref_forward, (this, lend), lent),
        *old(future) == lent,
        *old(answer) == *final(lend),
        call_ensures(RefForward::<T, B, P>::poll, (future, answer, waker), poll),
    ensures
        poll matches Poll::Ready(rf_mut) && rf_mut.ptr.index == this.ptr.index && rf_mut.borrow
            == this.borrow,
        final(answer).graph@.branches == old(lend).graph@.branches,
        final(answer).data == old(lend).data,
        final(answer).weak == old(lend).weak,
{
    old(lend).graph.lemma_next_index();
    assert(final(answer).graph@.branches =~= old(lend).graph@.branches);
}

/// A reference that is turned into a future of mutable references that is ready comes back at once,
/// with the same part and through the same branch.
pub proof fn law_ready_mutable_forward_comes_back_at_once<T, B: ?Sized, P: Copy>(
    this: RefMut<T, B, P>,
    lend: &mut BorrowInner<T>,
    lent: RefMutForward<T, B, P>,
    future: &mut RefMutForward<T, B, P>,
    answer: &mut BorrowInner<T>,
    waker: Waker,
    poll: Poll<RefMut<T, B, P>>,
)
    requires
        old(lend).can_forward(this.ptr.index),
        call_ensures(RefMut::<T, B, P>::into_mut_forward, (this, lend), lent),
        *old(future) == lent,
        *old(answer) == *final(lend),
        call_ensures(RefMutForward::<T, B, P>::poll, (future, answer, waker), poll),
    ensures
        poll matches Poll::Ready(rf_mut) && rf_mut.ptr.index == this.ptr.index && rf_mut.borrow
            == this.borrow,
        final(answer).graph@.branches == old(lend).graph@.branches,
        final(answer).data == old(lend).data,
        final(answer).weak == old(lend).weak,
{
    old(lend).graph.lemma_next_index();
    assert(final(answer).graph@.branches =~= old(lend).graph@.branches);
}

/// A clone is another reference to the same part through the same branch. Giving it back leaves every
/// branch as it was.
pub proof fn law_clone_is_undone_by_release<T, B: ?Sized, P: Copy>(
    rf: Ref<T, B, P>,
    clone: &mut BorrowInner<T>,
    copy: Ref<T, B, P>,
    give_back: &mut BorrowInner<T>,
    last: bool,
)
    requires
        old(clone).can_clone(rf.ptr.index),
        call_ensures(Ref::<T, B, P>::clone, (&rf, clone), copy),
        *old(give_back) == *final(clone),
        call_ensures(Ref::<T, B, P>::release, (copy, give_back), last),
    ensures
        copy == rf,
        final(clone).graph@.branches[rf.ptr.index].strong
            == old(clone).graph@.branches[rf.ptr.index].strong + 1,
        final(clone).weak == old(clone).weak + 1,
        final(clone).data == old(clone).data,
        final(give_back).graph@ == old(clone).graph@,
        final(give_back).weak == old(clone).weak,
        final(give_back).data == old(clone).data,
        !last,
{
    let g = old(clone).graph@;
    assert(g.live(rf.ptr.index));
    assert(final(give_back).graph@.branches =~= g.branches);
}

/// A reference reads the part that it is to, and a mutable one changes that part and nothing else.
pub proof fn law_references_reach_their_part<T, B: 'static, P: Place<T, Target = B>>(
    rf: Ref<T, B, P>,
    inner: BorrowInner<T>,
    read: &B,
    rf_mut: &mut RefMut<T, B, P>,
    change: &mut BorrowInner<T>,
    part: &mut B,
)
    requires
        rf.valid(&inner),
        rf.borrow.valid(inner.data->0),
        call_ensures(Ref::<T, B, P>::deref, (&rf, &inner), read),
        old(rf_mut).valid(old(change)),
        old(rf_mut).borrow.valid(old(change).data->0),
        call_ensures(RefMut::<T, B, P>::deref_mut, (rf_mut, change), part),
    ensures
        *read == rf.borrow.at(inner.data->0),
        *old(part) == old(rf_mut).borrow.at(old(change).data->0),
        final(change).data is Some,
        old(rf_mut).borrow.at(final(change).data->0) == *final(part),
        old(rf_mut).borrow.only(old(change).data->0, final(change).data->0),
        final(change).graph == old(change).graph,
        final(change).weak == old(change).weak,
{
}

/// While a shared value is waited for it can be read, and another reference taken: the future waits for
/// that too. Once the value has come back there is nothing to read.
pub proof fn law_waiting_future_reads_and_lends<T>(
    future: RefShare<T>,
    lend: &mut BorrowInner<T>,
    read: Option<&T>,
    rf: Ref<T>,
    ended: bool,
)
    requires
        future.ptr.shared is Some ==> future.ptr.valid(old(lend)),
        call_ensures(RefShare::<T>::is_terminated, (&future,), ended),
        call_ensures(RefShare::<T>::get, (&future, &*old(lend)), read),
        !ended ==> {
            &&& old(lend).graph@.branches[0].strong < usize::MAX
            &&& old(lend).weak < usize::MAX
            &&& call_ensures(RefShare::<T>::as_ref, (&future, lend), rf)
        },
    ensures
        ended <==> future.ptr.shared is None,
        ended <==> read is None,
        !ended ==> {
            &&& *read->0 == old(lend).data->0
            &&& rf.ptr.index == 0
            &&& final(lend).graph@.pending(0)
            &&& final(lend).graph@.branches[0].strong == old(lend).graph@.branches[0].strong + 1
            &&& final(lend).weak == old(lend).weak + 1
            &&& final(lend).data == old(lend).data
        },
{
    if !ended {
        assert(old(lend).graph@.live(0));
        steps::law_tracking_adds_one_pointer(old(lend).graph@, final(lend).graph@, 0);
    }
}

/// While a part that was lent on is waited for the value can be read, and another reference to the part
/// taken: the future waits for that too.
pub proof fn law_waiting_forward_reads_and_lends<T, B: ?Sized, P: Copy>(
    future: RefForward<T, B, P>,
    lend: &mut BorrowInner<T>,
    read: Option<&T>,
    rf: Ref<T, B, P>,
    ended: bool,
)
    requires
        future.ptr.shared is Some ==> future.ptr.valid(old(lend)),
        call_ensures(RefForward::<T, B, P>::is_terminated, (&future,), ended),
        call_ensures(RefForward::<T, B, P>::get, (&future, &*old(lend)), read),
        !ended ==> {
            &&& old(lend).graph@.branches[future.ptr.index].strong < usize::MAX
            &&& old(lend).weak < usize::MAX
            &&& call_ensures(RefForward::<T, B, P>::as_ref, (&future, lend), rf)
        },
    ensures
        ended <==> future.ptr.shared is None,
        ended <==> read is None,
        !ended ==> {
            &&& *read->0 == old(lend).data->0
            &&& rf.ptr.index == future.ptr.index
            &&& rf.borrow == future.borrow
            &&& final(lend).graph@.branches[future.ptr.index].strong
                == old(lend).graph@.branches[future.ptr.index].strong + 1
            &&& final(lend).graph@.pending(future.ptr.index)
            &&& final(lend).weak == old(lend).weak + 1
            &&& final(lend).data == old(lend).data
        },
{
    if !ended {
        let index = future.ptr.index;
        assert(old(lend).graph@.live(index));
        steps::law_tracking_adds_one_pointer(old(lend).graph@, final(lend).graph@, index);
    }
}

/// The future of a shared value is that of a reference to the whole of it through the root.
pub proof fn law_share_is_forward_of_the_whole<T>(
    share: RefShare<T>,
    forward: RefForward<T>,
    share_mut: RefMutShare<T>,
    forward_mut: RefMutForward<T>,
)
    requires
        call_ensures(RefShare::<T>::generalise, (share,), forward),
        call_ensures(RefMutShare::<T>::generalise, (share_mut,), forward_mut),
    ensures
        forward.ptr.index == 0,
        forward.ptr.shared is Some,
        forward.borrow == Whole,
        forward_mut.ptr.index == 0,
        forward_mut.ptr.shared is Some,
        forward_mut.borrow == Whole,
{
}

/// Giving up mutability keeps the branch and the part. Reaching into a box keeps the branch.
pub proof fn law_turned_reference_keeps_its_branch<T, B: ?Sized, P, U>(
    rf_mut: RefMut<T, B, P>,
    rf: Ref<T, B, P>,
    boxed: Ref<Box<U>, Box<U>>,
    unboxed: Ref<Box<U>, U, Unboxed>,
    boxed_mut: RefMut<Box<U>, Box<U>>,
    unboxed_mut: RefMut<Box<U>, U, Unboxed>,
)
    requires
        call_ensures(RefMut::<T, B, P>::into_ref, (rf_mut,), rf),
        call_ensures(Ref::<Box<U>, Box<U>>::into_deref, (boxed,), unboxed),
        call_ensures(RefMut::<Box<U>, Box<U>>::into_deref_mut, (boxed_mut,), unboxed_mut),
    ensures
        rf.ptr.index == rf_mut.ptr.index,
        rf.borrow == rf_mut.borrow,
        unboxed.ptr.index == boxed.ptr.index,
        unboxed_mut.ptr.index == boxed_mut.ptr.index,
{
}

/// The mutable slice of a vector has all of its elements.
pub proof fn law_mutable_slice_of_vector_has_all_elements<
    T,
    E: 'static,
    P: Place<T, Target = Vec<E>>,
>(this: RefMut<T, Vec<E>, P>, inner: BorrowInner<T>, elems: RefMut<T, [E], Span<P>>)
    requires
        this.valid(&inner),
        this.borrow.valid(inner.data->0),
        call_ensures(RefMut::<T, Vec<E>, P>::into_deref_mut, (this, &inner), elems),
    ensures
        elems.ptr.index == this.ptr.index,
        elems.in_bounds(&inner),
        elems.elems(&inner) == this.borrow.at(inner.data->0)@,
{
    let all = this.borrow.at(inner.data->0)@;
    assert(this.borrow.at(inner.data->0).len() == all.len());
    assert(elems.elems(&inner) =~= all);
}

/// A context makes references through its branch to whatever part it is asked for, and counts each.
pub proof fn law_context_makes_references<T, B: ?Sized, P>(
    context: Context<T>,
    place: P,
    lift: &mut BorrowInner<T>,
    rf: Ref<T, B, P>,
    lift_mut: &mut BorrowInner<T>,
    rf_mut: RefMut<T, B, P>,
)
    requires
        old(lift).can_clone(context.ptr.index),
        call_ensures(Context::<T>::lift_ref::<B, P>, (&context, lift, place), rf),
        old(lift_mut).can_clone(context.ptr.index),
        call_ensures(Context::<T>::lift_mut::<B, P>, (&context, lift_mut, place), rf_mut),
    ensures
        rf.ptr.index == context.ptr.index,
        rf.borrow == place,
        rf_mut.ptr.index == context.ptr.index,
        rf_mut.borrow == place,
        final(lift).graph@.branches[context.ptr.index].strong
            == old(lift).graph@.branches[context.ptr.index].strong + 1,
        final(lift).weak == old(lift).weak + 1,
        final(lift).data == old(lift).data,
        final(lift_mut).graph@.branches[context.ptr.index].strong
            == old(lift_mut).graph@.branches[context.ptr.index].strong + 1,
        final(lift_mut).weak == old(lift_mut).weak + 1,
        final(lift_mut).data == old(lift_mut).data,
{
}

/// A weak reference whose branch was freed cannot be upgraded, and trying to gives it back.
pub proof fn law_dead_weak_reference_is_given_back<T, B: ?Sized, P>(
    weak: Weak<T, B, P>,
    inner: &mut BorrowInner<T>,
    upgraded: Option<Ref<T, B, P>>,
)
    requires
        weak.valid(old(inner)),
        !old(inner).graph@.live(weak.index),
        call_ensures(Weak::<T, B, P>::upgrade, (weak, inner), upgraded),
    ensures
        upgraded is None,
        final(inner).graph@ == old(inner).graph@,
        final(inner).data == old(inner).data,
        final(inner).weak == old(inner).weak - 1,
{
    let g = old(inner).graph@;
    assert(g.versions[weak.index as int] % 2 == 1 ==> g.live(weak.index));
}

/// The future of a shared value that is given back leaves the value to the last reference. If there is
/// none the value is dropped.
pub proof fn law_dropped_share_leaves_the_value<T>(future: RefShare<T>, inner: &mut BorrowInner<T>)
    requires
        future.ptr.valid(old(inner)),
        call_ensures(RefShare::<T>::release, (future, inner), ()),
    ensures
        ({
            let (g, h) = (old(inner).graph@, final(inner).graph@);
            &&& final(inner).weak == old(inner).weak - 1
            &&& g.branches[0].strong > 0 ==> {
                &&& h.closed(0)
                &&& h.branches[0].strong == g.branches[0].strong
                &&& final(inner).data == old(inner).data
            }
            &&& g.branches[0].strong == 0 ==> !h.live(0) && final(inner).data is None
        }),
{
    let g = old(inner).graph@;
    assert(g.live(0));
    if g.pending(0) {
        borrows::law_dropped_future_no_longer_waits(g, 0);
    } else {
        borrows::law_dropped_ready_future_gives_back(g, 0);
    }
}

/// A closure that a value is shared with gets a reference to the whole of it, and what it returns is
/// handed over. The future waits for that reference.
pub proof fn law_spawned_closure_gets_a_reference<T, U, F: FnOnce(Ref<T>) -> U>(
    owner: ShareBox<T>,
    inner: &mut BorrowInner<T>,
    f: F,
    spawned: (RefShare<T>, U),
)
    requires
        old(inner).owned(),
        old(inner).weak < usize::MAX,
        call_ensures(ShareBox::<T>::spawn_ref::<U>, (owner, inner, f), spawned),
    ensures
        exists|rf: Ref<T>| rf.ptr.index == 0 && #[trigger] call_ensures(f, (rf,), spawned.1),
        spawned.0.ptr.shared is Some,
        final(inner).graph@.pending(0),
        final(inner).graph@.branches[0].strong == 1,
        final(inner).data == old(inner).data,
        final(inner).weak == old(inner).weak + 1,
{
    assert(call_ensures(f, (Ref::<T>::through(0, Whole),), spawned.1));
}

/// A closure that a value is shared mutably with gets a mutable reference to the whole of it, and what
/// it returns is handed over. The future waits for that reference.
pub proof fn law_spawned_closure_gets_a_mutable_reference<T, U, F: FnOnce(RefMut<T>) -> U>(
    owner: ShareBox<T>,
    inner: &mut BorrowInner<T>,
    f: F,
    spawned: (RefMutShare<T>, U),
)
    requires
        old(inner).owned(),
        old(inner).weak < usize::MAX,
        call_ensures(ShareBox::<T>::spawn_mut::<U>, (owner, inner, f), spawned),
    ensures
        exists|rf: RefMut<T>| rf.ptr.index == 0 && #[trigger] call_ensures(f, (rf,), spawned.1),
        spawned.0.ptr.shared is Some,
        final(inner).graph@.pending(0),
        final(inner).graph@.branches[0].strong == 1,
        final(inner).data == old(inner).data,
        final(inner).weak == old(inner).weak + 1,
{
    assert(call_ensures(f, (RefMut::<T>::through(0, Whole),), spawned.1));
}

/// A closure that a part is lent on to gets a reference to that part through a new branch under the one
/// that it was lent from, and what it returns is handed over.
pub proof fn law_cleaving_closure_gets_a_reference<
    T,
    B: ?Sized,
    P: Copy,
    U,
    F: FnOnce(Ref<T, B, P>) -> U,
>(
    this: RefMut<T, B, P>,
    inner: &mut BorrowInner<T>,
    f: F,
    cleft: (RefForward<T, B, P>, U),
)
    requires
        old(inner).can_forward(this.ptr.index),
        old(inner).weak < usize::MAX,
        call_ensures(RefMut::<T, B, P>::cleave_ref::<U>, (this, inner, f), cleft),
    ensures
        ({
            let index = cleft.0.ptr.index;
            &&& exists|rf: Ref<T, B, P>|
                rf.ptr.index == index && rf.borrow == this.borrow && #[trigger] call_ensures(
                    f,
                    (rf,),
                    cleft.1,
                )
            &&& cleft.0.borrow == this.borrow
            &&& !old(inner).graph@.live(index)
            &&& final(inner).graph@.pending(index)
            &&& final(inner).graph@.branches[index].strong == 1
            &&& final(inner).graph@.branches[index].parent == this.ptr.index
            &&& final(inner).data == old(inner).data
            &&& final(inner).weak == old(inner).weak + 1
        }),
{
    old(inner).graph.lemma_next_index();
    let rf = Ref::<T, B, P>::through(old(inner).graph@.next_index(), this.borrow);
    assert(call_ensures(f, (rf,), cleft.1));
}

/// A closure that a part is lent on to mutably gets a mutable reference to that part through a new
/// branch under the one that it was lent from, and what it returns is handed over.
pub proof fn law_cleaving_closure_gets_a_mutable_reference<
    T,
    B: ?Sized,
    P: Copy,
    U,
    F: FnOnce(RefMut<T, B, P>) -> U,
>(
    this: RefMut<T, B, P>,
    inner: &mut BorrowInner<T>,
    f: F,
    cleft: (RefMutForward<T, B, P>, U),
)
    requires
        old(inner).can_forward(this.ptr.index),
        old(inner).weak < usize::MAX,
        call_ensures(RefMut::<T, B, P>::cleave_mut::<U>, (this, inner, f), cleft),
    ensures
        ({
            let index = cleft.0.ptr.index;
            &&& exists|rf: RefMut<T, B, P>|
                rf.ptr.index == index && rf.borrow == this.borrow && #[trigger] call_ensures(
                    f,
                    (rf,),
                    cleft.1,
                )
            &&& cleft.0.borrow == this.borrow
            &&& !old(inner).graph@.live(index)
            &&& final(inner).graph@.pending(index)
            &&& final(inner).graph@.branches[index].strong == 1
            &&& final(inner).graph@.branches[index].parent == this.ptr.index
            &&& final(inner).data == old(inner).data
            &&& final(inner).weak == old(inner).weak + 1
        }),
{
    old(inner).graph.lemma_next_index();
    let rf = RefMut::<T, B, P>::through(old(inner).graph@.next_index(), this.borrow);
    assert(call_ensures(f, (rf,), cleft.1));
}

/// Mapping a reference keeps its branch, and makes it one to what the closure makes of the place.
pub proof fn law_mapped_reference_keeps_its_branch<
    T,
    B: ?Sized,
    P,
    C: ?Sized,
    Q,
    F: FnOnce(P) -> Q,
>(
    rf: Ref<T, B, P>,
    mapped: Ref<T, C, Q>,
    rf_mut: RefMut<T, B, P>,
    mapped_mut: RefMut<T, C, Q>,
    f: F,
)
    requires
        call_ensures(Ref::<T, B, P>::map::<C, Q>, (rf, f), mapped),
        call_ensures(RefMut::<T, B, P>::map::<C, Q>, (rf_mut, f), mapped_mut),
    ensures
        mapped.ptr.index == rf.ptr.index,
        call_ensures(f, (rf.borrow,), mapped.borrow),
        mapped_mut.ptr.index == rf_mut.ptr.index,
        call_ensures(f, (rf_mut.borrow,), mapped_mut.borrow),
{
}

/// A value that came back is shared again if that is asked for, with one new reference that the future
/// waits for. If not the future is ready at once. The value is as it came back.
pub proof fn law_value_that_came_back_is_shared_again<T>(
    future: &mut RefShare<T>,
    inner: &mut BorrowInner<T>,
    owner: ShareBox<T>,
    again: bool,
    rf: Option<Ref<T>>,
)
    requires
        old(inner).owned(),
        old(inner).weak < usize::MAX,
        call_ensures(RefShare::<T>::share_again, (future, inner, owner, again), rf),
    ensures
        rf is Some <==> again,
        final(future).ptr.valid(final(inner)),
        final(inner).data == old(inner).data,
        final(inner).graph@.branches.dom() == set![0usize],
        final(inner).graph@.branches[0].parent == END,
        rf is Some ==> {
            &&& final(inner).graph@.pending(0)
            &&& final(inner).graph@.branches[0].strong == 1
            &&& final(inner).weak == old(inner).weak + 1
        },
        rf is None ==> final(inner).graph@.ready(0) && final(inner).weak == old(inner).weak,
{
    assert(final(inner).graph@.branches.dom() =~= set![0usize]);
}

/// A value that came back is shared mutably again if that is asked for, with one new reference that the future
/// waits for. If not the future is ready at once. The value is as it came back.
pub proof fn law_value_that_came_back_is_shared_mutably_again<T>(
    future: &mut RefMutShare<T>,
    inner: &mut BorrowInner<T>,
    owner: ShareBox<T>,
    again: bool,
    rf: Option<RefMut<T>>,
)
    requires
        old(inner).owned(),
        old(inner).weak < usize::MAX,
        call_ensures(RefMutShare::<T>::share_again, (future, inner, owner, again), rf),
    ensures
        rf is Some <==> again,
        final(future).ptr.valid(final(inner)),
        final(inner).data == old(inner).data,
        final(inner).graph@.branches.dom() == set![0usize],
        final(inner).graph@.branches[0].parent == END,
        rf is Some ==> {
            &&& final(inner).graph@.pending(0)
            &&& final(inner).graph@.branches[0].strong == 1
            &&& final(inner).weak == old(inner).weak + 1
        },
        rf is None ==> final(inner).graph@.ready(0) && final(inner).weak == old(inner).weak,
{
    assert(final(inner).graph@.branches.dom() =~= set![0usize]);
}

/// A part that came back is lent on again if that is asked for, through a new branch under the one that it
/// came back to. If not the future is ready at once. No other branch changes.
pub proof fn law_part_that_came_back_is_lent_again<T, B: ?Sized, P: Copy>(
    future: &mut RefForward<T, B, P>,
    inner: &mut BorrowInner<T>,
    came_back: RefMut<T, B, P>,
    again: bool,
    rf: Option<Ref<T, B, P>>,
)
    requires
        old(inner).can_forward(came_back.ptr.index),
        old(inner).weak < usize::MAX,
        call_ensures(RefForward::<T, B, P>::lend_again, (future, inner, came_back, again), rf),
    ensures
        ({
            let index = final(future).ptr.index;
            let (g, h) = (old(inner).graph@, final(inner).graph@);
            &&& rf is Some <==> again
            &&& final(future).borrow == came_back.borrow
            &&& final(future).ptr.valid(final(inner))
            &&& !g.live(index)
            &&& h.branches.dom() == g.branches.dom().insert(index)
            &&& h.branches[index].parent == came_back.ptr.index
            &&& forall|k: usize| #[trigger] g.live(k) ==> h.branches[k] == g.branches[k]
            &&& rf matches Some(rf) ==> {
                &&& rf.ptr.index == index
                &&& rf.borrow == came_back.borrow
                &&& h.pending(index)
                &&& h.branches[index].strong == 1
                &&& final(inner).weak == old(inner).weak + 1
            }
            &&& rf is None ==> h.ready(index) && final(inner).weak == old(inner).weak
            &&& final(inner).data == old(inner).data
        }),
{
    let (g, h) = (old(inner).graph@, final(inner).graph@);
    old(inner).graph.lemma_next_index();
    assert(h.branches.dom() =~= g.branches.dom().insert(g.next_index()));
}

/// A part that came back is lent on mutably again if that is asked for, through a new branch under the one that it
/// came back to. If not the future is ready at once. No other branch changes.
pub proof fn law_part_that_came_back_is_lent_mutably_again<T, B: ?Sized, P: Copy>(
    future: &mut RefMutForward<T, B, P>,
    inner: &mut BorrowInner<T>,
    came_back: RefMut<T, B, P>,
    again: bool,
    rf: Option<RefMut<T, B, P>>,
)
    requires
        old(inner).can_forward(came_back.ptr.index),
        old(inner).weak < usize::MAX,
        call_ensures(RefMutForward::<T, B, P>::lend_again, (future, inner, came_back, again), rf),
    ensures
        ({
            let index = final(future).ptr.index;
            let (g, h) = (old(inner).graph@, final(inner).graph@);
            &&& rf is Some <==> again
            &&& final(future).borrow == came_back.borrow
            &&& final(future).ptr.valid(final(inner))
            &&& !g.live(index)
            &&& h.branches.dom() == g.branches.dom().insert(index)
            &&& h.branches[index].parent == came_back.ptr.index
            &&& forall|k: usize| #[trigger] g.live(k) ==> h.branches[k] == g.branches[k]
            &&& rf matches Some(rf) ==> {
                &&& rf.ptr.index == index
                &&& rf.borrow == came_back.borrow
                &&& h.pending(index)
                &&& h.branches[index].strong == 1
                &&& final(inner).weak == old(inner).weak + 1
            }
            &&& rf is None ==> h.ready(index) && final(inner).weak == old(inner).weak
            &&& final(inner).data == old(inner).data
        }),
{
    let (g, h) = (old(inner).graph@, final(inner).graph@);
    old(inner).graph.lemma_next_index();
    assert(h.branches.dom() =~= g.branches.dom().insert(g.next_index()));
}

/// The future of a value that was shared mutably leaves the value to the last reference if it is given
/// back. If there is none the value is dropped.
pub proof fn law_dropped_mutable_share_leaves_the_value<T>(
    future: RefMutShare<T>,
    inner: &mut BorrowInner<T>,
)
    requires
        future.ptr.valid(old(inner)),
        call_ensures(RefMutShare::<T>::release, (future, inner), ()),
    ensures
        ({
            let (g, h) = (old(inner).graph@, final(inner).graph@);
            &&& final(inner).weak == old(inner).weak - 1
            &&& g.branches[0].strong > 0 ==> {
                &&& h.closed(0)
                &&& h.branches[0].strong == g.branches[0].strong
                &&& final(inner).data == old(inner).data
            }
            &&& g.branches[0].strong == 0 ==> !h.live(0) && final(inner).data is None
        }),
{
    let g = old(inner).graph@;
    assert(g.live(0));
    if g.pending(0) {
        borrows::law_dropped_future_no_longer_waits(g, 0);
    } else {
        borrows::law_dropped_ready_future_gives_back(g, 0);
    }
}

/// Giving back the future of a part that was lent on is giving back the pointer that waits for its
/// branch, whether it was lent mutably or not.
pub proof fn law_dropped_forward_is_given_back<T, B: ?Sized, P>(
    future: RefForward<T, B, P>,
    inner: &mut BorrowInner<T>,
    future_mut: RefMutForward<T, B, P>,
    inner_mut: &mut BorrowInner<T>,
)
    requires
        future.ptr.shared is Some ==> future.ptr.valid(old(inner)),
        call_ensures(RefForward::<T, B, P>::release, (future, inner), ()),
        future_mut.ptr.shared is Some ==> future_mut.ptr.valid(old(inner_mut)),
        call_ensures(RefMutForward::<T, B, P>::release, (future_mut, inner_mut), ()),
    ensures
        final(inner).closed_from(*old(inner), future.ptr),
        final(inner_mut).closed_from(*old(inner_mut), future_mut.ptr),
{
}

/// What a box holds is shared like the box: the reference is to what it holds, through the root, and
/// the future waits for it.
pub proof fn law_boxed_value_is_shared<T: ?Sized>(
    owner: ShareBox<Box<T>>,
    share: &mut BorrowInner<Box<T>>,
    shared: (RefShare<Box<T>>, Ref<Box<T>, T, Unboxed>),
    share_mut: &mut BorrowInner<Box<T>>,
    shared_mut: (RefMutShare<Box<T>>, RefMut<Box<T>, T, Unboxed>),
)
    requires
        old(share).owned(),
        old(share).weak < usize::MAX,
        call_ensures(ShareBox::<Box<T>>::share_wide_ref, (owner, share), shared),
        old(share_mut).owned(),
        old(share_mut).weak < usize::MAX,
        call_ensures(ShareBox::<Box<T>>::share_wide_mut, (owner, share_mut), shared_mut),
    ensures
        shared.1.ptr.index == 0,
        shared.0.ptr.shared is Some,
        final(share).graph@.pending(0),
        final(share).graph@.branches[0].strong == 1,
        final(share).data == old(share).data,
        final(share).weak == old(share).weak + 1,
        shared_mut.1.ptr.index == 0,
        shared_mut.0.ptr.shared is Some,
        final(share_mut).graph@.pending(0),
        final(share_mut).graph@.branches[0].strong == 1,
        final(share_mut).data == old(share_mut).data,
        final(share_mut).weak == old(share_mut).weak + 1,
{
}

/// A weak reference that is cloned or given back changes only the number of pointers.
pub proof fn law_weak_references_do_not_borrow<T, B: ?Sized, P: Copy>(
    weak: Weak<T, B, P>,
    clone: &mut BorrowInner<T>,
    copy: Weak<T, B, P>,
    give_back: &mut BorrowInner<T>,
    last: bool,
)
    requires
        0 < old(clone).weak < usize::MAX,
        call_ensures(Weak::<T, B, P>::clone, (&weak, clone), copy),
        *old(give_back) == *final(clone),
        call_ensures(Weak::<T, B, P>::release, (copy, give_back), last),
    ensures
        copy.index == weak.index,
        copy.version == weak.version,
        copy.borrow == weak.borrow,
        final(clone).weak == old(clone).weak + 1,
        final(clone).graph == old(clone).graph,
        final(clone).data == old(clone).data,
        *final(give_back) == *old(clone),
        !last,
{
}

} // verus!
