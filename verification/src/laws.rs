//! What holds of sharing as a whole.
//!
//! The laws are stated over [`GraphView`]s and allocations, in the words that the contracts of the
//! methods use.
use vstd::prelude::*;
use std::task::Waker;
use crate::graph::{self, Graph, END};
use crate::graph::model::{self, BranchView, GraphView};
use crate::inner::BorrowInner;
use crate::pointers::{Ref, RefMut};

pub mod borrows;
pub mod calls;
pub mod capacity;
pub mod handles;
pub mod history;
pub mod sharing;
pub mod steps;

verus! {

/// There is one root, it is node 0, and it is the last to be freed: as long as anything is
/// borrowed the root is there, and once nothing is, the next share gets node 0 again.
pub proof fn law_root_is_last(g: GraphView)
    requires
        g.forest(),
        g.rooted(),
    ensures
        !g.branches.dom().is_empty() ==> g.live(0),
        forall|k: usize| #[trigger] g.live(k) && k != 0 ==> g.branches[k].parent != END,
        g.live(0) && g.children(0).is_empty() ==> g.branches.dom() == set![0usize],
        g.branches.dom().is_empty() ==> g.next_index() == 0,
{
    if !g.branches.dom().is_empty() {
        model::lemma_root(g);
    }
    if g.live(0) {
        assert(g.branches.dom().contains(0));
        model::lemma_root(g);
    }
}

/// A future is answered exactly if no borrow pointer to its branch is left: while anyone holds one,
/// it waits.
pub proof fn law_ready_means_unborrowed(g: GraphView, index: usize)
    requires
        g.forest(),
        g.pending(index) || g.ready(index),
    ensures
        g.ready(index) <==> g.branches[index].strong == 0,
        g.borrows(index) >= 1 ==> g.pending(index),
{
}

/// The graph once a borrow pointer to `index` is given back `count` times.
pub open spec fn given_back(g: GraphView, index: usize, count: nat) -> GraphView
    decreases count,
{
    if count == 0 {
        g
    } else {
        given_back(g, index, (count - 1) as nat).untracked(index).0
    }
}

/// A future waits until every reference is given back, the first one and all its clones alike, and is
/// ready after that. Only then its waker is due.
pub proof fn law_waits_for_all_references(g: GraphView, index: usize, count: nat)
    requires
        g.forest(),
        g.pending(index),
        count <= g.branches[index].strong,
        g.borrows(index) == g.branches[index].strong,
    ensures
        ({
            let after = given_back(g, index, count);
            &&& after.branches.dom() == g.branches.dom()
            &&& after.branches[index].strong == g.branches[index].strong - count
            &&& count < g.branches[index].strong ==> {
                &&& after.pending(index)
                &&& after.branches[index].waker == g.branches[index].waker
                &&& after.due == g.due
            }
            &&& count == g.branches[index].strong ==> {
                &&& after.ready(index)
                &&& after.due == g.due.push(g.branches[index].waker->0)
            }
        }),
    decreases count,
{
    if count > 0 {
        law_waits_for_all_references(g, index, (count - 1) as nat);
        let before = given_back(g, index, (count - 1) as nat);
        assert(before.branches.dom().finite());
        assert(before.untracked(index).0.branches.dom() =~= before.branches.dom());
    }
}

/// A branch that is borrowed through again is waited for again, also if its future was ready. Once
/// that reference is given back, the future is as it was.
pub proof fn law_borrowed_again_is_waited_for(g: GraphView, h: GraphView, index: usize)
    requires
        g.forest(),
        g.pending(index) || g.ready(index),
        g.branches[index].strong < usize::MAX,
        h.tracked_from(g, index),
    ensures
        h.pending(index),
        h.borrows(index) == g.borrows(index) + 1,
        !h.untracked(index).1,
        h.untracked(index).0.branches == g.branches,
        h.untracked(index).0.versions == g.versions,
{
    model::lemma_tracked(g, h, index);
    assert(h.untracked(index).0.branches =~= g.branches);
}

/// A future waits as long as anything lent on from its branch has not come back.
pub proof fn law_parent_waits_for_child(g: GraphView, child: usize)
    requires
        g.forest(),
        g.live(child),
        g.branches[child].parent != END,
    ensures
        g.live(g.branches[child].parent),
        !g.ready(g.branches[child].parent),
{
    let parent = g.branches[child].parent;
    assert(g.live(parent));
    assert(g.children(parent).contains(child));
    assert(g.children(parent).len() > 0) by {
        if g.children(parent).len() == 0 {
            assert(g.children(parent).finite());
            assert(g.children(parent) =~= Set::empty());
        }
    }
}

/// Giving back the last borrow pointer makes the waker of a future that waits due, and the future
/// ready. Giving back any other makes nothing due.
pub proof fn law_last_release_wakes(g: GraphView, index: usize)
    requires
        g.forest(),
        g.pending(index),
        g.borrows(index) >= 1,
    ensures
        !g.untracked(index).1,
        g.branches[index].strong == 1 ==> {
            &&& g.untracked(index).0.ready(index)
            &&& g.untracked(index).0.due == g.due.push(g.branches[index].waker->0)
        },
        g.branches[index].strong > 1 ==> {
            &&& g.untracked(index).0.pending(index)
            &&& g.untracked(index).0.due == g.due
        },
{
}

/// Cloning a borrow pointer and giving the clone back changes nothing.
pub proof fn law_clone_then_release(g: GraphView, index: usize)
    requires
        g.forest(),
        g.live(index),
        0 < g.branches[index].strong < usize::MAX,
    ensures
        g.with_strong(index, g.branches[index].strong + 1).untracked(index) == (g, false),
{
    let h = g.with_strong(index, g.branches[index].strong + 1);
    assert(h.branches.dom() =~= g.branches.dom());
    assert(h.untracked(index).0.branches =~= g.branches);
}

/// What lending on and getting back leaves: the graph as it was, but for a waker that is due. Where
/// the arena had to grow, it has grown.
pub proof fn law_lend_release_poll(graph: Graph, parent: usize, waker: Waker)
    requires
        graph.wf(),
        graph@.borrowed(parent),
        graph@.has_room(),
    ensures
        ({
            let g = graph@;
            let index = g.next_index();
            let released = g.forwarded(parent, waker).untracked(index);
            &&& !released.1
            &&& released.0.ready(index)
            &&& released.0.branches[index].parent == parent
            &&& released.0.vacated(index).branches == g.branches
            &&& released.0.vacated(index).due == g.due.push(waker)
            &&& g.vacant.len() > 0 ==> released.0.vacated(index) == (GraphView {
                due: g.due.push(waker),
                ..g
            })
        }),
{
    let g = graph@;
    let index = g.next_index();
    graph.lemma_next_index();
    let lent = g.forwarded(parent, waker);
    assert(lent.branches.dom() =~= g.branches.dom().insert(index));
    let released = lent.untracked(index);
    let back = released.0.vacated(index);
    assert(back.branches =~= g.branches);
    if g.vacant.len() > 0 {
        assert(seq![index] + g.vacant.drop_first() =~= g.vacant);
        assert(g.versions[index as int] % 2 == 0);
        assert(back.versions =~= g.versions);
    }
}

/// A graph in which only the wakers that are due differ answers alike.
proof fn lemma_untracked_but_due(g: GraphView, h: GraphView, index: usize)
    requires
        h == (GraphView { due: h.due, ..g }),
    ensures
        g.untracked(index).1 == h.untracked(index).1,
        h.untracked(index).0 == (GraphView {
            due: h.untracked(index).0.due,
            ..g.untracked(index).0
        }),
    decreases g.branches.dom().len(),
{
    if index != END && g.live(index) && g.branches.dom().finite() {
        let branch = g.branches[index];
        if branch.strong == 1 && branch.waker is None {
            assert(g.vacated(index).branches.dom() =~= g.branches.dom().remove(index));
            lemma_untracked_but_due(g.vacated(index), h.vacated(index), branch.parent);
        }
    }
}

/// Whether the last reference is given back before its future or after it leaves the same branches,
/// and drops the value alike. Only in the first case is the future's waker due.
pub proof fn law_drop_order(g: GraphView, index: usize)
    requires
        g.forest(),
        g.pending(index),
        g.branches[index].strong == 1,
        g.borrows(index) == 1,
    ensures
        ({
            let reference_first = g.untracked(index).0.future_closed(index);
            let future_first = g.future_closed(index).0.untracked(index);
            &&& reference_first.1 == future_first.1
            &&& reference_first.0 == (GraphView {
                due: reference_first.0.due,
                ..future_first.0
            })
            &&& g.untracked(index).0.due == g.due.push(g.branches[index].waker->0)
            &&& g.future_closed(index).0.due == g.due
        }),
{
    let branch = g.branches[index];
    let unborrowed = g.untracked(index).0;
    let closed = g.future_closed(index).0;
    assert(closed.branches.dom() =~= g.branches.dom());
    assert(unborrowed.vacated(index).branches =~= closed.vacated(index).branches);
    assert(closed.untracked(index) == closed.vacated(index).untracked(branch.parent));
    assert(unborrowed.vacated(index) =~= (GraphView {
        due: unborrowed.due,
        ..closed.vacated(index)
    }));
    lemma_untracked_but_due(closed.vacated(index), unborrowed.vacated(index), branch.parent);
}

/// The value is dropped together with the last borrow pointer that nobody waits for, and not
/// before.
pub proof fn law_dropped_with_last_borrow<T>(inner: BorrowInner<T>, index: usize)
    requires
        inner.holds(index),
    ensures
        inner.data is Some,
        inner.graph@.untracked(index).1 <==> inner.graph@.untracked(
            index,
        ).0.branches.dom().is_empty(),
{
    inner.lemma_holds(index);
    if index != END {
        model::lemma_untracked(inner.graph@, index);
    }
}

/// Whether no version in `after` is less than in `before`.
pub open spec fn versions_kept(before: GraphView, after: GraphView) -> bool {
    &&& before.versions.len() <= after.versions.len()
    &&& forall|k: int|
        0 <= k < before.versions.len() ==> #[trigger] before.versions[k] <= after.versions[k]
}

/// A weak reference holds no borrow: taking one leaves every branch as it was, so that futures are
/// ready as soon as they would be without it.
pub proof fn law_weak_reference_holds_no_borrow(g: GraphView, h: GraphView, versions: Seq<u64>)
    requires
        h == (GraphView { versions, ..g }),
    ensures
        forall|k: usize| #[trigger] h.pending(k) == g.pending(k),
        forall|k: usize| #[trigger] h.ready(k) == g.ready(k),
        forall|k: usize| #[trigger] h.borrows(k) == g.borrows(k),
        h.due == g.due,
{
    assert forall|k: usize| #[trigger] h.pending(k) == g.pending(k) by {
        assert(h.live(k) == g.live(k));
    }
    assert forall|k: usize| #[trigger] h.ready(k) == g.ready(k) by {
        assert(h.live(k) == g.live(k));
    }
}

/// Lending does not turn a version back.
pub proof fn law_lending_keeps_versions(g: GraphView, branch: BranchView)
    ensures
        versions_kept(g, g.allocated(branch)),
{
}

/// Taking a weak reference does not turn a version back, and later ones get the same version until
/// the branch is freed.
pub proof fn law_downgrading_keeps_versions(g: GraphView, index: usize)
    requires
        index < g.versions.len(),
    ensures
        ({
            let version = graph::weak_version(g.versions[index as int]);
            let after = GraphView { versions: g.versions.update(index as int, version), ..g };
            &&& g.versions[index as int] < u64::MAX ==> versions_kept(g, after)
            &&& version % 2 == 1
            &&& graph::weak_version(version) == version
        }),
{
    let v = g.versions[index as int];
    assert(v % 2 == 1 || v % 2 == 0);
}

/// Freeing a branch turns no version back, and passes the version of every weak reference to it.
pub proof fn law_freeing_passes_weak_references(g: GraphView, index: usize)
    requires
        g.forest(),
        g.live(index),
    ensures
        versions_kept(g, g.vacated(index)),
        g.vacated(index).versions[index as int] % 2 == 0,
        g.versions[index as int] % 2 == 1 ==> g.vacated(index).versions[index as int]
            > g.versions[index as int],
{
}

/// Giving back a borrow pointer does not turn a version back.
pub proof fn law_releasing_keeps_versions(g: GraphView, index: usize)
    requires
        g.forest(),
        g.rooted(),
        g.borrowed(index),
    ensures
        versions_kept(g, g.untracked(index).0),
    decreases g.branches.dom().len(),
{
    if index != END {
        let branch = g.branches[index];
        if branch.strong == 1 && branch.waker is None {
            assert(g.children(index).is_empty());
            model::lemma_vacated_forest(g, index);
            model::lemma_vacated_rooted(g, index);
            law_freeing_passes_weak_references(g, index);
            law_releasing_keeps_versions(g.vacated(index), branch.parent);
        }
    }
}

/// Dropping a future does not turn a version back.
pub proof fn law_closing_keeps_versions(g: GraphView, index: usize)
    requires
        g.forest(),
        g.rooted(),
        g.pending(index) || g.ready(index),
    ensures
        versions_kept(g, g.future_closed(index).0),
{
    if g.branches[index].waker is None {
        assert(g.children(index).is_empty());
        model::lemma_vacated_forest(g, index);
        model::lemma_vacated_rooted(g, index);
        law_freeing_passes_weak_references(g, index);
        law_releasing_keeps_versions(g.vacated(index), g.branches[index].parent);
    }
}

/// A weak reference whose branch was freed never becomes a reference again: its version was passed,
/// and versions are not turned back.
pub proof fn law_weak_reference_stays_dead(g: GraphView, later: GraphView, index: usize, version: u64)
    requires
        g.forest(),
        g.live(index),
        version % 2 == 1,
        g.versions[index as int] == version,
        versions_kept(g.vacated(index), later),
    ensures
        later.versions[index as int] != version,
{
    law_freeing_passes_weak_references(g, index);
    assert(g.vacated(index).versions[index as int] <= later.versions[index as int]);
}

/// Sharing a value, giving the reference back and polling the future gives back the owner, with the
/// value as it was left.
pub proof fn law_share_gives_back_ownership<T>(
    owned: BorrowInner<T>,
    shared: BorrowInner<T>,
    released: BorrowInner<T>,
    back: BorrowInner<T>,
)
    requires
        owned.owned(),
        shared.wf(),
        shared.graph@.lent_from(owned.graph@, END),
        released.wf(),
        released.settled_from(shared, shared.graph@.untracked(0)),
        back.graph@ == released.graph@.vacated(0),
    ensures
        shared.graph@.pending(0),
        released.graph@.ready(0),
        released.data == shared.data,
        back.graph@.branches == owned.graph@.branches,
        back.graph@.due.len() == owned.graph@.due.len() + 1,
{
    law_lend_release_poll(owned.graph, END, shared.graph@.branches[0].waker->0);
}

/// A mutable reference that is lent on, given back and polled for is the same reference again: it
/// stands for the same branch, whose count is as before.
pub proof fn law_forward_gives_back_the_reference<T>(
    held: BorrowInner<T>,
    forwarded: BorrowInner<T>,
    released: BorrowInner<T>,
    back: BorrowInner<T>,
    index: usize,
)
    requires
        held.can_forward(index),
        index != END,
        forwarded.wf(),
        forwarded.graph@.lent_from(held.graph@, index),
        released.wf(),
        released.settled_from(
            forwarded,
            forwarded.graph@.untracked(held.graph@.next_index()),
        ),
        back.graph@ == released.graph@.vacated(held.graph@.next_index()),
    ensures
        released.graph@.ready(held.graph@.next_index()),
        released.graph@.branches[held.graph@.next_index()].parent == index,
        released.data == forwarded.data,
        back.graph@.branches == held.graph@.branches,
        back.graph@.borrows(index) == held.graph@.borrows(index),
{
    let child = held.graph@.next_index();
    law_lend_release_poll(held.graph, index, forwarded.graph@.branches[child].waker->0);
}

/// A reference that is turned into a ready future comes back when that is polled, and the graph is
/// as before but for a waker that is due.
pub proof fn law_ready_future_gives_back(graph: Graph, ready: GraphView, parent: usize)
    requires
        graph.wf(),
        graph@.borrowed(parent),
        graph@.has_room(),
        ready.returned_from(graph@, parent),
    ensures
        ready.ready(graph@.next_index()),
        ready.branches[graph@.next_index()].parent == parent,
        ready.vacated(graph@.next_index()).branches == graph@.branches,
        ready.due.len() == graph@.due.len() + 1,
{
    graph.lemma_next_index();
    assert(ready.vacated(graph@.next_index()).branches =~= graph@.branches);
}

/// A reference that is turned into a ready future hands its borrow on: it is neither given back
/// early nor counted twice. The future that waits for the reference goes on waiting until the one
/// that came back is given back, and is ready then.
pub proof fn law_ready_future_hands_the_borrow_on<T>(
    held: BorrowInner<T>,
    ready: BorrowInner<T>,
    back: BorrowInner<T>,
    released: BorrowInner<T>,
    index: usize,
)
    requires
        held.can_forward(index),
        held.graph@.pending(index),
        held.graph@.branches[index].strong == 1,
        ready.returned_from(held, index),
        back.wf(),
        back.weak > 0,
        back.graph@ == ready.graph@.vacated(held.graph@.next_index()),
        back.data == ready.data,
        released.settled_from(back, back.graph@.untracked(index)),
    ensures
        ready.graph@.ready(held.graph@.next_index()),
        ready.graph@.branches[held.graph@.next_index()].parent == index,
        ready.graph@.pending(index),
        back.graph@.branches == held.graph@.branches,
        back.graph@.pending(index),
        back.holds(index),
        released.graph@.ready(index),
        released.data == held.data,
{
    let child = held.graph@.next_index();
    held.graph.lemma_next_index();
    law_ready_future_gives_back(held.graph, ready.graph@, index);
    assert(index != END);
    assert(ready.graph@.branches[index] == held.graph@.branches[index]);
    assert(back.graph@.children(index) =~= held.graph@.children(index));
}

/// A mutable reference that becomes a reference is the same borrow: through the same branch, of the
/// same part, and counted as before.
pub proof fn law_same_borrow_without_mutability<T, B: ?Sized, P>(
    inner: BorrowInner<T>,
    rf_mut: RefMut<T, B, P>,
    rf: Ref<T, B, P>,
)
    requires
        rf == Ref::<T, B, P>::through(rf_mut.ptr.index, rf_mut.borrow),
        rf_mut.valid(&inner),
    ensures
        rf.valid(&inner),
        rf.borrow == rf_mut.borrow,
        inner.graph@.untracked(rf.ptr.index) == inner.graph@.untracked(rf_mut.ptr.index),
{
}

/// What came back and is lent again gets the same branch again.
pub proof fn law_lent_again_through_same_branch(g: GraphView, index: usize, waker: Waker)
    requires
        g.ready(index),
    ensures
        g.vacated(index).next_index() == index,
        g.vacated(index).forwarded(g.branches[index].parent, waker).branches
            == g.branches.insert(
            index,
            BranchView { parent: g.branches[index].parent, strong: 1, waker: Some(waker) },
        ),
{
    let again = g.vacated(index).forwarded(g.branches[index].parent, waker);
    assert(again.branches =~= g.branches.insert(
        index,
        BranchView { parent: g.branches[index].parent, strong: 1, waker: Some(waker) },
    ));
}

} // verus!
