//! What each operation on a graph does, branch by branch.
use vstd::prelude::*;
use std::task::Waker;
use crate::graph::{self, END};
use crate::graph::model::{BranchView, GraphView};
use crate::inner::{BorrowInner, First, Index};
use crate::pointers::{Ref, RefMut};
use crate::future::{RefForward, RefMutForward};

verus! {

/// The future of a live branch is in one of three states. It waits, for as long as there is a waker;
/// it is ready, once nothing borrows through the branch; or it is closed, and something still does.
pub proof fn law_states_of_a_future(g: GraphView, index: usize)
    requires
        g.live(index),
    ensures
        g.pending(index) <==> g.branches[index].waker is Some,
        g.ready(index) <==> g.branches[index].waker is None && g.branches[index].strong == 0,
        g.closed(index) <==> g.branches[index].waker is None && g.branches[index].strong > 0,
        g.borrows(index) == g.branches[index].strong - g.children(index).len(),
        forall|k: usize| #[trigger]
            g.children(index).contains(k) <==> g.branches.contains_key(k)
                && g.branches[k].parent == index,
{
}

/// A version is odd while there are weak references, and even once they are flushed. It never goes
/// back, and moves on by no more than one.
pub proof fn law_versions_alternate(version: u64)
    requires
        version < u64::MAX,
    ensures
        graph::weak_version(version) % 2 == 1,
        version <= graph::weak_version(version) <= version + 1,
        graph::flushed_version(version) % 2 == 0,
        version <= graph::flushed_version(version) <= version + 1,
{
}

/// Adding a branch adds one, at an index that was free, and changes no other. The index is the one
/// that became free last. If none is free the arena doubles, and one more.
pub proof fn law_adding_a_branch(g: GraphView, branch: BranchView)
    requires
        g.forest(),
        g.has_room(),
        !g.live(g.next_index()),
    ensures
        ({
            let h = g.allocated(branch);
            let index = g.next_index();
            let len = g.versions.len();
            &&& h.branches == g.branches.insert(index, branch)
            &&& h.due == g.due
            &&& g.versions.is_prefix_of(h.versions)
            &&& g.vacant.len() > 0 ==> {
                &&& index == g.vacant[0]
                &&& h.vacant == g.vacant.skip(1)
                &&& h.versions == g.versions
            }
            &&& g.vacant.len() == 0 ==> {
                &&& index == len
                &&& h.versions.len() == 2 * len + 1
                &&& h.vacant.len() == len
                &&& forall|i: int|
                    0 <= i < len ==> #[trigger] h.vacant[i] == len + 1 + i
                &&& forall|i: int| len <= i < h.versions.len() ==> #[trigger] h.versions[i] == 0
            }
        }),
{
}

/// Lending adds one branch under its parent, with one borrow pointer and a future that waits, and
/// changes no other: the parent has one child more, and one pointer fewer that is held otherwise.
pub proof fn law_lending_adds_one_branch(g: GraphView, h: GraphView, parent: usize)
    requires
        g.forest(),
        !g.live(g.next_index()),
        h.lent_from(g, parent),
    ensures
        ({
            let index = g.next_index();
            &&& h.branches.dom() == g.branches.dom().insert(index)
            &&& h.branches[index].parent == parent
            &&& h.branches[index].strong == 1
            &&& h.branches[index].waker is Some
            &&& forall|k: usize| #[trigger] g.live(k) ==> h.branches[k] == g.branches[k]
            &&& g.versions.is_prefix_of(h.versions)
            &&& h.due == g.due
            &&& g.live(parent) ==> {
                &&& h.children(parent) == g.children(parent).insert(index)
                &&& h.borrows(parent) == g.borrows(parent) - 1
            }
        }),
{
    let index = g.next_index();
    assert(h.branches.dom() =~= g.branches.dom().insert(index));
    if g.live(parent) {
        assert(h.children(parent) =~= g.children(parent).insert(index));
        assert(!g.children(parent).contains(index));
        assert(g.children(parent).subset_of(g.branches.dom()));
    }
}

/// Lending what is given back at once adds one branch under its parent that nothing borrows through,
/// whose future is ready, and changes no other. One task becomes due.
pub proof fn law_returning_adds_a_ready_branch(g: GraphView, h: GraphView, parent: usize)
    requires
        g.forest(),
        !g.live(g.next_index()),
        h.returned_from(g, parent),
    ensures
        ({
            let index = g.next_index();
            &&& h.branches.dom() == g.branches.dom().insert(index)
            &&& h.ready(index)
            &&& h.branches[index].parent == parent
            &&& h.branches[index].strong == 0
            &&& h.branches[index].waker is None
            &&& forall|k: usize| #[trigger] g.live(k) ==> h.branches[k] == g.branches[k]
            &&& g.versions.is_prefix_of(h.versions)
            &&& h.due.len() == g.due.len() + 1
            &&& g.due.is_prefix_of(h.due)
        }),
{
    assert(h.branches.dom() =~= g.branches.dom().insert(g.next_index()));
}

/// Another pointer to a branch adds one to its count and changes nothing else. A future that was
/// ready waits again; one that waits or was closed stays as it is.
pub proof fn law_tracking_adds_one_pointer(g: GraphView, h: GraphView, index: usize)
    requires
        g.forest(),
        g.live(index),
        g.branches[index].strong < usize::MAX,
        h.tracked_from(g, index),
    ensures
        h.branches.dom() == g.branches.dom(),
        h.branches[index].strong == g.branches[index].strong + 1,
        h.branches[index].parent == g.branches[index].parent,
        g.ready(index) ==> h.pending(index),
        !g.ready(index) ==> h.branches[index].waker == g.branches[index].waker,
        forall|k: usize| #[trigger] g.live(k) && k != index ==> h.branches[k] == g.branches[k],
        h.versions == g.versions,
        h.vacant == g.vacant,
        h.due == g.due,
{
    assert(h.branches.dom() =~= g.branches.dom());
}

/// Freeing a branch removes it and no other, flushes its weak references and no others, and makes its
/// index the first to be used again. Nobody is woken by that alone.
pub proof fn law_freeing_removes_one_branch(g: GraphView, index: usize)
    requires
        g.forest(),
        g.live(index),
    ensures
        ({
            let h = g.vacated(index);
            &&& h.branches == g.branches.remove(index)
            &&& h.next_index() == index
            &&& h.vacant.skip(1) == g.vacant
            &&& h.due == g.due
            &&& h.versions.len() == g.versions.len()
            &&& h.versions[index as int] % 2 == 0
            &&& h.versions[index as int] >= g.versions[index as int]
            &&& h.versions[index as int] > g.versions[index as int] <==> g.versions[index as int]
                % 2 == 1
            &&& forall|k: int|
                0 <= k < g.versions.len() && k != index ==> #[trigger] h.versions[k]
                    == g.versions[k]
        }),
{
    assert(g.vacated(index).vacant.skip(1) =~= g.vacant);
}

/// A poll that has to wait changes at most the waker of its branch, to the one that it brought.
pub proof fn law_waiting_changes_only_the_waker(
    g: GraphView,
    h: GraphView,
    index: usize,
    waker: Waker,
)
    requires
        g.forest(),
        h.waits_from(g, index, waker),
    ensures
        g.pending(index),
        h.pending(index),
        h.branches.dom() == g.branches.dom(),
        h.branches[index].strong == g.branches[index].strong,
        h.branches[index].parent == g.branches[index].parent,
        h.branches[index].waker == g.branches[index].waker || h.branches[index].waker == Some(
            waker,
        ),
        forall|k: usize| #[trigger] g.live(k) && k != index ==> h.branches[k] == g.branches[k],
        h.versions == g.versions,
        h.vacant == g.vacant,
        h.due == g.due,
{
    assert(h.branches.dom() =~= g.branches.dom());
}

/// The value is dropped exactly with the root of the graph, and otherwise stays as it is.
pub proof fn law_value_is_dropped_with_root<T>(
    before: BorrowInner<T>,
    after: BorrowInner<T>,
    graph: GraphView,
    root_freed: bool,
)
    requires
        after.settled_from(before, (graph, root_freed)),
    ensures
        after.graph@ == graph,
        root_freed ==> after.data is None,
        !root_freed ==> after.data == before.data,
{
}

/// Sharing, lending, cloning and waiting leave the value as it is.
pub proof fn law_lending_leaves_the_value<T>(
    before: BorrowInner<T>,
    after: BorrowInner<T>,
    index: usize,
    count: int,
    waker: Waker,
)
    requires
        ({
            ||| after.forwarded_from(before, index)
            ||| after.returned_from(before, index)
            ||| after.given_away_from(before)
            ||| after.tracked_from(before, index)
            ||| after.waits_from(before, index, waker)
            ||| after.traded_from(before, index, count)
        }),
    ensures
        after.data == before.data,
{
}

/// Giving the value away adds a root that nobody waits for, with one borrow pointer.
pub proof fn law_giving_away_adds_a_closed_root<T>(before: BorrowInner<T>, after: BorrowInner<T>)
    requires
        before.owned(),
        after.given_away_from(before),
    ensures
        ({
            let index = before.graph@.next_index();
            &&& index == 0
            &&& after.graph@.branches.dom() == set![0usize]
            &&& after.graph@.closed(0)
            &&& after.graph@.branches[0].parent == END
            &&& after.graph@.branches[0].strong == 1
            &&& after.data == before.data
            &&& after.data is Some
            &&& after.graph@.due == before.graph@.due
        }),
{
    assert(after.graph@.branches.dom() =~= set![0usize]);
}

/// Trading a pointer for several changes the count of its branch, by as many as were added, and
/// nothing else.
pub proof fn law_trading_counts_every_pointer<T>(
    before: BorrowInner<T>,
    after: BorrowInner<T>,
    index: usize,
    count: int,
)
    requires
        before.can_clone_times(index, count),
        count >= 1,
        after.traded_from(before, index, count),
    ensures
        after.holds(index),
        after.graph@.branches.dom() == before.graph@.branches.dom(),
        after.graph@.branches[index].strong == before.graph@.branches[index].strong + count - 1,
        after.graph@.branches[index].parent == before.graph@.branches[index].parent,
        after.graph@.branches[index].waker == before.graph@.branches[index].waker,
        forall|k: usize| #[trigger]
            before.graph@.live(k) && k != index ==> after.graph@.branches[k]
                == before.graph@.branches[k],
        after.graph@.versions == before.graph@.versions,
        after.graph@.vacant == before.graph@.vacant,
        after.graph@.due == before.graph@.due,
        after.weak == before.weak + count - 1,
{
    assert(after.graph@.branches.dom() =~= before.graph@.branches.dom());
}

/// Who may use a value: whoever holds a pointer to a live branch that is not a child's, or the owner
/// if there is no branch at all. Who may wait for one: whoever has the future of a branch that was
/// not closed.
pub proof fn law_who_may_use_the_value<T>(inner: BorrowInner<T>, index: usize)
    requires
        inner.wf(),
        inner.weak > 0,
    ensures
        index != END ==> {
            inner.holds(index) <==> inner.graph@.branches.contains_key(index)
                && inner.graph@.branches[index].strong > inner.graph@.children(index).len()
        },
        inner.holds(END) <==> inner.graph@.branches.dom().is_empty() && inner.data is Some,
        inner.owned() <==> inner.holds(END),
        inner.awaits(index) <==> inner.graph@.branches.contains_key(index) && (
        inner.graph@.branches[index].waker is Some || inner.graph@.branches[index].strong == 0),
        inner.holds(index) || inner.awaits(index) ==> inner.data is Some,
{
    if inner.graph@.live(index) {
        assert(inner.graph@.branches.dom().contains(index));
    }
}

/// A pointer is to the branch and the part that it was made for, and a future waits for them.
pub proof fn law_pointers_are_to_their_branch<T, B: ?Sized, P>(index: usize, borrow: P, first: First)
    ensures
        Ref::<T, B, P>::through(index, borrow).ptr.index == index,
        Ref::<T, B, P>::through(index, borrow).borrow == borrow,
        RefMut::<T, B, P>::through(index, borrow).ptr.index == index,
        RefMut::<T, B, P>::through(index, borrow).borrow == borrow,
        RefForward::<T, B, P>::through(index, borrow).ptr.index == index,
        RefForward::<T, B, P>::through(index, borrow).borrow == borrow,
        RefForward::<T, B, P>::through(index, borrow).ptr.shared is Some,
        RefMutForward::<T, B, P>::through(index, borrow).ptr.index == index,
        RefMutForward::<T, B, P>::through(index, borrow).borrow == borrow,
        RefMutForward::<T, B, P>::through(index, borrow).ptr.shared is Some,
        first.index() == 0,
        index.index() == index,
{
}

} // verus!
