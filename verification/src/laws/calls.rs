//! What the calls on a graph do, and how they relate to each other.
//!
//! A call is told by what it is given, what it returns and what it leaves behind. Where calls follow
//! each other, what the one leaves is what the next is given.
use vstd::prelude::*;
use std::task::Waker;
use crate::graph::{Graph, END};
use crate::graph::model::{self, BranchView};
use crate::laws::{borrows, steps};
use crate::waker::Poll;

verus! {

/// A call that gives back a borrow pointer takes one borrow from its branch, and none from any other.
/// Whatever is freed was neither waited for nor borrowed through any more, and gives back to its
/// parent what it stood for.
pub proof fn law_untrack_takes_one_borrow(graph: &mut Graph, index: usize, root_freed: bool)
    requires
        old(graph).wf(),
        old(graph)@.borrowed(index),
        index != END,
        call_ensures(Graph::untrack_borrow_unchecked, (graph, index), root_freed),
    ensures
        ({
            let (g, h) = (old(graph)@, final(graph)@);
            let branch = g.branches[index];
            let parent = branch.parent;
            &&& forall|k: usize| #[trigger]
                h.live(k) ==> {
                    &&& g.live(k)
                    &&& h.branches[k].parent == g.branches[k].parent
                    &&& h.borrows(k) == g.borrows(k) - borrows::one_if(k, index)
                }
            &&& forall|k: usize|
                g.live(k) && !#[trigger] h.live(k) ==> {
                    &&& g.branches[k].waker is None
                    &&& g.borrows(k) == borrows::one_if(k, index)
                }
            &&& branch.strong > 1 ==> {
                &&& h.branches == g.branches.insert(
                    index,
                    BranchView { strong: (branch.strong - 1) as usize, ..branch },
                )
                &&& h.due == g.due
                &&& !root_freed
            }
            &&& branch.strong == 1 && branch.waker is Some ==> {
                &&& h.ready(index)
                &&& h.due == g.due.push(branch.waker->0)
                &&& !root_freed
            }
            &&& branch.strong == 1 && branch.waker is None ==> {
                &&& !h.live(index)
                &&& parent == END ==> root_freed
                &&& parent != END && g.branches[parent].strong > 1 ==> {
                    &&& h.live(parent)
                    &&& h.branches[parent].strong == g.branches[parent].strong - 1
                    &&& h.branches[parent].waker == g.branches[parent].waker
                    &&& h.borrows(parent) == g.borrows(parent)
                    &&& !root_freed
                }
                &&& parent != END && g.branches[parent].strong == 1 ==> h.ready(parent) || !h.live(
                    parent,
                )
            }
        }),
{
    let (g, h) = (old(graph)@, final(graph)@);
    let branch = g.branches[index];
    borrows::law_release_takes_one_borrow(g, index);
    if branch.strong == 1 && branch.waker is None {
        borrows::law_freed_branch_gives_its_borrow_back(g, index);
    } else if branch.strong > 1 {
        assert(h.branches =~= g.branches.insert(
            index,
            BranchView { strong: (branch.strong - 1) as usize, ..branch },
        ));
    }
}

/// A call that drops a future leaves nobody who waits for its branch. What waited is closed, whatever
/// its count and its parent, and nothing else changes. What was ready is freed, and every branch that
/// is left has the borrows that it had.
pub proof fn law_close_leaves_nobody_waiting(graph: &mut Graph, index: usize, root_freed: bool)
    requires
        old(graph).wf(),
        old(graph)@.pending(index) || old(graph)@.ready(index),
        call_ensures(Graph::close_future_unchecked, (graph, index), root_freed),
    ensures
        ({
            let (g, h) = (old(graph)@, final(graph)@);
            let parent = g.branches[index].parent;
            &&& g.pending(index) ==> {
                &&& h.closed(index)
                &&& h.branches == g.branches.insert(
                    index,
                    BranchView { waker: None, ..g.branches[index] },
                )
                &&& h.due == g.due
                &&& h.versions == g.versions
                &&& !root_freed
            }
            &&& g.ready(index) ==> {
                &&& !h.live(index)
                &&& forall|k: usize| #[trigger]
                    h.live(k) ==> g.live(k) && h.borrows(k) == g.borrows(k)
                &&& parent == END ==> root_freed
                &&& parent != END && g.branches[parent].strong > 1 ==> {
                    &&& h.live(parent)
                    &&& h.branches[parent].strong == g.branches[parent].strong - 1
                    &&& !root_freed
                }
            }
        }),
{
    let g = old(graph)@;
    if g.pending(index) {
        borrows::law_dropped_future_no_longer_waits(g, index);
    } else {
        borrows::law_dropped_ready_future_gives_back(g, index);
        if g.branches[index].parent != END {
            assert(g.live(g.branches[index].parent));
        }
    }
}

/// A call that lends adds one branch under its parent, with one borrow pointer and a future that
/// waits. One that shares does so without a parent.
pub proof fn law_forward_adds_one_branch(graph: &mut Graph, parent: usize, index: usize)
    requires
        old(graph).wf(),
        ({
            ||| call_ensures(Graph::forward, (graph, parent), index)
            ||| parent == END && call_ensures(Graph::share, (graph,), index)
        }),
    ensures
        ({
            let (g, h) = (old(graph)@, final(graph)@);
            &&& !g.live(index)
            &&& h.branches.dom() == g.branches.dom().insert(index)
            &&& h.branches[index].parent == parent
            &&& h.branches[index].strong == 1
            &&& h.branches[index].waker is Some
            &&& forall|k: usize| #[trigger] g.live(k) ==> h.branches[k] == g.branches[k]
            &&& h.due == g.due
            &&& g.versions.is_prefix_of(h.versions)
        }),
{
    steps::law_lending_adds_one_branch(old(graph)@, final(graph)@, parent);
}

/// A call that adds a borrow pointer adds one to the count of its branch, and changes nothing else but
/// that a future that was ready waits again.
pub proof fn law_track_adds_one_pointer(graph: &mut Graph, index: usize)
    requires
        old(graph).wf(),
        old(graph)@.live(index),
        old(graph)@.branches[index].strong < usize::MAX,
        call_ensures(Graph::track_borrow_unchecked, (graph, index), ()),
    ensures
        ({
            let (g, h) = (old(graph)@, final(graph)@);
            &&& h.branches.dom() == g.branches.dom()
            &&& h.branches[index].strong == g.branches[index].strong + 1
            &&& h.branches[index].parent == g.branches[index].parent
            &&& !g.ready(index) ==> h.branches[index].waker == g.branches[index].waker
            &&& g.ready(index) ==> h.pending(index)
            &&& forall|k: usize| #[trigger]
                g.live(k) && k != index ==> h.branches[k] == g.branches[k]
            &&& h.versions == g.versions
            &&& h.due == g.due
        }),
{
    steps::law_tracking_adds_one_pointer(old(graph)@, final(graph)@, index);
}

/// A poll is answered exactly if nothing borrows through the branch any more. It is then freed, its
/// parent told, and the pointer that it stood for is held by whoever polled. Until then nothing
/// changes but the waker.
pub proof fn law_poll_is_answered_when_ready(
    graph: &mut Graph,
    index: usize,
    waker: Waker,
    poll: Poll<usize>,
)
    requires
        old(graph).wf(),
        old(graph)@.pending(index) || old(graph)@.ready(index),
        call_ensures(Graph::poll_unchecked, (graph, index, waker), poll),
    ensures
        ({
            let (g, h) = (old(graph)@, final(graph)@);
            &&& poll is Ready <==> g.branches[index].strong == 0
            &&& poll matches Poll::Ready(parent) ==> {
                &&& parent == g.branches[index].parent
                &&& h.branches == g.branches.remove(index)
                &&& h.due == g.due
                &&& parent != END ==> h.borrows(parent) == g.borrows(parent) + 1
            }
            &&& poll is Pending ==> {
                &&& h.branches.dom() == g.branches.dom()
                &&& h.branches[index].strong == g.branches[index].strong
                &&& h.branches[index].waker == g.branches[index].waker || h.branches[index].waker
                    == Some(waker)
                &&& forall|k: usize| #[trigger]
                    g.live(k) && k != index ==> h.branches[k] == g.branches[k]
                &&& h.due == g.due
            }
        }),
{
    let (g, h) = (old(graph)@, final(graph)@);
    assert(g.live(index));
    match poll {
        Poll::Ready(parent) => {
            assert(g.children(index).is_empty());
            model::lemma_vacated_children(g, index);
            if parent != END {
                assert(g.live(parent));
                model::lemma_vacated_forest(g, index);
            }
        },
        Poll::Pending => {
            steps::law_waiting_changes_only_the_waker(g, h, index, waker);
        },
    }
}

/// What a call lends comes back. If the pointer is given back and the future then polled, the poll is
/// answered with the branch that was lent from, and every branch is as it was.
pub proof fn law_lent_borrow_comes_back(
    lend: &mut Graph,
    give_back: &mut Graph,
    answer: &mut Graph,
    parent: usize,
    index: usize,
    root_freed: bool,
    waker: Waker,
    poll: Poll<usize>,
)
    requires
        old(lend).wf(),
        old(lend)@.borrowed(parent),
        old(lend)@.has_room(),
        call_ensures(Graph::forward, (lend, parent), index),
        *old(give_back) == *final(lend),
        call_ensures(Graph::untrack_borrow_unchecked, (give_back, index), root_freed),
        *old(answer) == *final(give_back),
        call_ensures(Graph::poll_unchecked, (answer, index, waker), poll),
    ensures
        poll == Poll::Ready(parent),
        !root_freed,
        final(answer)@.branches == old(lend)@.branches,
{
    let (g, h) = (old(lend)@, final(lend)@);
    assert(h.branches[index].strong == 1);
    assert(final(answer)@.branches =~= g.branches);
}

/// A weak reference can be upgraded for as long as its branch is live: with the version that it was
/// taken at the call succeeds, and adds one borrow pointer; with any other it changes nothing.
pub proof fn law_weak_reference_can_be_upgraded(
    take: &mut Graph,
    upgrade: &mut Graph,
    index: usize,
    version: u64,
    tried: u64,
    upgraded: bool,
)
    requires
        old(take).wf(),
        old(take)@.live(index),
        old(take)@.branches[index].strong < usize::MAX,
        call_ensures(Graph::track_weak_unchecked, (take, index), version),
        *old(upgrade) == *final(take),
        call_ensures(Graph::try_upgrade_weak_unchecked, (upgrade, index, tried), upgraded),
    ensures
        version % 2 == 1,
        final(take)@.branches == old(take)@.branches,
        upgraded <==> tried == version,
        upgraded ==> final(upgrade)@.branches[index].strong == old(take)@.branches[index].strong + 1,
        !upgraded ==> final(upgrade)@ == final(take)@,
{
    let g = old(take)@;
    assert(g.versions[index as int] < u64::MAX);
    steps::law_versions_alternate(g.versions[index as int]);
    if upgraded {
        steps::law_tracking_adds_one_pointer(old(upgrade)@, final(upgrade)@, index);
    }
}

/// Once a branch is freed its weak references are dead: whoever polls for it and is answered leaves
/// none that can be upgraded.
pub proof fn law_freed_branch_leaves_no_weak_reference(
    take: &mut Graph,
    answer: &mut Graph,
    upgrade: &mut Graph,
    index: usize,
    version: u64,
    waker: Waker,
    poll: Poll<usize>,
    upgraded: bool,
)
    requires
        old(take).wf(),
        old(take)@.ready(index),
        call_ensures(Graph::track_weak_unchecked, (take, index), version),
        *old(answer) == *final(take),
        call_ensures(Graph::poll_unchecked, (answer, index, waker), poll),
        *old(upgrade) == *final(answer),
        call_ensures(Graph::try_upgrade_weak_unchecked, (upgrade, index, version), upgraded),
    ensures
        poll is Ready,
        !upgraded,
{
    let g = old(take)@;
    assert(g.live(index));
    assert(g.versions[index as int] < u64::MAX);
    steps::law_versions_alternate(g.versions[index as int]);
    let h = old(answer)@;
    assert(h.versions[index as int] == version);
    assert(h.versions[index as int] < u64::MAX);
    steps::law_versions_alternate(version);
}

} // verus!
