//! Who holds how many borrows.
use vstd::prelude::*;
use crate::graph::END;
use crate::graph::model::{self, BranchView, GraphView};
use crate::laws::history::{self, Step};

verus! {

/// One, if the branches are the same.
pub open spec fn one_if(a: usize, b: usize) -> int {
    if a == b {
        1
    } else {
        0
    }
}

/// Giving back a borrow pointer takes one borrow from its branch, and none from any other.
///
/// A branch is freed exactly if nobody waits for it and nothing borrows through it any more: the
/// pointer was its last, or those that were lent it further are freed. What is left keeps its parent
/// and its borrows, so that whatever a freed branch stood for is given back to its parent. A future
/// that waits for a branch that nothing borrows through any more is ready, and its waker due.
pub proof fn law_release_takes_one_borrow(g: GraphView, index: usize)
    requires
        g.forest(),
        g.borrowed(index),
    ensures
        ({
            let h = g.untracked(index).0;
            &&& forall|k: usize| #[trigger]
                h.live(k) ==> {
                    &&& g.live(k)
                    &&& h.branches[k].parent == g.branches[k].parent
                    &&& h.borrows(k) == g.borrows(k) - one_if(k, index)
                    &&& h.branches[k].strong == h.children(k).len() + h.borrows(k)
                    &&& h.branches[k].strong == 0 ==> g.branches[k].waker is Some
                        || g.branches[k].strong == 0
                    &&& h.branches[k].waker == if h.branches[k].strong == 0 {
                        None
                    } else {
                        g.branches[k].waker
                    }
                }
            &&& forall|k: usize|
                g.live(k) && !#[trigger] h.live(k) ==> {
                    &&& g.branches[k].waker is None
                    &&& g.borrows(k) == one_if(k, index)
                    &&& forall|c: usize| #[trigger] g.children(k).contains(c) ==> !h.live(c)
                }
        }),
    decreases g.branches.dom().len(),
{
    let h = g.untracked(index).0;
    if index != END {
        let branch = g.branches[index];
        if branch.strong == 1 && branch.waker is None {
            let (f, p) = (g.vacated(index), branch.parent);
            assert(g.children(index).is_empty());
            model::lemma_vacated_forest(g, index);
            model::lemma_vacated_children(g, index);
            law_release_takes_one_borrow(f, p);
            assert(h == f.untracked(p).0);
            assert forall|k: usize| g.live(k) && !#[trigger] h.live(k) implies {
                &&& g.branches[k].waker is None
                &&& g.borrows(k) == one_if(k, index)
                &&& forall|c: usize| #[trigger] g.children(k).contains(c) ==> !h.live(c)
            } by {
                if k != index {
                    assert(f.live(k));
                    if k != p {
                        assert(f.children(k) == g.children(k));
                    }
                    assert forall|c: usize| #[trigger] g.children(k).contains(c) implies !h.live(
                        c,
                    ) by {
                        if c == index {
                            if h.live(c) {
                                assert(f.live(c));
                            }
                        } else {
                            assert(f.children(k).contains(c));
                        }
                    }
                }
            }
            assert forall|k: usize| #[trigger] h.live(k) implies {
                &&& g.live(k)
                &&& h.branches[k].parent == g.branches[k].parent
                &&& h.borrows(k) == g.borrows(k) - one_if(k, index)
                &&& h.branches[k].strong == h.children(k).len() + h.borrows(k)
                &&& h.branches[k].strong == 0 ==> g.branches[k].waker is Some
                    || g.branches[k].strong == 0
                &&& h.branches[k].waker == if h.branches[k].strong == 0 {
                    None
                } else {
                    g.branches[k].waker
                }
            } by {
                assert(f.live(k));
                if k != p {
                    assert(f.children(k) == g.children(k));
                }
            }
        } else {
            let changed = h.branches[index];
            assert(h.branches =~= g.with_branch(index, changed).branches);
            model::lemma_with_branch_children(g, index, changed);
            assert forall|k: usize| #[trigger] h.live(k) implies {
                &&& g.live(k)
                &&& h.branches[k].parent == g.branches[k].parent
                &&& h.borrows(k) == g.borrows(k) - one_if(k, index)
                &&& h.branches[k].strong == h.children(k).len() + h.borrows(k)
                &&& h.branches[k].strong == 0 ==> g.branches[k].waker is Some
                    || g.branches[k].strong == 0
                &&& h.branches[k].waker == if h.branches[k].strong == 0 {
                    None
                } else {
                    g.branches[k].waker
                }
            } by {
                assert(g.live(k));
                assert(h.children(k) == g.with_branch(index, changed).children(k));
                assert(h.children(k) == g.children(k));
            }
        }
    } else {
        assert forall|k: usize| #[trigger] h.live(k) implies h.branches[k].waker == if h.branches[k].strong
            == 0 {
            None
        } else {
            g.branches[k].waker
        } by {
            assert(g.live(k));
        }
    }
}

/// The last pointer to a branch that nobody waits for frees it, and leaves its parent with exactly one
/// pointer fewer. A parent that is still borrowed lives on with its waker and the borrows that it had,
/// one that is waited for and has no pointer left is ready, and one that is not is freed in turn: then
/// all is as if its last pointer had been given back by itself. Without a parent the root was freed.
pub proof fn law_freed_branch_gives_its_borrow_back(g: GraphView, index: usize)
    requires
        g.forest(),
        g.live(index),
        g.borrows(index) >= 1,
        g.branches[index].strong == 1,
        g.branches[index].waker is None,
    ensures
        ({
            let (h, root_freed) = g.untracked(index);
            let parent = g.branches[index].parent;
            let strong = g.branches[parent].strong;
            let rest = g.branches.remove(index);
            &&& !h.live(index)
            &&& parent == END ==> root_freed && h.branches == rest && h.due == g.due
            &&& parent != END && strong > 1 ==> {
                &&& !root_freed
                &&& h.branches == rest.insert(
                    parent,
                    BranchView { strong: (strong - 1) as usize, ..g.branches[parent] },
                )
                &&& h.borrows(parent) == g.borrows(parent)
                &&& h.due == g.due
            }
            &&& parent != END && strong == 1 && g.branches[parent].waker is Some ==> {
                &&& !root_freed
                &&& h.ready(parent)
                &&& h.branches == rest.insert(
                    parent,
                    BranchView { strong: 0, waker: None, ..g.branches[parent] },
                )
                &&& h.due == g.due.push(g.branches[parent].waker->0)
            }
            &&& parent != END && strong == 1 && g.branches[parent].waker is None ==> {
                &&& !h.live(parent)
                &&& exists|f: GraphView|
                    {
                        &&& f.branches == rest
                        &&& f.due == g.due
                        &&& f.forest()
                        &&& f.borrowed(parent)
                        &&& #[trigger] f.untracked(parent) == (h, root_freed)
                    }
            }
        }),
{
    let (h, root_freed) = g.untracked(index);
    let parent = g.branches[index].parent;
    let f = g.vacated(index);
    assert(g.children(index).is_empty());
    model::lemma_vacated_forest(g, index);
    assert(f.branches == g.branches.remove(index));
    law_release_takes_one_borrow(g, index);
    law_release_takes_one_borrow(f, parent);
    assert(f.untracked(parent) == (h, root_freed));
    assert(!h.live(index)) by {
        if h.live(index) {
            assert(f.live(index));
        }
    }
    if parent != END {
        assert(g.live(parent) && f.live(parent));
        assert(f.branches[parent] == g.branches[parent]);
        if g.branches[parent].strong == 1 && g.branches[parent].waker is None {
            assert(f.children(parent).is_empty());
            let last = f.vacated(parent);
            model::lemma_vacated_forest(f, parent);
            law_release_takes_one_borrow(last, f.branches[parent].parent);
            if h.live(parent) {
                assert(last.live(parent));
            }
        } else {
            assert(h.branches =~= f.branches.insert(parent, h.branches[parent]));
            assert(h.live(parent));
        }
    }
}

/// The root is freed exactly if the pointer that is given back is the one above it, or a branch without
/// a parent is freed.
pub proof fn law_value_goes_with_root(g: GraphView, index: usize)
    requires
        g.forest(),
        g.borrowed(index),
    ensures
        ({
            let (h, root_freed) = g.untracked(index);
            root_freed <==> index == END || exists|k: usize|
                g.live(k) && g.branches[k].parent == END && !#[trigger] h.live(k)
        }),
    decreases g.branches.dom().len(),
{
    let (h, root_freed) = g.untracked(index);
    law_release_takes_one_borrow(g, index);
    if index != END {
        let branch = g.branches[index];
        if branch.strong == 1 && branch.waker is None {
            let f = g.vacated(index);
            assert(g.children(index).is_empty());
            model::lemma_vacated_forest(g, index);
            law_value_goes_with_root(f, branch.parent);
            law_release_takes_one_borrow(f, branch.parent);
            assert(h == f.untracked(branch.parent).0);
            assert(!h.live(index)) by {
                if h.live(index) {
                    assert(f.live(index));
                }
            }
            if branch.parent != END {
                if root_freed {
                    let k = choose|k: usize|
                        f.live(k) && f.branches[k].parent == END && !#[trigger] h.live(k);
                    assert(g.live(k) && g.branches[k].parent == END);
                }
                if exists|k: usize|
                    g.live(k) && g.branches[k].parent == END && !#[trigger] h.live(k) {
                    let k = choose|k: usize|
                        g.live(k) && g.branches[k].parent == END && !#[trigger] h.live(k);
                    assert(f.live(k));
                }
            }
        } else {
            assert forall|k: usize| g.live(k) implies #[trigger] h.live(k) by {}
        }
    }
}

/// Dropping a future that waits cancels the wait, whatever the count and the parent: the branch keeps
/// its count and has no waker. Nothing else is changed, and nothing is due or freed.
pub proof fn law_dropped_future_no_longer_waits(g: GraphView, index: usize)
    requires
        g.forest(),
        g.pending(index),
    ensures
        ({
            let (h, root_freed) = g.future_closed(index);
            &&& !root_freed
            &&& h.closed(index)
            &&& !h.pending(index) && !h.ready(index)
            &&& h.branches[index].waker is None
            &&& h.branches == g.branches.insert(
                index,
                BranchView { waker: None, ..g.branches[index] },
            )
            &&& h.versions == g.versions
            &&& h.vacant == g.vacant
            &&& h.due == g.due
        }),
{
}

/// Dropping a future that is ready frees its branch, and gives back what the branch stood for: every
/// branch that is left has the borrows that it had.
pub proof fn law_dropped_ready_future_gives_back(g: GraphView, index: usize)
    requires
        g.forest(),
        g.ready(index),
    ensures
        ({
            let (h, root_freed) = g.future_closed(index);
            let parent = g.branches[index].parent;
            let strong = g.branches[parent].strong;
            &&& !h.live(index)
            &&& forall|k: usize| #[trigger]
                h.live(k) ==> {
                    &&& g.live(k)
                    &&& h.branches[k].parent == g.branches[k].parent
                    &&& h.borrows(k) == g.borrows(k)
                    &&& h.branches[k].waker == if h.branches[k].strong == 0 {
                        None
                    } else {
                        g.branches[k].waker
                    }
                }
            &&& parent == END ==> root_freed && h.branches == g.branches.remove(index)
            &&& parent != END && strong > 1 ==> {
                &&& !root_freed
                &&& h.branches == g.branches.remove(index).insert(
                    parent,
                    BranchView { strong: (strong - 1) as usize, ..g.branches[parent] },
                )
                &&& h.due == g.due
            }
            &&& parent != END && strong == 1 && g.branches[parent].waker is Some ==> {
                &&& !root_freed
                &&& h.ready(parent)
                &&& h.due == g.due.push(g.branches[parent].waker->0)
            }
            &&& parent != END && strong == 1 && g.branches[parent].waker is None ==> !h.live(parent)
        }),
{
    let (h, root_freed) = g.future_closed(index);
    let parent = g.branches[index].parent;
    let f = g.vacated(index);
    assert(g.children(index).is_empty());
    model::lemma_vacated_forest(g, index);
    model::lemma_vacated_children(g, index);
    law_release_takes_one_borrow(f, parent);
    assert((h, root_freed) == f.untracked(parent));
    assert(!h.live(index)) by {
        if h.live(index) {
            assert(f.live(index));
        }
    }
    assert forall|k: usize| #[trigger] h.live(k) implies {
        &&& g.live(k)
        &&& h.branches[k].parent == g.branches[k].parent
        &&& h.borrows(k) == g.borrows(k)
        &&& h.branches[k].waker == if h.branches[k].strong == 0 {
            None
        } else {
            g.branches[k].waker
        }
    } by {
        assert(f.live(k));
        if k != parent {
            assert(f.children(k) == g.children(k));
        }
    }
    if parent != END {
        assert(g.live(parent) && f.live(parent));
        assert(f.branches[parent] == g.branches[parent]);
        if g.branches[parent].strong == 1 && g.branches[parent].waker is None {
            law_freed_branch_gives_its_borrow_back(f, parent);
        } else {
            assert(h.branches =~= f.branches.insert(parent, h.branches[parent]));
            assert(h.live(parent));
        }
    }
}

/// A branch whose future was dropped goes with its last reference, however many there were: until then
/// nobody is woken for it, and after that it is freed and its parent has one pointer fewer.
pub proof fn law_abandoned_branch_goes_with_last_reference(g: GraphView, index: usize, count: nat)
    requires
        g.forest(),
        g.closed(index),
        count <= g.branches[index].strong,
        g.borrows(index) == g.branches[index].strong,
    ensures
        ({
            let h = crate::laws::given_back(g, index, count);
            let parent = g.branches[index].parent;
            let strong = g.branches[parent].strong;
            &&& count < g.branches[index].strong ==> {
                &&& h.closed(index)
                &&& h.branches == g.branches.insert(
                    index,
                    BranchView {
                        strong: (g.branches[index].strong - count) as usize,
                        ..g.branches[index]
                    },
                )
                &&& h.due == g.due
                &&& h.forest()
                &&& h.borrows(index) == g.branches[index].strong - count
            }
            &&& count == g.branches[index].strong ==> {
                &&& !h.live(index)
                &&& parent == END ==> h.branches == g.branches.remove(index)
                &&& parent != END && strong > 1 ==> {
                    &&& h.live(parent)
                    &&& h.branches[parent].strong == strong - 1
                    &&& h.branches[parent].waker == g.branches[parent].waker
                }
                &&& parent != END && strong == 1 && g.branches[parent].waker is Some ==> h.ready(
                    parent,
                )
                &&& parent != END && strong == 1 && g.branches[parent].waker is None ==> !h.live(
                    parent,
                )
            }
        }),
    decreases count,
{
    let n = g.branches[index].strong;
    if count == 0 {
        assert(g.branches =~= g.branches.insert(index, g.branches[index]));
    } else {
        let before = crate::laws::given_back(g, index, (count - 1) as nat);
        law_abandoned_branch_goes_with_last_reference(g, index, (count - 1) as nat);
        let left = before.branches[index];
        let parent = g.branches[index].parent;
        assert(parent != index) by {
            if parent == index {
                assert(g.children(index).contains(index));
                assert(g.children(index).len() == 0);
                assert(g.children(index).finite());
                assert(g.children(index) =~= Set::empty());
            }
        }
        if count < n {
            let changed = BranchView { strong: (left.strong - 1) as usize, ..left };
            let h = before.untracked(index).0;
            assert(h == before.with_branch(index, changed));
            model::lemma_with_branch_forest(before, index, changed);
            model::lemma_with_branch_children(before, index, changed);
            assert(h.children(index) == before.children(index));
            assert(h.branches =~= g.branches.insert(index, changed));
        } else {
            law_freed_branch_gives_its_borrow_back(before, index);
            if parent != END {
                assert(before.branches[parent] == g.branches[parent]);
            }
            assert(before.branches.remove(index) =~= g.branches.remove(index));
        }
    }
}

/// A branch whose future was dropped is never waited for again: whatever is done, it stays so until it
/// is freed, and no step makes it ready.
pub proof fn law_abandoned_branch_is_never_ready(
    graphs: Seq<GraphView>,
    steps: Seq<Step>,
    index: usize,
    at: int,
)
    requires
        history::history(graphs, steps),
        graphs[0].closed(index),
        0 <= at < graphs.len(),
        forall|i: int| 0 <= i <= at ==> (#[trigger] graphs[i]).live(index),
    ensures
        graphs[at].closed(index),
        !graphs[at].ready(index),
        !graphs[at].pending(index),
    decreases at,
{
    if at > 0 {
        law_abandoned_branch_is_never_ready(graphs, steps, index, at - 1);
        let (before, after) = (graphs[at - 1], graphs[at]);
        assert(before.forest() && after.forest());
        assert(steps[at - 1].leads(before, after));
        assert(after.live(index));
        match steps[at - 1] {
            Step::Release { index: of } => law_release_takes_one_borrow(before, of),
            Step::Close { index: of } => {
                if before.ready(of) {
                    law_dropped_ready_future_gives_back(before, of);
                    assert(before.children(of).is_empty());
                    model::lemma_vacated_forest(before, of);
                    law_release_takes_one_borrow(
                        before.vacated(of),
                        before.branches[of].parent,
                    );
                    assert(before.vacated(of).live(index));
                }
            },
            _ => {},
        }
    }
}

/// The number of borrow pointers to `k` that were handed out and not given back, after so many steps
/// from a graph without branches.
///
/// Lending hands one out through the new branch in exchange for one to its parent, and an answered
/// future hands out one to the parent of its branch.
pub open spec fn handed_out(graphs: Seq<GraphView>, steps: Seq<Step>, count: nat, k: usize) -> int
    decreases count,
{
    if count == 0 {
        0
    } else {
        let before = graphs[count - 1];
        let held = handed_out(graphs, steps, (count - 1) as nat, k);
        match steps[count - 1] {
            Step::Lend { parent } => if k == before.next_index() {
                1
            } else {
                held - one_if(k, parent)
            },
            Step::Track { index } => held + one_if(k, index),
            Step::Release { index } => held - one_if(k, index),
            Step::Poll { index, .. } => if before.ready(index) {
                held + one_if(k, before.branches[index].parent)
            } else {
                held
            },
            _ => held,
        }
    }
}

/// The count of a branch is the number of its children and of the pointers to it that were handed out
/// and not given back, whatever was done to the graph.
pub proof fn law_count_is_children_and_pointers(graphs: Seq<GraphView>, steps: Seq<Step>, count: nat)
    requires
        history::history(graphs, steps),
        graphs[0].branches == Map::<usize, BranchView>::empty(),
        count < graphs.len(),
    ensures
        forall|k: usize| #[trigger]
            graphs[count as int].live(k) ==> graphs[count as int].branches[k].strong
                == graphs[count as int].children(k).len() + handed_out(graphs, steps, count, k),
    decreases count,
{
    if count > 0 {
        let at = count - 1;
        law_count_is_children_and_pointers(graphs, steps, at as nat);
        let (before, after) = (graphs[at], graphs[count as int]);
        let step = steps[at];
        assert(before.forest() && after.forest());
        assert(step.leads(before, after));
        lemma_step_borrows(before, after, step);
        assert forall|k: usize| #[trigger] after.live(k) implies after.branches[k].strong
            == after.children(k).len() + handed_out(graphs, steps, count, k) by {
            if before.live(k) {
                assert(before.borrows(k) == handed_out(graphs, steps, at as nat, k));
            }
        }
    }
}

/// How a step changes the borrows of each branch.
proof fn lemma_step_borrows(before: GraphView, after: GraphView, step: Step)
    requires
        before.forest(),
        after.forest(),
        step.leads(before, after),
    ensures
        forall|k: usize| #[trigger]
            after.live(k) ==> match step {
                Step::Lend { parent } => if k == before.next_index() {
                    !before.live(k) && after.borrows(k) == 1
                } else {
                    before.live(k) && after.borrows(k) == before.borrows(k) - one_if(k, parent)
                },
                Step::Track { index } => before.live(k) && after.borrows(k) == before.borrows(k)
                    + one_if(k, index),
                Step::Release { index } => before.live(k) && after.borrows(k) == before.borrows(k)
                    - one_if(k, index),
                Step::Poll { index, .. } => before.live(k) && after.borrows(k) == before.borrows(k)
                    + if before.ready(index) {
                    one_if(k, before.branches[index].parent)
                } else {
                    0
                },
                _ => before.live(k) && after.borrows(k) == before.borrows(k),
            },
{
    match step {
        Step::Lend { parent } => {
            let index = before.next_index();
            let waker = after.branches[index].waker->0;
            model::lemma_forwarded_children(before, parent, waker);
            assert forall|k: usize| #[trigger] after.live(k) && k != index implies before.live(k)
                && after.borrows(k) == before.borrows(k) - one_if(k, parent) by {
                assert(before.live(k));
                if k != parent {
                    assert(after.children(k) == before.children(k));
                }
            }
            assert(after.live(index));
            assert(after.children(index) == before.children(index));
            assert(before.children(index) =~= Set::empty()) by {
                assert forall|k: usize| !before.children(index).contains(k) by {
                    if before.children(index).contains(k) {
                        assert(before.live(k));
                    }
                }
            }
        },
        Step::Track { index } => {
            model::lemma_tracked(before, after, index);
            assert(after =~= before.with_branch(index, after.branches[index]));
            model::lemma_with_branch_children(before, index, after.branches[index]);
            assert forall|k: usize| #[trigger] after.live(k) implies before.live(k)
                && after.borrows(k) == before.borrows(k) + one_if(k, index) by {
                assert(after.children(k) == before.children(k));
            }
        },
        Step::Weaken { index } => {
            assert forall|k: usize| #[trigger] after.live(k) implies before.live(k)
                && after.borrows(k) == before.borrows(k) by {
                assert(after.children(k) =~= before.children(k));
            }
        },
        Step::Release { index } => law_release_takes_one_borrow(before, index),
        Step::Poll { index, waker } => {
            if before.ready(index) {
                model::lemma_vacated_children(before, index);
                assert forall|k: usize| #[trigger] after.live(k) implies before.live(k)
                    && after.borrows(k) == before.borrows(k) + one_if(
                    k,
                    before.branches[index].parent,
                ) by {
                    if k != before.branches[index].parent {
                        assert(after.children(k) == before.children(k));
                    }
                }
            } else {
                history::law_pending_poll_leaves_waker(before, after, index, waker);
            }
        },
        Step::Close { index } => {
            if before.pending(index) {
                let changed = after.branches[index];
                assert(after =~= before.with_branch(index, changed));
                model::lemma_with_branch_children(before, index, changed);
                assert forall|k: usize| #[trigger] after.live(k) implies before.live(k)
                    && after.borrows(k) == before.borrows(k) by {
                    assert(after.children(k) == before.children(k));
                }
            } else {
                law_dropped_ready_future_gives_back(before, index);
            }
        },
        Step::HandOver => {
            assert forall|k: usize| #[trigger] after.live(k) implies before.live(k)
                && after.borrows(k) == before.borrows(k) by {
                assert(after.children(k) =~= before.children(k));
            }
        },
    }
}

} // verus!
