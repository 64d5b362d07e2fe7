//! What holds of a graph over any number of steps.
use vstd::prelude::*;
use std::task::Waker;
use crate::graph::{self, END};
use crate::graph::model::{self, GraphView};
use crate::laws::versions_kept;

verus! {

/// Something that is done to a graph.
pub enum Step {
    /// A branch is added under `parent`.
    Lend { parent: usize },
    /// Another borrow pointer to `index` is made.
    Track { index: usize },
    /// A weak reference to `index` is taken.
    Weaken { index: usize },
    /// A borrow pointer to `index` is given back.
    Release { index: usize },
    /// The future of `index` is polled.
    Poll { index: usize, waker: Waker },
    /// The future of `index` is dropped.
    Close { index: usize },
    /// The wakers that are due are handed over.
    HandOver,
}

impl Step {
    /// Whether this leads from `before` to `after`.
    pub open spec fn leads(self, before: GraphView, after: GraphView) -> bool {
        match self {
            Step::Lend { parent } => {
                &&& before.borrowed(parent)
                &&& !before.live(before.next_index())
                &&& after.lent_from(before, parent)
            },
            Step::Track { index } => {
                &&& before.live(index)
                &&& before.branches[index].strong < usize::MAX
                &&& after.tracked_from(before, index)
            },
            Step::Weaken { index } => {
                let version = graph::weak_version(before.versions[index as int]);
                &&& before.live(index)
                &&& version < u64::MAX
                &&& after == (GraphView {
                    versions: before.versions.update(index as int, version),
                    ..before
                })
            },
            Step::Release { index } => {
                &&& before.borrowed(index)
                &&& after == before.untracked(index).0
            },
            Step::Poll { index, waker } => {
                ||| before.ready(index) && after == before.vacated(index)
                ||| after.waits_from(before, index, waker)
            },
            Step::Close { index } => {
                &&& before.pending(index) || before.ready(index)
                &&& after == before.future_closed(index).0
            },
            Step::HandOver => after == (GraphView { due: Seq::empty(), ..before }),
        }
    }

    /// Whether this polls or drops the future of `index`.
    pub open spec fn uses_future(self, index: usize) -> bool {
        match self {
            Step::Poll { index: of, .. } => of == index,
            Step::Close { index: of } => of == index,
            _ => false,
        }
    }
}

/// Whether the steps lead from each graph to the next.
pub open spec fn history(graphs: Seq<GraphView>, steps: Seq<Step>) -> bool {
    &&& graphs.len() == steps.len() + 1
    &&& forall|i: int| 0 <= i < graphs.len() ==> (#[trigger] graphs[i]).forest()
    &&& forall|i: int, j: int|
        #![trigger graphs[i], graphs[j]]
        0 <= i < steps.len() && j == i + 1 ==> steps[i].leads(graphs[i], graphs[j])
}

/// The history without its last step.
proof fn lemma_shorter(graphs: Seq<GraphView>, steps: Seq<Step>)
    requires
        history(graphs, steps),
        steps.len() > 0,
    ensures
        history(graphs.drop_last(), steps.drop_last()),
        steps.last().leads(graphs[graphs.len() - 2], graphs.last()),
{
    let (shorter, fewer) = (graphs.drop_last(), steps.drop_last());
    assert forall|i: int, j: int|
        #![trigger shorter[i], shorter[j]]
        0 <= i < fewer.len() && j == i + 1 implies fewer[i].leads(shorter[i], shorter[j]) by {
        assert(shorter[i] == graphs[i] && shorter[j] == graphs[j]);
    }
    assert forall|i: int| 0 <= i < shorter.len() implies (#[trigger] shorter[i]).forest() by {
        assert(shorter[i] == graphs[i]);
    }
    assert(graphs[graphs.len() - 1] == graphs.last());
}

/// Giving back a borrow pointer frees branches and makes at most one future ready. It adds no
/// branch, and touches neither the version nor the waker of what is left otherwise.
proof fn lemma_released(g: GraphView, index: usize)
    requires
        g.forest(),
        g.borrowed(index),
    ensures
        ({
            let h = g.untracked(index).0;
            &&& versions_kept(g, h)
            &&& h.versions.len() == g.versions.len()
            &&& forall|k: usize| #[trigger]
                h.live(k) ==> g.live(k) && h.versions[k as int] == g.versions[k as int]
            &&& forall|k: usize| #[trigger]
                h.pending(k) ==> g.pending(k) && h.branches[k].waker == g.branches[k].waker
            &&& forall|k: usize|
                g.pending(k) && !#[trigger] h.pending(k) ==> {
                    &&& h.ready(k)
                    &&& h.due == g.due.push(g.branches[k].waker->0)
                }
        }),
    decreases g.branches.dom().len(),
{
    if index != END {
        let branch = g.branches[index];
        if branch.strong == 1 && branch.waker is None {
            assert(g.children(index).is_empty());
            model::lemma_vacated_forest(g, index);
            lemma_released(g.vacated(index), branch.parent);
            let h = g.vacated(index).untracked(branch.parent).0;
            assert forall|k: usize| #[trigger] h.live(k) implies g.live(k) && h.versions[k as int]
                == g.versions[k as int] by {
                assert(g.vacated(index).live(k));
            }
            assert forall|k: usize| #[trigger] h.pending(k) implies g.pending(k)
                && h.branches[k].waker == g.branches[k].waker by {
                assert(g.vacated(index).pending(k));
            }
            assert forall|k: usize| g.pending(k) && !#[trigger] h.pending(k) implies h.ready(k)
                && h.due == g.due.push(g.branches[k].waker->0) by {
                assert(g.vacated(index).pending(k));
            }
            crate::laws::law_freeing_passes_weak_references(g, index);
        } else {
            let h = g.untracked(index).0;
            assert(h.versions == g.versions);
        }
    }
}

/// No step turns a version back, nor moves that of a branch that is referenced weakly and lives on.
proof fn lemma_step_versions(before: GraphView, after: GraphView, step: Step)
    requires
        before.forest(),
        step.leads(before, after),
    ensures
        versions_kept(before, after),
        forall|k: usize|
            before.live(k) && #[trigger] after.live(k) && before.versions[k as int] % 2 == 1
                ==> after.versions[k as int] == before.versions[k as int],
{
    match step {
        Step::Release { index } => lemma_released(before, index),
        Step::Close { index } => {
            if before.branches[index].waker is None {
                assert(before.children(index).is_empty());
                model::lemma_vacated_forest(before, index);
                let freed = before.vacated(index);
                lemma_released(freed, before.branches[index].parent);
                crate::laws::law_freeing_passes_weak_references(before, index);
                assert forall|k: usize|
                    before.live(k) && #[trigger] after.live(k) && before.versions[k as int] % 2
                        == 1 implies after.versions[k as int] == before.versions[k as int] by {
                    assert(freed.live(k));
                }
            }
        },
        Step::Poll { index, waker } => {
            if before.ready(index) && after == before.vacated(index) {
                crate::laws::law_freeing_passes_weak_references(before, index);
            }
        },
        _ => {},
    }
}

/// A step that leaves the future of `index` alone leaves its waker too, or makes it due, once the
/// last borrow pointer is given back.
proof fn lemma_step_waker(before: GraphView, after: GraphView, step: Step, index: usize)
    requires
        before.forest(),
        step.leads(before, after),
        before.pending(index),
        !step.uses_future(index),
    ensures
        after.pending(index) ==> after.branches[index].waker == before.branches[index].waker,
        !after.pending(index) ==> {
            &&& after.ready(index)
            &&& after.due == before.due.push(before.branches[index].waker->0)
        },
{
    match step {
        Step::Release { index: of } => lemma_released(before, of),
        Step::Close { index: of } => {
            if before.branches[of].waker is None {
                assert(before.children(of).is_empty());
                model::lemma_vacated_forest(before, of);
                assert(before.vacated(of).pending(index));
                lemma_released(before.vacated(of), before.branches[of].parent);
            }
        },
        _ => {},
    }
}

/// A weak reference can be upgraded until its branch is freed, and never again after that, whatever
/// is done to the graph in between: also if the node is used again, and referenced weakly again.
pub proof fn law_weak_reference_lives_until_freed(
    graphs: Seq<GraphView>,
    steps: Seq<Step>,
    index: usize,
    version: u64,
)
    requires
        history(graphs, steps),
        index < graphs[0].versions.len(),
        graphs[0].versions[index as int] == version,
        version % 2 == 1,
    ensures
        index < graphs.last().versions.len(),
        graphs.last().versions[index as int] >= version,
        graphs.last().versions[index as int] == version <==> forall|i: int|
            0 <= i < graphs.len() ==> (#[trigger] graphs[i]).live(index),
    decreases steps.len(),
{
    let last = graphs.last();
    if steps.len() == 0 {
        assert(last == graphs[0]);
        assert(graphs[0].versions[index as int] % 2 == 1);
    } else {
        let shorter = graphs.drop_last();
        let before = graphs[graphs.len() - 2];
        lemma_shorter(graphs, steps);
        assert(shorter[0] == graphs[0]);
        assert(shorter.last() == before);
        law_weak_reference_lives_until_freed(shorter, steps.drop_last(), index, version);
        lemma_step_versions(before, last, steps.last());
        assert(before.forest());
        assert(last.forest()) by {
            assert(graphs[graphs.len() - 1].forest());
        }
        assert(before.versions[index as int] <= last.versions[index as int]);
        if last.versions[index as int] == version {
            assert(last.live(index));
            assert forall|i: int| 0 <= i < graphs.len() implies (#[trigger] graphs[i]).live(
                index,
            ) by {
                if i < shorter.len() {
                    assert(shorter[i].live(index));
                }
            }
        } else if forall|i: int| 0 <= i < graphs.len() ==> (#[trigger] graphs[i]).live(index) {
            assert forall|i: int| 0 <= i < shorter.len() implies (#[trigger] shorter[i]).live(
                index,
            ) by {
                assert(graphs[i].live(index));
            }
            assert(graphs[graphs.len() - 1].live(index));
            assert(before.live(index) && last.live(index));
        }
    }
}

/// Whether `held` wakes the task of `waker`: it is that waker, or [`Waker::will_wake`] answered that
/// it wakes the same task.
pub open spec fn wakes_task_of(held: Waker, waker: Waker) -> bool {
    held == waker || call_ensures(Waker::will_wake, (&held, &waker), true)
}

/// A poll that has to wait leaves a waker for the task that polled, and every borrow as it was.
pub proof fn law_pending_poll_leaves_waker(
    before: GraphView,
    after: GraphView,
    index: usize,
    waker: Waker,
)
    requires
        after.waits_from(before, index, waker),
    ensures
        after.pending(index),
        wakes_task_of(after.branches[index].waker->0, waker),
        after == before.with_waker(index, after.branches[index].waker),
        forall|k: usize| #[trigger] after.live(k) == before.live(k),
        forall|k: usize| #[trigger] after.borrows(k) == before.borrows(k),
{
    assert(after =~= before.with_waker(index, after.branches[index].waker));
    model::lemma_with_branch_children(before, index, after.branches[index]);
    assert forall|k: usize| #[trigger] after.live(k) == before.live(k) by {
        assert(after.branches.dom().contains(k) == before.branches.dom().contains(k));
    }
    assert forall|k: usize| #[trigger] after.borrows(k) == before.borrows(k) by {
        assert(after.children(k) == before.children(k));
    }
}

/// Once a future no longer waits, the task that polled it last is due: whatever was done to the
/// graph since that poll, if not to the future.
pub proof fn law_latest_poll_is_woken(
    graphs: Seq<GraphView>,
    steps: Seq<Step>,
    index: usize,
    waker: Waker,
)
    requires
        history(graphs, steps),
        steps.len() >= 2,
        steps[0] == (Step::Poll { index, waker }),
        forall|i: int| 1 <= i < steps.len() ==> !(#[trigger] steps[i]).uses_future(index),
        forall|i: int| 0 <= i < graphs.len() - 1 ==> (#[trigger] graphs[i]).pending(index),
        !graphs.last().pending(index),
    ensures
        graphs.last().ready(index),
        graphs.last().due.len() > 0,
        wakes_task_of(graphs.last().due.last(), waker),
{
    let before = graphs[graphs.len() - 2];
    lemma_shorter(graphs, steps);
    lemma_waker_stays(graphs.drop_last(), steps.drop_last(), index, waker);
    assert(graphs.drop_last().last() == before);
    assert(before.forest() && before.pending(index));
    assert(!steps[steps.len() - 1].uses_future(index));
    lemma_step_waker(before, graphs.last(), steps.last(), index);
}

/// As long as a future waits it keeps the waker of the latest poll.
proof fn lemma_waker_stays(
    graphs: Seq<GraphView>,
    steps: Seq<Step>,
    index: usize,
    waker: Waker,
)
    requires
        history(graphs, steps),
        steps.len() >= 1,
        steps[0] == (Step::Poll { index, waker }),
        forall|i: int| 1 <= i < steps.len() ==> !(#[trigger] steps[i]).uses_future(index),
        forall|i: int| 0 <= i < graphs.len() ==> (#[trigger] graphs[i]).pending(index),
    ensures
        wakes_task_of(graphs.last().branches[index].waker->0, waker),
    decreases steps.len(),
{
    let (before, after) = (graphs[graphs.len() - 2], graphs.last());
    lemma_shorter(graphs, steps);
    assert(before.forest() && before.pending(index));
    assert(graphs[graphs.len() - 1].pending(index));
    if steps.len() == 1 {
        assert(steps.last() == steps[0]);
        law_pending_poll_leaves_waker(before, after, index, waker);
    } else {
        let (shorter, fewer) = (graphs.drop_last(), steps.drop_last());
        assert(fewer[0] == steps[0]);
        assert forall|i: int| 1 <= i < fewer.len() implies !(#[trigger] fewer[i]).uses_future(
            index,
        ) by {
            assert(fewer[i] == steps[i]);
        }
        assert forall|i: int| 0 <= i < shorter.len() implies (#[trigger] shorter[i]).pending(
            index,
        ) by {
            assert(shorter[i] == graphs[i]);
        }
        lemma_waker_stays(shorter, fewer, index, waker);
        assert(shorter.last() == before);
        assert(!steps[steps.len() - 1].uses_future(index));
        lemma_step_waker(before, after, steps.last(), index);
    }
}

} // verus!
