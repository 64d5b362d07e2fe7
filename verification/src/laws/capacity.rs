//! The capacity that a graph was made with cannot be observed.
use vstd::prelude::*;
use crate::graph::END;
use crate::graph::model::{BranchView, GraphView};
use crate::laws::history::{self, Step};

verus! {

/// Whether the free nodes of a graph are those of `freed`, and then the ones from `used` on, which
/// were never used.
pub open spec fn laid_out(g: GraphView, freed: Seq<usize>, used: nat) -> bool {
    &&& used <= g.versions.len() <= usize::MAX
    &&& g.vacant == freed + Seq::new(
        (g.versions.len() - used) as nat,
        |i: int| (used + i) as usize,
    )
    &&& forall|k: int| used <= k < g.versions.len() ==> #[trigger] g.versions[k] == 0
    &&& forall|a: int| 0 <= a < freed.len() ==> #[trigger] freed[a] < used
}

/// Whether two branches agree but for which waker they keep, if they keep one.
pub open spec fn alike_branches(a: BranchView, b: BranchView) -> bool {
    a.parent == b.parent && a.strong == b.strong && (a.waker is Some <==> b.waker is Some)
}

/// Whether two graphs agree but for the nodes that were never used, and the wakers.
pub open spec fn alike_in(g: GraphView, h: GraphView, freed: Seq<usize>, used: nat) -> bool {
    &&& g.branches.dom() == h.branches.dom()
    &&& forall|k: usize| #[trigger] g.live(k) ==> alike_branches(g.branches[k], h.branches[k])
    &&& laid_out(g, freed, used)
    &&& laid_out(h, freed, used)
    &&& forall|k: int| 0 <= k < used ==> #[trigger] g.versions[k] == h.versions[k]
    &&& forall|k: usize| #[trigger] g.live(k) ==> k < used
}

/// Whether two graphs differ in nothing but their capacity and their wakers.
pub open spec fn alike(g: GraphView, h: GraphView) -> bool {
    exists|freed: Seq<usize>, used: nat| alike_in(g, h, freed, used)
}

/// Alike graphs answer alike: which branches there are, whether their futures wait or are ready, what
/// they were forwarded from, how often they are borrowed, at which version a weak reference is taken
/// or upgraded, and which index the next branch gets.
pub proof fn law_alike_graphs_answer_alike(g: GraphView, h: GraphView)
    requires
        alike(g, h),
    ensures
        g.next_index() == h.next_index(),
        forall|k: usize| #[trigger] g.live(k) <==> h.live(k),
        forall|k: usize| #[trigger] g.pending(k) <==> h.pending(k),
        forall|k: usize| #[trigger] g.ready(k) <==> h.ready(k),
        forall|k: usize| #[trigger]
            g.live(k) ==> {
                &&& g.branches[k].parent == h.branches[k].parent
                &&& g.branches[k].strong == h.branches[k].strong
                &&& g.versions[k as int] == h.versions[k as int]
            },
{
    let (freed, used) = choose|freed: Seq<usize>, used: nat| alike_in(g, h, freed, used);
    assert forall|k: usize| #[trigger] g.live(k) <==> h.live(k) by {
        assert(g.branches.dom().contains(k) == h.branches.dom().contains(k));
    }
    assert forall|k: usize| #[trigger] g.pending(k) <==> h.pending(k) by {
        assert(g.live(k) <==> h.live(k));
    }
    assert forall|k: usize| #[trigger] g.ready(k) <==> h.ready(k) by {
        assert(g.live(k) <==> h.live(k));
    }
    if freed.len() > 0 {
        assert(g.next_index() == freed[0] && h.next_index() == freed[0]);
    } else {
        assert(g.next_index() == used && h.next_index() == used);
    }
}

/// New graphs differ in nothing but their capacity.
pub proof fn law_new_graphs_are_alike(g: GraphView, h: GraphView)
    requires
        g.versions.len() <= usize::MAX,
        h.versions.len() <= usize::MAX,
        g.branches == Map::<usize, BranchView>::empty(),
        g.branches == h.branches,
        g.versions == Seq::new(g.versions.len(), |i: int| 0u64),
        h.versions == Seq::new(h.versions.len(), |i: int| 0u64),
        g.vacant == Seq::new(g.versions.len(), |i: int| i as usize),
        h.vacant == Seq::new(h.versions.len(), |i: int| i as usize),
    ensures
        alike(g, h),
{
    let freed = Seq::<usize>::empty();
    assert(g.vacant =~= freed + Seq::new(g.versions.len(), |i: int| (0nat + i) as usize));
    assert(h.vacant =~= freed + Seq::new(h.versions.len(), |i: int| (0nat + i) as usize));
    assert(alike_in(g, h, freed, 0));
}

/// Adding a branch uses the node that was freed last, or else the first that was never used.
proof fn lemma_allocated(g: GraphView, freed: Seq<usize>, used: nat, branch: BranchView)
    requires
        laid_out(g, freed, used),
        g.allocated(branch).versions.len() <= usize::MAX,
    ensures
        freed.len() > 0 ==> {
            &&& g.next_index() == freed[0]
            &&& laid_out(g.allocated(branch), freed.drop_first(), used)
            &&& g.allocated(branch).versions == g.versions
        },
        freed.len() == 0 ==> {
            &&& g.next_index() == used
            &&& laid_out(g.allocated(branch), freed, used + 1)
            &&& g.allocated(branch).versions[used as int] == 0
            &&& forall|k: int|
                0 <= k < used ==> #[trigger] g.allocated(branch).versions[k] == g.versions[k]
        },
{
    let a = g.allocated(branch);
    if freed.len() > 0 {
        let rest = freed.drop_first();
        assert(a.vacant =~= rest + Seq::new(
            (a.versions.len() - used) as nat,
            |i: int| (used + i) as usize,
        ));
        assert forall|i: int| 0 <= i < rest.len() implies #[trigger] rest[i] < used by {
            assert(rest[i] == freed[i + 1]);
        }
    } else {
        assert(a.vacant =~= freed + Seq::new(
            (a.versions.len() - (used + 1)) as nat,
            |i: int| (used + 1 + i) as usize,
        ));
    }
}

/// Adding alike branches keeps graphs alike, also if one of them has to grow.
proof fn lemma_lent(g: GraphView, h: GraphView, a: BranchView, b: BranchView)
    requires
        alike(g, h),
        alike_branches(a, b),
        g.allocated(a).versions.len() <= usize::MAX,
        h.allocated(b).versions.len() <= usize::MAX,
    ensures
        alike(g.allocated(a), h.allocated(b)),
{
    let (freed, used) = choose|freed: Seq<usize>, used: nat| alike_in(g, h, freed, used);
    let (after, other) = (g.allocated(a), h.allocated(b));
    lemma_allocated(g, freed, used, a);
    lemma_allocated(h, freed, used, b);
    assert(after.branches.dom() =~= other.branches.dom());
    let enough = if freed.len() > 0 {
        used
    } else {
        used + 1
    };
    assert forall|k: usize| #[trigger] after.live(k) implies k < enough && alike_branches(
        after.branches[k],
        other.branches[k],
    ) by {
        if k != g.next_index() {
            assert(g.live(k));
        }
    }
    assert forall|k: int| 0 <= k < enough implies #[trigger] after.versions[k]
        == other.versions[k] by {
        if k < used {
            assert(g.versions[k] == h.versions[k]);
        }
    }
    if freed.len() > 0 {
        assert(alike_in(after, other, freed.drop_first(), enough));
    } else {
        assert(alike_in(after, other, freed, enough));
    }
}

/// Replacing a branch by alike ones keeps graphs alike. The wakers that are due do not matter.
proof fn lemma_changed(g: GraphView, h: GraphView, after: GraphView, other: GraphView, index: usize)
    requires
        alike(g, h),
        g.live(index),
        after.branches == g.branches.insert(index, after.branches[index]),
        other.branches == h.branches.insert(index, other.branches[index]),
        alike_branches(after.branches[index], other.branches[index]),
        after.versions == g.versions,
        after.vacant == g.vacant,
        other.versions == h.versions,
        other.vacant == h.vacant,
    ensures
        alike(after, other),
{
    let (freed, used) = choose|freed: Seq<usize>, used: nat| alike_in(g, h, freed, used);
    assert(after.branches.dom() =~= other.branches.dom());
    assert forall|k: usize| #[trigger] after.live(k) implies k < used && alike_branches(
        after.branches[k],
        other.branches[k],
    ) by {
        assert(g.live(k));
    }
    assert(alike_in(after, other, freed, used));
}

/// Freeing a branch keeps graphs alike.
proof fn lemma_freed(g: GraphView, h: GraphView, index: usize)
    requires
        alike(g, h),
        g.live(index),
    ensures
        alike(g.vacated(index), h.vacated(index)),
{
    let (freed, used) = choose|freed: Seq<usize>, used: nat| alike_in(g, h, freed, used);
    let (after, other) = (g.vacated(index), h.vacated(index));
    let more = seq![index] + freed;
    assert(index < used);
    assert(after.vacant =~= more + Seq::new(
        (after.versions.len() - used) as nat,
        |i: int| (used + i) as usize,
    ));
    assert(other.vacant =~= more + Seq::new(
        (other.versions.len() - used) as nat,
        |i: int| (used + i) as usize,
    ));
    assert forall|i: int| 0 <= i < more.len() implies #[trigger] more[i] < used by {
        if i > 0 {
            assert(more[i] == freed[i - 1]);
        }
    }
    assert(after.branches.dom() =~= other.branches.dom());
    assert forall|k: usize| #[trigger] after.live(k) implies k < used && alike_branches(
        after.branches[k],
        other.branches[k],
    ) by {
        assert(g.live(k));
    }
    assert(g.versions[index as int] == h.versions[index as int]);
    assert(alike_in(after, other, more, used));
}

/// Giving back a borrow pointer keeps graphs alike, and frees the root of both or of neither.
pub proof fn law_releasing_does_not_tell(g: GraphView, h: GraphView, index: usize)
    requires
        alike(g, h),
    ensures
        alike(g.untracked(index).0, h.untracked(index).0),
        g.untracked(index).1 == h.untracked(index).1,
    decreases g.branches.dom().len(),
{
    law_alike_graphs_answer_alike(g, h);
    if index != END && g.live(index) && g.branches.dom().finite() {
        let branch = g.branches[index];
        let (after, other) = (g.untracked(index).0, h.untracked(index).0);
        assert(h.live(index));
        if branch.strong == 1 && branch.waker is None {
            lemma_freed(g, h, index);
            assert(g.vacated(index).branches.dom() =~= g.branches.dom().remove(index));
            law_releasing_does_not_tell(g.vacated(index), h.vacated(index), branch.parent);
        } else {
            assert(after.branches =~= g.branches.insert(index, after.branches[index]));
            assert(other.branches =~= h.branches.insert(index, other.branches[index]));
            lemma_changed(g, h, after, other, index);
        }
    }
}

/// Dropping a future keeps graphs alike, and frees the root of both or of neither.
pub proof fn law_closing_does_not_tell(g: GraphView, h: GraphView, index: usize)
    requires
        alike(g, h),
        g.pending(index) || g.ready(index),
    ensures
        alike(g.future_closed(index).0, h.future_closed(index).0),
        g.future_closed(index).1 == h.future_closed(index).1,
{
    law_alike_graphs_answer_alike(g, h);
    assert(g.live(index));
    if g.branches[index].waker is Some {
        lemma_changed(g, h, g.future_closed(index).0, h.future_closed(index).0, index);
    } else {
        lemma_freed(g, h, index);
        law_releasing_does_not_tell(g.vacated(index), h.vacated(index), g.branches[index].parent);
    }
}

/// Whether two steps are the same, but for the waker of a poll.
pub open spec fn same_step(a: Step, b: Step) -> bool {
    match a {
        Step::Poll { index, .. } => b is Poll && b->Poll_index == index,
        _ => a == b,
    }
}

/// Whatever is done to two graphs that differ in nothing but their capacity and their wakers, they
/// differ in nothing else afterwards.
pub proof fn law_step_does_not_tell(
    g: GraphView,
    h: GraphView,
    after: GraphView,
    other: GraphView,
    step: Step,
    same: Step,
)
    requires
        alike(g, h),
        same_step(step, same),
        step.leads(g, after),
        same.leads(h, other),
        after.versions.len() <= usize::MAX,
        other.versions.len() <= usize::MAX,
    ensures
        alike(after, other),
{
    let (freed, used) = choose|freed: Seq<usize>, used: nat| alike_in(g, h, freed, used);
    law_alike_graphs_answer_alike(g, h);
    match step {
        Step::Lend { parent } => {
            let index = g.next_index();
            let a = BranchView { parent, strong: 1, waker: after.branches[index].waker };
            let b = BranchView { parent, strong: 1, waker: other.branches[index].waker };
            assert(after == g.allocated(a));
            assert(other == h.allocated(b));
            lemma_lent(g, h, a, b);
        },
        Step::Track { index } => {
            assert(g.live(index));
            lemma_changed(g, h, after, other, index);
        },
        Step::Weaken { index } => {
            assert(g.live(index) && index < used);
            assert forall|k: usize| #[trigger] after.live(k) implies k < used && alike_branches(
                after.branches[k],
                other.branches[k],
            ) by {
                assert(g.live(k));
            }
            assert(alike_in(after, other, freed, used));
        },
        Step::Release { index } => law_releasing_does_not_tell(g, h, index),
        Step::Poll { index, .. } => {
            assert(g.live(index));
            if g.ready(index) {
                assert(h.ready(index));
                lemma_freed(g, h, index);
            } else {
                assert(h.pending(index));
                assert(after.branches =~= g.branches.insert(index, after.branches[index]));
                assert(other.branches =~= h.branches.insert(index, other.branches[index]));
                lemma_changed(g, h, after, other, index);
            }
        },
        Step::Close { index } => law_closing_does_not_tell(g, h, index),
        Step::HandOver => {
            assert forall|k: usize| #[trigger] after.live(k) implies k < used && alike_branches(
                after.branches[k],
                other.branches[k],
            ) by {
                assert(g.live(k));
            }
            assert(alike_in(after, other, freed, used));
        },
    }
}

/// The capacity of a graph cannot be observed: two graphs that start out alike, and to which the same
/// is done, are alike all the time, and so answer alike.
pub proof fn law_capacity_is_not_observed(
    graphs: Seq<GraphView>,
    steps: Seq<Step>,
    others: Seq<GraphView>,
    same: Seq<Step>,
    at: int,
)
    requires
        history::history(graphs, steps),
        history::history(others, same),
        steps.len() == same.len(),
        forall|i: int| 0 <= i < steps.len() ==> same_step(#[trigger] steps[i], same[i]),
        alike(graphs[0], others[0]),
        0 <= at < graphs.len(),
    ensures
        alike(graphs[at], others[at]),
        graphs[at].next_index() == others[at].next_index(),
    decreases at,
{
    if at > 0 {
        law_capacity_is_not_observed(graphs, steps, others, same, at - 1);
        let (before, after) = (graphs[at - 1], graphs[at]);
        let (beside, other) = (others[at - 1], others[at]);
        assert(steps[at - 1].leads(before, after));
        assert(same[at - 1].leads(beside, other));
        assert(after.forest() && other.forest());
        assert(same_step(steps[at - 1], same[at - 1]));
        law_step_does_not_tell(before, beside, after, other, steps[at - 1], same[at - 1]);
    }
    law_alike_graphs_answer_alike(graphs[at], others[at]);
}

} // verus!
