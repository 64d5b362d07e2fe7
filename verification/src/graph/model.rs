//! What a graph stands for: a forest of branches.
use vstd::prelude::*;
use std::task::Waker;
use crate::graph::END;

verus! {

/// A branch as the forest sees it.
pub struct BranchView {
    /// The branch that this one was forwarded from, or [`END`].
    pub parent: usize,
    /// The number of borrow pointers, those that children stand for among them.
    pub strong: usize,
    /// The waker of the future that waits for this branch.
    pub waker: Option<Waker>,
}

/// The contents of a graph.
#[verifier::ext_equal]
pub struct GraphView {
    /// The live branches by index.
    pub branches: Map<usize, BranchView>,
    /// The version of each node.
    pub versions: Seq<u64>,
    /// The free nodes, in the order in which they will be used.
    pub vacant: Seq<usize>,
    /// The wakers whose tasks are due, in the order in which they became due.
    pub due: Seq<Waker>,
}

/// Whether every branch ranks above its parent.
pub open spec fn ranked(branches: Map<usize, BranchView>, rank: spec_fn(usize) -> nat) -> bool {
    forall|k: usize| #[trigger]
        branches.contains_key(k) && branches[k].parent != END ==> rank(branches[k].parent) < rank(
            k,
        )
}

/// The branches whose parent is `index`.
pub open spec fn children_of(branches: Map<usize, BranchView>, index: usize) -> Set<usize> {
    branches.dom().filter(|k: usize| branches[k].parent == index)
}

impl GraphView {
    /// Whether `index` is a live branch.
    pub open spec fn live(self, index: usize) -> bool {
        self.branches.contains_key(index)
    }

    /// The branches forwarded from `index`.
    pub open spec fn children(self, index: usize) -> Set<usize> {
        children_of(self.branches, index)
    }

    /// The number of borrow pointers to `index` that are held by someone other than a child.
    pub open spec fn borrows(self, index: usize) -> int {
        self.branches[index].strong - self.children(index).len()
    }

    /// Whether `index` may be untracked: a borrow pointer to it is held, or it is [`END`].
    pub open spec fn borrowed(self, index: usize) -> bool {
        index == END || self.live(index) && self.borrows(index) >= 1
    }

    /// Whether the future of `index` waits: it will be answered only once the count is zero.
    pub open spec fn pending(self, index: usize) -> bool {
        self.live(index) && self.branches[index].waker is Some
    }

    /// Whether the future of `index` would be answered at once.
    pub open spec fn ready(self, index: usize) -> bool {
        self.live(index) && self.branches[index].waker is None && self.branches[index].strong == 0
    }

    /// Whether the future of `index` was closed while borrow pointers were left.
    pub open spec fn closed(self, index: usize) -> bool {
        self.live(index) && self.branches[index].waker is None && self.branches[index].strong > 0
    }

    /// The forest's invariant: parents are live, counts cover children, a future that waits has
    /// something to wait for, only live branches are referenced weakly, and nothing is its own
    /// ancestor. No version is so large that flushing it overflows.
    pub open spec fn forest(self) -> bool {
        &&& self.branches.dom().finite()
        &&& self.versions.len() <= usize::MAX
        &&& forall|k: usize| #[trigger]
            self.live(k) ==> {
                &&& k < self.versions.len() && k != END
                &&& self.branches[k].parent == END || self.live(self.branches[k].parent)
                &&& self.children(k).len() <= self.branches[k].strong
                &&& self.branches[k].waker is Some ==> self.branches[k].strong > 0
            }
        &&& forall|k: int|
            0 <= k < self.versions.len() ==> {
                &&& #[trigger] self.versions[k] < u64::MAX
                &&& self.versions[k] % 2 == 1 ==> self.live(k as usize)
            }
        &&& exists|rank: spec_fn(usize) -> nat| ranked(self.branches, rank)
    }

    /// The single tree of one shared value: its root is node 0, which is reused first.
    pub open spec fn rooted(self) -> bool {
        &&& forall|k: usize| #[trigger]
            self.live(k) ==> (self.branches[k].parent == END <==> k == 0)
        &&& self.branches.dom().is_empty() ==> self.next_index() == 0
    }

    /// The index that the next branch will get.
    pub open spec fn next_index(self) -> usize {
        if self.vacant.len() > 0 {
            self.vacant[0]
        } else {
            self.versions.len() as usize
        }
    }

    /// The graph with the branch at `index` replaced.
    pub open spec fn with_branch(self, index: usize, branch: BranchView) -> GraphView {
        GraphView { branches: self.branches.insert(index, branch), ..self }
    }

    /// The graph with `strong` borrow pointers to `index`.
    pub open spec fn with_strong(self, index: usize, strong: int) -> GraphView {
        self.with_branch(index, BranchView { strong: strong as usize, ..self.branches[index] })
    }

    /// The graph with `waker` at `index`.
    pub open spec fn with_waker(self, index: usize, waker: Option<Waker>) -> GraphView {
        self.with_branch(index, BranchView { waker, ..self.branches[index] })
    }

    /// Whether another borrow pointer to `index` was added to `before`. A future that was ready waits
    /// again, with a placeholder for its waker.
    pub open spec fn tracked_from(self, before: GraphView, index: usize) -> bool {
        let branch = before.branches[index];
        if branch.strong == 0 {
            &&& self.pending(index)
            &&& self == before.with_branch(
                index,
                BranchView { strong: 1, waker: self.branches[index].waker, ..branch },
            )
        } else {
            self == before.with_strong(index, branch.strong + 1)
        }
    }

    /// Whether polling the future of `index` in `before`, which had to wait, left this: `waker` is
    /// kept, unless [`Waker::will_wake`] answered that the one that was there wakes the same task.
    pub open spec fn waits_from(self, before: GraphView, index: usize, waker: Waker) -> bool {
        &&& before.pending(index)
        &&& exists|same: bool|
            {
                &&& #[trigger] call_ensures(
                    Waker::will_wake,
                    (&before.branches[index].waker->0, &waker),
                    same,
                )
                &&& self == if same {
                    before
                } else {
                    before.with_waker(index, Some(waker))
                }
            }
    }

    /// Whether the arena can hold another branch: a node is free, or the arena can double.
    pub open spec fn has_room(self) -> bool {
        self.vacant.len() > 0 || 2 * self.versions.len() + 1 <= usize::MAX
    }

    /// The graph with twice as many nodes, and one more.
    pub open spec fn grown(self) -> GraphView {
        let len = self.versions.len();
        GraphView {
            versions: self.versions + Seq::new(len + 1, |i: int| 0u64),
            vacant: Seq::new(len + 1, |i: int| (len + i) as usize),
            ..self
        }
    }

    /// The graph with a branch added at the next index. A graph that is full grows first.
    pub open spec fn allocated(self, branch: BranchView) -> GraphView {
        let room = if self.vacant.len() > 0 {
            self
        } else {
            self.grown()
        };
        GraphView {
            branches: self.branches.insert(self.next_index(), branch),
            vacant: room.vacant.drop_first(),
            ..room
        }
    }

    /// The graph with a branch of one borrow pointer added under `parent`.
    pub open spec fn forwarded(self, parent: usize, waker: Waker) -> GraphView {
        self.allocated(BranchView { parent, strong: 1, waker: Some(waker) })
    }

    /// Whether a branch was added to `before` in place of a borrow pointer to `parent`, with one
    /// borrow pointer and a future that waits.
    pub open spec fn lent_from(self, before: GraphView, parent: usize) -> bool {
        let index = before.next_index();
        &&& self.pending(index)
        &&& self == before.forwarded(parent, self.branches[index].waker->0)
    }

    /// Whether a branch was added to `before` in place of a borrow pointer to `parent`, whose own
    /// borrow pointer was given back at once: its future is ready, and the placeholder for its
    /// waker was due.
    pub open spec fn returned_from(self, before: GraphView, parent: usize) -> bool {
        &&& self.due.len() > 0
        &&& self == (GraphView {
            due: before.due.push(self.due.last()),
            ..before.allocated(BranchView { parent, strong: 0, waker: None })
        })
    }

    /// The graph with `index` freed.
    pub open spec fn vacated(self, index: usize) -> GraphView {
        GraphView {
            branches: self.branches.remove(index),
            versions: self.versions.update(
                index as int,
                crate::graph::flushed_version(self.versions[index as int]),
            ),
            vacant: seq![index] + self.vacant,
            ..self
        }
    }

    /// The graph once a borrow pointer to `index` is given back, and whether a root was freed.
    ///
    /// The last pointer to a branch makes its waker due. Without a waker nothing waits for the
    /// branch: it is freed, and the pointer that it stood for is given back to its parent.
    pub open spec fn untracked(self, index: usize) -> (GraphView, bool)
        decreases self.branches.dom().len(),
    {
        if index == END {
            (self, true)
        } else if !self.live(index) || !self.branches.dom().finite() {
            (self, false)
        } else {
            let branch = self.branches[index];
            if branch.strong != 1 {
                (self.with_strong(index, branch.strong - 1), false)
            } else if branch.waker is Some {
                (
                    GraphView {
                        due: self.due.push(branch.waker->0),
                        ..self.with_strong(index, 0).with_waker(index, None)
                    },
                    false,
                )
            } else {
                self.vacated(index).untracked(branch.parent)
            }
        }
    }

    /// The graph once the future of `index` is dropped, and whether a root was freed.
    pub open spec fn future_closed(self, index: usize) -> (GraphView, bool) {
        if self.branches[index].waker is Some {
            (self.with_waker(index, None), false)
        } else {
            self.vacated(index).untracked(self.branches[index].parent)
        }
    }
}

/// Replacing a branch without moving it leaves every set of children as it was.
pub proof fn lemma_with_branch_children(g: GraphView, index: usize, branch: BranchView)
    requires
        g.live(index),
        branch.parent == g.branches[index].parent,
    ensures
        g.with_branch(index, branch).branches.dom() == g.branches.dom(),
        forall|p: usize| #[trigger] g.with_branch(index, branch).children(p) == g.children(p),
{
    let h = g.with_branch(index, branch);
    assert(h.branches.dom() =~= g.branches.dom());
    assert forall|p: usize| #[trigger] h.children(p) == g.children(p) by {
        assert(h.children(p) =~= g.children(p));
    }
}

/// Replacing a branch keeps the forest, if the count still covers the children.
pub proof fn lemma_with_branch_forest(g: GraphView, index: usize, branch: BranchView)
    requires
        g.forest(),
        g.live(index),
        branch.parent == g.branches[index].parent,
        g.children(index).len() <= branch.strong,
        branch.waker is Some ==> branch.strong > 0,
    ensures
        g.with_branch(index, branch).forest(),
{
    let h = g.with_branch(index, branch);
    lemma_with_branch_children(g, index, branch);
    let rank = choose|rank: spec_fn(usize) -> nat| ranked(g.branches, rank);
    assert(ranked(h.branches, rank)) by {
        assert forall|k: usize| #[trigger]
            h.branches.contains_key(k) && h.branches[k].parent != END implies rank(
            h.branches[k].parent,
        ) < rank(k) by {
            assert(g.branches.contains_key(k));
        }
    }
    assert forall|k: usize| #[trigger] h.live(k) implies {
        &&& k < h.versions.len() && k != END
        &&& h.branches[k].parent == END || h.live(h.branches[k].parent)
        &&& h.children(k).len() <= h.branches[k].strong
        &&& h.branches[k].waker is Some ==> h.branches[k].strong > 0
    } by {
        assert(g.live(k));
        assert(h.children(k) == g.children(k));
        if g.branches[k].parent != END {
            assert(g.live(g.branches[k].parent));
        }
    }
}

/// Adding a borrow pointer keeps the forest and the tree, and leaves that pointer to be held.
pub proof fn lemma_tracked(g: GraphView, h: GraphView, index: usize)
    requires
        g.forest(),
        g.live(index),
        g.branches[index].strong < usize::MAX,
        h.tracked_from(g, index),
    ensures
        h.forest(),
        g.rooted() ==> h.rooted(),
        h.branches.dom() == g.branches.dom(),
        h.borrows(index) == g.borrows(index) + 1,
        h.borrows(index) >= 1,
        h.branches[index].strong == g.branches[index].strong + 1,
        h.branches[index].parent == g.branches[index].parent,
        forall|k: usize| k != index && g.live(k) ==> #[trigger] h.branches[k] == g.branches[k],
        g.pending(index) || g.ready(index) ==> h.pending(index),
{
    let branch = h.branches[index];
    assert(h =~= g.with_branch(index, branch));
    lemma_with_branch_forest(g, index, branch);
    lemma_with_branch_children(g, index, branch);
    assert(h.children(index) == g.children(index));
    if g.rooted() {
        lemma_with_branch_rooted(g, index, branch);
    }
}

/// The wakers that are due do not matter to the forest.
pub proof fn lemma_same_forest(g: GraphView, h: GraphView)
    requires
        g.forest(),
        h.branches == g.branches,
        h.versions == g.versions,
    ensures
        h.forest(),
{
    lemma_with_versions_forest(g, g.versions);
    assert forall|k: usize| #[trigger] h.live(k) implies g.live(k) by {}
    assert forall|k: usize| #[trigger] g.live(k) implies h.live(k) by {}
}

/// Marking nodes as referenced weakly keeps the forest, if only live branches are marked.
pub proof fn lemma_with_versions_forest(g: GraphView, versions: Seq<u64>)
    requires
        g.forest(),
        versions.len() == g.versions.len(),
        forall|k: int|
            0 <= k < versions.len() ==> {
                &&& #[trigger] versions[k] < u64::MAX
                &&& versions[k] % 2 == 1 ==> g.live(k as usize)
            },
    ensures
        (GraphView { versions, ..g }).forest(),
{
    let h = GraphView { versions, ..g };
    assert forall|k: usize| #[trigger] h.live(k) implies {
        &&& k < h.versions.len() && k != END
        &&& h.branches[k].parent == END || h.live(h.branches[k].parent)
        &&& h.children(k).len() <= h.branches[k].strong
        &&& h.branches[k].waker is Some ==> h.branches[k].strong > 0
    } by {
        assert(g.live(k));
        if g.branches[k].parent != END {
            assert(g.live(g.branches[k].parent));
        }
    }
}

/// Adding a branch adds one child to its parent, and none to any other node.
pub proof fn lemma_forwarded_children(g: GraphView, parent: usize, waker: Waker)
    requires
        g.forest(),
        !g.live(g.next_index()),
        g.next_index() != parent,
    ensures
        g.forwarded(parent, waker).children(parent) == g.children(parent).insert(g.next_index()),
        g.forwarded(parent, waker).children(parent).len() == g.children(parent).len() + 1,
        forall|p: usize|
            p != parent ==> #[trigger] g.forwarded(parent, waker).children(p) == g.children(p),
{
    let h = g.forwarded(parent, waker);
    let i = g.next_index();
    assert(h.children(parent) =~= g.children(parent).insert(i));
    assert(!g.children(parent).contains(i));
    assert(g.children(parent).finite());
    assert forall|p: usize| p != parent implies #[trigger] h.children(p) == g.children(p) by {
        assert(h.children(p) =~= g.children(p));
    }
}

/// Forwarding a borrow pointer keeps the forest.
pub proof fn lemma_forwarded_forest(g: GraphView, parent: usize, waker: Waker)
    requires
        g.forest(),
        g.borrowed(parent),
        !g.live(g.next_index()),
        g.next_index() < g.forwarded(parent, waker).versions.len() <= usize::MAX,
    ensures
        g.forwarded(parent, waker).forest(),
        g.forwarded(parent, waker).children(g.next_index()).is_empty(),
{
    let h = g.forwarded(parent, waker);
    let i = g.next_index();
    assert(i != parent);
    lemma_forwarded_children(g, parent, waker);
    assert(h.branches.dom() =~= g.branches.dom().insert(i));
    assert(g.children(i).is_empty()) by {
        assert forall|k: usize| !g.children(i).contains(k) by {
            if g.children(i).contains(k) {
                assert(g.live(k));
            }
        }
        assert(g.children(i) =~= Set::empty());
    }
    let old_rank = choose|rank: spec_fn(usize) -> nat| ranked(g.branches, rank);
    let rank = |k: usize|
        if k == i {
            old_rank(parent) + 1
        } else {
            old_rank(k)
        };
    assert(ranked(h.branches, rank)) by {
        assert forall|k: usize| #[trigger]
            h.branches.contains_key(k) && h.branches[k].parent != END implies rank(
            h.branches[k].parent,
        ) < rank(k) by {
            if k != i {
                assert(g.branches.contains_key(k));
                assert(g.live(k));
                assert(g.live(g.branches[k].parent));
            }
        }
    }
    assert forall|k: usize| #[trigger] h.live(k) implies {
        &&& k < h.versions.len() && k != END
        &&& h.branches[k].parent == END || h.live(h.branches[k].parent)
        &&& h.children(k).len() <= h.branches[k].strong
        &&& h.branches[k].waker is Some ==> h.branches[k].strong > 0
    } by {
        if k != i {
            assert(g.live(k));
            if k != parent {
                assert(h.children(k) == g.children(k));
            }
        } else {
            assert(h.children(i) == g.children(i));
            assert(g.children(i).len() == 0);
        }
    }
}

/// Freeing a branch without children takes one child from its parent, and none from any other
/// node.
pub proof fn lemma_vacated_children(g: GraphView, index: usize)
    requires
        g.forest(),
        g.live(index),
    ensures
        g.vacated(index).children(g.branches[index].parent) == g.children(
            g.branches[index].parent,
        ).remove(index),
        g.vacated(index).children(g.branches[index].parent).len() == g.children(
            g.branches[index].parent,
        ).len() - 1,
        forall|p: usize|
            p != g.branches[index].parent ==> #[trigger] g.vacated(index).children(p)
                == g.children(p),
{
    let h = g.vacated(index);
    let parent = g.branches[index].parent;
    assert(h.children(parent) =~= g.children(parent).remove(index));
    assert(g.children(parent).contains(index));
    assert(g.children(parent).finite());
    assert forall|p: usize| p != parent implies #[trigger] h.children(p) == g.children(p) by {
        assert(h.children(p) =~= g.children(p));
    }
}

/// Freeing a branch without children keeps the forest, and leaves a borrow pointer to its parent
/// for someone to hold.
pub proof fn lemma_vacated_forest(g: GraphView, index: usize)
    requires
        g.forest(),
        g.live(index),
        g.children(index).is_empty(),
    ensures
        g.vacated(index).forest(),
        g.vacated(index).borrowed(g.branches[index].parent),
        g.branches[index].parent != END ==> g.vacated(index).borrows(g.branches[index].parent)
            == g.borrows(g.branches[index].parent) + 1,
        g.vacated(index).branches.dom().len() == g.branches.dom().len() - 1,
{
    let h = g.vacated(index);
    let parent = g.branches[index].parent;
    lemma_vacated_children(g, index);
    assert(parent != index) by {
        if parent == index {
            assert(g.children(index).contains(index));
        }
    }
    assert(h.branches.dom() =~= g.branches.dom().remove(index));
    let rank = choose|rank: spec_fn(usize) -> nat| ranked(g.branches, rank);
    assert(ranked(h.branches, rank)) by {
        assert forall|k: usize| #[trigger]
            h.branches.contains_key(k) && h.branches[k].parent != END implies rank(
            h.branches[k].parent,
        ) < rank(k) by {
            assert(g.branches.contains_key(k));
        }
    }
    assert forall|k: usize| #[trigger] h.live(k) implies {
        &&& k < h.versions.len() && k != END
        &&& h.branches[k].parent == END || h.live(h.branches[k].parent)
        &&& h.children(k).len() <= h.branches[k].strong
        &&& h.branches[k].waker is Some ==> h.branches[k].strong > 0
    } by {
        assert(g.live(k));
        if h.branches[k].parent == index {
            assert(g.children(index).contains(k));
        }
    }
    if parent != END {
        assert(g.live(parent));
    }
}

/// In a rooted forest every branch descends from the root: one without children is alone.
pub proof fn lemma_descends(g: GraphView, index: usize, rank: spec_fn(usize) -> nat)
    requires
        g.forest(),
        g.rooted(),
        g.live(index),
        ranked(g.branches, rank),
    ensures
        g.live(0),
        index != 0 ==> !g.children(0).is_empty(),
    decreases rank(index),
{
    if index != 0 {
        let parent = g.branches[index].parent;
        assert(g.branches.contains_key(index));
        if parent == 0 {
            assert(g.children(0).contains(index));
        } else {
            lemma_descends(g, parent, rank);
        }
    }
}

/// A rooted forest that is not empty has its root, and a root without children is alone.
pub proof fn lemma_root(g: GraphView)
    requires
        g.forest(),
        g.rooted(),
        !g.branches.dom().is_empty(),
    ensures
        g.live(0),
        g.children(0).is_empty() ==> g.branches.dom() == set![0usize],
{
    let rank = choose|rank: spec_fn(usize) -> nat| ranked(g.branches, rank);
    let k = g.branches.dom().choose();
    assert(g.branches.dom().contains(k)) by {
        if forall|a: usize| !g.branches.dom().contains(a) {
            assert(g.branches.dom() =~= Set::empty());
        }
    }
    assert(g.live(k));
    lemma_descends(g, k, rank);
    if g.children(0).is_empty() {
        assert forall|a: usize| g.branches.dom().contains(a) implies a == 0 by {
            assert(g.live(a));
            lemma_descends(g, a, rank);
        }
        assert(g.branches.dom() =~= set![0usize]);
    }
}

/// The root comes first, and everything else is forwarded: the tree stays one tree.
pub proof fn lemma_forwarded_rooted(g: GraphView, parent: usize, waker: Waker)
    requires
        g.forest(),
        g.rooted(),
        g.borrowed(parent),
        parent == END <==> g.branches.dom().is_empty(),
        !g.live(g.next_index()),
    ensures
        g.forwarded(parent, waker).rooted(),
        parent == END ==> g.next_index() == 0,
{
    let h = g.forwarded(parent, waker);
    let i = g.next_index();
    if parent != END {
        lemma_root(g);
    }
    assert(h.live(i));
    assert(!h.branches.dom().is_empty()) by {
        assert(h.branches.dom().contains(i));
    }
    assert forall|k: usize| #[trigger] h.live(k) implies (h.branches[k].parent == END <==> k
        == 0) by {
        if k != i {
            assert(g.live(k));
            assert(g.branches.dom().contains(k));
        }
    }
}

/// Replacing a branch without moving it leaves the tree as it was.
pub proof fn lemma_with_branch_rooted(g: GraphView, index: usize, branch: BranchView)
    requires
        g.rooted(),
        g.live(index),
        branch.parent == g.branches[index].parent,
    ensures
        g.with_branch(index, branch).rooted(),
{
    let h = g.with_branch(index, branch);
    assert(h.branches.dom() =~= g.branches.dom());
    assert forall|k: usize| #[trigger] h.live(k) implies (h.branches[k].parent == END <==> k
        == 0) by {
        assert(g.live(k));
    }
}

/// The root is the last to be freed, so its node is the next to be used.
pub proof fn lemma_vacated_rooted(g: GraphView, index: usize)
    requires
        g.forest(),
        g.rooted(),
        g.live(index),
        g.children(index).is_empty(),
    ensures
        g.vacated(index).rooted(),
        g.vacated(index).branches.dom().is_empty() <==> index == 0,
{
    let h = g.vacated(index);
    assert(g.branches.dom().contains(index));
    lemma_root(g);
    assert forall|k: usize| #[trigger] h.live(k) implies (h.branches[k].parent == END <==> k
        == 0) by {
        assert(g.live(k));
    }
    if index == 0 {
        assert(h.branches.dom() =~= Set::empty());
    } else {
        assert(h.branches.dom().contains(0));
    }
}

/// Giving back a borrow pointer keeps the forest and the tree, and frees the root exactly if
/// nothing is left.
pub proof fn lemma_untracked(g: GraphView, index: usize)
    requires
        g.forest(),
        g.rooted(),
        g.live(index),
        g.borrows(index) >= 1,
    ensures
        g.untracked(index).0.forest(),
        g.untracked(index).0.rooted(),
        g.untracked(index).1 <==> g.untracked(index).0.branches.dom().is_empty(),
    decreases g.branches.dom().len(),
{
    reveal_with_fuel(GraphView::untracked, 2);
    let branch = g.branches[index];
    let h = g.untracked(index).0;
    if branch.strong != 1 {
        let b = BranchView { strong: (branch.strong - 1) as usize, ..branch };
        lemma_with_branch_forest(g, index, b);
        lemma_with_branch_rooted(g, index, b);
        assert(h.branches.dom().contains(index));
    } else if branch.waker is Some {
        let b = BranchView { strong: 0, waker: None, ..branch };
        lemma_with_branch_forest(g, index, b);
        lemma_with_branch_rooted(g, index, b);
        assert(h.branches =~= g.with_branch(index, b).branches);
        lemma_same_forest(g.with_branch(index, b), h);
        assert forall|k: usize| #[trigger] h.live(k) implies (h.branches[k].parent == END <==> k
            == 0) by {
            assert(g.with_branch(index, b).live(k));
        }
        assert(h.branches.dom().contains(index));
    } else {
        assert(g.children(index).is_empty());
        lemma_vacated_forest(g, index);
        lemma_vacated_rooted(g, index);
        if branch.parent != END {
            lemma_untracked(g.vacated(index), branch.parent);
        }
    }
}

/// Dropping a future keeps the forest and the tree, and frees the root exactly if nothing is
/// left.
pub proof fn lemma_future_closed(g: GraphView, index: usize)
    requires
        g.forest(),
        g.rooted(),
        g.pending(index) || g.ready(index),
    ensures
        g.future_closed(index).0.forest(),
        g.future_closed(index).0.rooted(),
        g.future_closed(index).1 <==> g.future_closed(index).0.branches.dom().is_empty(),
{
    let branch = g.branches[index];
    if branch.waker is Some {
        let b = BranchView { waker: None, ..branch };
        lemma_with_branch_forest(g, index, b);
        lemma_with_branch_rooted(g, index, b);
        assert(g.future_closed(index).0.branches.dom().contains(index));
    } else {
        assert(g.children(index).is_empty());
        lemma_vacated_forest(g, index);
        lemma_vacated_rooted(g, index);
        if branch.parent != END {
            lemma_untracked(g.vacated(index), branch.parent);
        }
    }
}

} // verus!
