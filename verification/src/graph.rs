//! The record of who borrows from whom.
//!
//! A [`Graph`] is an arena of branches. A branch counts the borrow pointers made by one share or
//! forward, and names the branch that it was forwarded from, its parent. A child stands for one of
//! its parent's borrow pointers: it gives that pointer back when it is freed.
use vstd::prelude::*;
use std::task::Waker;
use crate::waker::{ask, noop_waker, Poll};

pub mod model;

use model::{BranchView, GraphView};

verus! {

/// The parent of a root.
pub const END: usize = usize::MAX;

/// A branch in the borrowing chain, used to record forwards and shares.
pub struct Branch {
    /// The waker of the future that waits for this branch.
    ///
    /// It is `None` once the count has reached zero, or once the future is gone.
    pub waker: Option<Waker>,
    /// The number of borrow pointers.
    pub strong: usize,
}

impl Branch {
    /// Stores `waker`, unless the waker that is there wakes the same task.
    pub fn register(&mut self, waker: Waker, same_task: bool)
        ensures
            final(self).strong == old(self).strong,
            final(self).waker == if same_task {
                old(self).waker
            } else {
                Some(waker)
            },
    {
        if !same_task {
            self.waker = Some(waker);
        }
    }
}

/// A slot of the arena.
pub struct Node {
    /// The node this was forwarded from, or the next free node.
    pub next: usize,
    /// Two times the number of times that weak references were flushed; odd while referenced weakly.
    pub version: u64,
    /// The branch, or nothing if the node is free.
    pub branch: Option<Branch>,
}

/// The version of a node once it is referenced weakly: the next odd number.
pub open spec fn weak_version(version: u64) -> u64 {
    if version % 2 == 0 {
        (version + 1) as u64
    } else {
        version
    }
}

/// The version of a node once its weak references are flushed: the next even number.
pub open spec fn flushed_version(version: u64) -> u64 {
    if version % 2 == 0 {
        version
    } else {
        (version + 1) as u64
    }
}

impl Node {
    /// A chain of free nodes, each followed by the next.
    pub fn new_free_chain(len: usize) -> (nodes: Vec<Node>)
        ensures
            nodes@.len() == len,
            forall|n: int|
                0 <= n < len ==> #[trigger] nodes@[n] == (Node {
                    next: (n + 1) as usize,
                    version: 0,
                    branch: None,
                }),
    {
        let mut nodes: Vec<Node> = Vec::with_capacity(len);
        let mut n: usize = 0;
        while n < len
            invariant
                n <= len,
                nodes@.len() == n,
                forall|m: int|
                    0 <= m < n ==> #[trigger] nodes@[m] == (Node {
                        next: (m + 1) as usize,
                        version: 0,
                        branch: None,
                    }),
            decreases len - n,
        {
            nodes.push(Node { next: n + 1, version: 0, branch: None });
            n += 1;
        }
        nodes
    }

    /// Records a weak reference and returns the version that it may be upgraded at.
    pub fn log_weak_ref(&mut self) -> (version: u64)
        ensures
            version == weak_version(old(self).version),
            *final(self) == (Node { version, ..*old(self) }),
    {
        let version: u64 = self.version;
        assert(version | 1 == if version % 2 == 0 { (version + 1) as u64 } else { version })
            by (bit_vector);
        self.version = version | 1;
        self.version
    }

    /// Makes every weak reference recorded so far fail to upgrade.
    pub fn flush_weak_refs(&mut self)
        requires
            old(self).version < u64::MAX,
        ensures
            *final(self) == (Node {
                version: flushed_version(old(self).version),
                ..*old(self)
            }),
    {
        let version: u64 = self.version;
        assert(version < u64::MAX ==> (version + 1) as u64 & !1u64 == if version % 2 == 0 {
            version
        } else {
            (version + 1) as u64
        }) by (bit_vector);
        self.version = (version + 1) & !1u64;
    }
}

/// An arena of branches.
pub struct Graph {
    free: usize,
    nodes: Vec<Node>,
    due: Vec<Waker>,
    vacant: Ghost<Seq<usize>>,
}

impl View for Graph {
    type V = GraphView;

    closed spec fn view(&self) -> GraphView {
        GraphView {
            branches: Map::new(
                |i: usize| i < self.nodes@.len() && self.nodes@[i as int].branch is Some,
                |i: usize|
                    BranchView {
                        parent: self.nodes@[i as int].next,
                        strong: self.nodes@[i as int].branch->0.strong,
                        waker: self.nodes@[i as int].branch->0.waker,
                    },
            ),
            versions: self.nodes@.map_values(|node: Node| node.version),
            vacant: self.vacant@,
            due: self.due@,
        }
    }
}

impl Graph {
    /// The free nodes form a list from `free`, through `next`, to the length of the arena; the
    /// versions of free nodes are even, and no version is so large that flushing it overflows.
    pub closed spec fn inv(&self) -> bool {
        let vacant = self.vacant@;
        let nodes = self.nodes@;
        &&& self.free == if vacant.len() > 0 {
            vacant[0]
        } else {
            nodes.len() as usize
        }
        &&& vacant.no_duplicates()
        &&& forall|a: int|
            0 <= a < vacant.len() ==> {
                &&& #[trigger] vacant[a] < nodes.len()
                &&& nodes[vacant[a] as int].branch is None
            }
        &&& forall|a: int, b: int|
            #![trigger vacant[a], vacant[b]]
            0 <= a < vacant.len() - 1 && b == a + 1 ==> nodes[vacant[a] as int].next == vacant[b]
        &&& vacant.len() > 0 ==> nodes[vacant.last() as int].next == nodes.len()
        &&& forall|i: int|
            0 <= i < nodes.len() ==> {
                &&& (#[trigger] nodes[i]).version < u64::MAX
                &&& nodes[i].branch is None ==> nodes[i].version % 2 == 0 && vacant.contains(
                    i as usize,
                )
            }
    }

    /// Well-formedness: the arena is in order, and what it stands for is a forest.
    pub open spec fn wf(&self) -> bool {
        self.inv() && self@.forest()
    }

    /// The next index is not in use.
    pub proof fn lemma_next_index(self)
        requires
            self.wf(),
        ensures
            !self@.live(self@.next_index()),
            self@.vacant.len() > 0 ==> self@.next_index() < self@.versions.len(),
    {
    }

    /// An empty graph with room for the usual number of branches.
    pub fn new() -> (graph: Graph)
        ensures
            graph.wf(),
            graph@.branches == Map::<usize, BranchView>::empty(),
            graph@.versions == Seq::new(7, |i: int| 0u64),
            graph@.vacant == Seq::new(7, |i: int| i as usize),
            graph@.due == Seq::<Waker>::empty(),
    {
        Graph::with_capacity(7)
    }

    /// An empty graph with room for `capacity` branches.
    pub fn with_capacity(capacity: usize) -> (graph: Graph)
        ensures
            graph.wf(),
            graph@.branches == Map::<usize, BranchView>::empty(),
            graph@.versions == Seq::new(capacity as nat, |i: int| 0u64),
            graph@.vacant == Seq::new(capacity as nat, |i: int| i as usize),
            graph@.due == Seq::<Waker>::empty(),
    {
        let nodes = Node::new_free_chain(capacity);
        let ghost vacant: Seq<usize> = Seq::new(capacity as nat, |i: int| i as usize);
        let graph = Graph { free: 0, nodes, due: Vec::new(), vacant: Ghost(vacant) };
        proof {
            assert(graph@.branches =~= Map::<usize, BranchView>::empty());
            assert(graph@.versions =~= Seq::new(capacity as nat, |i: int| 0u64));
            assert(model::ranked(graph@.branches, |k: usize| 0nat));
            assert forall|i: int| 0 <= i < capacity implies #[trigger] vacant.contains(
                i as usize,
            ) by {
                assert(vacant[i] == i as usize);
            }
        }
        graph
    }

    /// Rewriting the branch of a live node replaces that branch and nothing else.
    proof fn lemma_rewritten(before: Graph, after: Graph, index: usize, node: Node)
        requires
            before.inv(),
            before@.live(index),
            node.branch is Some,
            node.version == before.nodes@[index as int].version,
            after.nodes@ == before.nodes@.update(index as int, node),
            after.free == before.free,
            after.vacant == before.vacant,
        ensures
            after.inv(),
            after@ == (GraphView {
                due: after.due@,
                ..before@.with_branch(
                    index,
                    BranchView {
                        parent: node.next,
                        strong: node.branch->0.strong,
                        waker: node.branch->0.waker,
                    },
                )
            }),
    {
        assert(after@.branches =~= before@.with_branch(
            index,
            BranchView {
                parent: node.next,
                strong: node.branch->0.strong,
                waker: node.branch->0.waker,
            },
        ).branches);
        assert(after@.versions =~= before@.versions);
        assert forall|a: int| 0 <= a < after.vacant@.len() implies after.vacant@[a] != index by {
            assert(before.nodes@[before.vacant@[a] as int].branch is None);
        }
    }

    /// Doubles the arena, and adds one node.
    fn grow(&mut self)
        requires
            old(self).inv(),
            old(self)@.vacant.len() == 0,
            old(self)@.has_room(),
        ensures
            final(self).inv(),
            final(self)@ == old(self)@.grown(),
    {
        let len: usize = self.nodes.len();
        let next_len: usize = 2 * len + 1;
        let mut n: usize = len;
        while n < next_len
            invariant
                len <= n <= next_len,
                self.nodes@.len() == n,
                len == old(self).nodes@.len(),
                forall|m: int| 0 <= m < len ==> #[trigger] self.nodes@[m] == old(self).nodes@[m],
                forall|m: int|
                    len <= m < n ==> #[trigger] self.nodes@[m] == (Node {
                        next: (m + 1) as usize,
                        version: 0,
                        branch: None,
                    }),
                self.free == old(self).free,
                self.due == old(self).due,
                self.vacant == old(self).vacant,
            decreases next_len - n,
        {
            self.nodes.push(Node { next: n + 1, version: 0, branch: None });
            n += 1;
        }
        proof {
            self.vacant@ = Seq::new((len + 1) as nat, |i: int| (len + i) as usize);
            assert forall|i: int| 0 <= i < next_len implies {
                &&& (#[trigger] self.nodes@[i]).version < u64::MAX
                &&& self.nodes@[i].branch is None ==> self.nodes@[i].version % 2 == 0
                    && self.vacant@.contains(i as usize)
            } by {
                if i < len {
                    assert(self.nodes@[i] == old(self).nodes@[i]);
                } else {
                    assert(self.vacant@[i - len] == i as usize);
                }
            }
            assert(self@.branches =~= old(self)@.branches);
            assert(self@.versions =~= old(self)@.grown().versions);
        }
    }

    /// Takes a free node for `branch`, growing the arena if there is none.
    ///
    /// The node's `next` is left at its own index.
    fn allocate(&mut self, branch: Branch) -> (index: usize)
        requires
            old(self).inv(),
            old(self)@.has_room(),
        ensures
            final(self).inv(),
            index == old(self)@.next_index(),
            !old(self)@.live(index),
            index < final(self)@.versions.len(),
            final(self)@ == old(self)@.allocated(
                BranchView { parent: index, strong: branch.strong, waker: branch.waker },
            ),
    {
        let len: usize = self.nodes.len();
        if self.free == len {
            self.grow();
        }
        let ghost grown = *self;
        let index: usize = self.free;
        self.free = self.nodes[index].next;
        self.nodes[index].next = index;
        self.nodes[index].branch = Some(branch);
        proof {
            self.vacant@ = self.vacant@.drop_first();
            assert(grown.vacant@[0] == index);
            assert forall|i: int| 0 <= i < self.nodes@.len() implies {
                &&& (#[trigger] self.nodes@[i]).version < u64::MAX
                &&& self.nodes@[i].branch is None ==> self.nodes@[i].version % 2 == 0
                    && self.vacant@.contains(i as usize)
            } by {
                assert(grown.nodes@[i].version == self.nodes@[i].version);
                if self.nodes@[i].branch is None {
                    let a = grown.vacant@.index_of(i as usize);
                    assert(grown.vacant@[a] == i);
                    assert(self.vacant@[a - 1] == i);
                }
            }
            assert(self@.versions =~= grown@.versions);
            assert(self@.branches =~= grown@.branches.insert(
                index,
                BranchView { parent: index, strong: branch.strong, waker: branch.waker },
            ));
        }
        index
    }

    /// Frees `index` and returns its parent.
    fn free(&mut self, index: usize) -> (parent: usize)
        requires
            old(self).inv(),
            old(self)@.live(index),
        ensures
            final(self).inv(),
            final(self)@ == old(self)@.vacated(index),
            parent == old(self)@.branches[index].parent,
    {
        let ghost before = *self;
        let parent: usize = self.nodes[index].next;
        self.nodes[index].branch = None;
        self.nodes[index].flush_weak_refs();
        self.nodes[index].next = self.free;
        self.free = index;
        proof {
            self.vacant@ = seq![index] + self.vacant@;
            assert(self.nodes.len() == self.nodes@.len());
            assert(self@.branches =~= before@.vacated(index).branches);
            assert(self@.versions =~= before@.vacated(index).versions);
            assert forall|i: int| 0 <= i < self.nodes@.len() implies {
                &&& (#[trigger] self.nodes@[i]).version < u64::MAX
                &&& self.nodes@[i].branch is None ==> self.nodes@[i].version % 2 == 0
                    && self.vacant@.contains(i as usize)
            } by {
                if i == index {
                    assert(self.vacant@[0] == i);
                } else {
                    assert(self.nodes@[i] == before.nodes@[i]);
                    if self.nodes@[i].branch is None {
                        assert(before.vacant@.contains(i as usize));
                        let a = before.vacant@.index_of(i as usize);
                        assert(before.vacant@[a] == i);
                        assert(self.vacant@[a + 1] == i);
                    }
                }
            }
            assert forall|a: int| 0 <= a < before.vacant@.len() implies before.vacant@[a]
                != index by {
                assert(before.nodes@[before.vacant@[a] as int].branch is None);
            }
            assert forall|a: int| 0 < a < self.vacant@.len() implies #[trigger] self.vacant@[a]
                == before.vacant@[a - 1] by {}
        }
        parent
    }

    /// Adds a root with one borrow pointer, and returns its index.
    pub fn share(&mut self) -> (index: usize)
        requires
            old(self).wf(),
            old(self)@.has_room(),
        ensures
            final(self).wf(),
            index == old(self)@.next_index(),
            !old(self)@.live(index),
            final(self)@.pending(index),
            final(self)@ == old(self)@.forwarded(END, final(self)@.branches[index].waker->0),
    {
        self.forward(END)
    }

    /// Adds a branch with one borrow pointer under `parent`, and returns its index.
    ///
    /// The branch stands for a borrow pointer to `parent` that its caller held.
    pub fn forward(&mut self, parent: usize) -> (index: usize)
        requires
            old(self).wf(),
            old(self)@.borrowed(parent),
            old(self)@.has_room(),
        ensures
            final(self).wf(),
            index == old(self)@.next_index(),
            !old(self)@.live(index),
            final(self)@.pending(index),
            final(self)@ == old(self)@.forwarded(parent, final(self)@.branches[index].waker->0),
    {
        let waker = noop_waker();
        let ghost before = *self;
        let index: usize = self.allocate(Branch { waker: Some(waker), strong: 1 });
        let ghost allocated = *self;
        self.nodes[index].next = parent;
        proof {
            assert(self.nodes.len() == self.nodes@.len());
            assert(allocated@.live(index));
            Graph::lemma_rewritten(allocated, *self, index, self.nodes@[index as int]);
            assert(allocated@.branches[index].strong == 1);
            assert(self@.branches =~= before@.forwarded(parent, waker).branches);
            model::lemma_forwarded_forest(before@, parent, waker);
        }
        index
    }

    /// Records a weak reference to `index` and returns the version that it may be upgraded at.
    pub fn track_weak_unchecked(&mut self, index: usize) -> (version: u64)
        requires
            old(self).wf(),
            old(self)@.live(index),
            weak_version(old(self)@.versions[index as int]) < u64::MAX,
        ensures
            final(self).wf(),
            version == weak_version(old(self)@.versions[index as int]),
            final(self)@ == (GraphView {
                versions: old(self)@.versions.update(index as int, version),
                ..old(self)@
            }),
    {
        let ghost before = *self;
        let version: u64 = self.nodes[index].log_weak_ref();
        proof {
            assert(self@.branches =~= before@.branches);
            assert(self@.versions =~= before@.versions.update(index as int, version));
            model::lemma_with_versions_forest(before@, self@.versions);
        }
        version
    }

    /// Turns a weak reference taken at `version` into a borrow pointer to `index`, and returns
    /// whether it could: it can until the branch is freed.
    pub fn try_upgrade_weak_unchecked(&mut self, index: usize, version: u64) -> (upgraded: bool)
        requires
            old(self).wf(),
            index < old(self)@.versions.len(),
            version % 2 == 1,
            old(self)@.versions[index as int] == version ==> old(self)@.branches[index].strong
                < usize::MAX,
        ensures
            final(self).wf(),
            upgraded == (old(self)@.versions[index as int] == version),
            upgraded ==> old(self)@.live(index) && final(self)@.tracked_from(old(self)@, index),
            !upgraded ==> final(self)@ == old(self)@,
    {
        if self.nodes[index].version != version {
            return false;
        }
        assert(self@.versions[index as int] == version);
        self.track_borrow_unchecked(index);
        true
    }

    /// Records another borrow pointer to `index`. A future that was ready waits again.
    pub fn track_borrow_unchecked(&mut self, index: usize)
        requires
            old(self).wf(),
            old(self)@.live(index),
            old(self)@.branches[index].strong < usize::MAX,
        ensures
            final(self).wf(),
            final(self)@.tracked_from(old(self)@, index),
    {
        let ghost before = *self;
        match &mut self.nodes[index].branch {
            Some(branch) => {
                if branch.strong == 0 {
                    branch.waker = Some(noop_waker());
                }
                branch.strong += 1;
            },
            None => (),
        }
        proof {
            assert(before@.branches[index].strong == before.nodes@[index as int].branch->0.strong);
            Graph::lemma_rewritten(before, *self, index, self.nodes@[index as int]);
            assert(self@.tracked_from(before@, index));
            model::lemma_tracked(before@, self@, index);
        }
    }

    /// Takes back a borrow pointer to `index`, and returns whether a root was freed.
    ///
    /// If it was, it is the caller's responsibility to drop the shared data.
    pub fn untrack_borrow_unchecked(&mut self, index: usize) -> (root_freed: bool)
        requires
            old(self).wf(),
            old(self)@.borrowed(index),
        ensures
            final(self).wf(),
            (final(self)@, root_freed) == old(self)@.untracked(index),
    {
        let mut current: usize = index;
        while current != END
            invariant
                self.wf(),
                self@.borrowed(current),
                self@.untracked(current) == old(self)@.untracked(index),
            decreases self@.branches.dom().len(),
        {
            let ghost before = *self;
            let mut left: usize = 0;
            let mut waker: Option<Waker> = None;
            match &mut self.nodes[current].branch {
                Some(branch) => {
                    branch.strong -= 1;
                    left = branch.strong;
                    if left == 0 {
                        waker = branch.waker.take();
                    }
                },
                None => (),
            }
            proof {
                assert(before@.branches[current].strong
                    == before.nodes@[current as int].branch->0.strong);
                Graph::lemma_rewritten(before, *self, current, self.nodes@[current as int]);
                model::lemma_with_branch_forest(before@, current, self@.branches[current]);
            }
            if left != 0 {
                assert(self@ =~= before@.untracked(current).0);
                return false;
            }
            match waker {
                Some(waker) => {
                    let ghost rewritten = *self;
                    self.due.push(waker);
                    proof {
                        assert(self@.branches =~= rewritten@.branches);
                        assert(self@ =~= before@.untracked(current).0);
                        model::lemma_same_forest(rewritten@, self@);
                    }
                    return false;
                },
                None => {
                    let ghost rewritten = *self;
                    let ghost freed = current;
                    assert(before@.children(current).is_empty());
                    current = self.free(current);
                    proof {
                        model::lemma_vacated_forest(before@, freed);
                        assert(rewritten@.vacated(freed) =~= before@.vacated(freed));
                    }
                },
            }
        }
        true
    }

    /// Polls the future of `index`. Once no borrow pointer is left, the branch is freed and its
    /// parent returned; until then `waker` is kept for when that happens.
    ///
    /// The caller is then responsible for holding a borrow pointer to the parent.
    ///
    /// The waker that was there stays if it wakes the same task, as far as
    /// [`Waker::will_wake`] can tell.
    pub fn poll_unchecked(&mut self, index: usize, waker: Waker) -> (poll: Poll<usize>)
        requires
            old(self).wf(),
            old(self)@.pending(index) || old(self)@.ready(index),
        ensures
            final(self).wf(),
            match poll {
                Poll::Ready(parent) => {
                    &&& old(self)@.ready(index)
                    &&& parent == old(self)@.branches[index].parent
                    &&& final(self)@ == old(self)@.vacated(index)
                    &&& final(self)@.borrowed(parent)
                },
                Poll::Pending => final(self)@.waits_from(old(self)@, index, waker),
            },
    {
        let ghost before = *self;
        let mut waits: bool = false;
        match &mut self.nodes[index].branch {
            Some(branch) => {
                let same_task: bool;
                match &branch.waker {
                    Some(held) => {
                        waits = true;
                        same_task = ask(Waker::will_wake, held, &waker);
                    },
                    None => {
                        same_task = true;
                    },
                }
                branch.register(waker, same_task);
            },
            None => (),
        }
        proof {
            assert(before@.branches[index].strong == before.nodes@[index as int].branch->0.strong);
            Graph::lemma_rewritten(before, *self, index, self.nodes@[index as int]);
            model::lemma_with_branch_forest(before@, index, self@.branches[index]);
            assert(self@ =~= before@ || self@ =~= before@.with_waker(index, Some(waker)));
        }
        if waits {
            assert(self@.waits_from(before@, index, waker));
            Poll::Pending
        } else {
            assert(self@ =~= before@);
            assert(before@.children(index).is_empty());
            let parent: usize = self.free(index);
            proof {
                model::lemma_vacated_forest(before@, index);
            }
            Poll::Ready(parent)
        }
    }

    /// Drops the future of `index`, and returns whether a root was freed.
    ///
    /// If it was, it is the caller's responsibility to drop the shared data.
    pub fn close_future_unchecked(&mut self, index: usize) -> (root_freed: bool)
        requires
            old(self).wf(),
            old(self)@.pending(index) || old(self)@.ready(index),
        ensures
            final(self).wf(),
            (final(self)@, root_freed) == old(self)@.future_closed(index),
    {
        let ghost before = *self;
        let mut waker: Option<Waker> = None;
        match &mut self.nodes[index].branch {
            Some(branch) => {
                waker = branch.waker.take();
            },
            None => (),
        }
        proof {
            assert(before@.branches[index].strong == before.nodes@[index as int].branch->0.strong);
            Graph::lemma_rewritten(before, *self, index, self.nodes@[index as int]);
            model::lemma_with_branch_forest(before@, index, self@.branches[index]);
            assert(self@ =~= before@.with_waker(index, None));
        }
        match waker {
            Some(_) => false,
            None => {
                assert(self@ =~= before@);
                assert(before@.children(index).is_empty());
                let parent: usize = self.free(index);
                proof {
                    model::lemma_vacated_forest(before@, index);
                }
                self.untrack_borrow_unchecked(parent)
            },
        }
    }

    /// Whether the arena can hold another branch.
    pub fn has_room(&self) -> (room: bool)
        requires
            self.wf(),
        ensures
            room == self@.has_room(),
    {
        self.free != self.nodes.len() || self.nodes.len() <= (usize::MAX - 1) / 2
    }

    /// Whether another borrow pointer to `index` can be recorded.
    pub fn can_track(&self, index: usize) -> (can: bool)
        requires
            self.wf(),
        ensures
            can == (self@.live(index) && self@.branches[index].strong < usize::MAX),
    {
        if index >= self.nodes.len() {
            return false;
        }
        match &self.nodes[index].branch {
            Some(branch) => branch.strong < usize::MAX,
            None => false,
        }
    }

    /// Whether another weak reference to `index` can be recorded.
    pub fn can_track_weak(&self, index: usize) -> (can: bool)
        requires
            self.wf(),
        ensures
            can == (self@.live(index) && weak_version(self@.versions[index as int]) < u64::MAX),
    {
        if index >= self.nodes.len() {
            return false;
        }
        self.nodes[index].branch.is_some() && self.nodes[index].version != u64::MAX - 1
    }

    /// Hands over the wakers whose tasks are due, first the one that became due first.
    pub fn take_due(&mut self) -> (due: Vec<Waker>)
        requires
            old(self).wf(),
        ensures
            final(self).wf(),
            due@ == old(self)@.due,
            final(self)@ == (GraphView { due: Seq::empty(), ..old(self)@ }),
    {
        let mut due: Vec<Waker> = Vec::new();
        let ghost before = *self;
        std::mem::swap(&mut due, &mut self.due);
        proof {
            assert(self@.branches =~= before@.branches);
            model::lemma_same_forest(before@, self@);
        }
        due
    }
}

} // verus!
