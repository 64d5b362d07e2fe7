//! The queues in which borrows wait.
use vstd::prelude::*;
use std::cmp::Ordering;
use std::collections::VecDeque;
use std::task::Waker;
use crate::contract::{AdditionalWork, ContractCounts};
use crate::waker::{noop_waker, Poll};

verus! {

/// What a borrow allows. The ordering is given by privileges.
#[derive(Debug, Clone, Copy, PartialEq, Eq, Ord, Structural)]
pub enum BorrowKind {
    /// Nothing: a borrow that was given up.
    Empty,
    /// Shared reading.
    Ref,
    /// Shared reading, with the option to become mutable.
    Upgradable,
    /// Exclusive access.
    Mut,
}

impl PartialOrd for BorrowKind {
    fn partial_cmp(&self, other: &Self) -> (order: Option<Ordering>) {
        let (mine, others): (u8, u8) = (self.privileges(), other.privileges());
        Some(
            if mine < others {
                Ordering::Less
            } else if mine > others {
                Ordering::Greater
            } else {
                Ordering::Equal
            },
        )
    }
}

impl vstd::std_specs::cmp::PartialOrdSpecImpl for BorrowKind {
    open spec fn obeys_partial_cmp_spec() -> bool {
        true
    }

    open spec fn partial_cmp_spec(&self, other: &Self) -> Option<Ordering> {
        Some(
            if self.rank() < other.rank() {
                Ordering::Less
            } else if self.rank() > other.rank() {
                Ordering::Greater
            } else {
                Ordering::Equal
            },
        )
    }
}

impl BorrowKind {
    /// The place in the ordering by privileges.
    pub open spec fn rank(self) -> u8 {
        match self {
            BorrowKind::Empty => 0,
            BorrowKind::Ref => 1,
            BorrowKind::Upgradable => 2,
            BorrowKind::Mut => 3,
        }
    }

    /// Whether this kind is, or may become, mutable.
    pub open spec fn exotic(self) -> bool {
        self == BorrowKind::Mut || self == BorrowKind::Upgradable
    }

    /// Whether `other` may be granted next, where this kind is what was granted last: a borrow
    /// that was given up always, anything if nothing is held, and anything but a mutable borrow
    /// next to a reference.
    pub open spec fn wakes(self, other: BorrowKind) -> bool {
        ||| other == BorrowKind::Empty
        ||| self == BorrowKind::Empty
        ||| self == BorrowKind::Ref && other != BorrowKind::Mut
    }

    fn privileges(&self) -> (privileges: u8)
        ensures
            privileges == self.rank(),
    {
        match self {
            BorrowKind::Empty => 0,
            BorrowKind::Ref => 1,
            BorrowKind::Upgradable => 2,
            BorrowKind::Mut => 3,
        }
    }

    /// Whether `other` may be granted next, where this kind is what was granted last.
    pub fn would_wake(&self, other: &BorrowKind) -> (wakes: bool)
        ensures
            wakes == self.wakes(*other),
    {
        match (self, other) {
            (_, BorrowKind::Empty) => true,
            (BorrowKind::Upgradable, _) => false,
            (BorrowKind::Mut, _) => false,
            (BorrowKind::Empty, _) => true,
            (BorrowKind::Ref, BorrowKind::Mut) => false,
            (BorrowKind::Ref, _) => true,
        }
    }

    /// Whether this kind is, or may become, mutable.
    pub fn is_exotic(&self) -> (exotic: bool)
        ensures
            exotic == self.exotic(),
    {
        match self {
            BorrowKind::Mut | BorrowKind::Upgradable => true,
            BorrowKind::Ref | BorrowKind::Empty => false,
        }
    }
}

/// The status of a borrow forward node.
#[derive(Debug, Clone, Copy, PartialEq, Eq, Structural)]
pub enum NodeStatus {
    /// Forwarding is ongoing, an empty queue will stop waking. This is the initial state.
    Growing,
    /// Forwarding has stopped, the queue can only be drained.
    Shrinking,
}

/// How waking goes on after a node.
#[derive(Debug, Clone, Copy, PartialEq, Eq, Structural)]
pub enum WakeContinuation {
    /// Waking interrupted.
    Await,
    /// Waking complete.
    Complete,
    /// Move on to next forward.
    Next,
}

/// What whoever changed a queue is to do next. If it is not done a deadlock could occur.
#[derive(Debug, Clone, Copy, PartialEq, Eq, Structural)]
pub enum QueueActionFollowup {
    /// Wake from the queue again.
    Prompt,
    /// Nothing.
    Done,
}

impl Default for QueueActionFollowup {
    fn default() -> (followup: Self)
        ensures
            followup == QueueActionFollowup::Done,
    {
        QueueActionFollowup::Done
    }
}

/// How a node was left by the last attempt to wake from it.
#[derive(Debug, Clone, Copy, PartialEq, Eq, Structural)]
pub enum LastInteraction {
    /// It was not blocked.
    NonBlocking,
    /// It was blocked by what had been granted last.
    Blocked(BorrowKind),
    /// It is an upgrade queue.
    Queue,
}

impl LastInteraction {
    /// The interaction once the node is about to be woken from.
    pub open spec fn reset(self) -> LastInteraction {
        match self {
            LastInteraction::Queue => LastInteraction::Queue,
            _ => LastInteraction::NonBlocking,
        }
    }

    /// Whether a new borrow of `kind` at the front calls for waking: what blocked the node would
    /// let it through, or it is one that does not wait in an upgrade queue.
    pub open spec fn prompts(self, kind: BorrowKind) -> bool {
        match self {
            LastInteraction::NonBlocking => false,
            LastInteraction::Blocked(blocked) => blocked.wakes(kind),
            LastInteraction::Queue => !kind.exotic(),
        }
    }

    /// The interaction and the followup of a new borrow of `kind` at the front.
    pub open spec fn followup(self, kind: BorrowKind) -> (LastInteraction, QueueActionFollowup) {
        if self.prompts(kind) {
            (self.reset(), QueueActionFollowup::Prompt)
        } else {
            (self, QueueActionFollowup::Done)
        }
    }

    fn reset_state(&self) -> (reset: Self)
        ensures
            reset == self.reset(),
    {
        match self {
            LastInteraction::NonBlocking | LastInteraction::Blocked(_) => {
                LastInteraction::NonBlocking
            },
            LastInteraction::Queue => LastInteraction::Queue,
        }
    }

    /// Tells whether a new borrow of `kind` at the front calls for waking.
    pub fn generate_followup(&mut self, kind: &BorrowKind) -> (followup: QueueActionFollowup)
        ensures
            (*final(self), followup) == old(self).followup(*kind),
    {
        match *self {
            LastInteraction::NonBlocking => QueueActionFollowup::Done,
            LastInteraction::Blocked(blocked) => {
                if blocked.would_wake(kind) {
                    *self = self.reset_state();
                    QueueActionFollowup::Prompt
                } else {
                    QueueActionFollowup::Done
                }
            },
            LastInteraction::Queue => {
                if kind.is_exotic() {
                    QueueActionFollowup::Done
                } else {
                    QueueActionFollowup::Prompt
                }
            },
        }
    }
}

/// The name of a borrow that waits in a node: the number of borrows that came before it.
pub struct BorrowId {
    /// That number, in 64 bits so that it can count high enough.
    pub index: u64,
}

/// A borrow that waits.
pub struct BorrowWaker {
    /// What the borrow allows.
    pub kind: BorrowKind,
    /// The waker of the task that waits for it.
    pub waker: Waker,
}

impl BorrowWaker {
    /// Makes the task that waits for the borrow due.
    pub fn wake(self, due: &mut Vec<Waker>)
        ensures
            final(due)@ == old(due)@.push(self.waker),
    {
        due.push(self.waker);
    }

    /// Replaces the waker.
    pub fn set_waker(&mut self, waker: Waker)
        ensures
            *final(self) == (BorrowWaker { waker, ..*old(self) }),
    {
        self.waker = waker;
    }
}

/// A borrow that waits at a node.
pub struct BorrowFuture {
    /// Its name at the node.
    pub id: BorrowId,
    /// The node.
    pub node: usize,
}

impl BorrowFuture {
    /// Polls for the borrow: it is granted once it no longer waits at its node.
    pub fn poll(&mut self, nodes: &mut Vec<BorrowQueueNode>, waker: Waker) -> (poll: Poll<()>)
        requires
            old(self).node < old(nodes)@.len(),
            old(nodes)@[old(self).node as int]@.wf(),
        ensures
            *final(self) == *old(self),
            poll is Pending <==> old(nodes)@[old(self).node as int]@.waits(old(self).id),
            final(nodes)@.len() == old(nodes)@.len(),
            forall|i: int|
                0 <= i < old(nodes)@.len() && i != old(self).node ==> final(nodes)@[i] == old(
                    nodes,
                )@[i],
            ({
                let before = old(nodes)@[old(self).node as int]@;
                let after = final(nodes)@[old(self).node as int]@;
                after == if poll is Pending {
                    before.with_borrow(
                        old(self).id,
                        BorrowWaker { waker, ..before.queue[before.place(old(self).id)] },
                    )
                } else {
                    before
                }
            }),
    {
        nodes[self.node].poll_at(&self.id, waker)
    }
}

/// Calls [`VecDeque::get_mut`], which gives access to the element at `index`, counted from the
/// front, or `None` past the end.
#[verifier::external_body]
fn element_mut(queue: &mut VecDeque<BorrowWaker>, index: usize) -> (element: Option<
    &mut BorrowWaker,
>)
    ensures
        match element {
            Some(element) => {
                &&& index < old(queue)@.len()
                &&& *element == old(queue)@[index as int]
                &&& final(queue)@ == old(queue)@.update(index as int, *final(element))
            },
            None => index >= old(queue)@.len() && final(queue)@ == old(queue)@,
        },
{
    queue.get_mut(index)
}

/// A queue of borrows that wait, and the node to go on with once it is empty.
pub struct BorrowQueueNode {
    /// How the node was left by the last attempt to wake from it.
    pub last_interaction: LastInteraction,
    /// Whether borrows may be added.
    pub status: NodeStatus,
    /// The number of borrows that have left the queue, in 64 bits so that it can count high
    /// enough.
    pub popped: u64,
    /// The borrows that wait, in the order in which they came.
    pub queue: VecDeque<BorrowWaker>,
    /// The node to go on with.
    pub next: Option<usize>,
}

/// The contents of a node.
#[verifier::ext_equal]
pub struct NodeView {
    /// How the node was left by the last attempt to wake from it.
    pub last_interaction: LastInteraction,
    /// Whether borrows may be added.
    pub status: NodeStatus,
    /// The number of borrows that have left the queue.
    pub popped: u64,
    /// The borrows that wait, in the order in which they came.
    pub queue: Seq<BorrowWaker>,
    /// The node to go on with.
    pub next: Option<usize>,
}

impl View for BorrowQueueNode {
    type V = NodeView;

    open spec fn view(&self) -> NodeView {
        NodeView {
            last_interaction: self.last_interaction,
            status: self.status,
            popped: self.popped,
            queue: self.queue@,
            next: self.next,
        }
    }
}

impl NodeView {
    /// A node without borrows.
    pub open spec fn empty(last_interaction: LastInteraction, next: Option<usize>) -> NodeView {
        NodeView {
            last_interaction,
            status: NodeStatus::Growing,
            popped: 0,
            queue: Seq::empty(),
            next,
        }
    }

    /// Every borrow that waits has a name.
    pub open spec fn wf(self) -> bool {
        self.popped + self.queue.len() <= u64::MAX
    }

    /// Whether the borrow named `id` waits.
    pub open spec fn waits(self, id: BorrowId) -> bool {
        self.popped <= id.index < self.popped + self.queue.len()
    }

    /// The place in the queue of the borrow named `id`.
    pub open spec fn place(self, id: BorrowId) -> int {
        id.index - self.popped
    }

    /// The node with the borrow named `id` replaced.
    pub open spec fn with_borrow(self, id: BorrowId, borrow: BorrowWaker) -> NodeView {
        NodeView { queue: self.queue.update(self.place(id), borrow), ..self }
    }

    /// The node with the kind of the borrow named `id` replaced.
    pub open spec fn with_kind(self, id: BorrowId, kind: BorrowKind) -> NodeView {
        self.with_borrow(id, BorrowWaker { kind, ..self.queue[self.place(id)] })
    }

    /// The node without its first `count` borrows.
    pub open spec fn without(self, count: nat) -> NodeView {
        NodeView {
            popped: (self.popped + count) as u64,
            queue: self.queue.skip(count as int),
            ..self
        }
    }
}

/// What was granted last, once the borrows of `queue` are granted after `grant`.
pub open spec fn grant_after(queue: Seq<BorrowWaker>, grant: BorrowKind) -> BorrowKind
    decreases queue.len(),
{
    if queue.len() == 0 {
        grant
    } else if queue.last().kind != BorrowKind::Empty {
        queue.last().kind
    } else {
        grant_after(queue.drop_last(), grant)
    }
}

/// The number of borrows from the front of `queue` that may be granted one after the other,
/// where `grant` was granted last.
pub open spec fn woken(queue: Seq<BorrowWaker>, grant: BorrowKind) -> nat
    decreases queue.len(),
{
    if queue.len() > 0 && grant.wakes(queue[0].kind) {
        1 + woken(queue.drop_first(), grant_after(seq![queue[0]], grant))
    } else {
        0
    }
}

/// The number of borrows from the front of `queue` that do not wait in an upgrade queue.
pub open spec fn plain(queue: Seq<BorrowWaker>) -> nat
    decreases queue.len(),
{
    if queue.len() > 0 && !queue[0].kind.exotic() {
        1 + plain(queue.drop_first())
    } else {
        0
    }
}

/// The wakers of the borrows of `queue`.
pub open spec fn wakers(queue: Seq<BorrowWaker>) -> Seq<Waker> {
    queue.map_values(|borrow: BorrowWaker| borrow.waker)
}

impl NodeView {
    /// The borrows that are granted when waking from the node, where `grant` was granted last.
    pub open spec fn granted(self, grant: BorrowKind) -> Seq<BorrowWaker> {
        self.queue.take(woken(self.queue, grant) as int)
    }

    /// What is then granted last.
    pub open spec fn granted_last(self, grant: BorrowKind) -> BorrowKind {
        grant_after(self.granted(grant), grant)
    }

    /// How waking goes on: it is complete if a borrow is left, waits if borrows may yet be added,
    /// and moves on otherwise.
    pub open spec fn continuation(self, grant: BorrowKind) -> WakeContinuation {
        if woken(self.queue, grant) < self.queue.len() {
            WakeContinuation::Complete
        } else if self.status == NodeStatus::Growing {
            WakeContinuation::Await
        } else {
            WakeContinuation::Next
        }
    }

    /// The node without the borrows that are granted. It remembers what it is blocked by, unless
    /// waking moves on.
    pub open spec fn drained(self, grant: BorrowKind) -> NodeView {
        NodeView {
            last_interaction: if self.continuation(grant) == WakeContinuation::Next {
                self.last_interaction
            } else {
                LastInteraction::Blocked(self.granted_last(grant))
            },
            ..self.without(woken(self.queue, grant))
        }
    }

    /// The borrows at the front of an upgrade queue that need not wait.
    pub open spec fn let_through(self) -> Seq<BorrowWaker> {
        self.queue.take(plain(self.queue) as int)
    }

    /// The upgrade queue without those.
    pub open spec fn reduced(self) -> NodeView {
        self.without(plain(self.queue))
    }
}

/// No more borrows are granted than wait.
pub proof fn lemma_woken_bound(queue: Seq<BorrowWaker>, grant: BorrowKind)
    ensures
        woken(queue, grant) <= queue.len(),
    decreases queue.len(),
{
    if queue.len() > 0 {
        lemma_woken_bound(queue.drop_first(), grant_after(seq![queue[0]], grant));
    }
}

/// Granting one more borrow from the front.
proof fn lemma_one_more(queue: Seq<BorrowWaker>, n: int)
    requires
        0 <= n < queue.len(),
    ensures
        queue.take(n + 1).drop_last() == queue.take(n),
        queue.take(n + 1).last() == queue[n],
        queue.skip(n)[0] == queue[n],
        queue.skip(n).drop_first() == queue.skip(n + 1),
        wakers(queue.take(n + 1)) == wakers(queue.take(n)).push(queue[n].waker),
        forall|grant: BorrowKind| #[trigger]
            grant_after(seq![queue[n]], grant) == if queue[n].kind != BorrowKind::Empty {
                queue[n].kind
            } else {
                grant
            },
{
    assert(queue.take(n + 1).drop_last() =~= queue.take(n));
    assert(queue.skip(n).drop_first() =~= queue.skip(n + 1));
    assert(wakers(queue.take(n + 1)) =~= wakers(queue.take(n)).push(queue[n].waker));
    assert(seq![queue[n]].drop_last() =~= Seq::<BorrowWaker>::empty());
    reveal_with_fuel(grant_after, 2);
}

impl BorrowQueueNode {
    /// A node for borrows that are forwarded.
    pub fn new_forward(next: Option<usize>) -> (node: BorrowQueueNode)
        ensures
            node@ == NodeView::empty(LastInteraction::NonBlocking, next),
    {
        BorrowQueueNode {
            last_interaction: LastInteraction::NonBlocking,
            status: NodeStatus::Growing,
            popped: 0,
            queue: VecDeque::new(),
            next,
        }
    }

    /// A node for borrows that upgrade.
    pub fn new_upgrade_queue(next: Option<usize>) -> (node: BorrowQueueNode)
        ensures
            node@ == NodeView::empty(LastInteraction::Queue, next),
    {
        BorrowQueueNode {
            last_interaction: LastInteraction::Queue,
            status: NodeStatus::Growing,
            popped: 0,
            queue: VecDeque::new(),
            next,
        }
    }

    /// The borrow named `id`, if it still waits.
    pub fn get_mut(&mut self, id: &BorrowId) -> (borrow: Option<&mut BorrowWaker>)
        requires
            old(self)@.wf(),
        ensures
            match borrow {
                Some(borrow) => {
                    &&& old(self)@.waits(*id)
                    &&& *borrow == old(self)@.queue[old(self)@.place(*id)]
                    &&& final(self)@ == old(self)@.with_borrow(*id, *final(borrow))
                },
                None => !old(self)@.waits(*id) && final(self)@ == old(self)@,
            },
    {
        if id.index < self.popped || id.index - self.popped >= self.queue.len() as u64 {
            return None;
        }
        let n: usize = (id.index - self.popped) as usize;
        element_mut(&mut self.queue, n)
    }

    /// Polls for the borrow named `id`: it is granted once it no longer waits.
    pub fn poll_at(&mut self, id: &BorrowId, waker: Waker) -> (poll: Poll<()>)
        requires
            old(self)@.wf(),
        ensures
            final(self)@.wf(),
            match poll {
                Poll::Ready(_) => !old(self)@.waits(*id) && final(self)@ == old(self)@,
                Poll::Pending => {
                    &&& old(self)@.waits(*id)
                    &&& final(self)@ == old(self)@.with_borrow(
                        *id,
                        BorrowWaker { waker, ..old(self)@.queue[old(self)@.place(*id)] },
                    )
                },
            },
    {
        match self.get_mut(id) {
            Some(borrow) => {
                borrow.set_waker(waker);
                Poll::Pending
            },
            None => Poll::Ready(()),
        }
    }

    /// Gives up the borrow named `id`, if it still waits.
    pub fn close_waker(&mut self, id: &BorrowId) -> (closed: Option<()>)
        requires
            old(self)@.wf(),
        ensures
            final(self)@.wf(),
            closed is Some <==> old(self)@.waits(*id),
            final(self)@ == if closed is Some {
                old(self)@.with_kind(*id, BorrowKind::Empty)
            } else {
                old(self)@
            },
    {
        match self.get_mut(id) {
            Some(borrow) => {
                borrow.kind = BorrowKind::Empty;
                Some(())
            },
            None => None,
        }
    }

    /// Adds a borrow of `kind` to the end of the queue of this node, which is node `this`.
    ///
    /// If the followup is not used a deadlock could occur.
    #[must_use]
    pub fn enqueue(&mut self, this: usize, kind: BorrowKind) -> (queued: (
        BorrowFuture,
        QueueActionFollowup,
    ))
        requires
            old(self)@.wf(),
            old(self)@.status == NodeStatus::Growing,
            old(self)@.popped + old(self)@.queue.len() < u64::MAX,
        ensures
            final(self)@.wf(),
            queued.0.id.index == old(self)@.popped + old(self)@.queue.len(),
            queued.0.node == this,
            !old(self)@.waits(queued.0.id),
            final(self)@.waits(queued.0.id),
            final(self)@.queue.len() == old(self)@.queue.len() + 1,
            final(self)@.queue.drop_last() == old(self)@.queue,
            final(self)@.queue.last().kind == kind,
            (final(self)@.last_interaction, queued.1) == if old(self)@.queue.len() == 0 {
                old(self)@.last_interaction.followup(kind)
            } else {
                (old(self)@.last_interaction, QueueActionFollowup::Done)
            },
            final(self)@.status == old(self)@.status,
            final(self)@.popped == old(self)@.popped,
            final(self)@.next == old(self)@.next,
    {
        let id = BorrowId { index: self.queue.len() as u64 + self.popped };
        let followup = if self.queue.len() == 0 {
            self.last_interaction.generate_followup(&kind)
        } else {
            QueueActionFollowup::default()
        };
        self.queue.push_back(BorrowWaker { kind, waker: noop_waker() });
        assert(self.queue@.drop_last() =~= old(self).queue@);
        (BorrowFuture { id, node: this }, followup)
    }

    /// Changes the kind of the borrow named `id`. `None` if it has already been granted.
    ///
    /// If the followup is not used a deadlock could occur.
    #[must_use]
    pub fn try_change(&mut self, id: &BorrowId, kind: BorrowKind) -> (followup: Option<
        QueueActionFollowup,
    >)
        requires
            old(self)@.wf(),
        ensures
            final(self)@.wf(),
            match followup {
                None => !old(self)@.waits(*id) && final(self)@ == old(self)@,
                Some(followup) => {
                    let was = old(self)@.queue[old(self)@.place(*id)].kind;
                    let after = if kind.rank() < was.rank() && old(self)@.place(*id) == 0 {
                        old(self)@.last_interaction.followup(kind)
                    } else {
                        (old(self)@.last_interaction, QueueActionFollowup::Done)
                    };
                    &&& old(self)@.waits(*id)
                    &&& followup == after.1
                    &&& final(self)@ == (NodeView {
                        last_interaction: after.0,
                        ..old(self)@.with_kind(*id, kind)
                    })
                },
            },
    {
        let was: BorrowKind;
        match self.get_mut(id) {
            Some(borrow) => {
                was = borrow.kind;
                borrow.kind = kind;
            },
            None => {
                return None;
            },
        }
        if kind < was && id.index == self.popped {
            Some(self.last_interaction.generate_followup(&kind))
        } else {
            Some(QueueActionFollowup::default())
        }
    }

    /// Grants the borrows that are compatible with what was granted last, `final_wake`, and
    /// leaves there what is then granted last.
    ///
    /// If `final_wake` is initially `Ref` then this can only grant references, potentially ending
    /// in an upgradable one. If it is initially `Empty` then anything may be granted.
    #[must_use]
    pub fn waking_drain(
        &mut self,
        final_wake: &mut BorrowKind,
        counts: &mut ContractCounts,
        due: &mut Vec<Waker>,
    ) -> (continuation: WakeContinuation)
        requires
            old(self)@.wf(),
            old(counts).wf(),
            old(counts).has_headroom(*old(final_wake)),
            old(counts).borrow_count + old(self)@.queue.len() <= usize::MAX,
        ensures
            final(self)@.wf(),
            final(self)@ == old(self)@.drained(*old(final_wake)),
            continuation == old(self)@.continuation(*old(final_wake)),
            *final(final_wake) == old(self)@.granted_last(*old(final_wake)),
            *final(counts) == old(counts).acquired_all(old(self)@.granted(*old(final_wake))),
            final(due)@ == old(due)@ + wakers(old(self)@.granted(*old(final_wake))),
            final(counts).has_headroom(*final(final_wake)),
            final(counts).borrow_count <= old(counts).borrow_count + old(self)@.queue.len(),
            final(counts).wf(),
    {
        let ghost queue = self.queue@;
        let ghost start = *final_wake;
        let ghost mut n: int = 0;
        assert(queue.skip(0) =~= queue);
        assert(wakers(queue.take(0)) =~= Seq::<Waker>::empty());
        while self.queue.len() > 0
            invariant
                0 <= n <= queue.len(),
                queue == old(self)@.queue,
                start == *old(final_wake),
                old(self)@.wf(),
                self.queue@ == queue.skip(n),
                self.popped == old(self).popped + n,
                self.last_interaction == old(self).last_interaction,
                self.status == old(self).status,
                self.next == old(self).next,
                *final_wake == grant_after(queue.take(n), start),
                *counts == old(counts).acquired_all(queue.take(n)),
                due@ == old(due)@ + wakers(queue.take(n)),
                woken(queue, start) == n + woken(queue.skip(n), *final_wake),
                counts.has_headroom(*final_wake),
                counts.wf(),
                counts.borrow_count <= old(counts).borrow_count + n,
                old(counts).borrow_count + queue.len() <= usize::MAX,
            decreases self.queue@.len(),
        {
            let kind: BorrowKind = self.queue[0].kind;
            proof {
                lemma_one_more(queue, n);
            }
            if !final_wake.would_wake(&kind) {
                self.last_interaction = LastInteraction::Blocked(*final_wake);
                proof {
                    lemma_woken_bound(queue, start);
                }
                return WakeContinuation::Complete;
            }
            match self.queue.pop_front() {
                Some(borrow) => borrow.wake(due),
                None => (),
            }
            self.popped += 1;
            if kind != BorrowKind::Empty {
                counts.record_borrow_acquire(&kind);
                *final_wake = kind;
            }
            proof {
                n = n + 1;
                assert(self.queue@ =~= queue.skip(n));
                assert(due@ =~= old(due)@ + wakers(queue.take(n)));
            }
        }
        match self.status {
            NodeStatus::Growing => {
                self.last_interaction = LastInteraction::Blocked(*final_wake);
                WakeContinuation::Await
            },
            NodeStatus::Shrinking => WakeContinuation::Next,
        }
    }

    /// Grants the `Empty`s and `Ref`s from the start of an upgrade queue.
    pub fn reduce_upgrade_buffer(&mut self, counts: &mut ContractCounts, due: &mut Vec<Waker>)
        requires
            old(self)@.wf(),
            old(counts).wf(),
            old(counts).borrow_count + old(self)@.queue.len() <= usize::MAX,
        ensures
            final(self)@.wf(),
            final(self)@ == old(self)@.reduced(),
            *final(counts) == old(counts).acquired_all(old(self)@.let_through()),
            final(due)@ == old(due)@ + wakers(old(self)@.let_through()),
            final(counts).borrow_count <= old(counts).borrow_count + old(self)@.queue.len(),
            old(counts).exotic_count == final(counts).exotic_count,
            old(counts).mut_number == final(counts).mut_number,
            final(counts).wf(),
    {
        let ghost queue = self.queue@;
        let ghost mut n: int = 0;
        assert(queue.skip(0) =~= queue);
        assert(wakers(queue.take(0)) =~= Seq::<Waker>::empty());
        while self.queue.len() > 0
            invariant
                0 <= n <= queue.len(),
                queue == old(self)@.queue,
                old(self)@.wf(),
                self.queue@ == queue.skip(n),
                self.popped == old(self).popped + n,
                self.last_interaction == old(self).last_interaction,
                self.status == old(self).status,
                self.next == old(self).next,
                *counts == old(counts).acquired_all(queue.take(n)),
                due@ == old(due)@ + wakers(queue.take(n)),
                plain(queue) == n + plain(queue.skip(n)),
                old(counts).exotic_count == counts.exotic_count,
                old(counts).mut_number == counts.mut_number,
                counts.wf(),
                counts.borrow_count <= old(counts).borrow_count + n,
                old(counts).borrow_count + queue.len() <= usize::MAX,
            decreases self.queue@.len(),
        {
            let kind: BorrowKind = self.queue[0].kind;
            proof {
                lemma_one_more(queue, n);
            }
            if kind.is_exotic() {
                return;
            }
            match self.queue.pop_front() {
                Some(borrow) => borrow.wake(due),
                None => (),
            }
            self.popped += 1;
            counts.record_borrow_acquire(&kind);
            proof {
                n = n + 1;
                assert(self.queue@ =~= queue.skip(n));
                assert(due@ =~= old(due)@ + wakers(queue.take(n)));
            }
        }
    }
}

/// Where the borrows of a contract wait, and the waker of the owner.
///
/// If the owner is `None`, then the owner has been dropped or has been awoken; either way no
/// communication between owner and borrowers is required.
pub enum BorrowQueue {
    /// Only the owner is left awaiting.
    Final { owner: Option<Waker> },
    /// Upgradable references wait to become mutable.
    Upgrading { owner: Option<Waker>, upgrades: usize },
    /// Contains forwarded borrows to be handled in sequence.
    Forwarded { owner: Option<Waker>, next: usize },
}

/// The contents of nodes.
pub open spec fn views(nodes: Seq<BorrowQueueNode>) -> Seq<NodeView> {
    nodes.map_values(|node: BorrowQueueNode| node@)
}

/// Whether nodes are in order: each is well-formed, and followed only by one that is older.
pub open spec fn linked(nodes: Seq<NodeView>) -> bool {
    forall|i: int|
        0 <= i < nodes.len() ==> {
            &&& (#[trigger] nodes[i]).wf()
            &&& nodes[i].next is Some ==> nodes[i].next->0 < i
        }
}

/// The number of borrows that wait at `at` and the nodes that follow it.
pub open spec fn waiting(nodes: Seq<NodeView>, at: Option<usize>) -> nat
    decreases
            (if at is Some {
                at->0 + 1
            } else {
                0
            }),
{
    match at {
        None => 0,
        Some(i) => if i < nodes.len() && (nodes[i as int].next is Some ==> nodes[i as int].next->0
            < i) {
            nodes[i as int].queue.len() + waiting(nodes, nodes[i as int].next)
        } else {
            0
        },
    }
}

/// The borrows that wait at `at` and the nodes that follow it, in the order in which they are
/// granted.
pub open spec fn queued(nodes: Seq<NodeView>, at: Option<usize>) -> Seq<BorrowWaker>
    decreases
            (if at is Some {
                at->0 + 1
            } else {
                0
            }),
{
    match at {
        None => Seq::empty(),
        Some(i) => if i < nodes.len() && (nodes[i as int].next is Some ==> nodes[i as int].next->0
            < i) {
            nodes[i as int].queue + queued(nodes, nodes[i as int].next)
        } else {
            Seq::empty()
        },
    }
}

/// Borrows wait where the nodes up to there are the same.
pub proof fn lemma_waiting(a: Seq<NodeView>, b: Seq<NodeView>, at: Option<usize>)
    requires
        linked(a),
        a.len() == b.len(),
        at is Some ==> forall|i: int| 0 <= i <= at->0 < a.len() ==> a[i] == b[i],
    ensures
        waiting(a, at) == waiting(b, at),
        queued(a, at) == queued(b, at),
    decreases
            (if at is Some {
                at->0 + 1
            } else {
                0
            }),
{
    if at is Some && at->0 < a.len() {
        assert(a[at->0 as int] == b[at->0 as int]);
        lemma_waiting(a, b, a[at->0 as int].next);
    }
}

impl BorrowQueue {
    /// The waker of the owner.
    pub open spec fn owner(self) -> Option<Waker> {
        match self {
            BorrowQueue::Final { owner } => owner,
            BorrowQueue::Upgrading { owner, .. } => owner,
            BorrowQueue::Forwarded { owner, .. } => owner,
        }
    }

    /// The queue with the waker of the owner replaced.
    pub open spec fn with_owner(self, owner: Option<Waker>) -> BorrowQueue {
        match self {
            BorrowQueue::Final { .. } => BorrowQueue::Final { owner },
            BorrowQueue::Upgrading { upgrades, .. } => BorrowQueue::Upgrading { owner, upgrades },
            BorrowQueue::Forwarded { next, .. } => BorrowQueue::Forwarded { owner, next },
        }
    }

    /// The node that borrows wait at first.
    pub open spec fn head(self) -> Option<usize> {
        match self {
            BorrowQueue::Final { .. } => None,
            BorrowQueue::Upgrading { upgrades, .. } => Some(upgrades),
            BorrowQueue::Forwarded { next, .. } => Some(next),
        }
    }

    /// The queue that goes on with `next`.
    pub open spec fn from_node(owner: Option<Waker>, next: Option<usize>) -> BorrowQueue {
        match next {
            Some(next) => BorrowQueue::Forwarded { owner, next },
            None => BorrowQueue::Final { owner },
        }
    }

    /// Well-formedness: the nodes are in order, borrows wait at one of them, and while borrows
    /// upgrade it is an upgrade queue.
    pub open spec fn wf(self, nodes: Seq<NodeView>) -> bool {
        &&& linked(nodes)
        &&& self.head() is Some ==> self.head()->0 < nodes.len()
        &&& self is Upgrading ==> {
            &&& nodes[self.head()->0 as int].status == NodeStatus::Growing
            &&& nodes[self.head()->0 as int].last_interaction == LastInteraction::Queue
        }
    }
}

/// What waking works on.
#[verifier::ext_equal]
pub struct WakeState {
    /// Where borrows wait.
    pub queue: BorrowQueue,
    /// The nodes.
    pub nodes: Seq<NodeView>,
    /// The counts of the contract.
    pub counts: ContractCounts,
    /// The wakers whose tasks are due.
    pub due: Seq<Waker>,
}

impl WakeState {
    /// Whether everything that waits can be counted, if it is granted after `grant`.
    pub open spec fn has_headroom(self, grant: BorrowKind) -> bool {
        &&& self.counts.has_headroom(grant)
        &&& self.counts.borrow_count + waiting(self.nodes, self.queue.head()) <= usize::MAX
    }

    /// With the borrows at `at` that may be granted after `grant`, and the node left as `node`.
    pub open spec fn grants(
        self,
        at: usize,
        granted: Seq<BorrowWaker>,
        node: NodeView,
    ) -> WakeState {
        WakeState {
            nodes: self.nodes.update(at as int, node),
            counts: self.counts.acquired_all(granted),
            due: self.due + wakers(granted),
            ..self
        }
    }

    /// With an upgrade queue turned into a forwarded one that can only be drained.
    pub open spec fn upgrading_ended(self) -> WakeState {
        match self.queue {
            BorrowQueue::Upgrading { owner, upgrades } => WakeState {
                queue: BorrowQueue::Forwarded { owner, next: upgrades },
                nodes: self.nodes.update(
                    upgrades as int,
                    NodeView {
                        last_interaction: LastInteraction::Blocked(BorrowKind::Ref),
                        status: NodeStatus::Shrinking,
                        ..self.nodes[upgrades as int]
                    },
                ),
                ..self
            },
            _ => self,
        }
    }

    /// What waking leaves, where `grant` was granted last, and what work is left for the caller.
    ///
    /// An upgrade queue lets through what need not wait. A forwarded queue grants what it can,
    /// node by node, until a borrow has to wait or more may yet come; a node that is done is left
    /// behind. If nothing is held and nobody waits, the owner is awoken, or without one the value
    /// is dropped: either counts as a mutable borrow.
    pub open spec fn woken(self, grant: BorrowKind) -> (WakeState, AdditionalWork)
        decreases
                (if self.queue.head() is Some {
                    self.queue.head()->0 + 1
                } else {
                    0
                }),
    {
        match self.queue {
            BorrowQueue::Final { owner } => if grant != BorrowKind::Empty {
                (self, AdditionalWork::Noop)
            } else {
                (
                    WakeState {
                        queue: BorrowQueue::Final { owner: None },
                        counts: ContractCounts {
                            mut_number: (self.counts.mut_number + 1) as u64,
                            ..self.counts
                        },
                        due: if owner is Some {
                            self.due.push(owner->0)
                        } else {
                            self.due
                        },
                        ..self
                    },
                    if owner is Some {
                        AdditionalWork::Noop
                    } else {
                        AdditionalWork::Drop
                    },
                )
            },
            BorrowQueue::Upgrading { upgrades, .. } => {
                let node = self.nodes[upgrades as int];
                (self.grants(upgrades, node.let_through(), node.reduced()), AdditionalWork::Noop)
            },
            BorrowQueue::Forwarded { owner, next } => {
                let node = self.nodes[next as int];
                let granted = node.granted(grant);
                let drained = node.drained(grant);
                let after = WakeState {
                    queue: BorrowQueue::from_node(owner, node.next),
                    ..self.grants(next, granted, NodeView { next: None, ..drained })
                };
                match node.continuation(grant) {
                    WakeContinuation::Await | WakeContinuation::Complete => (
                        self.grants(next, granted, drained),
                        AdditionalWork::Noop,
                    ),
                    WakeContinuation::Next => if node.next is Some ==> node.next->0 < next {
                        after.woken(node.granted_last(grant))
                    } else {
                        (after, AdditionalWork::Noop)
                    },
                }
            },
        }
    }
}

impl BorrowQueue {
    /// A queue without borrows or owner.
    pub fn new() -> (queue: Self)
        ensures
            queue == (BorrowQueue::Final { owner: None }),
    {
        BorrowQueue::Final { owner: None }
    }

    /// The waker of the owner.
    pub fn owner_waker(&mut self) -> (owner: &mut Option<Waker>)
        ensures
            *owner == old(self).owner(),
            *final(self) == old(self).with_owner(*final(owner)),
    {
        match self {
            BorrowQueue::Final { owner } => owner,
            BorrowQueue::Upgrading { owner, .. } => owner,
            BorrowQueue::Forwarded { owner, .. } => owner,
        }
    }

    /// Moves the queue out, and leaves an empty one.
    fn take(&mut self) -> (queue: BorrowQueue)
        ensures
            queue == *old(self),
            *final(self) == (BorrowQueue::Final { owner: None }),
    {
        let mut queue = BorrowQueue::new();
        std::mem::swap(&mut queue, self);
        queue
    }

    /// Queues an upgradable reference that wants to become mutable.
    pub fn queue_upgrade(&mut self, nodes: &mut Vec<BorrowQueueNode>) -> (future: BorrowFuture)
        requires
            old(self).wf(views(old(nodes)@)),
            *old(self) is Upgrading ==> ({
                let node = old(nodes)@[old(self).head()->0 as int]@;
                node.popped + node.queue.len() < u64::MAX
            }),
            old(nodes)@.len() < usize::MAX,
        ensures
            final(self).wf(views(final(nodes)@)),
            *final(self) == (BorrowQueue::Upgrading {
                owner: old(self).owner(),
                upgrades: future.node,
            }),
            match *old(self) {
                BorrowQueue::Upgrading { upgrades, .. } => {
                    let before = old(nodes)@[upgrades as int]@;
                    let after = final(nodes)@[upgrades as int]@;
                    &&& future.node == upgrades
                    &&& future.id.index == before.popped + before.queue.len()
                    &&& after.queue.len() == before.queue.len() + 1
                    &&& after.queue.last().kind == BorrowKind::Mut
                    &&& after == (NodeView { queue: before.queue.push(after.queue.last()), ..before
                    })
                    &&& views(final(nodes)@) == views(old(nodes)@).update(upgrades as int, after)
                },
                _ => {
                    let after = final(nodes)@[old(nodes)@.len() as int]@;
                    &&& future.node == old(nodes)@.len()
                    &&& future.id.index == 0
                    &&& after.queue.len() == 1
                    &&& after.queue[0].kind == BorrowKind::Mut
                    &&& after == (NodeView {
                        queue: after.queue,
                        ..NodeView::empty(LastInteraction::Queue, old(self).head())
                    })
                    &&& views(final(nodes)@) == views(old(nodes)@).push(after)
                },
            },
    {
        let ghost before = views(nodes@);
        let this: usize;
        match self.take() {
            BorrowQueue::Final { owner } => {
                this = nodes.len();
                nodes.push(BorrowQueueNode::new_upgrade_queue(None));
                *self = BorrowQueue::Upgrading { owner, upgrades: this };
            },
            BorrowQueue::Upgrading { owner, upgrades } => {
                this = upgrades;
                *self = BorrowQueue::Upgrading { owner, upgrades };
            },
            BorrowQueue::Forwarded { owner, next } => {
                this = nodes.len();
                nodes.push(BorrowQueueNode::new_upgrade_queue(Some(next)));
                *self = BorrowQueue::Upgrading { owner, upgrades: this };
            },
        }
        let ghost ready = views(nodes@);
        proof {
            if *old(self) is Upgrading {
                assert(ready =~= before);
            } else {
                assert(ready =~= before.push(nodes@[this as int]@));
            }
            assert(ready[this as int] == nodes@[this as int]@);
        }
        // A mutable borrow never prompts an upgrade queue.
        let queued = nodes[this].enqueue(this, BorrowKind::Mut);
        proof {
            let after = nodes@[this as int]@;
            assert(views(nodes@) =~= ready.update(this as int, after));
            assert(after.queue =~= ready[this as int].queue.push(after.queue.last()));
            assert(views(nodes@) =~= if *old(self) is Upgrading {
                before.update(this as int, after)
            } else {
                before.push(after)
            });
        }
        queued.0
    }

    /// Turns an upgrade queue into a forwarded one that can only be drained.
    pub fn end_upgrading(&mut self, nodes: &mut Vec<BorrowQueueNode>)
        requires
            old(self).wf(views(old(nodes)@)),
        ensures
            final(self).wf(views(final(nodes)@)),
            match *old(self) {
                BorrowQueue::Upgrading { owner, upgrades } => {
                    &&& *final(self) == (BorrowQueue::Forwarded { owner, next: upgrades })
                    &&& views(final(nodes)@) == views(old(nodes)@).update(
                        upgrades as int,
                        NodeView {
                            last_interaction: LastInteraction::Blocked(BorrowKind::Ref),
                            status: NodeStatus::Shrinking,
                            ..views(old(nodes)@)[upgrades as int]
                        },
                    )
                },
                _ => *final(self) == *old(self) && views(final(nodes)@) == views(old(nodes)@),
            },
    {
        let ghost before = views(nodes@);
        match self.take() {
            BorrowQueue::Upgrading { owner, upgrades } => {
                nodes[upgrades].last_interaction = LastInteraction::Blocked(BorrowKind::Ref);
                nodes[upgrades].status = NodeStatus::Shrinking;
                *self = BorrowQueue::Forwarded { owner, next: upgrades };
                proof {
                    assert(views(nodes@) =~= before.update(
                        upgrades as int,
                        NodeView {
                            last_interaction: LastInteraction::Blocked(BorrowKind::Ref),
                            status: NodeStatus::Shrinking,
                            ..before[upgrades as int]
                        },
                    ));
                }
            },
            this => {
                *self = this;
            },
        }
    }

    /// Wakes what may be granted now, where `current` was granted last.
    #[must_use]
    pub fn wake_from(
        &mut self,
        current: BorrowKind,
        nodes: &mut Vec<BorrowQueueNode>,
        counts: &mut ContractCounts,
        due: &mut Vec<Waker>,
    ) -> (work: AdditionalWork)
        requires
            old(self).wf(views(old(nodes)@)),
            old(counts).wf(),
            (WakeState {
                queue: *old(self),
                nodes: views(old(nodes)@),
                counts: *old(counts),
                due: old(due)@,
            }).has_headroom(current),
        ensures
            final(self).wf(views(final(nodes)@)),
            final(counts).wf(),
            (
                WakeState {
                    queue: *final(self),
                    nodes: views(final(nodes)@),
                    counts: *final(counts),
                    due: final(due)@,
                },
                work,
            ) == (WakeState {
                queue: *old(self),
                nodes: views(old(nodes)@),
                counts: *old(counts),
                due: old(due)@,
            }).woken(current),
    {
        let ghost start = WakeState {
            queue: *self,
            nodes: views(nodes@),
            counts: *counts,
            due: due@,
        };
        let mut grant: BorrowKind = current;
        loop
            invariant
                self.wf(views(nodes@)),
                counts.wf(),
                (WakeState {
                    queue: *self,
                    nodes: views(nodes@),
                    counts: *counts,
                    due: due@,
                }).has_headroom(grant),
                (WakeState {
                    queue: *self,
                    nodes: views(nodes@),
                    counts: *counts,
                    due: due@,
                }).woken(grant) == start.woken(current),
                start == (WakeState {
                    queue: *old(self),
                    nodes: views(old(nodes)@),
                    counts: *old(counts),
                    due: old(due)@,
                }),
            decreases
                    (if self.head() is Some {
                        self.head()->0 + 1
                    } else {
                        0
                    }),
        {
            let ghost before = WakeState {
                queue: *self,
                nodes: views(nodes@),
                counts: *counts,
                due: due@,
            };
            match self.take() {
                BorrowQueue::Final { owner } => {
                    if grant != BorrowKind::Empty {
                        *self = BorrowQueue::Final { owner };
                        return AdditionalWork::Noop;
                    }
                    counts.mut_number += 1;
                    match owner {
                        Some(waker) => {
                            due.push(waker);
                            return AdditionalWork::Noop;
                        },
                        None => {
                            return AdditionalWork::Drop;
                        },
                    }
                },
                BorrowQueue::Upgrading { owner, upgrades } => {
                    assert(nodes@[upgrades as int]@ == before.nodes[upgrades as int]);
                    nodes[upgrades].reduce_upgrade_buffer(counts, due);
                    *self = BorrowQueue::Upgrading { owner, upgrades };
                    assert(views(nodes@) =~= before.nodes.update(
                        upgrades as int,
                        before.nodes[upgrades as int].reduced(),
                    ));
                    return AdditionalWork::Noop;
                },
                BorrowQueue::Forwarded { owner, next } => {
                    assert(nodes@[next as int]@ == before.nodes[next as int]);
                    let ghost node = before.nodes[next as int];
                    let ghost first = grant;
                    let continuation = nodes[next].waking_drain(&mut grant, counts, due);
                    if continuation != WakeContinuation::Next {
                        *self = BorrowQueue::Forwarded { owner, next };
                        assert(views(nodes@) =~= before.nodes.update(
                            next as int,
                            node.drained(first),
                        ));
                        return AdditionalWork::Noop;
                    }
                    let following: Option<usize> = nodes[next].next.take();
                    *self = match following {
                        Some(next) => BorrowQueue::Forwarded { owner, next },
                        None => BorrowQueue::Final { owner },
                    };
                    proof {
                        assert(views(nodes@) =~= before.nodes.update(
                            next as int,
                            NodeView { next: None, ..node.drained(first) },
                        ));
                        lemma_waiting(before.nodes, views(nodes@), following);
                    }
                },
            }
        }
    }
}

} // verus!
