//! What holds of waking over all the nodes that borrows wait at.
use vstd::prelude::*;
use crate::contract::borrow_queue::{
    self, BorrowKind, BorrowQueue, BorrowWaker, LastInteraction, NodeStatus, NodeView, WakeState,
};
use crate::contract::AdditionalWork;

verus! {

/// Whether waking can come from node `from` to node `to`: nothing more will be added to any node
/// that it leaves behind.
pub open spec fn drained_to(nodes: Seq<NodeView>, from: Option<usize>, to: Option<usize>) -> bool
    decreases
            (if from is Some {
                from->0 + 1
            } else {
                0
            }),
{
    from == to || match from {
        None => false,
        Some(i) => {
            &&& i < nodes.len()
            &&& nodes[i as int].status == NodeStatus::Shrinking
            &&& nodes[i as int].next is Some ==> nodes[i as int].next->0 < i
            &&& drained_to(nodes, nodes[i as int].next, to)
        },
    }
}

/// Whether nothing more will be added to the nodes from `at` on, but for the last one.
pub open spec fn draining(nodes: Seq<NodeView>, at: Option<usize>) -> bool
    decreases
            (if at is Some {
                at->0 + 1
            } else {
                0
            }),
{
    match at {
        None => true,
        Some(i) => {
            &&& i < nodes.len()
            &&& nodes[i as int].next is Some ==> {
                &&& nodes[i as int].next->0 < i
                &&& nodes[i as int].status == NodeStatus::Shrinking
                &&& draining(nodes, nodes[i as int].next)
            }
        },
    }
}

/// Every borrow that is granted may be granted after those before it.
pub proof fn law_granted_borrows_follow_each_other(queue: Seq<BorrowWaker>, grant: BorrowKind)
    ensures
        forall|i: int|
            0 <= i < borrow_queue::woken(queue, grant) ==> borrow_queue::grant_after(
                queue.take(i),
                grant,
            ).wakes((#[trigger] queue[i]).kind),
    decreases queue.len(),
{
    if queue.len() > 0 && grant.wakes(queue[0].kind) {
        let first = seq![queue[0]];
        let next = borrow_queue::grant_after(first, grant);
        let rest = queue.drop_first();
        law_granted_borrows_follow_each_other(rest, next);
        borrow_queue::lemma_woken_bound(queue, grant);
        assert forall|i: int|
            0 <= i < borrow_queue::woken(queue, grant) implies borrow_queue::grant_after(
            queue.take(i),
            grant,
        ).wakes((#[trigger] queue[i]).kind) by {
            if i == 0 {
                assert(queue.take(0) =~= Seq::<BorrowWaker>::empty());
            } else {
                assert(queue.take(i) =~= first + rest.take(i - 1));
                super::lemma_grant_after_concat(first, rest.take(i - 1), grant);
                assert(rest[i - 1] == queue[i]);
            }
        }
    }
}

/// As many borrows are woken as may be granted one after the other: no other number will do.
proof fn lemma_woken_is_unique(queue: Seq<BorrowWaker>, grant: BorrowKind, count: int)
    requires
        0 <= count <= queue.len(),
        forall|i: int|
            0 <= i < count ==> borrow_queue::grant_after(queue.take(i), grant).wakes(
                (#[trigger] queue[i]).kind,
            ),
        count < queue.len() ==> !borrow_queue::grant_after(queue.take(count), grant).wakes(
            queue[count].kind,
        ),
    ensures
        borrow_queue::woken(queue, grant) == count,
    decreases queue.len(),
{
    assert(queue.take(0) =~= Seq::<BorrowWaker>::empty());
    if count > 0 {
        let first = seq![queue[0]];
        let next = borrow_queue::grant_after(first, grant);
        let rest = queue.drop_first();
        assert(grant.wakes(queue[0].kind));
        assert forall|i: int| 0 <= i < rest.len() implies borrow_queue::grant_after(
            rest.take(i),
            next,
        ) == borrow_queue::grant_after(queue.take(i + 1), grant) && #[trigger] rest[i] == queue[i
            + 1] by {
            assert(queue.take(i + 1) =~= first + rest.take(i));
            super::lemma_grant_after_concat(first, rest.take(i), grant);
        }
        assert forall|i: int| 0 <= i < count - 1 implies borrow_queue::grant_after(
            rest.take(i),
            next,
        ).wakes((#[trigger] rest[i]).kind) by {
            assert(borrow_queue::grant_after(queue.take(i + 1), grant).wakes(queue[i + 1].kind));
        }
        if count < queue.len() {
            assert(rest[count - 1] == queue[count]);
        }
        lemma_woken_is_unique(rest, next, count - 1);
    }
}

/// The parts of waking that moves on from the first node: what is left, what is granted and what was
/// granted last there.
proof fn lemma_moves_on(state: WakeState, grant: BorrowKind) -> (after: WakeState)
    requires
        state.queue.wf(state.nodes),
        state.queue is Forwarded,
        state.nodes[state.queue.head()->0 as int].continuation(grant)
            == borrow_queue::WakeContinuation::Next,
    ensures
        ({
            let at = state.queue.head()->0;
            let node = state.nodes[at as int];
            let all = borrow_queue::queued(state.nodes, state.queue.head());
            let rest = borrow_queue::queued(after.nodes, after.queue.head());
            &&& node.status == NodeStatus::Shrinking
            &&& after.queue == BorrowQueue::from_node(state.queue.owner(), node.next)
            &&& after.queue.wf(after.nodes)
            &&& after.nodes.len() == state.nodes.len()
            &&& node.next is Some ==> node.next->0 < at
            &&& forall|i: int| 0 <= i < at ==> after.nodes[i] == #[trigger] state.nodes[i]
            &&& after.counts == state.counts.acquired_all(node.queue)
            &&& after.due == state.due + borrow_queue::wakers(node.queue)
            &&& state.woken(grant) == after.woken(borrow_queue::grant_after(node.queue, grant))
            &&& all == node.queue + rest
            &&& borrow_queue::woken(node.queue, grant) == node.queue.len()
        }),
{
    let next = state.queue.head()->0;
    let node = state.nodes[next as int];
    let granted = node.granted(grant);
    let after = WakeState {
        queue: BorrowQueue::from_node(state.queue.owner(), node.next),
        ..state.grants(next, granted, NodeView { next: None, ..node.drained(grant) })
    };
    borrow_queue::lemma_woken_bound(node.queue, grant);
    assert(node.wf());
    assert(granted =~= node.queue);
    borrow_queue::lemma_waiting(state.nodes, after.nodes, node.next);
    after
}

/// Borrows are granted from the front of the whole chain of nodes, and each of them may be granted
/// after those before it. Waking leaves no node behind to which more may be added.
pub proof fn law_granted_borrows_follow_over_nodes(state: WakeState, grant: BorrowKind)
    requires
        state.queue.wf(state.nodes),
        !(state.queue is Upgrading),
    ensures
        ({
            let after = state.woken(grant).0;
            let all = borrow_queue::queued(state.nodes, state.queue.head());
            let left = borrow_queue::queued(after.nodes, after.queue.head());
            let count = all.len() - left.len();
            &&& count >= 0
            &&& left == all.skip(count)
            &&& forall|i: int|
                0 <= i < count ==> borrow_queue::grant_after(all.take(i), grant).wakes(
                    (#[trigger] all[i]).kind,
                )
            &&& drained_to(state.nodes, state.queue.head(), after.queue.head())
        }),
    decreases
            (if state.queue.head() is Some {
                state.queue.head()->0 + 1
            } else {
                0
            }),
{
    let all = borrow_queue::queued(state.nodes, state.queue.head());
    match state.queue {
        BorrowQueue::Final { .. } => {
            assert(all.skip(0) =~= all);
        },
        BorrowQueue::Upgrading { .. } => {},
        BorrowQueue::Forwarded { next, .. } => {
            let node = state.nodes[next as int];
            let queue = node.queue;
            law_granted_borrows_follow_each_other(queue, grant);
            if node.continuation(grant) == borrow_queue::WakeContinuation::Next {
                let after = lemma_moves_on(state, grant);
                let then = borrow_queue::grant_after(queue, grant);
                let rest = borrow_queue::queued(after.nodes, after.queue.head());
                law_granted_borrows_follow_over_nodes(after, then);
                let last = after.woken(then).0;
                let left = borrow_queue::queued(last.nodes, last.queue.head());
                let (count, more) = (all.len() - left.len(), rest.len() - left.len());
                assert(all.skip(count) =~= rest.skip(more));
                assert forall|i: int| 0 <= i < count implies borrow_queue::grant_after(
                    all.take(i),
                    grant,
                ).wakes((#[trigger] all[i]).kind) by {
                    if i < queue.len() {
                        assert(all.take(i) =~= queue.take(i));
                        assert(all[i] == queue[i]);
                    } else {
                        let j = i - queue.len();
                        assert(all.take(i) =~= queue + rest.take(j));
                        super::lemma_grant_after_concat(queue, rest.take(j), grant);
                        assert(all[i] == rest[j]);
                    }
                }
                lemma_drained_to(state.nodes, after.nodes, node.next, last.queue.head());
            } else {
                let count = borrow_queue::woken(queue, grant);
                borrow_queue::lemma_woken_bound(queue, grant);
                assert(node.wf());
                super::lemma_left_at_node(state, next, count, node.drained(grant));
                assert forall|i: int| 0 <= i < count implies borrow_queue::grant_after(
                    all.take(i),
                    grant,
                ).wakes((#[trigger] all[i]).kind) by {
                    assert(all.take(i) =~= queue.take(i));
                    assert(all[i] == queue[i]);
                }
            }
        },
    }
}

/// Waking is maximal over all nodes. It stops at a node only if the first borrow that is left there
/// may not be granted after what was granted last, or if the node is empty and more may be added; the
/// node is then blocked by what was granted last. If waking gets to the end, nobody is left to wait.
pub proof fn law_waking_is_maximal_over_nodes(state: WakeState, grant: BorrowKind)
    requires
        state.queue.wf(state.nodes),
        !(state.queue is Upgrading),
    ensures
        ({
            let after = state.woken(grant).0;
            let all = borrow_queue::queued(state.nodes, state.queue.head());
            let left = borrow_queue::queued(after.nodes, after.queue.head());
            let count = all.len() - left.len();
            let last = borrow_queue::grant_after(all.take(count), grant);
            match after.queue {
                BorrowQueue::Upgrading { .. } => false,
                BorrowQueue::Final { .. } => left.len() == 0,
                BorrowQueue::Forwarded { next, .. } => {
                    let (node, was) = (after.nodes[next as int], state.nodes[next as int]);
                    &&& next < after.nodes.len()
                    &&& if node.queue.len() > 0 {
                        left[0] == node.queue[0] && !last.wakes(left[0].kind)
                    } else {
                        node.status == NodeStatus::Growing
                    }
                    &&& node.last_interaction == LastInteraction::Blocked(last)
                    &&& node.status == was.status
                    &&& node.next == was.next
                },
            }
        }),
    decreases
            (if state.queue.head() is Some {
                state.queue.head()->0 + 1
            } else {
                0
            }),
{
    let all = borrow_queue::queued(state.nodes, state.queue.head());
    match state.queue {
        BorrowQueue::Final { .. } => {},
        BorrowQueue::Upgrading { .. } => {},
        BorrowQueue::Forwarded { next, .. } => {
            let node = state.nodes[next as int];
            let queue = node.queue;
            if node.continuation(grant) == borrow_queue::WakeContinuation::Next {
                let after = lemma_moves_on(state, grant);
                let then = borrow_queue::grant_after(queue, grant);
                let rest = borrow_queue::queued(after.nodes, after.queue.head());
                law_waking_is_maximal_over_nodes(after, then);
                law_granted_borrows_follow_over_nodes(after, then);
                let last = after.woken(then).0;
                let left = borrow_queue::queued(last.nodes, last.queue.head());
                let (count, more) = (all.len() - left.len(), rest.len() - left.len());
                assert(all.take(count) =~= queue + rest.take(more));
                super::lemma_grant_after_concat(queue, rest.take(more), grant);
                if let BorrowQueue::Forwarded { next: at, .. } = last.queue {
                    lemma_drained_to_lower(after.nodes, after.queue.head(), last.queue.head());
                    assert(after.nodes[at as int] == state.nodes[at as int]);
                }
            } else {
                let count = borrow_queue::woken(queue, grant);
                borrow_queue::lemma_woken_bound(queue, grant);
                assert(node.wf());
                super::lemma_left_at_node(state, next, count, node.drained(grant));
                super::law_waking_is_maximal(queue, grant);
            }
        },
    }
}

/// What waking does beside granting borrows. Those that are granted are counted, and their tasks are
/// due in order. The owner goes on to wait, unless waking gets to the end and nothing is held: then
/// the owner is due too, or without one the value is to be dropped, and either is counted as a
/// mutable borrow.
pub proof fn law_owner_is_awoken_last(state: WakeState, grant: BorrowKind)
    requires
        state.queue.wf(state.nodes),
        !(state.queue is Upgrading),
    ensures
        ({
            let (after, work) = state.woken(grant);
            let all = borrow_queue::queued(state.nodes, state.queue.head());
            let left = borrow_queue::queued(after.nodes, after.queue.head());
            let granted = all.take(all.len() - left.len());
            let last = borrow_queue::grant_after(granted, grant);
            let due = state.due + borrow_queue::wakers(granted);
            if after.queue is Final && last == BorrowKind::Empty {
                &&& after.queue.owner() is None
                &&& after.counts.borrow_count == state.counts.borrow_count
                &&& after.counts.exotic_count == state.counts.exotic_count
                &&& state.counts.mut_number < u64::MAX ==> after.counts.mut_number
                    == state.counts.mut_number + 1
                &&& match state.queue.owner() {
                    Some(owner) => after.due == due.push(owner) && work == AdditionalWork::Noop,
                    None => after.due == due && work == AdditionalWork::Drop,
                }
            } else {
                &&& after.queue.owner() == state.queue.owner()
                &&& after.counts == state.counts.acquired_all(granted)
                &&& after.due == due
                &&& work == AdditionalWork::Noop
            }
        }),
    decreases
            (if state.queue.head() is Some {
                state.queue.head()->0 + 1
            } else {
                0
            }),
{
    let all = borrow_queue::queued(state.nodes, state.queue.head());
    match state.queue {
        BorrowQueue::Final { .. } => {
            assert(all.take(0) =~= Seq::<BorrowWaker>::empty());
            assert(state.due + borrow_queue::wakers(all.take(0)) =~= state.due);
        },
        BorrowQueue::Upgrading { .. } => {},
        BorrowQueue::Forwarded { next, .. } => {
            let node = state.nodes[next as int];
            let queue = node.queue;
            if node.continuation(grant) == borrow_queue::WakeContinuation::Next {
                let after = lemma_moves_on(state, grant);
                let then = borrow_queue::grant_after(queue, grant);
                let rest = borrow_queue::queued(after.nodes, after.queue.head());
                law_owner_is_awoken_last(after, then);
                law_granted_borrows_follow_over_nodes(after, then);
                let last = after.woken(then).0;
                let left = borrow_queue::queued(last.nodes, last.queue.head());
                let more = rest.take(rest.len() - left.len());
                let granted = all.take(all.len() - left.len());
                assert(granted =~= queue + more);
                super::lemma_grant_after_concat(queue, more, grant);
                super::lemma_acquired_all_concat(state.counts, queue, more);
                assert(borrow_queue::wakers(granted) =~= borrow_queue::wakers(queue)
                    + borrow_queue::wakers(more));
                assert(state.due + borrow_queue::wakers(granted) =~= after.due
                    + borrow_queue::wakers(more));
                if borrow_queue::grant_after(more, then) == BorrowKind::Empty {
                    super::lemma_nothing_granted(more, then, after.counts);
                    super::lemma_nothing_granted(queue, grant, state.counts);
                }
            } else {
                let count = borrow_queue::woken(queue, grant);
                borrow_queue::lemma_woken_bound(queue, grant);
                assert(node.wf());
                super::lemma_left_at_node(state, next, count, node.drained(grant));
            }
        },
    }
}

/// Where waking can come to depends only on the nodes up to there.
proof fn lemma_drained_to(
    a: Seq<NodeView>,
    b: Seq<NodeView>,
    from: Option<usize>,
    to: Option<usize>,
)
    requires
        a.len() == b.len(),
        from is Some ==> forall|i: int| 0 <= i <= from->0 < a.len() ==> a[i] == b[i],
        drained_to(b, from, to),
    ensures
        drained_to(a, from, to),
    decreases
            (if from is Some {
                from->0 + 1
            } else {
                0
            }),
{
    if from != to {
        assert(a[from->0 as int] == b[from->0 as int]);
        lemma_drained_to(a, b, b[from->0 as int].next, to);
    }
}

/// Waking comes only to older nodes.
proof fn lemma_drained_to_lower(nodes: Seq<NodeView>, from: Option<usize>, to: Option<usize>)
    requires
        drained_to(nodes, from, to),
        to is Some,
    ensures
        from is Some,
        to->0 <= from->0,
    decreases
            (if from is Some {
                from->0 + 1
            } else {
                0
            }),
{
    if from != to {
        lemma_drained_to_lower(nodes, nodes[from->0 as int].next, to);
    }
}

/// A chain of nodes that can only be drained, followed by any one node, grants borrows as one queue
/// of all that wait would: as many from the front as may be granted one after the other.
pub proof fn law_drained_chain_is_one_queue(state: WakeState, grant: BorrowKind)
    requires
        state.queue.wf(state.nodes),
        !(state.queue is Upgrading),
        draining(state.nodes, state.queue.head()),
    ensures
        ({
            let after = state.woken(grant).0;
            let all = borrow_queue::queued(state.nodes, state.queue.head());
            borrow_queue::queued(after.nodes, after.queue.head()) == all.skip(
                borrow_queue::woken(all, grant) as int,
            )
        }),
{
    let after = state.woken(grant).0;
    let all = borrow_queue::queued(state.nodes, state.queue.head());
    let left = borrow_queue::queued(after.nodes, after.queue.head());
    law_waking_is_maximal_over_nodes(state, grant);
    law_granted_borrows_follow_over_nodes(state, grant);
    let count = all.len() - left.len();
    if let BorrowQueue::Forwarded { next, .. } = after.queue {
        if after.nodes[next as int].queue.len() == 0 {
            lemma_draining(state.nodes, state.queue.head(), next);
            assert(after.nodes[next as int].next is None);
            reveal_with_fuel(borrow_queue::queued, 2);
            assert(left =~= Seq::<BorrowWaker>::empty());
        }
    }
    if count < all.len() {
        assert(left[0] == all[count]);
    }
    lemma_woken_is_unique(all, grant, count);
}

/// Of the nodes of a draining chain only the last one may grow.
proof fn lemma_draining(nodes: Seq<NodeView>, from: Option<usize>, to: usize)
    requires
        draining(nodes, from),
        drained_to(nodes, from, Some(to)),
    ensures
        nodes[to as int].next is Some ==> nodes[to as int].status == NodeStatus::Shrinking,
    decreases
            (if from is Some {
                from->0 + 1
            } else {
                0
            }),
{
    if from != Some(to) {
        lemma_draining(nodes, nodes[from->0 as int].next, to);
    }
}

/// Waking from an upgrade queue lets through the borrows at its front that are, and will be, no more
/// than references, and no other: the first one that is left there wants to become mutable. It
/// stays an upgrade queue, and the nodes behind it wait.
pub proof fn law_upgrade_queue_lets_through_front(state: WakeState, grant: BorrowKind)
    requires
        state.queue.wf(state.nodes),
        state.queue is Upgrading,
    ensures
        ({
            let (after, work) = state.woken(grant);
            let at = state.queue.head()->0;
            let (node, was) = (after.nodes[at as int], state.nodes[at as int]);
            let count = was.queue.len() - node.queue.len();
            &&& after.queue == state.queue
            &&& work == AdditionalWork::Noop
            &&& count >= 0
            &&& node.queue == was.queue.skip(count)
            &&& node.popped == was.popped + count
            &&& node.status == was.status
            &&& node.next == was.next
            &&& node.last_interaction == was.last_interaction
            &&& forall|i: int|
                0 <= i < count ==> {
                    ||| (#[trigger] was.queue[i]).kind == BorrowKind::Empty
                    ||| was.queue[i].kind == BorrowKind::Ref
                }
            &&& node.queue.len() > 0 ==> node.queue[0].kind == BorrowKind::Mut
                || node.queue[0].kind == BorrowKind::Upgradable
            &&& after.due == state.due + borrow_queue::wakers(was.queue.take(count))
            &&& after.counts == state.counts.acquired_all(was.queue.take(count))
            &&& after.nodes.len() == state.nodes.len()
            &&& forall|i: int|
                0 <= i < state.nodes.len() && i != at ==> #[trigger] after.nodes[i]
                    == state.nodes[i]
        }),
{
    let at = state.queue.head()->0;
    let was = state.nodes[at as int];
    assert(was.wf());
    super::lemma_plain(was.queue);
    lemma_plain_is_maximal(was.queue);
}

/// The first borrow that is left in an upgrade queue is exotic.
pub(crate) proof fn lemma_plain_is_maximal(queue: Seq<BorrowWaker>)
    ensures
        borrow_queue::plain(queue) < queue.len() ==> queue[borrow_queue::plain(
            queue,
        ) as int].kind.exotic(),
    decreases queue.len(),
{
    if queue.len() > 0 && !queue[0].kind.exotic() {
        lemma_plain_is_maximal(queue.drop_first());
    }
}

/// Waking leaves every node with the borrows that it had, but for some from its front, which are
/// counted as gone. No node is added, turned into one that grows or that drains, or given another to
/// follow it, and those that are newer than the first that borrows wait at stay as they are.
pub proof fn law_waking_keeps_nodes(state: WakeState, grant: BorrowKind, at: int)
    requires
        state.queue.wf(state.nodes),
        0 <= at < state.nodes.len(),
    ensures
        ({
            let after = state.woken(grant).0;
            let (node, was) = (after.nodes[at], state.nodes[at]);
            let gone = node.popped - was.popped;
            &&& after.nodes.len() == state.nodes.len()
            &&& 0 <= gone <= was.queue.len()
            &&& node.queue == was.queue.skip(gone)
            &&& node.status == was.status
            &&& node.next == was.next || node.next is None && node.queue.len() == 0
            &&& state.queue.head() is None || at > state.queue.head()->0 ==> node == was
        }),
    decreases
            (if state.queue.head() is Some {
                state.queue.head()->0 + 1
            } else {
                0
            }),
{
    let was = state.nodes[at];
    assert(was.queue.skip(0) =~= was.queue);
    match state.queue {
        BorrowQueue::Final { .. } => {},
        BorrowQueue::Upgrading { upgrades, .. } => {
            assert(state.nodes[upgrades as int].wf());
            super::lemma_plain(state.nodes[upgrades as int].queue);
        },
        BorrowQueue::Forwarded { owner, next } => {
            let node = state.nodes[next as int];
            borrow_queue::lemma_woken_bound(node.queue, grant);
            assert(node.wf());
            if node.continuation(grant) == borrow_queue::WakeContinuation::Next {
                let after = WakeState {
                    queue: BorrowQueue::from_node(owner, node.next),
                    ..state.grants(
                        next,
                        node.granted(grant),
                        NodeView { next: None, ..node.drained(grant) },
                    )
                };
                law_waking_keeps_nodes(after, node.granted_last(grant), at);
            }
        },
    }
}

} // verus!
