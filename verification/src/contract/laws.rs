//! What holds of borrowing by contract as a whole.
use vstd::prelude::*;

pub mod calls;
pub mod holding;
pub mod waking;

use crate::contract::borrow_queue::{
    self, BorrowId, BorrowKind, BorrowQueue, BorrowWaker, LastInteraction, NodeView,
    QueueActionFollowup, WakeState,
};
use crate::contract::states::{self, PtrState};
use crate::contract::{AdditionalWork, ContractCounts};

verus! {

/// The kinds are ordered by privileges: of any two that differ, one has fewer, and the order goes
/// from nothing over reading and reading with the option to change to changing.
pub proof fn law_kinds_are_ordered(a: BorrowKind, b: BorrowKind)
    ensures
        a != b <==> a.rank() < b.rank() || b.rank() < a.rank(),
        BorrowKind::Empty.rank() < BorrowKind::Ref.rank(),
        BorrowKind::Ref.rank() < BorrowKind::Upgradable.rank(),
        BorrowKind::Upgradable.rank() < BorrowKind::Mut.rank(),
{
}

/// Whatever lets a borrow through lets through one with fewer privileges, and whatever has been
/// granted lets through no more than something with fewer privileges does.
pub proof fn law_waking_follows_privileges(
    granted: BorrowKind,
    less_granted: BorrowKind,
    kind: BorrowKind,
    less: BorrowKind,
)
    requires
        less_granted.rank() <= granted.rank(),
        less.rank() <= kind.rank(),
        granted.wakes(kind),
    ensures
        granted.wakes(less),
        less_granted.wakes(kind),
{
}

/// Giving a borrow back undoes counting it, but for the number of mutable borrows thus far.
pub proof fn law_release_undoes_acquire(counts: ContractCounts, kind: BorrowKind)
    requires
        counts.wf(),
        counts.can_acquire(kind),
    ensures
        counts.acquired(kind).wf(),
        counts.acquired(kind).can_release(kind),
        counts.acquired(kind).released(kind) == (ContractCounts {
            mut_number: counts.acquired(kind).mut_number,
            ..counts
        }),
{
}

/// Turning a borrow into one with no fewer privileges wakes nobody. Turning it into one with fewer
/// is the same, followed by waking what may be granted once the first is given back.
pub proof fn law_casting_wakes_for_fewer_privileges(
    state: WakeState,
    from: BorrowKind,
    to: BorrowKind,
)
    ensures
        to.rank() >= from.rank() ==> {
            &&& state.cast(from, to) == state.recounted(from, to)
            &&& state.cast(from, to).queue == state.queue
            &&& state.cast(from, to).nodes == state.nodes
            &&& state.cast(from, to).due == state.due
        },
        to.rank() < from.rank() ==> state.cast(from, to) == state.recounted(from, to).reduced(
            from,
        ).0,
{
}

/// Whether every name in `before` means in `after` what it meant: a borrow that waited waits still,
/// or has left from the front for ever, and names that were not in use are not taken over.
pub open spec fn names_kept(before: NodeView, after: NodeView) -> bool {
    &&& before.popped <= after.popped
    &&& before.popped + before.queue.len() <= after.popped + after.queue.len()
    &&& forall|id: BorrowId|
        before.waits(id) ==> (#[trigger] after.waits(id) <==> after.popped <= id.index)
    &&& forall|id: BorrowId| id.index < before.popped ==> !#[trigger] after.waits(id)
}

/// Replacing a borrow, as polling for it, changing it and giving it up do, keeps every name, and
/// what every other name stands for.
pub proof fn law_replacing_keeps_names(
    before: NodeView,
    after: NodeView,
    id: BorrowId,
    borrow: BorrowWaker,
)
    requires
        before.waits(id),
        after.popped == before.popped,
        after.queue == before.with_borrow(id, borrow).queue,
    ensures
        names_kept(before, after),
        after.waits(id),
        after.queue[after.place(id)] == borrow,
        forall|other: BorrowId|
            before.waits(other) && other.index != id.index ==> after.queue[#[trigger] before.place(
                other,
            )] == before.queue[before.place(other)],
{
}

/// Adding a borrow keeps every name, and what it stands for.
pub proof fn law_enqueueing_keeps_names(before: NodeView, after: NodeView)
    requires
        after.popped == before.popped,
        after.queue.len() == before.queue.len() + 1,
        after.queue.drop_last() == before.queue,
    ensures
        names_kept(before, after),
        forall|id: BorrowId|
            before.waits(id) ==> after.queue[#[trigger] before.place(id)]
                == before.queue[before.place(id)],
{
    assert forall|id: BorrowId| before.waits(id) implies after.queue[#[trigger] before.place(id)]
        == before.queue[before.place(id)] by {
        assert(after.queue.drop_last()[before.place(id)] == after.queue[before.place(id)]);
    }
}

/// Granting borrows from the front, by waking or out of an upgrade queue, keeps the name of every
/// borrow that is left, and what it stands for.
pub proof fn law_granting_keeps_names(node: NodeView, grant: BorrowKind)
    requires
        node.wf(),
    ensures
        names_kept(node, node.drained(grant)),
        names_kept(node, node.reduced()),
        forall|id: BorrowId| #[trigger]
            node.drained(grant).waits(id) ==> node.waits(id) && node.drained(
                grant,
            ).queue[node.drained(grant).place(id)] == node.queue[node.place(id)],
        forall|id: BorrowId| #[trigger]
            node.reduced().waits(id) ==> node.waits(id)
                && node.reduced().queue[node.reduced().place(id)] == node.queue[node.place(id)],
{
    borrow_queue::lemma_woken_bound(node.queue, grant);
    lemma_plain(node.queue);
}

/// Names are kept over any number of steps that each keep them: as long as a borrow has not left its
/// node its name stands for it, and once it has left nothing is found under its name again.
pub proof fn law_names_are_kept(steps: Seq<NodeView>, id: BorrowId)
    requires
        steps.len() > 0,
        forall|i: int, j: int|
            #![trigger steps[i], steps[j]]
            0 <= i < steps.len() - 1 && j == i + 1 ==> names_kept(steps[i], steps[j]),
    ensures
        names_kept(steps[0], steps.last()),
        steps[0].waits(id) ==> (steps.last().waits(id) <==> forall|i: int|
            0 <= i < steps.len() ==> (#[trigger] steps[i]).waits(id)),
    decreases steps.len(),
{
    if steps.len() > 1 {
        let rest = steps.drop_last();
        assert forall|i: int, j: int|
            #![trigger rest[i], rest[j]]
            0 <= i < rest.len() - 1 && j == i + 1 implies names_kept(rest[i], rest[j]) by {
            assert(rest[i] == steps[i] && rest[j] == steps[j]);
        }
        law_names_are_kept(rest, id);
        let (before, after) = (steps[steps.len() - 2], steps[steps.len() - 1]);
        assert(names_kept(before, after));
        assert(rest.last() == before);
        assert(names_kept(steps[0], before));
        assert forall|other: BorrowId| steps[0].waits(other) implies (#[trigger] after.waits(other)
            <==> after.popped <= other.index) by {
            assert(before.waits(other) <==> before.popped <= other.index);
        }
        assert forall|other: BorrowId| other.index < steps[0].popped implies !#[trigger] after.waits(
            other,
        ) by {
            assert(other.index < before.popped);
        }
        if steps[0].waits(id) {
            if after.waits(id) {
                assert(before.waits(id));
                assert forall|i: int| 0 <= i < steps.len() implies (#[trigger] steps[i]).waits(id) by {
                    if i < rest.len() {
                        assert(rest[i].waits(id));
                    }
                }
            }
        }
    }
}

/// Borrows are granted in the order in which they came, as many as may be: the first one that is
/// left may not be granted next.
pub proof fn law_waking_is_maximal(queue: Seq<BorrowWaker>, grant: BorrowKind)
    ensures
        borrow_queue::woken(queue, grant) <= queue.len(),
        borrow_queue::woken(queue, grant) < queue.len() ==> !borrow_queue::grant_after(
            queue.take(borrow_queue::woken(queue, grant) as int),
            grant,
        ).wakes(queue[borrow_queue::woken(queue, grant) as int].kind),
    decreases queue.len(),
{
    let n = borrow_queue::woken(queue, grant);
    if queue.len() > 0 && grant.wakes(queue[0].kind) {
        let next = borrow_queue::grant_after(seq![queue[0]], grant);
        let rest = queue.drop_first();
        law_waking_is_maximal(rest, next);
        if n < queue.len() {
            assert(queue.take(n as int) =~= seq![queue[0]] + rest.take(n - 1));
            lemma_grant_after_concat(seq![queue[0]], rest.take(n - 1), grant);
            assert(rest[n - 1] == queue[n as int]);
        }
    } else {
        assert(queue.take(0) =~= Seq::<BorrowWaker>::empty());
    }
}

/// What is granted last, after one run of borrows and then another.
proof fn lemma_grant_after_concat(first: Seq<BorrowWaker>, second: Seq<BorrowWaker>, grant: BorrowKind)
    ensures
        borrow_queue::grant_after(first + second, grant) == borrow_queue::grant_after(
            second,
            borrow_queue::grant_after(first, grant),
        ),
    decreases second.len(),
{
    if second.len() == 0 {
        assert(first + second =~= first);
    } else {
        assert((first + second).drop_last() =~= first + second.drop_last());
        assert((first + second).last() == second.last());
        lemma_grant_after_concat(first, second.drop_last(), grant);
    }
}

/// A borrow that comes to the front of a blocked node calls for waking exactly if what the node is
/// blocked by lets it through. Otherwise waking would leave it where it is.
pub proof fn law_prompted_waking_grants(
    node: NodeView,
    blocked: BorrowKind,
    borrow: BorrowWaker,
)
    requires
        node.wf(),
        node.last_interaction == LastInteraction::Blocked(blocked),
        node.queue.len() > 0,
        node.queue[0] == borrow,
    ensures
        node.last_interaction.followup(borrow.kind).1 == QueueActionFollowup::Prompt
            <==> node.granted(blocked).len() > 0,
        node.granted(blocked).len() == 0 ==> node.drained(blocked) == node,
{
    borrow_queue::lemma_woken_bound(node.queue, blocked);
    assert(node.queue.skip(0) =~= node.queue);
    assert(node.queue.take(0) =~= Seq::<BorrowWaker>::empty());
}

/// A borrow that comes to the front of an upgrade queue calls for waking exactly if it need not wait
/// there. One that is to become mutable never does.
pub proof fn law_prompted_upgrade_queue_lets_through(node: NodeView, borrow: BorrowWaker)
    requires
        node.wf(),
        node.last_interaction == LastInteraction::Queue,
        node.queue.len() > 0,
        node.queue[0] == borrow,
    ensures
        node.last_interaction.followup(borrow.kind).1 == QueueActionFollowup::Prompt
            <==> node.let_through().len() > 0,
        node.let_through().len() == 0 ==> node.reduced() == node,
        borrow.kind == BorrowKind::Mut ==> node.let_through().len() == 0,
{
    lemma_plain(node.queue);
    assert(node.queue.skip(0) =~= node.queue);
}

/// Next to a reference no mutable borrow is granted.
pub proof fn law_no_mutable_borrow_next_to_references(queue: Seq<BorrowWaker>, grant: BorrowKind)
    requires
        grant != BorrowKind::Empty,
    ensures
        forall|i: int|
            0 <= i < borrow_queue::woken(queue, grant) ==> (#[trigger] queue[i]).kind
                != BorrowKind::Mut,
    decreases queue.len(),
{
    if queue.len() > 0 && grant.wakes(queue[0].kind) {
        assert(seq![queue[0]].drop_last() =~= Seq::<BorrowWaker>::empty());
        reveal_with_fuel(borrow_queue::grant_after, 2);
        let next = borrow_queue::grant_after(seq![queue[0]], grant);
        let rest = queue.drop_first();
        law_no_mutable_borrow_next_to_references(rest, next);
        borrow_queue::lemma_woken_bound(queue, grant);
        assert forall|i: int| 0 <= i < borrow_queue::woken(queue, grant) implies (
        #[trigger] queue[i]).kind != BorrowKind::Mut by {
            if i > 0 {
                assert(rest[i - 1] == queue[i]);
            }
        }
    }
}

/// Once an exotic borrow is granted, only borrows that were given up are let through.
pub proof fn law_exotic_borrow_is_granted_last(queue: Seq<BorrowWaker>, grant: BorrowKind)
    requires
        grant.exotic(),
    ensures
        forall|i: int|
            0 <= i < borrow_queue::woken(queue, grant) ==> (#[trigger] queue[i]).kind
                == BorrowKind::Empty,
    decreases queue.len(),
{
    if queue.len() > 0 && grant.wakes(queue[0].kind) {
        assert(seq![queue[0]].drop_last() =~= Seq::<BorrowWaker>::empty());
        reveal_with_fuel(borrow_queue::grant_after, 2);
        let rest = queue.drop_first();
        law_exotic_borrow_is_granted_last(rest, grant);
        borrow_queue::lemma_woken_bound(queue, grant);
        assert forall|i: int| 0 <= i < borrow_queue::woken(queue, grant) implies (
        #[trigger] queue[i]).kind == BorrowKind::Empty by {
            if i > 0 {
                assert(rest[i - 1] == queue[i]);
            }
        }
    }
}

/// A mutable borrow is granted alone: every other borrow that is granted with it was given up.
pub proof fn law_mutable_borrow_is_alone(queue: Seq<BorrowWaker>, at: int)
    requires
        0 <= at < borrow_queue::woken(queue, BorrowKind::Empty),
        queue[at].kind == BorrowKind::Mut,
    ensures
        forall|i: int|
            0 <= i < borrow_queue::woken(queue, BorrowKind::Empty) && i != at ==> (
            #[trigger] queue[i]).kind == BorrowKind::Empty,
    decreases queue.len(),
{
    let n = borrow_queue::woken(queue, BorrowKind::Empty);
    let rest = queue.drop_first();
    borrow_queue::lemma_woken_bound(queue, BorrowKind::Empty);
    assert(seq![queue[0]].drop_last() =~= Seq::<BorrowWaker>::empty());
    reveal_with_fuel(borrow_queue::grant_after, 2);
    if at == 0 {
        law_exotic_borrow_is_granted_last(rest, BorrowKind::Mut);
    } else {
        assert(rest[at - 1] == queue[at]);
        if queue[0].kind == BorrowKind::Empty {
            law_mutable_borrow_is_alone(rest, at - 1);
        } else {
            law_no_mutable_borrow_next_to_references(rest, queue[0].kind);
        }
    }
    assert forall|i: int| 0 <= i < n && i != at implies (#[trigger] queue[i]).kind
        == BorrowKind::Empty by {
        if i > 0 {
            assert(rest[i - 1] == queue[i]);
        }
    }
}

/// A borrow no longer waits exactly once it is granted, and those behind it still do, under the same
/// name.
pub proof fn law_granted_borrows_stop_waiting(node: NodeView, grant: BorrowKind, id: BorrowId)
    requires
        node.wf(),
    ensures
        node.drained(grant).waits(id) <==> node.waits(id) && node.place(id)
            >= borrow_queue::woken(node.queue, grant),
        node.drained(grant).waits(id) ==> node.drained(grant).queue[node.drained(grant).place(id)]
            == node.queue[node.place(id)],
{
    borrow_queue::lemma_woken_bound(node.queue, grant);
}

/// A borrow that is given up at the front of a queue is let through whatever has been granted.
pub proof fn law_given_up_borrow_does_not_block(node: NodeView, grant: BorrowKind, id: BorrowId)
    requires
        node.wf(),
        node.waits(id),
        node.place(id) == 0,
    ensures
        borrow_queue::woken(node.with_kind(id, BorrowKind::Empty).queue, grant) >= 1,
        !node.with_kind(id, BorrowKind::Empty).drained(grant).waits(id),
{
    let closed = node.with_kind(id, BorrowKind::Empty);
    assert(closed.waits(id));
    law_granted_borrows_stop_waiting(closed, grant, id);
}

/// If nothing is granted last, nothing had been granted, and only borrows that were given up were
/// let through: they are not counted.
proof fn lemma_nothing_granted(queue: Seq<BorrowWaker>, grant: BorrowKind, counts: ContractCounts)
    requires
        borrow_queue::grant_after(queue, grant) == BorrowKind::Empty,
    ensures
        grant == BorrowKind::Empty,
        counts.acquired_all(queue) == counts,
        forall|i: int| 0 <= i < queue.len() ==> (#[trigger] queue[i]).kind == BorrowKind::Empty,
    decreases queue.len(),
{
    if queue.len() > 0 {
        let rest = queue.drop_last();
        lemma_nothing_granted(rest, grant, counts);
        assert forall|i: int| 0 <= i < queue.len() implies (#[trigger] queue[i]).kind
            == BorrowKind::Empty by {
            if i < rest.len() {
                assert(rest[i] == queue[i]);
            }
        }
    }
}

/// No waiter is lost by waking: whoever waited is woken, in the order in which they came, or waits
/// still, behind the same others. Those that are woken are counted, and whatever else becomes due
/// does so after them.
pub proof fn law_no_waiter_is_lost(state: WakeState, grant: BorrowKind)
    requires
        state.queue.wf(state.nodes),
    ensures
        ({
            let after = state.woken(grant).0;
            let before = borrow_queue::queued(state.nodes, state.queue.head());
            let left = borrow_queue::queued(after.nodes, after.queue.head());
            let count = before.len() - left.len();
            let counted = state.counts.acquired_all(before.take(count));
            &&& count >= 0
            &&& left == before.skip(count)
            &&& (state.due + borrow_queue::wakers(before.take(count))).is_prefix_of(after.due)
            &&& after.counts.borrow_count == counted.borrow_count
            &&& after.counts.exotic_count == counted.exotic_count
            &&& after.queue.wf(after.nodes)
        }),
    decreases
            (if state.queue.head() is Some {
                state.queue.head()->0 + 1
            } else {
                0
            }),
{
    let before = borrow_queue::queued(state.nodes, state.queue.head());
    match state.queue {
        BorrowQueue::Final { .. } => {
            assert(before.take(0) =~= Seq::<BorrowWaker>::empty());
            assert(before.skip(0) =~= before);
            assert(state.due + borrow_queue::wakers(before.take(0)) =~= state.due);
        },
        BorrowQueue::Upgrading { upgrades, .. } => {
            let node = state.nodes[upgrades as int];
            lemma_plain(node.queue);
            lemma_left_at_node(state, upgrades, borrow_queue::plain(node.queue), node.reduced());
        },
        BorrowQueue::Forwarded { owner, next } => {
            let node = state.nodes[next as int];
            let granted = node.granted(grant);
            borrow_queue::lemma_woken_bound(node.queue, grant);
            assert(node.wf());
            if node.continuation(grant) == borrow_queue::WakeContinuation::Next {
                let after = WakeState {
                    queue: BorrowQueue::from_node(owner, node.next),
                    ..state.grants(next, granted, NodeView { next: None, ..node.drained(grant) })
                };
                let rest = borrow_queue::queued(state.nodes, node.next);
                assert(granted =~= node.queue);
                borrow_queue::lemma_waiting(state.nodes, after.nodes, node.next);
                law_no_waiter_is_lost(after, node.granted_last(grant));
                let last = after.woken(node.granted_last(grant)).0;
                let left = borrow_queue::queued(last.nodes, last.queue.head());
                let (count, more) = (before.len() - left.len(), rest.len() - left.len());
                assert(before.take(count) =~= granted + rest.take(more));
                assert(before.skip(count) =~= rest.skip(more));
                lemma_acquired_all_concat(state.counts, granted, rest.take(more));
                assert(borrow_queue::wakers(before.take(count)) =~= borrow_queue::wakers(granted)
                    + borrow_queue::wakers(rest.take(more)));
                assert(state.due + borrow_queue::wakers(before.take(count)) =~= after.due
                    + borrow_queue::wakers(rest.take(more)));
            } else {
                lemma_left_at_node(
                    state,
                    next,
                    borrow_queue::woken(node.queue, grant),
                    node.drained(grant),
                );
            }
        },
    }
}

/// Granting the first `count` borrows at the head leaves all others waiting.
proof fn lemma_left_at_node(state: WakeState, at: usize, count: nat, node: NodeView)
    requires
        state.queue.wf(state.nodes),
        state.queue.head() == Some(at),
        count <= state.nodes[at as int].queue.len(),
        node.queue == state.nodes[at as int].queue.skip(count as int),
        node.next == state.nodes[at as int].next,
        node.wf(),
        state.queue is Upgrading ==> node.status == state.nodes[at as int].status
            && node.last_interaction == state.nodes[at as int].last_interaction,
    ensures
        ({
            let granted = state.nodes[at as int].queue.take(count as int);
            let after = state.grants(at, granted, node);
            let before = borrow_queue::queued(state.nodes, Some(at));
            &&& after.queue.wf(after.nodes)
            &&& borrow_queue::queued(after.nodes, Some(at)) == before.skip(count as int)
            &&& before.take(count as int) == granted
            &&& before.len() == borrow_queue::queued(after.nodes, Some(at)).len() + count
        }),
{
    let was = state.nodes[at as int];
    let granted = was.queue.take(count as int);
    let after = state.grants(at, granted, node);
    let before = borrow_queue::queued(state.nodes, Some(at));
    let rest = borrow_queue::queued(state.nodes, was.next);
    assert(was.wf());
    borrow_queue::lemma_waiting(state.nodes, after.nodes, was.next);
    assert(borrow_queue::queued(after.nodes, Some(at)) =~= node.queue + rest);
    assert(node.queue + rest =~= before.skip(count as int));
    assert(before.take(count as int) =~= granted);
}

/// Waking drops the value only if nothing had been granted, nobody was granted anything now and
/// there was no owner: whoever waited had given up. That is counted, so that no weak reference taken
/// before can be upgraded.
pub proof fn law_waking_drops_only_what_nobody_holds(state: WakeState, grant: BorrowKind)
    requires
        state.queue.wf(state.nodes),
        state.counts.mut_number < u64::MAX,
        state.woken(grant).1 == AdditionalWork::Drop,
    ensures
        grant == BorrowKind::Empty,
        state.queue.owner() is None,
        forall|i: int|
            0 <= i < borrow_queue::queued(state.nodes, state.queue.head()).len() ==> (
            #[trigger] borrow_queue::queued(state.nodes, state.queue.head())[i]).kind
                == BorrowKind::Empty,
        state.woken(grant).0.queue == (BorrowQueue::Final { owner: None }),
        state.woken(grant).0.counts == (ContractCounts {
            mut_number: (state.counts.mut_number + 1) as u64,
            ..state.counts
        }),
    decreases
            (if state.queue.head() is Some {
                state.queue.head()->0 + 1
            } else {
                0
            }),
{
    match state.queue {
        BorrowQueue::Forwarded { owner, next } => {
            let node = state.nodes[next as int];
            let granted = node.granted(grant);
            let after = WakeState {
                queue: BorrowQueue::from_node(owner, node.next),
                ..state.grants(next, granted, NodeView { next: None, ..node.drained(grant) })
            };
            borrow_queue::lemma_woken_bound(node.queue, grant);
            assert(node.wf());
            let last = node.granted_last(grant);
            lemma_drops_after_nothing(after, last);
            lemma_nothing_granted(granted, grant, state.counts);
            law_waking_drops_only_what_nobody_holds(after, last);
            let rest = borrow_queue::queued(state.nodes, node.next);
            assert(granted =~= node.queue);
            borrow_queue::lemma_waiting(state.nodes, after.nodes, node.next);
            assert forall|i: int| 0 <= i < node.queue.len() + rest.len() implies (
            #[trigger] borrow_queue::queued(state.nodes, state.queue.head())[i]).kind
                == BorrowKind::Empty by {
                if i < node.queue.len() {
                    assert(granted[i].kind == BorrowKind::Empty);
                } else {
                    assert(rest[i - node.queue.len()].kind == BorrowKind::Empty);
                }
            }
        },
        _ => {},
    }
}

/// Waking drops the value only if nothing had been granted.
proof fn lemma_drops_after_nothing(state: WakeState, grant: BorrowKind)
    requires
        state.queue.wf(state.nodes),
        state.woken(grant).1 == AdditionalWork::Drop,
    ensures
        grant == BorrowKind::Empty,
    decreases
            (if state.queue.head() is Some {
                state.queue.head()->0 + 1
            } else {
                0
            }),
{
    match state.queue {
        BorrowQueue::Forwarded { owner, next } => {
            let node = state.nodes[next as int];
            let granted = node.granted(grant);
            let after = WakeState {
                queue: BorrowQueue::from_node(owner, node.next),
                ..state.grants(next, granted, NodeView { next: None, ..node.drained(grant) })
            };
            borrow_queue::lemma_woken_bound(node.queue, grant);
            assert(node.wf());
            lemma_drops_after_nothing(after, node.granted_last(grant));
            lemma_nothing_granted(granted, grant, state.counts);
        },
        _ => {},
    }
}

/// Giving back a borrow drops the value only if none is held.
pub proof fn law_releasing_drops_only_with_last_borrow(state: WakeState, from: BorrowKind)
    requires
        state.wf(),
        state.counts.mut_number < u64::MAX,
        state.reduced(from).1 == AdditionalWork::Drop,
    ensures
        state.counts.borrow_count == 0,
        state.queue.owner() is None,
{
    if state.counts.borrow_count == 0 {
        law_waking_drops_only_what_nobody_holds(state, BorrowKind::Empty);
    } else {
        law_waking_drops_only_what_nobody_holds(state, BorrowKind::Ref);
    }
}

/// An owner that waits and is dropped leaves the value to whoever gives back the last borrow.
pub proof fn law_abandoned_value_is_dropped_with_last_borrow(state: WakeState)
    requires
        state.wf(),
        state.queue is Final,
        state.queue.owner() is Some,
        state.counts.borrow_count == 1,
        state.counts.exotic_count == 0,
        state.counts.mut_number < u64::MAX,
    ensures
        states::Host.untracked(state).1 == AdditionalWork::Noop,
        states::Ref.untracked(states::Host.untracked(state).0).1 == AdditionalWork::Drop,
        states::Ref.untracked(state).1 == AdditionalWork::Noop,
        states::Ref.untracked(state).0.due == state.due.push(state.queue.owner()->0),
{
}

/// Once no exotic reference is counted upgrading is over, whether the last one could become mutable
/// or was: giving it back, or giving up its mutability, leaves nobody in an upgrade queue.
pub proof fn law_upgrading_ends_with_last_exotic(state: WakeState)
    requires
        state.wf(),
        state.counts.exotic_count == 1,
        state.counts.mut_number < u64::MAX,
    ensures
        !(states::UpgradableRef.untracked(state).0.queue is Upgrading),
        !(states::RefMut.untracked(state).0.queue is Upgrading),
        !(state.recounted(BorrowKind::Upgradable, BorrowKind::Ref).without_exotic().reduced(
            BorrowKind::Upgradable,
        ).0.queue is Upgrading),
        ({
            let ended = state.upgrading_ended();
            borrow_queue::queued(ended.nodes, ended.queue.head()) == borrow_queue::queued(
                state.nodes,
                state.queue.head(),
            )
        }),
{
    let released = states::uncounted(state, BorrowKind::Upgradable).upgrading_ended();
    let turned = state.recounted(BorrowKind::Upgradable, BorrowKind::Ref).upgrading_ended();
    lemma_no_upgrade_queue(released, BorrowKind::Empty);
    lemma_no_upgrade_queue(released, BorrowKind::Ref);
    lemma_no_upgrade_queue(turned, BorrowKind::Empty);
    lemma_no_upgrade_queue(turned, BorrowKind::Ref);
    if let BorrowQueue::Upgrading { upgrades, .. } = state.queue {
        borrow_queue::lemma_waiting(
            state.nodes,
            state.upgrading_ended().nodes,
            state.nodes[upgrades as int].next,
        );
    }
}

/// Waking makes no upgrade queue.
proof fn lemma_no_upgrade_queue(state: WakeState, grant: BorrowKind)
    requires
        !(state.queue is Upgrading),
    ensures
        !(state.woken(grant).0.queue is Upgrading),
    decreases
            (if state.queue.head() is Some {
                state.queue.head()->0 + 1
            } else {
                0
            }),
{
    if let BorrowQueue::Forwarded { owner, next } = state.queue {
        let node = state.nodes[next as int];
        if node.continuation(grant) == borrow_queue::WakeContinuation::Next && (node.next is Some
            ==> node.next->0 < next) {
            let after = WakeState {
                queue: BorrowQueue::from_node(owner, node.next),
                ..state.grants(
                    next,
                    node.granted(grant),
                    NodeView { next: None, ..node.drained(grant) },
                )
            };
            lemma_no_upgrade_queue(after, node.granted_last(grant));
        }
    }
}

/// Whatever else waking does, it turns back neither the number of mutable borrows thus far nor the
/// number of borrows held.
pub proof fn law_waking_keeps_mut_number(state: WakeState, grant: BorrowKind)
    requires
        state.queue.wf(state.nodes),
        state.counts.wf(),
        state.has_headroom(grant),
    ensures
        state.counts.mut_number <= state.woken(grant).0.counts.mut_number,
        state.counts.borrow_count <= state.woken(grant).0.counts.borrow_count,
    decreases
            (if state.queue.head() is Some {
                state.queue.head()->0 + 1
            } else {
                0
            }),
{
    match state.queue {
        BorrowQueue::Final { .. } => {},
        BorrowQueue::Upgrading { upgrades, .. } => {
            let node = state.nodes[upgrades as int];
            lemma_plain(node.queue);
            lemma_let_through(state.counts, node.let_through());
        },
        BorrowQueue::Forwarded { owner, next } => {
            let node = state.nodes[next as int];
            let granted = node.granted(grant);
            let last = node.granted_last(grant);
            let after = WakeState {
                queue: BorrowQueue::from_node(owner, node.next),
                ..state.grants(next, granted, NodeView { next: None, ..node.drained(grant) })
            };
            assert(node.wf());
            lemma_granted(state.counts, node.queue, grant);
            borrow_queue::lemma_woken_bound(node.queue, grant);
            if node.continuation(grant) == borrow_queue::WakeContinuation::Next {
                borrow_queue::lemma_waiting(state.nodes, after.nodes, node.next);
                law_waking_keeps_mut_number(after, last);
            }
        },
    }
}

/// What is let through from the front of an upgrade queue is not exotic.
proof fn lemma_plain(queue: Seq<BorrowWaker>)
    ensures
        borrow_queue::plain(queue) <= queue.len(),
        forall|i: int|
            0 <= i < borrow_queue::plain(queue) ==> !(#[trigger] queue[i]).kind.exotic(),
    decreases queue.len(),
{
    if queue.len() > 0 {
        let rest = queue.drop_first();
        lemma_plain(rest);
        assert forall|i: int| 0 <= i < borrow_queue::plain(queue) implies !(
        #[trigger] queue[i]).kind.exotic() by {
            if i > 0 {
                assert(rest[i - 1] == queue[i]);
            }
        }
    }
}

/// Borrows that are not exotic raise the number of borrows held, and no other count.
proof fn lemma_let_through(counts: ContractCounts, queue: Seq<BorrowWaker>)
    requires
        counts.borrow_count + queue.len() <= usize::MAX,
        forall|i: int| 0 <= i < queue.len() ==> !(#[trigger] queue[i]).kind.exotic(),
    ensures
        counts.borrow_count <= counts.acquired_all(queue).borrow_count <= counts.borrow_count
            + queue.len(),
        counts.acquired_all(queue).exotic_count == counts.exotic_count,
        counts.acquired_all(queue).mut_number == counts.mut_number,
    decreases queue.len(),
{
    if queue.len() > 0 {
        lemma_let_through(counts, queue.drop_last());
        assert(!queue[queue.len() - 1].kind.exotic());
    }
}

/// Granting what may be granted turns no count back, and leaves room for what may be granted after
/// it.
proof fn lemma_granted(counts: ContractCounts, queue: Seq<BorrowWaker>, grant: BorrowKind)
    requires
        counts.wf(),
        counts.has_headroom(grant),
        counts.borrow_count + queue.len() <= usize::MAX,
    ensures
        ({
            let n = borrow_queue::woken(queue, grant);
            let granted = queue.take(n as int);
            let after = counts.acquired_all(granted);
            &&& after.wf()
            &&& after.has_headroom(borrow_queue::grant_after(granted, grant))
            &&& counts.borrow_count <= after.borrow_count <= counts.borrow_count + n
            &&& counts.mut_number <= after.mut_number
        }),
    decreases queue.len(),
{
    borrow_queue::lemma_woken_bound(queue, grant);
    let n = borrow_queue::woken(queue, grant);
    if queue.len() > 0 && grant.wakes(queue[0].kind) {
        let rest = queue.drop_first();
        let first = seq![queue[0]];
        assert(first.drop_last() =~= Seq::<BorrowWaker>::empty());
        reveal_with_fuel(borrow_queue::grant_after, 2);
        reveal_with_fuel(ContractCounts::acquired_all, 2);
        let next = borrow_queue::grant_after(first, grant);
        let once = counts.acquired_all(first);
        assert(once == counts.acquired(queue[0].kind));
        lemma_granted(once, rest, next);
        assert(queue.take(n as int) =~= first + rest.take(n - 1));
        lemma_grant_after_concat(first, rest.take(n - 1), grant);
        lemma_acquired_all_concat(counts, first, rest.take(n - 1));
    } else {
        assert(queue.take(0) =~= Seq::<BorrowWaker>::empty());
    }
}

/// Granting one run of borrows and then another is granting both.
proof fn lemma_acquired_all_concat(
    counts: ContractCounts,
    first: Seq<BorrowWaker>,
    second: Seq<BorrowWaker>,
)
    ensures
        counts.acquired_all(first + second) == counts.acquired_all(first).acquired_all(second),
    decreases second.len(),
{
    if second.len() == 0 {
        assert(first + second =~= first);
    } else {
        assert((first + second).drop_last() =~= first + second.drop_last());
        lemma_acquired_all_concat(counts, first, second.drop_last());
    }
}

} // verus!
