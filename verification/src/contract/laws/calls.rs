//! What the calls on a contract do, and how they relate to each other.
//!
//! A call is told by what it is given, what it returns and what it leaves behind. Where calls follow
//! each other, what the one leaves is what the next is given.
use vstd::prelude::*;
use std::task::Waker;
use crate::contract::borrow_queue::{
    self, BorrowFuture, BorrowId, BorrowKind, BorrowQueue, BorrowQueueNode, BorrowWaker,
    LastInteraction, NodeStatus, QueueActionFollowup, WakeContinuation, WakeState,
};
use crate::contract::laws::{holding, waking};
use crate::contract::states;
use crate::contract::{
    AdditionalWork, Contract, ContractCounts, ContractState, Pointer, PointerAwait,
};
use crate::waker::Poll;

verus! {

/// Which kinds the calls tell to follow on which, and to be exotic.
pub proof fn law_would_wake_tells_what_follows(
    granted: BorrowKind,
    kind: BorrowKind,
    wakes: bool,
    exotic: bool,
)
    requires
        call_ensures(BorrowKind::would_wake, (&granted, &kind), wakes),
        call_ensures(BorrowKind::is_exotic, (&kind,), exotic),
    ensures
        wakes == match (granted, kind) {
            (_, BorrowKind::Empty) => true,
            (BorrowKind::Empty, _) => true,
            (BorrowKind::Ref, BorrowKind::Ref) => true,
            (BorrowKind::Ref, BorrowKind::Upgradable) => true,
            _ => false,
        },
        exotic == match kind {
            BorrowKind::Upgradable | BorrowKind::Mut => true,
            BorrowKind::Empty | BorrowKind::Ref => false,
        },
{
}

/// Counting a borrow and then counting it as given back leaves what was counted before, but for the
/// number of mutable borrows thus far.
pub proof fn law_release_is_counted_as_acquire(
    acquire: &mut ContractCounts,
    release: &mut ContractCounts,
    kind: BorrowKind,
)
    requires
        old(acquire).wf(),
        old(acquire).can_acquire(kind),
        call_ensures(ContractCounts::record_borrow_acquire, (acquire, &kind), ()),
        *old(release) == *final(acquire),
        call_ensures(ContractCounts::record_borrow_release, (release, &kind), ()),
    ensures
        kind != BorrowKind::Empty ==> final(acquire).borrow_count == old(acquire).borrow_count + 1,
        kind == BorrowKind::Empty ==> *final(acquire) == *old(acquire),
        kind == BorrowKind::Mut || kind == BorrowKind::Upgradable ==> final(acquire).exotic_count
            == old(acquire).exotic_count + 1,
        kind == BorrowKind::Ref ==> final(acquire).exotic_count == old(acquire).exotic_count,
        kind == BorrowKind::Mut ==> final(acquire).mut_number == old(acquire).mut_number + 1,
        kind != BorrowKind::Mut ==> final(acquire).mut_number == old(acquire).mut_number,
        final(release).borrow_count == old(acquire).borrow_count,
        final(release).exotic_count == old(acquire).exotic_count,
        final(release).mut_number == final(acquire).mut_number,
{
}

/// A call that wakes grants borrows from the front of the whole chain of nodes, each of which may be
/// granted after those before it, and as many as may be: then the first that is left may not be
/// granted after what was granted last, or is behind an empty node to which more may be added.
/// Those that are granted are counted and their tasks due, in order.
pub proof fn law_wake_from_grants_what_it_can(
    queue: &mut BorrowQueue,
    current: BorrowKind,
    nodes: &mut Vec<BorrowQueueNode>,
    counts: &mut ContractCounts,
    due: &mut Vec<Waker>,
    work: AdditionalWork,
)
    requires
        old(queue).wf(borrow_queue::views(old(nodes)@)),
        !(*old(queue) is Upgrading),
        call_ensures(BorrowQueue::wake_from, (queue, current, nodes, counts, due), work),
    ensures
        ({
            let after = borrow_queue::views(final(nodes)@);
            let all = borrow_queue::queued(borrow_queue::views(old(nodes)@), old(queue).head());
            let left = borrow_queue::queued(after, final(queue).head());
            let count = all.len() - left.len();
            let granted = all.take(count);
            let last = borrow_queue::grant_after(granted, current);
            &&& count >= 0
            &&& left == all.skip(count)
            &&& forall|i: int|
                0 <= i < count ==> borrow_queue::grant_after(all.take(i), current).wakes(
                    (#[trigger] all[i]).kind,
                )
            &&& {
                ||| left.len() == 0
                ||| !last.wakes(left[0].kind)
                ||| {
                    &&& final(queue).head() is Some
                    &&& after[final(queue).head()->0 as int].queue.len() == 0
                    &&& after[final(queue).head()->0 as int].status == NodeStatus::Growing
                }
            }
            &&& (old(due)@ + borrow_queue::wakers(granted)).is_prefix_of(final(due)@)
            &&& final(counts).borrow_count == old(counts).acquired_all(granted).borrow_count
            &&& final(counts).exotic_count == old(counts).acquired_all(granted).exotic_count
            &&& work == AdditionalWork::Drop <==> *final(queue) is Final && last
                == BorrowKind::Empty && old(queue).owner() is None
            &&& final(queue).owner() == if *final(queue) is Final && last == BorrowKind::Empty {
                None
            } else {
                old(queue).owner()
            }
        }),
{
    let state = WakeState {
        queue: *old(queue),
        nodes: borrow_queue::views(old(nodes)@),
        counts: *old(counts),
        due: old(due)@,
    };
    let after = WakeState {
        queue: *final(queue),
        nodes: borrow_queue::views(final(nodes)@),
        counts: *final(counts),
        due: final(due)@,
    };
    assert((after, work) == state.woken(current));
    waking::law_granted_borrows_follow_over_nodes(state, current);
    waking::law_waking_is_maximal_over_nodes(state, current);
    waking::law_owner_is_awoken_last(state, current);
    super::law_no_waiter_is_lost(state, current);
}

/// A borrow that is added waits behind all others at its node, under a name that no other has, until
/// the call that tells it so lets it through. It calls for waking exactly if it is at the front, and
/// what the node is blocked by lets it through.
pub proof fn law_enqueued_borrow_waits(
    add: &mut BorrowQueueNode,
    ask: &mut BorrowQueueNode,
    this: usize,
    kind: BorrowKind,
    queued: (BorrowFuture, QueueActionFollowup),
    waker: Waker,
    poll: Poll<()>,
)
    requires
        old(add)@.wf(),
        old(add)@.status == NodeStatus::Growing,
        old(add)@.popped + old(add)@.queue.len() < u64::MAX,
        call_ensures(BorrowQueueNode::enqueue, (add, this, kind), queued),
        *old(ask) == *final(add),
        call_ensures(BorrowQueueNode::poll_at, (ask, &queued.0.id, waker), poll),
    ensures
        poll is Pending,
        queued.0.node == this,
        final(ask)@.queue.len() == old(add)@.queue.len() + 1,
        final(ask)@.queue.last() == (BorrowWaker { kind, waker }),
        final(ask)@.queue.drop_last() == old(add)@.queue,
        final(ask)@.popped == old(add)@.popped,
        queued.1 == QueueActionFollowup::Prompt <==> {
            &&& old(add)@.queue.len() == 0
            &&& match old(add)@.last_interaction {
                LastInteraction::NonBlocking => false,
                LastInteraction::Blocked(blocked) => blocked.wakes(kind),
                LastInteraction::Queue => kind == BorrowKind::Empty || kind == BorrowKind::Ref,
            }
        },
{
    assert(final(ask)@.queue.drop_last() =~= old(add)@.queue);
}

/// A borrow that waits is given up where it is: it stays in its place as one that allows nothing, and
/// no other is touched. One that does not wait any more cannot be given up.
pub proof fn law_closed_borrow_is_given_up(node: &mut BorrowQueueNode, id: BorrowId, closed: Option<()>)
    requires
        old(node)@.wf(),
        call_ensures(BorrowQueueNode::close_waker, (node, &id), closed),
    ensures
        ({
            let at = id.index - old(node)@.popped;
            &&& closed is Some <==> 0 <= at < old(node)@.queue.len()
            &&& closed is None ==> final(node)@ == old(node)@
            &&& closed is Some ==> {
                &&& final(node)@.queue.len() == old(node)@.queue.len()
                &&& final(node)@.queue[at].kind == BorrowKind::Empty
                &&& final(node)@.popped == old(node)@.popped
                &&& final(node)@.status == old(node)@.status
                &&& final(node)@.next == old(node)@.next
                &&& forall|i: int|
                    0 <= i < old(node)@.queue.len() && i != at ==> #[trigger] final(node)@.queue[i]
                        == old(node)@.queue[i]
            }
        }),
{
    if closed is Some {
        holding::law_changing_a_borrow(old(node)@, id, BorrowKind::Empty);
    }
}

/// A borrow that waits can be changed to another kind. That calls for waking exactly if it is at the
/// front, has fewer privileges than before, and what the node is blocked by lets it through.
pub proof fn law_changed_borrow_may_prompt(
    node: &mut BorrowQueueNode,
    id: BorrowId,
    kind: BorrowKind,
    followup: Option<QueueActionFollowup>,
)
    requires
        old(node)@.wf(),
        call_ensures(BorrowQueueNode::try_change, (node, &id, kind), followup),
    ensures
        ({
            let at = id.index - old(node)@.popped;
            &&& followup is Some <==> 0 <= at < old(node)@.queue.len()
            &&& followup is None ==> final(node)@ == old(node)@
            &&& followup is Some ==> {
                &&& final(node)@.queue[at].kind == kind
                &&& final(node)@.queue.len() == old(node)@.queue.len()
                &&& forall|i: int|
                    0 <= i < old(node)@.queue.len() && i != at ==> #[trigger] final(node)@.queue[i]
                        == old(node)@.queue[i]
                &&& followup == Some(QueueActionFollowup::Prompt) <==> {
                    &&& at == 0
                    &&& kind.rank() < old(node)@.queue[0].kind.rank()
                    &&& match old(node)@.last_interaction {
                        LastInteraction::NonBlocking => false,
                        LastInteraction::Blocked(blocked) => blocked.wakes(kind),
                        LastInteraction::Queue => kind == BorrowKind::Empty || kind
                            == BorrowKind::Ref,
                    }
                }
            }
        }),
{
    if followup is Some {
        holding::law_changing_a_borrow(old(node)@, id, kind);
    }
}

/// A call that drains a node grants from its front what may be granted, and tells how waking goes on:
/// it is over if a borrow is left, waits if more may be added, and moves on otherwise.
pub proof fn law_drain_grants_from_front(
    node: &mut BorrowQueueNode,
    last: &mut BorrowKind,
    counts: &mut ContractCounts,
    due: &mut Vec<Waker>,
    continuation: WakeContinuation,
)
    requires
        old(node)@.wf(),
        call_ensures(BorrowQueueNode::waking_drain, (node, last, counts, due), continuation),
    ensures
        ({
            let (queue, left) = (old(node)@.queue, final(node)@.queue);
            let count = queue.len() - left.len();
            &&& count >= 0
            &&& left == queue.skip(count)
            &&& *final(last) == borrow_queue::grant_after(queue.take(count), *old(last))
            &&& forall|i: int|
                0 <= i < count ==> borrow_queue::grant_after(queue.take(i), *old(last)).wakes(
                    (#[trigger] queue[i]).kind,
                )
            &&& left.len() > 0 ==> !final(last).wakes(left[0].kind)
            &&& final(node)@.popped == old(node)@.popped + count
            &&& final(node)@.status == old(node)@.status
            &&& final(node)@.next == old(node)@.next
            &&& continuation == if left.len() > 0 {
                WakeContinuation::Complete
            } else if old(node)@.status == NodeStatus::Growing {
                WakeContinuation::Await
            } else {
                WakeContinuation::Next
            }
            &&& continuation != WakeContinuation::Next ==> final(node)@.last_interaction
                == LastInteraction::Blocked(*final(last))
            &&& final(due)@ == old(due)@ + borrow_queue::wakers(queue.take(count))
            &&& *final(counts) == old(counts).acquired_all(queue.take(count))
        }),
{
    let queue = old(node)@.queue;
    borrow_queue::lemma_woken_bound(queue, *old(last));
    waking::law_granted_borrows_follow_each_other(queue, *old(last));
    super::law_waking_is_maximal(queue, *old(last));
}

/// A call that reduces an upgrade queue grants from its front what is, and will be, no more than a
/// reference, and as much as there is.
pub proof fn law_reduced_upgrade_queue_wants_mutability(
    node: &mut BorrowQueueNode,
    counts: &mut ContractCounts,
    due: &mut Vec<Waker>,
)
    requires
        old(node)@.wf(),
        call_ensures(BorrowQueueNode::reduce_upgrade_buffer, (node, counts, due), ()),
    ensures
        ({
            let (queue, left) = (old(node)@.queue, final(node)@.queue);
            let count = queue.len() - left.len();
            &&& count >= 0
            &&& left == queue.skip(count)
            &&& forall|i: int|
                0 <= i < count ==> {
                    ||| (#[trigger] queue[i]).kind == BorrowKind::Empty
                    ||| queue[i].kind == BorrowKind::Ref
                }
            &&& left.len() > 0 ==> left[0].kind == BorrowKind::Mut || left[0].kind
                == BorrowKind::Upgradable
            &&& final(node)@.popped == old(node)@.popped + count
            &&& final(node)@.status == old(node)@.status
            &&& final(node)@.next == old(node)@.next
            &&& final(node)@.last_interaction == old(node)@.last_interaction
            &&& final(due)@ == old(due)@ + borrow_queue::wakers(queue.take(count))
            &&& *final(counts) == old(counts).acquired_all(queue.take(count))
        }),
{
    super::lemma_plain(old(node)@.queue);
    waking::lemma_plain_is_maximal(old(node)@.queue);
}

/// Upgrading ends and nobody who waits is lost: the chain of borrows is as it was, and can be drained.
pub proof fn law_ended_upgrading_keeps_waiters(
    queue: &mut BorrowQueue,
    nodes: &mut Vec<BorrowQueueNode>,
)
    requires
        old(queue).wf(borrow_queue::views(old(nodes)@)),
        *old(queue) is Upgrading,
        call_ensures(BorrowQueue::end_upgrading, (queue, nodes), ()),
    ensures
        *final(queue) is Forwarded,
        final(queue).owner() == old(queue).owner(),
        final(queue).head() == old(queue).head(),
        borrow_queue::queued(borrow_queue::views(final(nodes)@), final(queue).head())
            == borrow_queue::queued(borrow_queue::views(old(nodes)@), old(queue).head()),
        borrow_queue::views(final(nodes)@)[final(queue).head()->0 as int].status
            == NodeStatus::Shrinking,
{
    let (before, after) = (borrow_queue::views(old(nodes)@), borrow_queue::views(final(nodes)@));
    let at = old(queue).head()->0;
    borrow_queue::lemma_waiting(before, after, before[at as int].next);
}

/// A borrow that is queued to upgrade waits before all others but those that upgrade already, and
/// nobody who waited is lost.
pub proof fn law_queued_upgrade_waits(
    queue: &mut BorrowQueue,
    nodes: &mut Vec<BorrowQueueNode>,
    future: BorrowFuture,
)
    requires
        old(queue).wf(borrow_queue::views(old(nodes)@)),
        old(nodes)@.len() < usize::MAX,
        call_ensures(BorrowQueue::queue_upgrade, (queue, nodes), future),
    ensures
        ({
            let (before, after) = (
                borrow_queue::views(old(nodes)@),
                borrow_queue::views(final(nodes)@),
            );
            let all = borrow_queue::queued(before, old(queue).head());
            let now = borrow_queue::queued(after, final(queue).head());
            let first = match *old(queue) {
                BorrowQueue::Upgrading { upgrades, .. } => before[upgrades as int].queue.len() as int,
                _ => 0,
            };
            &&& *final(queue) is Upgrading
            &&& final(queue).owner() == old(queue).owner()
            &&& final(queue).head() == Some(future.node)
            &&& after[future.node as int].waits(future.id)
            &&& now.len() == all.len() + 1
            &&& now[first].kind == BorrowKind::Mut
            &&& now.take(first) == all.take(first)
            &&& now.skip(first + 1) == all.skip(first)
        }),
{
    let (before, after) = (borrow_queue::views(old(nodes)@), borrow_queue::views(final(nodes)@));
    let all = borrow_queue::queued(before, old(queue).head());
    let now = borrow_queue::queued(after, final(queue).head());
    match *old(queue) {
        BorrowQueue::Upgrading { upgrades, .. } => {
            let node = before[upgrades as int];
            borrow_queue::lemma_waiting(before, after, node.next);
            let rest = borrow_queue::queued(before, node.next);
            assert(after[upgrades as int].queue == node.queue.push(
                after[upgrades as int].queue.last(),
            ));
            assert(all == node.queue + rest);
            assert(now == after[upgrades as int].queue + rest);
            let first = node.queue.len() as int;
            assert(now.take(first) =~= all.take(first));
            assert(now.skip(first + 1) =~= all.skip(first));
        },
        _ => {
            let node = after[future.node as int];
            lemma_queued_among_more(before, after, old(queue).head());
            assert(now == node.queue + all);
            assert(now.take(0) =~= all.take(0));
            assert(now.skip(1) =~= all.skip(0));
        },
    }
}

/// Nodes that are added behind others leave what waits at those.
proof fn lemma_queued_among_more(
    a: Seq<borrow_queue::NodeView>,
    b: Seq<borrow_queue::NodeView>,
    at: Option<usize>,
)
    requires
        borrow_queue::linked(a),
        a.len() <= b.len(),
        forall|i: int| 0 <= i < a.len() ==> a[i] == #[trigger] b[i],
        at is Some ==> at->0 < a.len(),
    ensures
        borrow_queue::queued(a, at) == borrow_queue::queued(b, at),
    decreases
            (if at is Some {
                at->0 + 1
            } else {
                0
            }),
{
    if at is Some {
        assert(a[at->0 as int] == b[at->0 as int]);
        lemma_queued_among_more(a, b, a[at->0 as int].next);
    }
}

/// A value that is put under a contract is there, and only its owner has a pointer to it. The owner
/// can take it out again.
pub proof fn law_owner_gets_the_value_back<T>(
    value: T,
    made: (Contract<T>, Pointer<T, states::Owner>),
    contract: &mut Contract<T>,
    taken: T,
)
    requires
        call_ensures(Pointer::<T, states::Owner>::init_with, (value,), made),
        *old(contract) == made.0,
        call_ensures(Pointer::<T, states::Owner>::take_value, (made.1, contract), taken),
    ensures
        taken == value,
        made.0.ref_count == 1,
        final(contract).ref_count == 0,
        final(contract).value is None,
{
}

/// A weak reference can be upgraded for as long as nobody has borrowed the value mutably since it was
/// taken, and not after that. The new reference is held like any other.
pub proof fn law_weak_pointer_can_be_upgraded<T>(
    rf: Pointer<T, states::Ref>,
    take: &mut Contract<T>,
    weak: Pointer<T, states::Weak>,
    upgrade: &mut Contract<T>,
    upgraded: Option<Pointer<T, states::Ref>>,
)
    requires
        old(take).wf(),
        old(take).ref_count < usize::MAX,
        call_ensures(Pointer::<T, states::Ref>::downgrade, (&rf, take), weak),
        old(upgrade).wf(),
        old(upgrade).ref_count > 0,
        old(upgrade).contract_state@.counts.borrow_count < usize::MAX,
        call_ensures(Pointer::<T, states::Weak>::upgrade, (weak, upgrade), upgraded),
    ensures
        final(take).ref_count == old(take).ref_count + 1,
        final(take).contract_state@.counts == old(take).contract_state@.counts,
        upgraded is Some <==> old(upgrade).contract_state@.counts.mut_number == old(
            take,
        ).contract_state@.counts.mut_number,
        final(upgrade).value == old(upgrade).value,
        final(upgrade).ref_count + if upgraded is Some {
            0int
        } else {
            1
        } == old(upgrade).ref_count,
        final(upgrade).contract_state@.counts.borrow_count == old(
            upgrade,
        ).contract_state@.counts.borrow_count + if upgraded is Some {
            1int
        } else {
            0
        },
        final(upgrade).contract_state@.counts.exotic_count == old(
            upgrade,
        ).contract_state@.counts.exotic_count,
        final(upgrade).contract_state@.due == old(upgrade).contract_state@.due,
{
}

/// A reference that is given back is no longer counted, and the value stays as long as another borrow
/// is held. With the last pointer the contract is to be freed.
pub proof fn law_released_reference_is_not_counted<T>(
    rf: Pointer<T, states::Ref>,
    contract: &mut Contract<T>,
    last: bool,
)
    requires
        old(contract).wf(),
        old(contract).ref_count > 0,
        old(contract).contract_state@.counts.can_release(BorrowKind::Ref),
        old(contract).contract_state@.counts.mut_number < u64::MAX,
        call_ensures(Pointer::<T, states::Ref>::release, (rf, contract), last),
    ensures
        ({
            let (before, after) = (old(contract).contract_state@, final(contract).contract_state@);
            &&& final(contract).ref_count == old(contract).ref_count - 1
            &&& last <==> final(contract).ref_count == 0
            &&& before.counts.borrow_count > 1 ==> {
                &&& after.counts.borrow_count == before.counts.borrow_count - 1
                &&& after.counts.exotic_count == before.counts.exotic_count
                &&& after.due == before.due
                &&& after.queue == before.queue
                &&& final(contract).value == old(contract).value
            }
            &&& before.queue.owner() is Some ==> final(contract).value == old(contract).value
            &&& before.counts.borrow_count == 1 && before.queue is Final ==> {
                &&& before.queue.owner() is None ==> final(contract).value is None
                &&& before.queue.owner() matches Some(owner) ==> after.due == before.due.push(owner)
            }
        }),
{
    let before = old(contract).contract_state@;
    holding::law_giving_back_a_reference(before);
    let less = WakeState {
        counts: ContractCounts {
            borrow_count: (before.counts.borrow_count - 1) as usize,
            ..before.counts
        },
        ..before
    };
    if before.counts.borrow_count == 1 {
        if less.woken(BorrowKind::Empty).1 == AdditionalWork::Drop {
            super::law_waking_drops_only_what_nobody_holds(less, BorrowKind::Empty);
        }
    }
}

/// Giving up mutability for reading counts one exotic reference less, and as many references as
/// before; giving it up for now changes nothing.
pub proof fn law_mutability_can_be_given_up<T>(
    rf_mut: Pointer<T, states::RefMut>,
    give_up: &mut Contract<T>,
    rf: Pointer<T, states::Ref>,
    pause: &mut Contract<T>,
    paused: Pointer<T, states::UpgradableRef>,
)
    requires
        old(give_up).wf(),
        old(give_up).contract_state@.counts.exotic_count > 1,
        call_ensures(Pointer::<T, states::RefMut>::into_ref, (rf_mut, give_up), rf),
        *old(pause) == *old(give_up),
        call_ensures(Pointer::<T, states::RefMut>::downgrade, (rf_mut, pause), paused),
    ensures
        final(give_up).value == old(give_up).value,
        final(give_up).ref_count == old(give_up).ref_count,
        final(give_up).contract_state@.counts.borrow_count == old(
            give_up,
        ).contract_state@.counts.borrow_count,
        final(give_up).contract_state@.counts.exotic_count == old(
            give_up,
        ).contract_state@.counts.exotic_count - 1,
        final(give_up).contract_state@.due == old(give_up).contract_state@.due,
        final(pause).value == old(pause).value,
        final(pause).ref_count == old(pause).ref_count,
        final(pause).contract_state@ == old(pause).contract_state@,
{
}

/// A pointer that waits is handed out exactly once its borrow does not wait any more, and only once.
/// Until then its waker is kept, and nothing else changes.
pub proof fn law_awaited_pointer_is_handed_out<T>(
    future: &mut PointerAwait<T, states::RefMut>,
    contract: &mut Contract<T>,
    waker: Waker,
    poll: Poll<Pointer<T, states::RefMut>>,
)
    requires
        old(contract).wf(),
        old(future).inner is Some,
        (old(future).inner->0).1 < old(contract).contract_state@.nodes.len(),
        call_ensures(
            PointerAwait::<T, states::RefMut>::poll_val,
            (future, contract, waker),
            poll,
        ),
    ensures
        ({
            let (inner, at) = old(future).inner->0;
            let (before, after) = (old(contract).contract_state@, final(contract).contract_state@);
            let place = old(future).id.index - before.nodes[at as int].popped;
            &&& poll is Pending <==> 0 <= place < before.nodes[at as int].queue.len()
            &&& poll is Ready <==> final(future).inner is None
            &&& poll is Ready ==> after == before
            &&& poll is Pending ==> {
                &&& final(future).inner == old(future).inner
                &&& after.nodes[at as int].queue[place].waker == waker
                &&& after.nodes[at as int].queue[place].kind
                    == before.nodes[at as int].queue[place].kind
                &&& after.queue == before.queue
                &&& after.counts == before.counts
                &&& after.due == before.due
            }
            &&& final(contract).value == old(contract).value
            &&& final(contract).ref_count == old(contract).ref_count
        }),
{
    let at = (old(future).inner->0).1;
    assert(old(contract).contract_state@.nodes[at as int].wf());
}

/// A call that follows on giving a borrow back wakes whatever may follow on nothing if no borrow is
/// held, whatever may follow on a reference if the last exotic one is gone, and otherwise nobody.
pub proof fn law_reduce_borrow_wakes_when_free(
    state: &mut ContractState,
    from: BorrowKind,
    work: AdditionalWork,
)
    requires
        old(state).wf(),
        call_ensures(ContractState::reduce_borrow, (state, &from), work),
    ensures
        ({
            let counts = old(state)@.counts;
            let exotic = from == BorrowKind::Mut || from == BorrowKind::Upgradable;
            &&& counts.borrow_count == 0 ==> (final(state)@, work) == old(state)@.woken(
                BorrowKind::Empty,
            )
            &&& counts.borrow_count > 0 && counts.exotic_count == 0 && exotic ==> (
                final(state)@,
                work,
            ) == old(state)@.woken(BorrowKind::Ref)
            &&& counts.borrow_count > 0 && (counts.exotic_count > 0 || !exotic) ==> {
                &&& final(state)@ == old(state)@
                &&& work == AdditionalWork::Noop
            }
        }),
{
    holding::law_what_giving_back_wakes(old(state)@, from);
}

/// An owner who waits and gives up is forgotten, and the value left to whoever holds it last. One who
/// does not wait is told so.
pub proof fn law_cancelled_owner_is_forgotten(state: &mut ContractState, cancelled: Option<()>)
    requires
        old(state).wf(),
        old(state)@.counts.mut_number < u64::MAX,
        call_ensures(ContractState::cancel_reaquire, (state,), cancelled),
    ensures
        cancelled is Some <==> old(state)@.queue.owner() is Some,
        final(state)@.queue.owner() is None,
        final(state)@.queue.head() == old(state)@.queue.head(),
        final(state)@.nodes == old(state)@.nodes,
        final(state)@.due == old(state)@.due,
        final(state)@.counts.borrow_count == old(state)@.counts.borrow_count,
        final(state)@.counts.exotic_count == old(state)@.counts.exotic_count,
        cancelled is Some ==> final(state)@.counts.mut_number == old(state)@.counts.mut_number,
        cancelled is None ==> final(state)@.counts.mut_number == old(state)@.counts.mut_number + 1,
{
}

/// The borrow that is found under a name is the one at that place, and changing it changes no other.
pub proof fn law_named_borrow_is_found(
    node: &mut BorrowQueueNode,
    id: BorrowId,
    found: Option<&mut BorrowWaker>,
)
    requires
        old(node)@.wf(),
        call_ensures(BorrowQueueNode::get_mut, (node, &id), found),
    ensures
        ({
            let at = id.index - old(node)@.popped;
            &&& found is Some <==> 0 <= at < old(node)@.queue.len()
            &&& found is None ==> final(node)@ == old(node)@
            &&& found matches Some(borrow) ==> {
                &&& *borrow == old(node)@.queue[at]
                &&& final(node)@.queue == old(node)@.queue.update(at, *final(borrow))
                &&& final(node)@.popped == old(node)@.popped
                &&& final(node)@.status == old(node)@.status
                &&& final(node)@.next == old(node)@.next
                &&& final(node)@.last_interaction == old(node)@.last_interaction
            }
        }),
{
}

/// A pointer that waited and is given back is not counted any more. If its borrow still waited it is
/// given up where it is, and the value stays.
pub proof fn law_abandoned_pointer_is_given_up<T>(
    future: PointerAwait<T, states::RefMut>,
    contract: &mut Contract<T>,
)
    requires
        old(contract).wf(),
        future.inner matches Some((inner, at)) ==> {
            &&& old(contract).ref_count > 0
            &&& at < old(contract).contract_state@.nodes.len()
        },
        call_ensures(PointerAwait::<T, states::RefMut>::release, (future, contract), ()),
    ensures
        future.inner is None ==> *final(contract) == *old(contract),
        future.inner matches Some((inner, at)) ==> {
            let (before, after) = (old(contract).contract_state@, final(contract).contract_state@);
            let node = before.nodes[at as int];
            let place = future.id.index - node.popped;
            &&& final(contract).ref_count == old(contract).ref_count - 1
            &&& 0 <= place < node.queue.len() ==> {
                &&& final(contract).value == old(contract).value
                &&& after.nodes[at as int].queue[place].kind == BorrowKind::Empty
                &&& after.nodes[at as int].queue.len() == node.queue.len()
                &&& after.counts == before.counts
                &&& after.queue == before.queue
                &&& after.due == before.due
            }
        },
{
}

/// Another reference that is taken from one that may become mutable is counted as a reference.
pub proof fn law_plain_reference_is_taken_from_exotic<T>(
    this: Pointer<T, states::UpgradableRef>,
    contract: &mut Contract<T>,
    rf: Pointer<T, states::Ref>,
)
    requires
        old(contract).wf(),
        old(contract).ref_count < usize::MAX,
        old(contract).contract_state@.counts.borrow_count < usize::MAX,
        call_ensures(Pointer::<T, states::UpgradableRef>::as_ref, (&this, contract), rf),
    ensures
        ({
            let (before, after) = (old(contract).contract_state@, final(contract).contract_state@);
            &&& final(contract).ref_count == old(contract).ref_count + 1
            &&& final(contract).value == old(contract).value
            &&& after.counts.borrow_count == before.counts.borrow_count + 1
            &&& after.counts.exotic_count == before.counts.exotic_count
            &&& after.counts.mut_number == before.counts.mut_number
            &&& after.queue == before.queue
            &&& after.nodes == before.nodes
            &&& after.due == before.due
        }),
{
}

/// Turning a borrow into another is counted as such. Where nothing is to be woken nobody is, and where
/// privileges are given up whoever may follow then is.
pub proof fn law_cast_borrow_is_recounted(
    silent: &mut ContractState,
    cast: &mut ContractState,
    from: BorrowKind,
    to: BorrowKind,
)
    requires
        old(silent).wf(),
        old(silent)@.can_recount(from, to),
        call_ensures(ContractState::silent_cast_borrow, (silent, &from, &to), ()),
        *old(cast) == *old(silent),
        call_ensures(ContractState::cast_borrow, (cast, &from, &to), ()),
    ensures
        final(silent)@.queue == old(silent)@.queue,
        final(silent)@.nodes == old(silent)@.nodes,
        final(silent)@.due == old(silent)@.due,
        from == BorrowKind::Empty && to == BorrowKind::Ref ==> final(silent)@.counts.borrow_count
            == old(silent)@.counts.borrow_count + 1,
        from == BorrowKind::Upgradable && to == BorrowKind::Ref ==> {
            &&& final(silent)@.counts.borrow_count == old(silent)@.counts.borrow_count
            &&& final(silent)@.counts.exotic_count == old(silent)@.counts.exotic_count - 1
        },
        from == BorrowKind::Upgradable && to == BorrowKind::Mut ==> {
            &&& final(silent)@.counts.borrow_count == old(silent)@.counts.borrow_count
            &&& final(silent)@.counts.exotic_count == old(silent)@.counts.exotic_count
            &&& final(silent)@.counts.mut_number == old(silent)@.counts.mut_number + 1
        },
        to.rank() >= from.rank() ==> final(cast)@ == final(silent)@,
        to.rank() < from.rank() ==> final(cast)@ == final(silent)@.reduced(from).0,
{
}

} // verus!
