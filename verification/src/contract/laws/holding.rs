//! What holds of the borrows that are held next to each other, and of giving them back.
use vstd::prelude::*;
use crate::contract::borrow_queue::{
    self, BorrowId, BorrowKind, BorrowQueue, BorrowWaker, LastInteraction, NodeStatus, NodeView,
    QueueActionFollowup, WakeState,
};
use crate::contract::states::{self, PtrState, RefState};
use crate::contract::{AdditionalWork, ContractCounts};

verus! {

/// Which kinds of borrow may be granted after which. What was given up follows on anything, and
/// anything follows on nothing. A reference is followed by references, of which the last may be one
/// that can become mutable. Nothing that is held follows on a borrow that is, or may become, mutable.
pub proof fn law_kinds_that_follow(granted: BorrowKind, kind: BorrowKind)
    ensures
        granted.wakes(BorrowKind::Empty),
        BorrowKind::Empty.wakes(kind),
        BorrowKind::Ref.wakes(BorrowKind::Ref),
        BorrowKind::Ref.wakes(BorrowKind::Upgradable),
        !BorrowKind::Ref.wakes(BorrowKind::Mut),
        kind != BorrowKind::Empty ==> !BorrowKind::Upgradable.wakes(kind),
        kind != BorrowKind::Empty ==> !BorrowKind::Mut.wakes(kind),
        BorrowKind::Mut.exotic(),
        BorrowKind::Upgradable.exotic(),
        !BorrowKind::Ref.exotic(),
        !BorrowKind::Empty.exotic(),
{
}

/// What was granted last is the last borrow that was not given up, or if all were, what had been
/// granted before.
pub proof fn law_granted_last(queue: Seq<BorrowWaker>, grant: BorrowKind, at: int)
    requires
        -1 <= at < queue.len(),
        at >= 0 ==> queue[at].kind != BorrowKind::Empty,
        forall|i: int| at < i < queue.len() ==> (#[trigger] queue[i]).kind == BorrowKind::Empty,
    ensures
        borrow_queue::grant_after(queue, grant) == if at >= 0 {
            queue[at].kind
        } else {
            grant
        },
    decreases queue.len(),
{
    if queue.len() > 0 && at < queue.len() - 1 {
        law_granted_last(queue.drop_last(), grant, at);
    }
}

/// How a borrow is counted: a reference as one that is held, one that can become mutable as exotic
/// too, and a mutable one besides as one more mutable borrow. One that was given up is not counted.
pub proof fn law_counts_of_a_borrow(counts: ContractCounts, kind: BorrowKind)
    requires
        counts.wf(),
        counts.can_acquire(kind),
    ensures
        ({
            let after = counts.acquired(kind);
            &&& after.borrow_count - counts.borrow_count == match kind {
                BorrowKind::Empty => 0int,
                _ => 1,
            }
            &&& after.exotic_count - counts.exotic_count == match kind {
                BorrowKind::Empty | BorrowKind::Ref => 0int,
                BorrowKind::Upgradable | BorrowKind::Mut => 1,
            }
            &&& after.mut_number - counts.mut_number == match kind {
                BorrowKind::Mut => 1int,
                _ => 0,
            }
        }),
{
}

/// How giving back a borrow is counted. That it was mutable is never forgotten.
pub proof fn law_counts_of_giving_back(counts: ContractCounts, kind: BorrowKind)
    requires
        counts.wf(),
        counts.can_release(kind),
    ensures
        ({
            let after = counts.released(kind);
            &&& counts.borrow_count - after.borrow_count == match kind {
                BorrowKind::Empty => 0int,
                _ => 1,
            }
            &&& counts.exotic_count - after.exotic_count == match kind {
                BorrowKind::Empty | BorrowKind::Ref => 0int,
                BorrowKind::Upgradable | BorrowKind::Mut => 1,
            }
            &&& after.mut_number == counts.mut_number
        }),
{
}

/// The number of borrows in `queue` of one of `kinds`.
pub open spec fn count_of(queue: Seq<BorrowWaker>, kinds: Set<BorrowKind>) -> nat
    decreases queue.len(),
{
    if queue.len() == 0 {
        0
    } else {
        count_of(queue.drop_last(), kinds) + if kinds.contains(queue.last().kind) {
            1nat
        } else {
            0nat
        }
    }
}

/// How the borrows that are granted are counted: each of them once, as what it is.
pub proof fn law_counts_of_borrows(counts: ContractCounts, queue: Seq<BorrowWaker>)
    requires
        counts.wf(),
        counts.borrow_count + queue.len() <= usize::MAX,
        counts.mut_number + queue.len() <= u64::MAX,
    ensures
        ({
            let after = counts.acquired_all(queue);
            let held = set![BorrowKind::Ref, BorrowKind::Upgradable, BorrowKind::Mut];
            let exotic = set![BorrowKind::Upgradable, BorrowKind::Mut];
            &&& after.borrow_count == counts.borrow_count + count_of(queue, held)
            &&& after.exotic_count == counts.exotic_count + count_of(queue, exotic)
            &&& after.mut_number == counts.mut_number + count_of(queue, set![BorrowKind::Mut])
            &&& count_of(queue, exotic) <= count_of(queue, held) <= queue.len()
            &&& count_of(queue, set![BorrowKind::Mut]) <= queue.len()
        }),
    decreases queue.len(),
{
    if queue.len() > 0 {
        law_counts_of_borrows(counts, queue.drop_last());
    }
}

/// The names at a node are the places in its queue, counted from the first borrow that ever waited
/// there.
pub proof fn law_names_are_places(node: NodeView, at: int, id: BorrowId)
    requires
        node.wf(),
        id.index == node.popped + at,
    ensures
        node.waits(id) <==> 0 <= at < node.queue.len(),
        node.place(id) == at,
{
}

/// Changing what a borrow allows leaves its task, its place and all other borrows as they are.
pub proof fn law_changing_a_borrow(node: NodeView, id: BorrowId, kind: BorrowKind)
    requires
        node.wf(),
        node.waits(id),
    ensures
        ({
            let after = node.with_kind(id, kind);
            let at = id.index - node.popped;
            &&& after.queue.len() == node.queue.len()
            &&& after.queue[at].kind == kind
            &&& after.queue[at].waker == node.queue[at].waker
            &&& forall|i: int|
                0 <= i < node.queue.len() && i != at ==> #[trigger] after.queue[i]
                    == node.queue[i]
            &&& after.popped == node.popped
            &&& after.status == node.status
            &&& after.next == node.next
            &&& after.last_interaction == node.last_interaction
        }),
{
}

/// When a borrow that comes to the front calls for waking. A node that was not blocked never does:
/// waking will come to it. One that was blocked does if what blocked it lets the borrow through, and
/// then is not blocked any more. An upgrade queue does unless the borrow is, or may become, mutable,
/// and stays one.
pub proof fn law_borrow_at_the_front(kind: BorrowKind, blocked: BorrowKind)
    ensures
        LastInteraction::NonBlocking.followup(kind) == (
            LastInteraction::NonBlocking,
            QueueActionFollowup::Done,
        ),
        blocked.wakes(kind) ==> LastInteraction::Blocked(blocked).followup(kind) == (
            LastInteraction::NonBlocking,
            QueueActionFollowup::Prompt,
        ),
        !blocked.wakes(kind) ==> LastInteraction::Blocked(blocked).followup(kind) == (
            LastInteraction::Blocked(blocked),
            QueueActionFollowup::Done,
        ),
        LastInteraction::Queue.followup(kind) == (
            LastInteraction::Queue,
            match kind {
                BorrowKind::Empty | BorrowKind::Ref => QueueActionFollowup::Prompt,
                BorrowKind::Upgradable | BorrowKind::Mut => QueueActionFollowup::Done,
            },
        ),
{
}

/// A new node has no borrows, has seen none leave, and may be given some.
pub proof fn law_new_node_is_empty(interaction: LastInteraction, next: Option<usize>, id: BorrowId)
    ensures
        ({
            let node = NodeView::empty(interaction, next);
            &&& node.wf()
            &&& !node.waits(id)
            &&& node.popped == 0
            &&& node.queue.len() == 0
            &&& node.status == NodeStatus::Growing
            &&& node.next == next
            &&& node.last_interaction == interaction
        }),
{
}

/// Replacing the owner of a queue leaves where borrows wait, and moving on to another node leaves the
/// owner.
pub proof fn law_owner_and_nodes_are_apart(
    queue: BorrowQueue,
    owner: Option<std::task::Waker>,
    next: Option<usize>,
)
    ensures
        queue.with_owner(owner).owner() == owner,
        queue.with_owner(owner).head() == queue.head(),
        queue.with_owner(owner) is Upgrading <==> queue is Upgrading,
        queue.with_owner(queue.owner()) == queue,
        BorrowQueue::from_node(owner, next).owner() == owner,
        BorrowQueue::from_node(owner, next).head() == next,
        !(BorrowQueue::from_node(owner, next) is Upgrading),
{
}

/// When upgrading ends the queue that was for upgrading is drained like any other, after references:
/// nobody is woken, moved or forgotten by that alone. Where nobody upgrades nothing happens.
pub proof fn law_ended_upgrading_goes_on(state: WakeState)
    requires
        state.wf(),
    ensures
        ({
            let after = state.upgrading_ended();
            &&& !(after.queue is Upgrading)
            &&& !(state.queue is Upgrading) ==> after == state
            &&& after.queue.owner() == state.queue.owner()
            &&& after.queue.head() == state.queue.head()
            &&& after.counts == state.counts
            &&& after.due == state.due
            &&& after.nodes.len() == state.nodes.len()
            &&& state.queue is Upgrading ==> {
                let at = state.queue.head()->0;
                let (node, was) = (after.nodes[at as int], state.nodes[at as int]);
                &&& node.queue == was.queue
                &&& node.popped == was.popped
                &&& node.next == was.next
                &&& node.status == NodeStatus::Shrinking
                &&& node.last_interaction == LastInteraction::Blocked(BorrowKind::Ref)
            }
            &&& forall|i: int|
                0 <= i < state.nodes.len() && Some(i as usize) != state.queue.head()
                    ==> #[trigger] after.nodes[i] == state.nodes[i]
            &&& state.counts.exotic_count == 0 ==> state.without_exotic() == after
            &&& state.counts.exotic_count > 0 ==> state.without_exotic() == state
        }),
{
}

/// What is woken once a borrow was given back. If none is held, whatever may follow on nothing. If
/// references are held and the last borrow that could have become mutable is gone, whatever may
/// follow on a reference. Otherwise nothing happens.
pub proof fn law_what_giving_back_wakes(state: WakeState, from: BorrowKind)
    ensures
        state.counts.borrow_count == 0 ==> state.reduced(from) == state.woken(BorrowKind::Empty),
        state.counts.borrow_count > 0 && state.counts.exotic_count == 0 && (from
            == BorrowKind::Upgradable || from == BorrowKind::Mut) ==> state.reduced(from)
            == state.woken(BorrowKind::Ref),
        state.counts.borrow_count > 0 && (state.counts.exotic_count > 0 || from == BorrowKind::Ref
            || from == BorrowKind::Empty) ==> state.reduced(from) == (state, AdditionalWork::Noop),
{
}

/// Turning one borrow into another changes nothing but the counts, and those as giving back the one
/// and granting the other would. A weak reference is turned into one that is held.
pub proof fn law_turning_a_borrow_into_another(state: WakeState, from: BorrowKind, to: BorrowKind)
    requires
        state.wf(),
        state.can_recount(from, to),
    ensures
        ({
            let after = state.recounted(from, to);
            let held = |kind: BorrowKind|
                match kind {
                    BorrowKind::Empty => 0int,
                    _ => 1,
                };
            let exotic = |kind: BorrowKind|
                match kind {
                    BorrowKind::Empty | BorrowKind::Ref => 0int,
                    BorrowKind::Upgradable | BorrowKind::Mut => 1,
                };
            &&& after.queue == state.queue
            &&& after.nodes == state.nodes
            &&& after.due == state.due
            &&& after.counts.borrow_count == state.counts.borrow_count - held(from) + held(to)
            &&& after.counts.exotic_count == state.counts.exotic_count - exotic(from) + exotic(to)
            &&& after.counts.mut_number == state.counts.mut_number + match to {
                BorrowKind::Mut => 1int,
                _ => 0,
            }
        }),
{
}

/// What pointers count as: references as references, and those that are mutable like those that may
/// become so. Giving back one that does not borrow changes nothing.
pub proof fn law_what_pointers_count_as(state: WakeState, weak: states::Weak)
    ensures
        states::Ref::kind() == BorrowKind::Ref,
        states::UpgradableRef::kind() == BorrowKind::Upgradable,
        states::RefMut::kind() == BorrowKind::Upgradable,
        weak.untracked(state) == (state, AdditionalWork::Noop),
        states::Borrowless.untracked(state) == (state, AdditionalWork::Noop),
        states::Owner.untracked(state) == states::Host.untracked(state),
{
}

/// Giving back a reference takes one from the borrows that are held, and wakes somebody only if it
/// was the last one.
pub proof fn law_giving_back_a_reference(state: WakeState)
    requires
        state.wf(),
        state.counts.can_release(BorrowKind::Ref),
    ensures
        ({
            let (after, work) = states::Ref.untracked(state);
            let less = WakeState {
                counts: ContractCounts {
                    borrow_count: (state.counts.borrow_count - 1) as usize,
                    ..state.counts
                },
                ..state
            };
            &&& state.counts.borrow_count > 1 ==> after == less && work == AdditionalWork::Noop
            &&& state.counts.borrow_count == 1 ==> (after, work) == less.woken(BorrowKind::Empty)
        }),
{
}

/// Giving back a borrow that is, or may become, mutable takes one from the borrows that are held and
/// one from those that are exotic. With the last exotic one upgrading ends, and whatever may follow
/// on what is still held is woken.
pub proof fn law_giving_back_an_exotic_reference(state: WakeState)
    requires
        state.wf(),
        state.counts.can_release(BorrowKind::Upgradable),
    ensures
        ({
            let given_back = states::UpgradableRef.untracked(state);
            let less = WakeState {
                counts: ContractCounts {
                    borrow_count: (state.counts.borrow_count - 1) as usize,
                    exotic_count: (state.counts.exotic_count - 1) as usize,
                    ..state.counts
                },
                ..state
            };
            &&& states::RefMut.untracked(state) == given_back
            &&& state.counts.exotic_count > 1 ==> given_back == (less, AdditionalWork::Noop)
            &&& state.counts.exotic_count == 1 && state.counts.borrow_count > 1 ==> given_back
                == less.upgrading_ended().woken(BorrowKind::Ref)
            &&& state.counts.borrow_count == 1 ==> given_back == less.upgrading_ended().woken(
                BorrowKind::Empty,
            )
        }),
{
}

/// An owner that waits and is dropped is forgotten, and nothing else happens. One that does not wait
/// takes the value along, which is counted so that no weak reference can be upgraded any more.
pub proof fn law_dropping_the_owner(state: WakeState)
    requires
        state.wf(),
        state.counts.mut_number < u64::MAX,
    ensures
        ({
            let (after, work) = states::Host.untracked(state);
            &&& after.queue.owner() is None
            &&& after.queue.head() == state.queue.head()
            &&& after.nodes == state.nodes
            &&& after.due == state.due
            &&& after.counts.borrow_count == state.counts.borrow_count
            &&& after.counts.exotic_count == state.counts.exotic_count
            &&& state.queue.owner() is Some ==> work == AdditionalWork::Noop
                && after.counts.mut_number == state.counts.mut_number
            &&& state.queue.owner() is None ==> work == AdditionalWork::Drop
                && after.counts.mut_number == state.counts.mut_number + 1
        }),
{
}

} // verus!
