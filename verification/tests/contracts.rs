use async_borrow::contract::borrow_queue::{
    BorrowFuture, BorrowId, BorrowKind, BorrowQueue, BorrowQueueNode, BorrowWaker,
    LastInteraction, NodeStatus, QueueActionFollowup, WakeContinuation,
};
use async_borrow::contract::states::{
    Borrowless, Host, Owner, PtrState, RefState, UpgradableRef, Weak,
};
use async_borrow::contract::{
    states, AdditionalWork, ContractCounts, ContractState, Pointer, PointerAwait, PointerInner,
};
use async_borrow::Poll;
use std::marker::PhantomData;
use std::sync::atomic::{AtomicUsize, Ordering};
use std::sync::Arc;
use std::task::{Wake, Waker};

struct Task(AtomicUsize);

impl Wake for Task {
    fn wake(self: Arc<Self>) {
        self.0.fetch_add(1, Ordering::SeqCst);
    }
}

fn task() -> (Arc<Task>, Waker) {
    let task = Arc::new(Task(AtomicUsize::new(0)));
    let waker = Waker::from(task.clone());
    (task, waker)
}

fn woken(task: &Arc<Task>) -> usize {
    task.0.load(Ordering::SeqCst)
}

fn idle() -> Waker {
    futures::task::noop_waker()
}

fn run(due: &mut Vec<Waker>) -> usize {
    let count = due.len();
    for waker in due.drain(..) {
        waker.wake();
    }
    count
}

fn counts(exotic_count: usize, borrow_count: usize, mut_number: u64) -> ContractCounts {
    ContractCounts { exotic_count, borrow_count, mut_number }
}

fn triple(counts: &ContractCounts) -> (usize, usize, u64) {
    (counts.exotic_count, counts.borrow_count, counts.mut_number)
}

/// A node with borrows of these kinds.
fn node(kinds: &[BorrowKind]) -> BorrowQueueNode {
    let mut node = BorrowQueueNode::new_forward(None);
    for kind in kinds {
        node.enqueue(0, *kind);
    }
    node
}

fn kinds(node: &BorrowQueueNode) -> Vec<BorrowKind> {
    node.queue.iter().map(|borrow| borrow.kind).collect()
}

const ALL: [BorrowKind; 4] =
    [BorrowKind::Empty, BorrowKind::Ref, BorrowKind::Upgradable, BorrowKind::Mut];

#[test]
fn contract_vibe_check() {
    // ...
}

#[test]
fn kinds_are_ordered_by_privileges() {
    for (i, a) in ALL.iter().enumerate() {
        for (j, b) in ALL.iter().enumerate() {
            assert_eq!(a.partial_cmp(b), Some(i.cmp(&j)));
            assert_eq!(a.cmp(b), i.cmp(&j));
            assert_eq!(a < b, i < j);
        }
    }
    assert!(BorrowKind::Mut > BorrowKind::Upgradable);
    assert!(BorrowKind::Upgradable > BorrowKind::Ref);
    assert!(BorrowKind::Ref > BorrowKind::Empty);
}

#[test]
fn what_may_be_granted_next() {
    let wakes: Vec<Vec<bool>> = ALL
        .iter()
        .map(|granted| ALL.iter().map(|kind| granted.would_wake(kind)).collect())
        .collect();
    assert_eq!(
        wakes,
        vec![
            vec![true, true, true, true],
            vec![true, true, true, false],
            vec![true, false, false, false],
            vec![true, false, false, false],
        ]
    );
    let exotic: Vec<bool> = ALL.iter().map(|kind| kind.is_exotic()).collect();
    assert_eq!(exotic, vec![false, false, true, true]);
}

#[test]
fn counts_of_each_kind() {
    for (kind, acquired, released) in [
        (BorrowKind::Empty, (1, 2, 5), (1, 2, 5)),
        (BorrowKind::Ref, (1, 3, 5), (1, 1, 5)),
        (BorrowKind::Upgradable, (2, 3, 5), (0, 1, 5)),
        (BorrowKind::Mut, (2, 3, 6), (0, 1, 5)),
    ] {
        let mut more = counts(1, 2, 5);
        more.record_borrow_acquire(&kind);
        assert_eq!(triple(&more), acquired);
        let mut less = counts(1, 2, 5);
        less.record_borrow_release(&kind);
        assert_eq!(triple(&less), released);
        more.record_borrow_release(&kind);
        assert_eq!((more.exotic_count, more.borrow_count), (1, 2));
    }
    assert_eq!(triple(&ContractCounts::new()), (0, 0, 0));
}

#[test]
fn followups_of_changes_at_the_front() {
    let mut last = LastInteraction::NonBlocking;
    assert_eq!(last.generate_followup(&BorrowKind::Empty), QueueActionFollowup::Done);
    assert_eq!(last, LastInteraction::NonBlocking);

    let mut last = LastInteraction::Blocked(BorrowKind::Ref);
    assert_eq!(last.generate_followup(&BorrowKind::Mut), QueueActionFollowup::Done);
    assert_eq!(last, LastInteraction::Blocked(BorrowKind::Ref));
    assert_eq!(last.generate_followup(&BorrowKind::Ref), QueueActionFollowup::Prompt);
    assert_eq!(last, LastInteraction::NonBlocking);

    let mut last = LastInteraction::Queue;
    assert_eq!(last.generate_followup(&BorrowKind::Mut), QueueActionFollowup::Done);
    assert_eq!(last.generate_followup(&BorrowKind::Ref), QueueActionFollowup::Prompt);
    assert_eq!(last, LastInteraction::Queue);
    assert_eq!(QueueActionFollowup::default(), QueueActionFollowup::Done);
}

#[test]
fn borrows_are_named_in_order() {
    let mut node = BorrowQueueNode::new_forward(None);
    let (first, _) = node.enqueue(3, BorrowKind::Ref);
    let (second, _) = node.enqueue(3, BorrowKind::Mut);
    assert_eq!((first.id.index, second.id.index), (0, 1));
    assert_eq!((first.node, second.node), (3, 3));
    let mut granted = BorrowKind::Empty;
    let mut due = Vec::new();
    node.waking_drain(&mut granted, &mut ContractCounts::new(), &mut due);
    assert!(node.get_mut(&first.id).is_none());
    assert_eq!(node.get_mut(&second.id).unwrap().kind, BorrowKind::Mut);
    assert!(node.get_mut(&BorrowId { index: 2 }).is_none());
    let (third, _) = node.enqueue(3, BorrowKind::Ref);
    assert_eq!(third.id.index, 2);
}

#[test]
fn a_borrow_is_granted_once_it_left_the_queue() {
    let mut node = node(&[BorrowKind::Ref]);
    let id = BorrowId { index: 0 };
    let (task, waker) = task();
    assert!(matches!(node.poll_at(&id, waker), Poll::Pending));
    let mut due = Vec::new();
    let mut granted = BorrowKind::Empty;
    node.waking_drain(&mut granted, &mut ContractCounts::new(), &mut due);
    assert_eq!(run(&mut due), 1);
    assert_eq!(woken(&task), 1);
    assert!(matches!(node.poll_at(&id, idle()), Poll::Ready(())));

    let mut nodes = vec![BorrowQueueNode::new_forward(None)];
    let (mut future, _) = nodes[0].enqueue(0, BorrowKind::Ref);
    assert!(matches!(future.poll(&mut nodes, idle()), Poll::Pending));
    nodes[0].waking_drain(&mut granted, &mut ContractCounts::new(), &mut due);
    assert!(matches!(future.poll(&mut nodes, idle()), Poll::Ready(())));
}

#[test]
fn a_borrow_can_be_given_up() {
    let mut node = node(&[BorrowKind::Mut, BorrowKind::Ref]);
    assert_eq!(node.close_waker(&BorrowId { index: 0 }), Some(()));
    assert_eq!(kinds(&node), vec![BorrowKind::Empty, BorrowKind::Ref]);
    assert_eq!(node.close_waker(&BorrowId { index: 2 }), None);
    let mut granted = BorrowKind::Ref;
    let mut due = Vec::new();
    let mut counts = counts(0, 1, 0);
    assert_eq!(
        node.waking_drain(&mut granted, &mut counts, &mut due),
        WakeContinuation::Await
    );
    assert_eq!(due.len(), 2);
    assert_eq!(triple(&counts), (0, 2, 0));
}

#[test]
fn changing_a_borrow() {
    let mut node = node(&[BorrowKind::Mut, BorrowKind::Mut]);
    node.last_interaction = LastInteraction::Blocked(BorrowKind::Ref);
    let (front, behind, gone) =
        (BorrowId { index: 0 }, BorrowId { index: 1 }, BorrowId { index: 2 });
    assert_eq!(node.try_change(&gone, BorrowKind::Ref), None);
    assert_eq!(node.try_change(&behind, BorrowKind::Ref), Some(QueueActionFollowup::Done));
    assert_eq!(node.try_change(&front, BorrowKind::Mut), Some(QueueActionFollowup::Done));
    assert_eq!(node.try_change(&front, BorrowKind::Ref), Some(QueueActionFollowup::Prompt));
    assert_eq!(kinds(&node), vec![BorrowKind::Ref, BorrowKind::Ref]);
    assert_eq!(node.last_interaction, LastInteraction::NonBlocking);
}

#[test]
fn enqueueing_prompts_only_at_the_front() {
    let mut node = BorrowQueueNode::new_forward(None);
    node.last_interaction = LastInteraction::Blocked(BorrowKind::Empty);
    assert_eq!(node.enqueue(0, BorrowKind::Mut).1, QueueActionFollowup::Prompt);
    node.last_interaction = LastInteraction::Blocked(BorrowKind::Empty);
    assert_eq!(node.enqueue(0, BorrowKind::Mut).1, QueueActionFollowup::Done);
}

#[test]
fn draining_grants_what_is_compatible() {
    for (start, queue, popped, last, end) in [
        (BorrowKind::Empty, vec![BorrowKind::Ref, BorrowKind::Empty, BorrowKind::Ref, BorrowKind::Mut], 3, BorrowKind::Ref, WakeContinuation::Complete),
        (BorrowKind::Empty, vec![BorrowKind::Mut, BorrowKind::Empty, BorrowKind::Ref], 2, BorrowKind::Mut, WakeContinuation::Complete),
        (BorrowKind::Empty, vec![BorrowKind::Ref, BorrowKind::Upgradable, BorrowKind::Ref], 2, BorrowKind::Upgradable, WakeContinuation::Complete),
        (BorrowKind::Ref, vec![BorrowKind::Mut], 0, BorrowKind::Ref, WakeContinuation::Complete),
        (BorrowKind::Ref, vec![BorrowKind::Ref, BorrowKind::Upgradable], 2, BorrowKind::Upgradable, WakeContinuation::Await),
        (BorrowKind::Upgradable, vec![BorrowKind::Empty, BorrowKind::Ref], 1, BorrowKind::Upgradable, WakeContinuation::Complete),
        (BorrowKind::Empty, vec![], 0, BorrowKind::Empty, WakeContinuation::Await),
    ] {
        let mut node = node(&queue);
        let mut granted = start;
        let mut due = Vec::new();
        let mut counts = ContractCounts::new();
        assert_eq!(node.waking_drain(&mut granted, &mut counts, &mut due), end);
        assert_eq!(granted, last);
        assert_eq!(node.popped, popped as u64);
        assert_eq!(due.len(), popped);
        assert_eq!(kinds(&node), queue[popped..].to_vec());
        assert_eq!(node.last_interaction, LastInteraction::Blocked(last));
        let held = queue[..popped].iter().filter(|kind| **kind != BorrowKind::Empty).count();
        assert_eq!(counts.borrow_count, held);
    }
    let mut node = node(&[BorrowKind::Ref]);
    node.status = NodeStatus::Shrinking;
    let mut granted = BorrowKind::Empty;
    let end = node.waking_drain(&mut granted, &mut ContractCounts::new(), &mut Vec::new());
    assert_eq!(end, WakeContinuation::Next);
    assert_eq!(node.last_interaction, LastInteraction::NonBlocking);
}

#[test]
fn an_upgrade_queue_lets_references_through() {
    let mut node = node(&[BorrowKind::Ref, BorrowKind::Empty, BorrowKind::Ref, BorrowKind::Mut, BorrowKind::Ref]);
    let mut due = Vec::new();
    let mut counts = counts(1, 1, 0);
    node.reduce_upgrade_buffer(&mut counts, &mut due);
    assert_eq!(due.len(), 3);
    assert_eq!(triple(&counts), (1, 3, 0));
    assert_eq!(kinds(&node), vec![BorrowKind::Mut, BorrowKind::Ref]);
}

#[test]
fn upgrades_are_queued_before_what_was_forwarded() {
    let (owner, waker) = task();
    let mut nodes = vec![node(&[BorrowKind::Ref])];
    let mut queue = BorrowQueue::Forwarded { owner: Some(waker), next: 0 };
    let first: BorrowFuture = queue.queue_upgrade(&mut nodes);
    assert_eq!((first.node, first.id.index), (1, 0));
    assert!(matches!(queue, BorrowQueue::Upgrading { upgrades: 1, .. }));
    assert_eq!(nodes[1].next, Some(0));
    assert_eq!(nodes[1].last_interaction, LastInteraction::Queue);
    let second = queue.queue_upgrade(&mut nodes);
    assert_eq!((second.node, second.id.index), (1, 1));
    assert_eq!(kinds(&nodes[1]), vec![BorrowKind::Mut, BorrowKind::Mut]);

    // no exotic reference is left
    queue.end_upgrading(&mut nodes);
    assert!(matches!(queue, BorrowQueue::Forwarded { next: 1, .. }));
    assert_eq!(nodes[1].status, NodeStatus::Shrinking);
    assert_eq!(nodes[1].last_interaction, LastInteraction::Blocked(BorrowKind::Ref));
    queue.end_upgrading(&mut nodes);
    assert!(matches!(queue, BorrowQueue::Forwarded { next: 1, .. }));
    assert!(queue.owner_waker().is_some());
    assert_eq!(woken(&owner), 0);

    let mut queue = BorrowQueue::new();
    let future = queue.queue_upgrade(&mut nodes);
    assert_eq!((future.node, nodes[2].next), (2, None));
}

#[test]
fn waking_goes_from_node_to_node() {
    let (owner, waker) = task();
    let mut nodes = vec![node(&[BorrowKind::Mut]), node(&[BorrowKind::Empty])];
    nodes[1].next = Some(0);
    nodes[1].status = NodeStatus::Shrinking;
    let mut queue = BorrowQueue::Forwarded { owner: Some(waker), next: 1 };
    let mut counts = ContractCounts::new();
    let mut due = Vec::new();
    let work = queue.wake_from(BorrowKind::Empty, &mut nodes, &mut counts, &mut due);
    assert_eq!(work, AdditionalWork::Noop);
    assert_eq!(due.len(), 2);
    assert_eq!(triple(&counts), (1, 1, 1));
    assert!(matches!(queue, BorrowQueue::Forwarded { next: 0, .. }));
    assert_eq!(nodes[1].next, None);
    assert_eq!(woken(&owner), 0);
}

#[test]
fn waking_reaches_the_owner_last() {
    let (owner, waker) = task();
    let mut nodes = vec![node(&[BorrowKind::Empty])];
    nodes[0].status = NodeStatus::Shrinking;
    let mut queue = BorrowQueue::Forwarded { owner: Some(waker), next: 0 };
    let mut counts = counts(0, 0, 4);
    let mut due = Vec::new();
    let work = queue.wake_from(BorrowKind::Empty, &mut nodes, &mut counts, &mut due);
    assert_eq!(work, AdditionalWork::Noop);
    assert_eq!(run(&mut due), 2);
    assert_eq!(woken(&owner), 1);
    assert_eq!(triple(&counts), (0, 0, 5));

    // without an owner the value is dropped, which is counted
    let work = queue.wake_from(BorrowKind::Empty, &mut nodes, &mut counts, &mut due);
    assert_eq!(work, AdditionalWork::Drop);
    assert_eq!(triple(&counts), (0, 0, 6));
    assert_eq!(due.len(), 0);

    // while something is held nobody is awoken
    let (owner, waker) = task();
    *queue.owner_waker() = Some(waker);
    let work = queue.wake_from(BorrowKind::Ref, &mut nodes, &mut counts, &mut due);
    assert_eq!(work, AdditionalWork::Noop);
    assert!(queue.owner_waker().is_some());
    assert_eq!((due.len(), woken(&owner)), (0, 0));
}

#[test]
fn a_blocked_node_waits_on() {
    let mut nodes = vec![node(&[BorrowKind::Mut])];
    let mut queue = BorrowQueue::Forwarded { owner: None, next: 0 };
    let mut due = Vec::new();
    let mut counts = counts(0, 1, 0);
    queue.wake_from(BorrowKind::Ref, &mut nodes, &mut counts, &mut due);
    assert!(matches!(queue, BorrowQueue::Forwarded { owner: None, next: 0 }));
    assert_eq!(kinds(&nodes[0]), vec![BorrowKind::Mut]);
    assert_eq!(due.len(), 0);
    counts.record_borrow_release(&BorrowKind::Ref);
    queue.wake_from(BorrowKind::Empty, &mut nodes, &mut counts, &mut due);
    assert_eq!(kinds(&nodes[0]), vec![]);
    assert_eq!((due.len(), triple(&counts)), (1, (1, 1, 1)));
}

#[test]
fn upgrades_are_granted_one_after_the_other() {
    let mut state = ContractState::new();
    let mut first = state.wakers.queue_upgrade(&mut state.nodes);
    let mut second = state.wakers.queue_upgrade(&mut state.nodes);
    state.wakers.end_upgrading(&mut state.nodes);
    assert_eq!(state.wake_from(BorrowKind::Empty), AdditionalWork::Noop);
    assert!(matches!(first.poll(&mut state.nodes, idle()), Poll::Ready(())));
    assert!(matches!(second.poll(&mut state.nodes, idle()), Poll::Pending));
    assert!(matches!(state.wakers, BorrowQueue::Forwarded { .. }));
    assert_eq!(triple(&state.counts), (1, 1, 1));
    // the second upgrade waits for the first to be given back
    assert_eq!(states::RefMut.un_track(&mut state), AdditionalWork::Noop);
    assert!(matches!(second.poll(&mut state.nodes, idle()), Poll::Ready(())));
    assert_eq!(triple(&state.counts), (1, 1, 2));
    assert_eq!(states::RefMut.un_track(&mut state), AdditionalWork::Drop);
}

#[test]
fn names_stay_with_their_borrows() {
    let mut nodes = vec![node(&[BorrowKind::Ref, BorrowKind::Mut, BorrowKind::Ref])];
    let last = BorrowId { index: 2 };
    nodes[0].close_waker(&BorrowId { index: 1 });
    nodes[0].waking_drain(&mut BorrowKind::Upgradable, &mut counts(1, 1, 0), &mut Vec::new());
    assert_eq!(nodes[0].popped, 0);
    let mut grant = BorrowKind::Ref;
    nodes[0].try_change(&last, BorrowKind::Mut);
    nodes[0].waking_drain(&mut grant, &mut counts(0, 1, 0), &mut Vec::new());
    assert_eq!(nodes[0].popped, 2);
    assert_eq!(nodes[0].get_mut(&last).map(|borrow| borrow.kind), Some(BorrowKind::Mut));
    assert!(nodes[0].get_mut(&BorrowId { index: 1 }).is_none());
    nodes[0].enqueue(0, BorrowKind::Ref);
    assert!(nodes[0].get_mut(&BorrowId { index: 1 }).is_none());
}

#[test]
fn casting_borrows() {
    let mut state = ContractState::new();
    state.counts = counts(1, 1, 1);
    state.silent_cast_borrow(&BorrowKind::Mut, &BorrowKind::Upgradable);
    assert_eq!(triple(&state.counts), (1, 1, 1));
    state.nodes.push(node(&[BorrowKind::Ref]));
    state.wakers = BorrowQueue::Forwarded { owner: None, next: 0 };
    state.cast_borrow(&BorrowKind::Upgradable, &BorrowKind::Ref);
    assert_eq!(triple(&state.counts), (0, 2, 1));
    assert_eq!(state.due.len(), 1);
    state.cast_borrow(&BorrowKind::Empty, &BorrowKind::Ref);
    assert_eq!(triple(&state.counts), (0, 3, 1));
    assert_eq!(state.reduce_borrow(&BorrowKind::Ref), AdditionalWork::Noop);
    assert_eq!(state.wake_from(BorrowKind::Ref), AdditionalWork::Noop);
}

#[test]
fn owners_and_hosts_let_go() {
    let mut state = ContractState::new();
    assert_eq!(Owner::init().un_track(&mut state), AdditionalWork::Drop);
    assert_eq!(triple(&state.counts), (0, 0, 1));
    let (_, waker) = task();
    *state.wakers.owner_waker() = Some(waker);
    state.counts = counts(0, 1, 1);
    assert_eq!(Owner::init().shared().un_track(&mut state), AdditionalWork::Noop);
    assert!(state.wakers.owner_waker().is_none());
    // the last borrow drops what the owner abandoned
    assert_eq!(states::Ref.un_track(&mut state), AdditionalWork::Drop);
    assert_eq!(triple(&state.counts), (0, 0, 2));
    assert!(matches!(Host.assert_unshared(), Owner));
    assert_eq!(Borrowless.un_track(&mut state), AdditionalWork::Noop);
    assert_eq!(Weak(2).un_track(&mut state), AdditionalWork::Noop);
    assert_eq!(state.cancel_reaquire(), None);
}

#[test]
fn the_last_exotic_reference_ends_upgrading() {
    let mut state = ContractState::new();
    state.counts = counts(1, 2, 0);
    state.wakers.queue_upgrade(&mut state.nodes);
    assert_eq!(UpgradableRef.un_track(&mut state), AdditionalWork::Noop);
    assert_eq!(triple(&state.counts), (0, 1, 0));
    assert!(matches!(state.wakers, BorrowQueue::Forwarded { next: 0, .. }));
    assert_eq!(state.nodes[0].status, NodeStatus::Shrinking);
    // the upgrade waits for the reference that is still held
    assert_eq!(kinds(&state.nodes[0]), vec![BorrowKind::Mut]);
    assert_eq!(states::Ref.un_track(&mut state), AdditionalWork::Noop);
    assert_eq!(kinds(&state.nodes[0]), vec![]);
    assert_eq!(triple(&state.counts), (1, 1, 1));

    // a mutable reference that is the last exotic one ends upgrading too
    let mut state = ContractState::new();
    state.counts = counts(1, 1, 1);
    state.wakers.queue_upgrade(&mut state.nodes);
    assert_eq!(states::RefMut.un_track(&mut state), AdditionalWork::Noop);
    assert!(!matches!(state.wakers, BorrowQueue::Upgrading { .. }));
    assert_eq!(triple(&state.counts), (1, 1, 2));

    let mut state = ContractState::new();
    state.counts = counts(1, 1, 0);
    state.wakers.queue_upgrade(&mut state.nodes);
    assert_eq!(UpgradableRef.un_track(&mut state), AdditionalWork::Noop);
    // nothing else was held, so the upgrade is granted
    assert_eq!(triple(&state.counts), (1, 1, 1));
    assert_eq!(state.due.len(), 1);
}

#[test]
fn what_references_allow() {
    assert_eq!(states::Ref::borrow_kind(), BorrowKind::Ref);
    assert_eq!(states::UpgradableRef::borrow_kind(), BorrowKind::Upgradable);
    assert_eq!(states::RefMut::borrow_kind(), BorrowKind::Upgradable);
    let mut owner = Owner::init();
    let (_, mut rf_mut) = (owner.share_ref(), owner.share_mut());
    let _: states::RefMut = rf_mut.use_as_forward();
    let upgradable = rf_mut.downgrade();
    let rf_mut = upgradable.clone().assert_unique();
    let _: states::Ref = rf_mut.into_ref();
    assert_eq!(upgradable.into_ref().downgrade(8).0, 8);
    assert!(Weak(8).try_upgrade(8).is_ok());
    assert!(Weak(8).try_upgrade(9).is_err());
}

fn pointer<S: PtrState>(state: S) -> Pointer<i32, S> {
    Pointer { inner: PointerInner { state, contract: PhantomData } }
}

#[test]
fn an_owner_takes_or_drops_its_value() {
    let (mut contract, owner) = Pointer::init_with(5);
    assert_eq!(owner.take_value(&mut contract), 5);
    assert!(contract.value.is_none());
    assert_eq!(contract.ref_count, 0);

    let (mut contract, owner) = Pointer::init_with(5);
    assert!(owner.release(&mut contract));
    assert!(contract.value.is_none());
    assert_eq!(contract.contract_state.counts.mut_number, 1);
}

#[test]
fn references_to_a_contract() {
    let (mut contract, owner) = Pointer::init_with(5);
    contract.contract_state.counts.record_borrow_acquire(&BorrowKind::Mut);
    contract.ref_count += 1;
    let mut rf_mut = pointer(states::RefMut);
    *rf_mut.get_mut(&mut contract) += 1;
    *rf_mut.deref_mut().get_mut(&mut contract) += 1;
    assert_eq!(*rf_mut.deref().get_ref(&contract), 7);

    let upgradable = rf_mut.downgrade(&mut contract);
    assert_eq!(triple(&contract.contract_state.counts), (1, 1, 1));
    let rf = upgradable.as_ref(&mut contract);
    assert_eq!(*rf.get_ref(&contract), 7);
    assert_eq!(triple(&contract.contract_state.counts), (1, 2, 1));
    assert_eq!(contract.ref_count, 3);
    let weak = rf.downgrade(&mut contract);
    let other = rf.downgrade(&mut contract);
    assert_eq!(contract.ref_count, 5);

    let upgraded = weak.upgrade(&mut contract).unwrap();
    assert_eq!(triple(&contract.contract_state.counts), (1, 3, 1));
    upgraded.release(&mut contract);
    rf.release(&mut contract);
    assert_eq!(triple(&contract.contract_state.counts), (1, 1, 1));

    let (task, waker) = task();
    *contract.contract_state.wakers.owner_waker() = Some(waker);
    upgradable.release(&mut contract);
    assert_eq!(triple(&contract.contract_state.counts), (0, 0, 2));
    assert_eq!(run(&mut contract.contract_state.due), 1);
    assert_eq!(woken(&task), 1);
    // the value went back to its owner since
    assert!(other.upgrade(&mut contract).is_none());
    assert_eq!(contract.ref_count, 1);
    assert_eq!(owner.take_value(&mut contract), 7);
}

#[test]
fn a_mutable_reference_turned_shared_lets_others_in() {
    let (mut contract, owner) = Pointer::init_with(5);
    contract.contract_state.counts.record_borrow_acquire(&BorrowKind::Mut);
    contract.contract_state.nodes.push(node(&[BorrowKind::Ref]));
    contract.contract_state.wakers = BorrowQueue::Forwarded { owner: None, next: 0 };
    contract.ref_count += 1;
    let rf = pointer(states::RefMut).into_ref(&mut contract);
    assert_eq!(triple(&contract.contract_state.counts), (0, 2, 1));
    assert_eq!(contract.contract_state.due.len(), 1);
    rf.release(&mut contract);
    assert_eq!(contract.ref_count, 1);
    assert_eq!(owner.take_value(&mut contract), 5);
}

fn awaiting(contract: &mut async_borrow::contract::Contract<i32>) -> PointerAwait<i32, states::Ref> {
    contract.contract_state.nodes.push(node(&[BorrowKind::Mut, BorrowKind::Ref]));
    contract.contract_state.wakers = BorrowQueue::Forwarded { owner: None, next: 0 };
    contract.ref_count += 1;
    let inner = PointerInner { state: states::Ref, contract: PhantomData };
    PointerAwait { id: BorrowId { index: 1 }, inner: Some((inner, 0)) }
}

#[test]
fn a_pointer_that_waits() {
    let (mut contract, owner) = Pointer::init_with(5);
    let mut future = awaiting(&mut contract);
    assert!(future.is_pollable());
    assert!(matches!(future.poll_val(&mut contract, idle()), Poll::Pending));
    contract.contract_state.nodes[0].close_waker(&BorrowId { index: 0 });
    contract.contract_state.wake_from(BorrowKind::Empty);
    assert_eq!(triple(&contract.contract_state.counts), (0, 1, 0));
    match future.poll_val(&mut contract, idle()) {
        Poll::Ready(rf) => {
            assert!(!future.is_pollable());
            assert_eq!(*rf.get_ref(&contract), 5);
        }
        Poll::Pending => panic!("the pointer still waits"),
    }
    future.release(&mut contract);
    assert_eq!(contract.ref_count, 2);
    assert_eq!(owner.take_value(&mut contract), 5);
}

#[test]
fn giving_up_a_pointer_that_waits() {
    let (mut contract, _owner) = Pointer::init_with(5);
    let future = awaiting(&mut contract);
    future.release(&mut contract);
    assert_eq!(
        kinds(&contract.contract_state.nodes[0]),
        vec![BorrowKind::Mut, BorrowKind::Empty]
    );
    assert_eq!((contract.ref_count, contract.value), (1, Some(5)));
}

#[test]
fn giving_up_a_pointer_that_was_granted() {
    let (mut contract, _owner) = Pointer::init_with(5);
    let future = awaiting(&mut contract);
    contract.contract_state.nodes[0].close_waker(&BorrowId { index: 0 });
    contract.contract_state.nodes[0].status = NodeStatus::Shrinking;
    contract.contract_state.wake_from(BorrowKind::Empty);
    future.release(&mut contract);
    // it was the last borrow, and no owner waits
    assert_eq!((contract.ref_count, contract.value), (1, None));
}

#[test]
fn wakers_of_borrows_are_replaced() {
    let mut borrow = BorrowWaker { kind: BorrowKind::Ref, waker: idle() };
    let (task, waker) = task();
    borrow.set_waker(waker);
    let mut due = Vec::new();
    borrow.wake(&mut due);
    assert_eq!(run(&mut due), 1);
    assert_eq!(woken(&task), 1);
}
