use async_borrow::collections::{Immutable, Isolated, Moveable, Mutable, Pinned};
use async_borrow::graph::{Graph, Node, END};
use async_borrow::inner::{First, FuturePtr, Index, SharedPtr};
use async_borrow::scope::{Pool, PoolAction, PoolEvent, PoolStage};
use async_borrow::Poll;
use std::task::Waker;

fn idle() -> Waker {
    futures::task::noop_waker()
}

#[test]
fn free_nodes_form_a_chain() {
    let nodes = Node::new_free_chain(3);
    assert_eq!(nodes.iter().map(|node| node.next).collect::<Vec<_>>(), vec![1, 2, 3]);
    assert!(nodes.iter().all(|node| node.version == 0 && node.branch.is_none()));
    assert!(Node::new_free_chain(0).is_empty());
}

#[test]
fn versions_are_odd_while_referenced_weakly() {
    let mut node = Node { next: 0, version: 4, branch: None };
    assert_eq!(node.log_weak_ref(), 5);
    assert_eq!(node.log_weak_ref(), 5);
    node.flush_weak_refs();
    assert_eq!(node.version, 6);
    node.flush_weak_refs();
    assert_eq!(node.version, 6);
}

#[test]
fn nodes_are_used_from_the_front_and_reused_first() {
    let mut graph = Graph::with_capacity(2);
    let root = graph.share();
    assert_eq!(root, 0);
    let first = graph.forward(root);
    assert_eq!(first, 1);
    assert!(!graph.untrack_borrow_unchecked(first));
    assert!(matches!(graph.poll_unchecked(first, idle()), Poll::Ready(0)));
    assert_eq!(graph.forward(root), 1);
    graph.track_borrow_unchecked(1);
    assert_eq!(graph.forward(1), 2);
    assert_eq!(graph.forward(1), 3);
}

#[test]
fn an_empty_arena_grows() {
    let mut graph = Graph::with_capacity(0);
    assert_eq!(graph.share(), 0);
    assert!(!graph.close_future_unchecked(0));
    assert!(graph.untrack_borrow_unchecked(0));
    assert_eq!(graph.share(), 0);
}

#[test]
fn freeing_climbs_to_the_root() {
    let mut graph = Graph::new();
    let root = graph.share();
    let child = graph.forward(root);
    let grandchild = graph.forward(child);
    assert!(!graph.close_future_unchecked(root));
    assert!(!graph.close_future_unchecked(child));
    assert!(!graph.close_future_unchecked(grandchild));
    assert!(graph.untrack_borrow_unchecked(grandchild));
    assert_eq!(graph.take_due().len(), 0);
    assert_eq!(graph.share(), 0);
}

#[test]
fn freeing_stops_at_a_future_that_waits() {
    let mut graph = Graph::new();
    let root = graph.share();
    let child = graph.forward(root);
    assert!(!graph.close_future_unchecked(child));
    assert!(!graph.untrack_borrow_unchecked(child));
    assert_eq!(graph.take_due().len(), 1);
    assert!(matches!(graph.poll_unchecked(root, idle()), Poll::Ready(END)));
}

#[test]
fn weak_references_fail_once_the_branch_is_freed() {
    let mut graph = Graph::new();
    let root = graph.share();
    let version = graph.track_weak_unchecked(root);
    assert_eq!(version, 1);
    assert!(graph.try_upgrade_weak_unchecked(root, version));
    assert!(!graph.untrack_borrow_unchecked(root));
    assert!(!graph.untrack_borrow_unchecked(root));
    graph.poll_unchecked(root, idle());
    assert!(!graph.try_upgrade_weak_unchecked(root, version));
    assert_eq!(graph.share(), root);
    assert!(!graph.try_upgrade_weak_unchecked(root, version));
    assert_eq!(graph.track_weak_unchecked(root), 3);
}

#[test]
fn raw_pointers_count_themselves() {
    let (mut inner, mut shared) = SharedPtr::new(1);
    let other = shared.clone(&mut inner);
    *shared.get_mut(&mut inner) = 2;
    assert_eq!(*other.get_ref(&inner), 2);
    assert!(!other.release(&mut inner));
    assert!(shared.release(&mut inner));
    assert_eq!((First.get(), 4usize.get()), (0, 4));
    let answered: FuturePtr<i32, First> = FuturePtr { shared: None, index: First };
    assert!(answered.is_terminated());
    assert!(answered.generalise().is_terminated());
}

fn steps(events: &[PoolEvent]) -> Vec<PoolAction> {
    let mut pool = Pool::new();
    let actions = events.iter().map(|event| pool.poll_next(*event)).collect();
    assert_eq!(pool.stage, PoolStage::Idle);
    actions
}

#[test]
fn a_pool_takes_tasks_in_before_it_runs_them() {
    let actions = steps(&[
        PoolEvent::Polled { receiver_terminated: false },
        PoolEvent::Received,
        PoolEvent::Received,
        PoolEvent::Waiting { tasks_terminated: false },
        PoolEvent::Output,
    ]);
    assert_eq!(
        actions,
        vec![
            PoolAction::PollReceiver,
            PoolAction::PushTask,
            PoolAction::PushTask,
            PoolAction::PollTasks,
            PoolAction::Yield,
        ]
    );
}

#[test]
fn a_pool_waits_for_tasks() {
    let polled = PoolEvent::Polled { receiver_terminated: false };
    let waiting = |tasks_terminated| PoolEvent::Waiting { tasks_terminated };
    assert_eq!(steps(&[polled, waiting(true)])[1], PoolAction::Wait);
    let exhausted = PoolEvent::Exhausted { receiver_terminated: false };
    assert_eq!(steps(&[polled, waiting(false), exhausted])[2], PoolAction::Wait);
    assert_eq!(steps(&[polled, waiting(false), PoolEvent::Busy])[2], PoolAction::Wait);
}

#[test]
fn a_pool_ends_once_nothing_runs_and_nothing_arrives() {
    let polled = PoolEvent::Polled { receiver_terminated: false };
    let closed = |tasks_terminated| PoolEvent::Closed { tasks_terminated };
    assert_eq!(steps(&[polled, closed(true)])[1], PoolAction::End);
    let exhausted = PoolEvent::Exhausted { receiver_terminated: true };
    assert_eq!(steps(&[polled, closed(false), exhausted])[2], PoolAction::End);
    let finishing = PoolEvent::Polled { receiver_terminated: true };
    assert_eq!(steps(&[finishing, exhausted])[1], PoolAction::End);
    assert_eq!(steps(&[finishing, PoolEvent::Output])[1], PoolAction::Yield);
    assert_eq!(steps(&[finishing, PoolEvent::Busy])[1], PoolAction::Wait);
    assert!(Pool::is_terminated(true, true));
    assert!(!Pool::is_terminated(true, false));
    assert!(!Pool::is_terminated(false, true));
}

#[test]
fn markers_are_distinct_types() {
    assert_eq!((Moveable, Pinned), (Moveable, Pinned));
    assert_eq!((Isolated, Immutable, Mutable), (Isolated, Immutable, Mutable));
}

#[test]
fn limits_can_be_asked_for() {
    let mut graph = Graph::with_capacity(0);
    assert!(graph.has_room());
    assert!(!graph.can_track(0) && !graph.can_track_weak(0));
    let root = graph.share();
    assert!(graph.can_track(root) && graph.can_track_weak(root));
    assert!(!graph.can_track(root + 1) && !graph.can_track_weak(root + 1));
}

#[test]
fn the_capacity_is_not_observed() {
    let run = |capacity: usize| {
        let mut graph = Graph::with_capacity(capacity);
        let root = graph.share();
        let mut seen = vec![root];
        let first = graph.forward(root);
        graph.track_borrow_unchecked(first);
        let second = graph.forward(first);
        seen.extend([first, second]);
        let version = graph.track_weak_unchecked(second);
        graph.close_future_unchecked(second);
        graph.untrack_borrow_unchecked(second);
        let third = graph.forward(first);
        assert!(!graph.try_upgrade_weak_unchecked(third, version));
        seen.push(third);
        seen
    };
    assert_eq!(run(0), run(7));
    assert_eq!(run(7), run(100));
    assert_eq!(run(7), vec![0, 1, 2, 2]);
}

#[test]
fn a_pool_yields_each_output_once_and_ends() {
    // one task is taken in and ends; the spawners are gone
    let actions = steps(&[
        PoolEvent::Polled { receiver_terminated: false },
        PoolEvent::Received,
        PoolEvent::Closed { tasks_terminated: false },
        PoolEvent::Output,
        PoolEvent::Polled { receiver_terminated: true },
        PoolEvent::Exhausted { receiver_terminated: true },
        PoolEvent::Polled { receiver_terminated: true },
        PoolEvent::Exhausted { receiver_terminated: true },
    ]);
    assert_eq!(actions.iter().filter(|action| **action == PoolAction::Yield).count(), 1);
    assert_eq!(actions.iter().filter(|action| **action == PoolAction::End).count(), 2);
}
