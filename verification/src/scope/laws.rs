//! What holds of a pool over any number of polls.
//!
//! A pool is seen together with the spawners that send to it. Tasks are told apart by the order in
//! which they were sent.
use vstd::prelude::*;
use crate::scope::{Pool, PoolAction, PoolEvent, PoolStage};

verus! {

/// A pool, its channel and its tasks.
#[verifier::ext_equal]
pub struct PoolView {
    /// Whether there is a spawner left.
    pub open: bool,
    /// The number of tasks that were sent.
    pub sent: nat,
    /// The tasks that are on the channel, first the one that was sent first.
    pub arriving: Seq<nat>,
    /// The tasks that run.
    pub running: Set<nat>,
    /// The tasks whose output was yielded, first the one that was yielded first.
    pub yielded: Seq<nat>,
    /// Whether the channel has been found closed.
    pub receiver_terminated: bool,
    /// Whether it has been found that no task runs, and none was taken in since.
    pub tasks_terminated: bool,
    /// How far the poll has come.
    pub stage: PoolStage,
}

/// Something that happens.
pub enum PoolStep {
    /// A task is sent.
    Spawn,
    /// The last spawner is dropped.
    HangUp,
    /// The pool takes note of an event, which is about `task` if it is about one, and does what is
    /// to be done with that.
    Event { event: PoolEvent, task: nat },
}

impl PoolView {
    /// A pool to which nothing was sent.
    pub open spec fn new() -> PoolView {
        PoolView {
            open: true,
            sent: 0,
            arriving: Seq::empty(),
            running: Set::empty(),
            yielded: Seq::empty(),
            receiver_terminated: false,
            tasks_terminated: false,
            stage: PoolStage::Idle,
        }
    }

    /// Whether every task that was sent is in one place: on the channel, among those that run, or
    /// among those whose output was yielded.
    pub open spec fn wf(self) -> bool {
        &&& forall|task: nat| #[trigger] self.arriving.contains(task) ==> task < self.sent
        &&& forall|task: nat| #[trigger] self.running.contains(task) ==> task < self.sent
        &&& forall|task: nat| #[trigger] self.yielded.contains(task) ==> task < self.sent
        &&& forall|task: nat|
            task < self.sent ==> self.arriving.contains(task) || self.running.contains(task)
                || #[trigger] self.yielded.contains(task)
        &&& forall|task: nat| #[trigger]
            self.arriving.contains(task) ==> !self.running.contains(task)
                && !self.yielded.contains(task)
        &&& forall|task: nat| #[trigger]
            self.running.contains(task) ==> !self.yielded.contains(task)
        &&& self.arriving.no_duplicates()
        &&& self.yielded.no_duplicates()
        &&& self.receiver_terminated ==> !self.open && self.arriving.len() == 0
        &&& self.tasks_terminated ==> self.running == Set::<nat>::empty()
        &&& self.stage == PoolStage::Finishing ==> self.receiver_terminated
    }

    /// Whether nothing more will be sent, and the output of everything that was is yielded.
    pub open spec fn done(self) -> bool {
        !self.open && forall|task: nat| task < self.sent ==> #[trigger] self.yielded.contains(task)
    }

    /// Whether `step` leads from this to `after`. An event tells what the channel or the tasks
    /// answered, and what becomes of a task is what was to be done.
    pub open spec fn leads(self, after: PoolView, step: PoolStep) -> bool {
        match step {
            PoolStep::Spawn => {
                &&& self.open
                &&& after == (PoolView {
                    sent: self.sent + 1,
                    arriving: self.arriving.push(self.sent),
                    ..self
                })
            },
            PoolStep::HangUp => self.open && after == (PoolView { open: false, ..self }),
            PoolStep::Event { event, task } => {
                let next = PoolView { stage: self.stage.after(event).0, ..self };
                &&& self.stage.expects(event)
                &&& match event {
                    PoolEvent::Polled { receiver_terminated } => {
                        receiver_terminated == self.receiver_terminated && after == next
                    },
                    PoolEvent::Received => {
                        &&& self.arriving.len() > 0
                        &&& task == self.arriving[0]
                        &&& after == (PoolView {
                            arriving: self.arriving.drop_first(),
                            running: self.running.insert(task),
                            tasks_terminated: false,
                            ..next
                        })
                    },
                    PoolEvent::Closed { tasks_terminated } => {
                        &&& !self.open && self.arriving.len() == 0
                        &&& tasks_terminated == self.tasks_terminated
                        &&& after == (PoolView { receiver_terminated: true, ..next })
                    },
                    PoolEvent::Waiting { tasks_terminated } => {
                        &&& self.open && self.arriving.len() == 0
                        &&& tasks_terminated == self.tasks_terminated
                        &&& after == next
                    },
                    PoolEvent::Output => {
                        &&& self.running.contains(task)
                        &&& after == (PoolView {
                            running: self.running.remove(task),
                            yielded: self.yielded.push(task),
                            ..next
                        })
                    },
                    PoolEvent::Exhausted { receiver_terminated } => {
                        &&& self.running == Set::<nat>::empty()
                        &&& receiver_terminated == self.receiver_terminated
                        &&& after == (PoolView { tasks_terminated: true, ..next })
                    },
                    PoolEvent::Busy => self.running != Set::<nat>::empty() && after == next,
                }
            },
        }
    }
}

/// Whether the steps lead from each pool to the next, and the first is a new one.
pub open spec fn history(pools: Seq<PoolView>, steps: Seq<PoolStep>) -> bool {
    &&& pools.len() == steps.len() + 1
    &&& pools[0] == PoolView::new()
    &&& forall|i: int, j: int|
        #![trigger pools[i], pools[j]]
        0 <= i < steps.len() && j == i + 1 ==> pools[i].leads(pools[j], steps[i])
}

/// No step loses a task, or has it in two places.
proof fn lemma_step(before: PoolView, after: PoolView, step: PoolStep)
    requires
        before.wf(),
        before.leads(after, step),
    ensures
        after.wf(),
{
    match step {
        PoolStep::Spawn => {
            assert(after.arriving[after.arriving.len() - 1] == before.sent);
            assert forall|task: nat| #[trigger] after.arriving.contains(task) implies task
                == before.sent || before.arriving.contains(task) by {
                let i = after.arriving.index_of(task);
                if i < before.arriving.len() {
                    assert(before.arriving[i] == task);
                }
            }
            assert forall|task: nat| before.arriving.contains(task) implies
                #[trigger] after.arriving.contains(task) by {
                assert(after.arriving[before.arriving.index_of(task)] == task);
            }
            assert(after.arriving.contains(before.sent));
            assert(after.arriving.no_duplicates()) by {
                assert forall|i: int, j: int|
                    0 <= i < j < after.arriving.len() implies after.arriving[i]
                    != after.arriving[j] by {
                    assert(before.arriving.contains(before.arriving[i]));
                }
            }
        },
        PoolStep::HangUp => {},
        PoolStep::Event { event, task } => {
            match event {
                PoolEvent::Received => {
                    let rest = before.arriving.drop_first();
                    assert forall|other: nat| #[trigger] rest.contains(other) implies
                        before.arriving.contains(other) && other != task by {
                        let i = rest.index_of(other);
                        assert(before.arriving[i + 1] == other);
                    }
                    assert forall|other: nat|
                        #[trigger] before.arriving.contains(other) && other != task implies
                        rest.contains(other) by {
                        let i = before.arriving.index_of(other);
                        assert(rest[i - 1] == other);
                    }
                    assert(before.arriving.contains(task));
                    assert(rest.no_duplicates());
                },
                PoolEvent::Output => {
                    let more = before.yielded.push(task);
                    assert(more[more.len() - 1] == task);
                    assert forall|other: nat| #[trigger] more.contains(other) implies other == task
                        || before.yielded.contains(other) by {
                        let i = more.index_of(other);
                        if i < before.yielded.len() {
                            assert(before.yielded[i] == other);
                        }
                    }
                    assert forall|other: nat| before.yielded.contains(other) implies
                        #[trigger] more.contains(other) by {
                        assert(more[before.yielded.index_of(other)] == other);
                    }
                    assert(more.contains(task));
                    assert(more.no_duplicates()) by {
                        assert forall|i: int, j: int| 0 <= i < j < more.len() implies more[i]
                            != more[j] by {
                            assert(before.yielded.contains(before.yielded[i]));
                        }
                    }
                },
                _ => {},
            }
        },
    }
}

/// Whatever happens, every task that was sent is in one place, and every output that was yielded is
/// that of one such task, each yielded once.
pub proof fn law_tasks_are_kept(pools: Seq<PoolView>, steps: Seq<PoolStep>)
    requires
        history(pools, steps),
    ensures
        pools.last().wf(),
        pools.last().yielded.no_duplicates(),
        forall|i: int|
            0 <= i < pools.last().yielded.len() ==> #[trigger] pools.last().yielded[i]
                < pools.last().sent,
    decreases steps.len(),
{
    if steps.len() == 0 {
        assert(pools.last() == pools[0]);
    } else {
        let (shorter, fewer) = (pools.drop_last(), steps.drop_last());
        assert forall|i: int, j: int|
            #![trigger shorter[i], shorter[j]]
            0 <= i < fewer.len() && j == i + 1 implies shorter[i].leads(shorter[j], fewer[i]) by {
            assert(shorter[i] == pools[i] && shorter[j] == pools[j]);
        }
        assert(shorter[0] == pools[0]);
        law_tasks_are_kept(shorter, fewer);
        assert(shorter.last() == pools[pools.len() - 2]);
        assert(pools[pools.len() - 1] == pools.last());
        assert(fewer.len() == steps.len() - 1);
        assert(pools[pools.len() - 2].leads(pools[pools.len() - 1], steps[steps.len() - 1]));
        lemma_step(shorter.last(), pools.last(), steps[steps.len() - 1]);
    }
    let last = pools.last();
    assert forall|i: int| 0 <= i < last.yielded.len() implies #[trigger] last.yielded[i]
        < last.sent by {
        assert(last.yielded.contains(last.yielded[i]));
    }
}

/// A poll yields exactly if a task ended with an output, and then the output of one task that had
/// not been yielded.
pub proof fn law_yields_outputs(before: PoolView, after: PoolView, event: PoolEvent, task: nat)
    requires
        before.wf(),
        before.leads(after, PoolStep::Event { event, task }),
    ensures
        before.stage.after(event).1 == PoolAction::Yield <==> event is Output,
        before.stage.after(event).1 == PoolAction::Yield ==> {
            &&& task < before.sent
            &&& !before.yielded.contains(task)
            &&& after.yielded == before.yielded.push(task)
        },
        before.stage.after(event).1 != PoolAction::Yield ==> after.yielded == before.yielded,
{
}

/// A pool ends its stream only once there is no spawner left and the output of every task is
/// yielded. It is terminated then.
pub proof fn law_end_is_final(before: PoolView, after: PoolView, event: PoolEvent, task: nat)
    requires
        before.wf(),
        before.leads(after, PoolStep::Event { event, task }),
        before.stage.after(event).1 == PoolAction::End,
    ensures
        after.done(),
        after.tasks_terminated && after.receiver_terminated,
{
    assert(before.running =~= Set::empty());
    assert forall|other: nat| other < after.sent implies #[trigger] after.yielded.contains(
        other,
    ) by {
        assert(!before.running.contains(other));
        assert(!before.arriving.contains(other));
        assert(before.yielded.contains(other));
    }
}

/// Once there is no spawner left and the output of every task is yielded, a poll ends the stream: at
/// once if the channel and the tasks have been asked before, and else after asking them.
pub proof fn law_done_pool_ends(
    idle: PoolView,
    polled: PoolView,
    asked: PoolView,
    over: PoolView,
    first: PoolEvent,
    second: PoolEvent,
    third: PoolEvent,
    task: nat,
)
    requires
        idle.wf(),
        idle.done(),
        idle.stage == PoolStage::Idle,
        idle.leads(polled, PoolStep::Event { event: first, task }),
        polled.leads(asked, PoolStep::Event { event: second, task }),
        asked.leads(over, PoolStep::Event { event: third, task }),
    ensures
        polled.stage != PoolStage::Idle,
        ({
            ||| polled.stage.after(second).1 == PoolAction::End
            ||| {
                &&& asked.stage != PoolStage::Idle
                &&& asked.stage.after(third).1 == PoolAction::End
            }
        }),
        idle.receiver_terminated ==> polled.stage.after(second).1 == PoolAction::End,
{
    assert(idle.arriving.len() == 0) by {
        if idle.arriving.len() > 0 {
            assert(idle.arriving.contains(idle.arriving[0]));
            assert(idle.yielded.contains(idle.arriving[0]));
        }
    }
    assert forall|other: nat| !#[trigger] idle.running.contains(other) by {
        if idle.running.contains(other) {
            assert(idle.yielded.contains(other));
        }
    }
    assert(idle.running =~= Set::empty());
}

/// Whether the steps make up one poll: it begins, and the last event answers it. Tasks may be sent
/// meanwhile, and spawners dropped.
pub open spec fn one_poll(pools: Seq<PoolView>, steps: Seq<PoolStep>) -> bool {
    &&& pools.len() == steps.len() + 1
    &&& steps.len() >= 1
    &&& pools[0].wf()
    &&& pools[0].stage == PoolStage::Idle
    &&& steps[0] is Event
    &&& forall|i: int| 1 <= i < steps.len() ==> (#[trigger] pools[i]).stage != PoolStage::Idle
    &&& pools.last().stage == PoolStage::Idle
    &&& steps.last() is Event
    &&& forall|i: int, j: int|
        #![trigger pools[i], pools[j]]
        0 <= i < steps.len() && j == i + 1 ==> pools[i].leads(pools[j], steps[i])
}

/// What the poll is answered with.
pub open spec fn answer(pools: Seq<PoolView>, steps: Seq<PoolStep>) -> PoolAction {
    pools[steps.len() - 1].stage.after(steps.last()->event).1
}

/// A poll ends the stream exactly if there is no spawner left and the output of every task was
/// yielded; the pool is terminated then. It yields the output of one task that had not been yielded,
/// or else is answered that there is nothing yet, and then nothing was yielded. The last spawner may
/// go while the poll is under way, and only then may it be answered either way.
pub proof fn law_poll_answers(pools: Seq<PoolView>, steps: Seq<PoolStep>)
    requires
        one_poll(pools, steps),
    ensures
        ({
            let (first, last) = (pools[0], pools.last());
            let answer = answer(pools, steps);
            &&& last.wf()
            &&& first.open == last.open ==> (answer == PoolAction::End <==> first.done())
            &&& first.done() ==> answer == PoolAction::End
            &&& answer == PoolAction::End ==> {
                &&& last.done()
                &&& last.tasks_terminated && last.receiver_terminated
                &&& last.yielded == first.yielded
            }
            &&& answer == PoolAction::Yield ==> {
                &&& last.yielded == first.yielded.push(steps.last()->task)
                &&& !first.yielded.contains(steps.last()->task)
                &&& steps.last()->task < last.sent
            }
            &&& answer == PoolAction::End || answer == PoolAction::Yield || answer
                == PoolAction::Wait
            &&& answer == PoolAction::Wait ==> last.yielded == first.yielded
        }),
{
    let n = steps.len() - 1;
    lemma_during_poll(pools, steps, n);
    let (before, last) = (pools[n], pools[n + 1]);
    let (event, task) = (steps.last()->event, steps.last()->task);
    assert(last == pools.last());
    assert(before.leads(last, steps[n]));
    assert(steps[n] == (PoolStep::Event { event, task }));
    lemma_step(before, last, steps[n]);
    law_answers_end_the_poll(before.stage, event);
    law_yields_outputs(before, last, event, task);
    if answer(pools, steps) == PoolAction::End {
        law_end_is_final(before, last, event, task);
        if !pools[0].open {
            assert forall|other: nat| other < pools[0].sent implies
                #[trigger] pools[0].yielded.contains(other) by {
                assert(last.yielded.contains(other));
            }
        }
    }
    if n == 0 {
        assert(event is Polled);
    }
}

/// Before a poll is answered nothing is yielded. If all was done when it began, the channel and the
/// tasks have nothing to tell but that.
proof fn lemma_during_poll(pools: Seq<PoolView>, steps: Seq<PoolStep>, at: int)
    requires
        one_poll(pools, steps),
        0 <= at < steps.len(),
    ensures
        ({
            let (first, now) = (pools[0], pools[at]);
            &&& now.wf()
            &&& !first.open ==> !now.open && now.sent == first.sent
            &&& now.yielded == first.yielded
            &&& first.done() ==> {
                &&& now.arriving.len() == 0
                &&& now.running == Set::<nat>::empty()
                &&& now.stage == PoolStage::Running ==> now.receiver_terminated
            }
        }),
    decreases at,
{
    if at == 0 {
        let first = pools[0];
        if first.done() {
            if first.arriving.len() > 0 {
                assert(first.arriving.contains(first.arriving[0]));
                assert(first.yielded.contains(first.arriving[0]));
            }
            assert forall|task: nat| !#[trigger] first.running.contains(task) by {
                if first.running.contains(task) {
                    assert(first.yielded.contains(task));
                }
            }
            assert(first.running =~= Set::empty());
        }
    } else {
        lemma_during_poll(pools, steps, at - 1);
        let (before, now) = (pools[at - 1], pools[at]);
        assert(before.leads(now, steps[at - 1]));
        lemma_step(before, now, steps[at - 1]);
        assert(now.stage != PoolStage::Idle);
    }
}

/// While there is a spawner left, no poll ends the stream, also if no task is left to run.
pub proof fn law_open_pool_does_not_end(
    before: PoolView,
    after: PoolView,
    event: PoolEvent,
    task: nat,
)
    requires
        before.wf(),
        before.open,
        before.leads(after, PoolStep::Event { event, task }),
    ensures
        before.stage.after(event).1 != PoolAction::End,
{
}

/// A pool that is done stays done: nothing can be sent to it.
pub proof fn law_done_is_for_ever(before: PoolView, after: PoolView, step: PoolStep)
    requires
        before.wf(),
        before.done(),
        before.leads(after, step),
    ensures
        after.done(),
{
    if let PoolStep::Event { event, task } = step {
        match event {
            PoolEvent::Output => {
                assert(before.yielded.contains(task));
            },
            PoolEvent::Received => {
                assert(before.arriving.contains(task));
                assert(before.yielded.contains(task));
            },
            _ => {
                assert(after.yielded == before.yielded && after.sent == before.sent);
            },
        }
    }
}

/// A poll is over exactly once it is answered.
pub proof fn law_answers_end_the_poll(stage: PoolStage, event: PoolEvent)
    requires
        stage.expects(event),
    ensures
        stage.after(event).0 == PoolStage::Idle <==> {
            ||| stage.after(event).1 == PoolAction::Yield
            ||| stage.after(event).1 == PoolAction::End
            ||| stage.after(event).1 == PoolAction::Wait
        },
{
}

/// What is to be done fits the stage that the poll is left in: the running tasks are polled exactly
/// while they are asked for an output, the channel is polled exactly while tasks are taken in, and a
/// task is run exactly if one arrived. So whatever is polled answers with an event that is expected.
pub proof fn law_action_fits_stage(stage: PoolStage, event: PoolEvent)
    requires
        stage.expects(event),
    ensures
        ({
            let (next, action) = stage.after(event);
            &&& action == PoolAction::PollTasks <==> next == PoolStage::Running || next
                == PoolStage::Finishing
            &&& action == PoolAction::PollReceiver || action == PoolAction::PushTask <==> next
                == PoolStage::Receiving
            &&& action == PoolAction::PushTask <==> event is Received
            &&& forall|answer: PoolEvent| #[trigger]
                next.expects(answer) <==> match action {
                    PoolAction::PollTasks => answer is Output || answer is Exhausted
                        || answer is Busy,
                    PoolAction::PollReceiver | PoolAction::PushTask => answer is Received
                        || answer is Closed || answer is Waiting,
                    PoolAction::Yield | PoolAction::End | PoolAction::Wait => answer is Polled,
                }
        }),
{
}

/// A poll takes in every task that has arrived before it asks for an output: it begins with the
/// channel unless that was found closed, goes on with it after every task, and turns to the running
/// tasks only once nothing is left on it.
pub proof fn law_tasks_are_taken_in_first(
    before: PoolView,
    after: PoolView,
    event: PoolEvent,
    task: nat,
)
    requires
        before.wf(),
        before.leads(after, PoolStep::Event { event, task }),
    ensures
        before.stage.after(event).1 == PoolAction::PollTasks ==> after.arriving.len() == 0,
        before.stage.after(event).1 == PoolAction::PollTasks ==> !after.open || event is Waiting,
        event is Polled && !before.receiver_terminated ==> before.stage.after(event).1
            == PoolAction::PollReceiver,
        event is Polled && before.receiver_terminated ==> before.stage.after(event).1
            == PoolAction::PollTasks,
        event is Received ==> {
            &&& after.stage == PoolStage::Receiving
            &&& after.running == before.running.insert(before.arriving[0])
        },
        before.stage == PoolStage::Receiving && before.arriving.len() > 0 ==> event is Received,
        after.stage == PoolStage::Finishing ==> after.receiver_terminated,
{
}

/// A poll asks the running tasks for an output before it answers: once the channel has nothing more
/// to give, tasks that may run are polled, and the poll answers that there is nothing yet only if
/// tasks run and none has ended, or none runs and more may be sent.
pub proof fn law_running_tasks_are_polled(
    before: PoolView,
    after: PoolView,
    event: PoolEvent,
    task: nat,
)
    requires
        before.wf(),
        before.leads(after, PoolStep::Event { event, task }),
    ensures
        (event is Closed || event is Waiting) && before.running != Set::<nat>::empty()
            ==> before.stage.after(event).1 == PoolAction::PollTasks,
        before.stage.after(event).1 == PoolAction::Wait ==> {
            ||| event is Busy && after.running != Set::<nat>::empty()
            ||| after.running == Set::<nat>::empty() && !after.receiver_terminated
        },
        before.stage.after(event).1 == PoolAction::Yield <==> event is Output,
        event is Output ==> {
            &&& before.running.contains(task)
            &&& !after.running.contains(task)
            &&& after.yielded == before.yielded.push(task)
        },
{
}

/// The stream ends exactly if the channel is found closed and no task runs.
pub proof fn law_stream_ends_when_drained(
    before: PoolView,
    after: PoolView,
    event: PoolEvent,
    task: nat,
)
    requires
        before.wf(),
        before.leads(after, PoolStep::Event { event, task }),
    ensures
        before.stage.after(event).1 == PoolAction::End <==> {
            &&& after.receiver_terminated
            &&& after.tasks_terminated
            &&& event is Closed || event is Exhausted
        },
{
}

/// What a call tells to do, event by event. A poll begins with the channel unless that is closed, and
/// then with the tasks. A task that arrived is run. Once nothing arrives the tasks are polled, unless
/// none runs; the poll is answered with an output if there is one, with the end if no task runs and
/// none will arrive, and otherwise that there is nothing yet.
pub proof fn law_poll_next_tells_what_to_do(pool: &mut Pool, event: PoolEvent, action: PoolAction)
    requires
        old(pool).stage.expects(event),
        call_ensures(Pool::poll_next, (pool, event), action),
    ensures
        event == (PoolEvent::Polled { receiver_terminated: false }) ==> action
            == PoolAction::PollReceiver && final(pool).stage == PoolStage::Receiving,
        event == (PoolEvent::Polled { receiver_terminated: true }) ==> action
            == PoolAction::PollTasks && final(pool).stage == PoolStage::Finishing,
        event is Received ==> action == PoolAction::PushTask && final(pool).stage
            == PoolStage::Receiving,
        event == (PoolEvent::Closed { tasks_terminated: true }) ==> action == PoolAction::End,
        event == (PoolEvent::Waiting { tasks_terminated: true }) ==> action == PoolAction::Wait,
        event == (PoolEvent::Closed { tasks_terminated: false }) || event == (PoolEvent::Waiting {
            tasks_terminated: false,
        }) ==> action == PoolAction::PollTasks && final(pool).stage == PoolStage::Running,
        event is Output ==> action == PoolAction::Yield,
        event is Busy ==> action == PoolAction::Wait,
        event is Exhausted ==> (action == PoolAction::End <==> event == (PoolEvent::Exhausted {
            receiver_terminated: true,
        }) || old(pool).stage == PoolStage::Finishing),
        event is Exhausted ==> action == PoolAction::End || action == PoolAction::Wait,
        final(pool).stage == PoolStage::Idle <==> action == PoolAction::Yield || action
            == PoolAction::End || action == PoolAction::Wait,
        action == PoolAction::PollTasks <==> {
            ||| final(pool).stage == PoolStage::Running
            ||| final(pool).stage == PoolStage::Finishing
        },
        action == PoolAction::PollReceiver || action == PoolAction::PushTask <==> final(pool).stage
            == PoolStage::Receiving,
        action == PoolAction::PushTask <==> event is Received,
{
}

} // verus!
