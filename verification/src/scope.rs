//! What a pool of spawned tasks does when it is polled.
//!
//! A pool has a channel on which tasks arrive and a collection of tasks that run. Polling it takes
//! in all tasks that have arrived, and then asks the running tasks for an output. [`Pool`] is
//! told what the channel and the tasks answered, and tells what to do next.
use vstd::prelude::*;

pub mod laws;

verus! {

/// How far a poll has come.
#[derive(Debug, Clone, Copy, PartialEq, Eq, Structural)]
pub enum PoolStage {
    /// The poll has not begun, or is over.
    Idle,
    /// Tasks are taken in.
    Receiving,
    /// The running tasks are asked for an output, and more may arrive.
    Running,
    /// The running tasks are asked for an output, and no more will arrive.
    Finishing,
}

/// What happened.
#[derive(Debug, Clone, Copy, PartialEq, Eq, Structural)]
pub enum PoolEvent {
    /// The pool was polled.
    Polled {
        /// Whether the channel has already been found closed.
        receiver_terminated: bool,
    },
    /// A task arrived on the channel.
    Received,
    /// The channel is closed.
    Closed {
        /// Whether no task runs.
        tasks_terminated: bool,
    },
    /// No task has arrived yet.
    Waiting {
        /// Whether no task runs.
        tasks_terminated: bool,
    },
    /// A task ended with an output.
    Output,
    /// No task runs.
    Exhausted {
        /// Whether the channel has been found closed.
        receiver_terminated: bool,
    },
    /// No running task has ended yet.
    Busy,
}

/// What to do next.
#[derive(Debug, Clone, Copy, PartialEq, Eq, Structural)]
pub enum PoolAction {
    /// Poll the channel.
    PollReceiver,
    /// Run the task that arrived, and poll the channel again.
    PushTask,
    /// Poll the running tasks.
    PollTasks,
    /// Answer the poll with the output.
    Yield,
    /// Answer the poll with the end of the stream.
    End,
    /// Answer that there is nothing yet.
    Wait,
}

/// A pool of tasks, as far as its polls go: the channel and the tasks are elsewhere.
pub struct Pool {
    /// How far the poll has come.
    pub stage: PoolStage,
}

impl PoolStage {
    /// Whether `event` can happen at this stage.
    pub open spec fn expects(self, event: PoolEvent) -> bool {
        match self {
            PoolStage::Idle => event is Polled,
            PoolStage::Receiving => event is Received || event is Closed || event is Waiting,
            PoolStage::Running | PoolStage::Finishing => event is Output || event is Exhausted
                || event is Busy,
        }
    }

    /// The next stage, and what to do.
    pub open spec fn after(self, event: PoolEvent) -> (PoolStage, PoolAction) {
        match event {
            PoolEvent::Polled { receiver_terminated } => if receiver_terminated {
                (PoolStage::Finishing, PoolAction::PollTasks)
            } else {
                (PoolStage::Receiving, PoolAction::PollReceiver)
            },
            PoolEvent::Received => (PoolStage::Receiving, PoolAction::PushTask),
            PoolEvent::Closed { tasks_terminated } => if tasks_terminated {
                (PoolStage::Idle, PoolAction::End)
            } else {
                (PoolStage::Running, PoolAction::PollTasks)
            },
            PoolEvent::Waiting { tasks_terminated } => if tasks_terminated {
                (PoolStage::Idle, PoolAction::Wait)
            } else {
                (PoolStage::Running, PoolAction::PollTasks)
            },
            PoolEvent::Output => (PoolStage::Idle, PoolAction::Yield),
            PoolEvent::Exhausted { receiver_terminated } => if receiver_terminated || self
                == PoolStage::Finishing {
                (PoolStage::Idle, PoolAction::End)
            } else {
                (PoolStage::Idle, PoolAction::Wait)
            },
            PoolEvent::Busy => (PoolStage::Idle, PoolAction::Wait),
        }
    }
}

impl Pool {
    /// A pool that is not polled.
    pub fn new() -> (pool: Self)
        ensures
            pool.stage == PoolStage::Idle,
    {
        Pool { stage: PoolStage::Idle }
    }

    /// Takes note of `event`, and tells what to do next. A poll begins with
    /// [`PoolEvent::Polled`], and is over with an action that answers it.
    pub fn poll_next(&mut self, event: PoolEvent) -> (action: PoolAction)
        requires
            old(self).stage.expects(event),
        ensures
            (final(self).stage, action) == old(self).stage.after(event),
    {
        let finishing: bool = self.stage == PoolStage::Finishing;
        let (stage, action) = match event {
            PoolEvent::Polled { receiver_terminated } => if receiver_terminated {
                (PoolStage::Finishing, PoolAction::PollTasks)
            } else {
                (PoolStage::Receiving, PoolAction::PollReceiver)
            },
            PoolEvent::Received => (PoolStage::Receiving, PoolAction::PushTask),
            PoolEvent::Closed { tasks_terminated } => if tasks_terminated {
                (PoolStage::Idle, PoolAction::End)
            } else {
                (PoolStage::Running, PoolAction::PollTasks)
            },
            PoolEvent::Waiting { tasks_terminated } => if tasks_terminated {
                (PoolStage::Idle, PoolAction::Wait)
            } else {
                (PoolStage::Running, PoolAction::PollTasks)
            },
            PoolEvent::Output => (PoolStage::Idle, PoolAction::Yield),
            PoolEvent::Exhausted { receiver_terminated } => if receiver_terminated || finishing {
                (PoolStage::Idle, PoolAction::End)
            } else {
                (PoolStage::Idle, PoolAction::Wait)
            },
            PoolEvent::Busy => (PoolStage::Idle, PoolAction::Wait),
        };
        self.stage = stage;
        action
    }

    /// Whether a pool is done: no task runs, and none will arrive.
    pub fn is_terminated(tasks_terminated: bool, receiver_terminated: bool) -> (terminated: bool)
        ensures
            terminated == (tasks_terminated && receiver_terminated),
    {
        tasks_terminated && receiver_terminated
    }
}

} // verus!
