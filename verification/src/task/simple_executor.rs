//! An executor that polls its tasks in turn, in the order in which they were spawned.

use crate::task::{Task, TaskId};
use core::future::Future;
use core::task::{Context, Poll, Waker};
use std::collections::VecDeque;
use vstd::prelude::*;

verus! {

/// `core::task::Waker`: what a future wakes its task with.
#[verifier::external_type_specification]
#[verifier::external_body]
pub struct ExWaker(Waker);

/// `Waker::noop`: a waker that does nothing when it is woken.
#[verifier::external_body]
fn dummy_waker() -> (waker: &'static Waker) {
    Waker::noop()
}

/// `Context::from_waker`: a context that holds the waker.
#[verifier::external_body]
fn context_from_waker<'a>(waker: &'a Waker) -> (context: Context<'a>) {
    Context::from_waker(waker)
}

/// `Poll::is_ready`: whether the poll found the future completed.
#[verifier::external_body]
fn poll_is_ready(poll: &Poll<()>) -> (ready: bool) {
    poll.is_ready()
}

/// The queue after the task at its front was polled: a task that is ready has left, one that
/// is pending has gone to the end.
pub open spec fn after_poll(queue: Seq<TaskId>, ready: bool) -> Seq<TaskId> {
    if ready {
        queue.drop_first()
    } else {
        queue.drop_first().push(queue.first())
    }
}

/// The queue after one poll for each of `outcomes`, each of the task that was then at the front.
pub open spec fn after_polls(queue: Seq<TaskId>, outcomes: Seq<bool>) -> Seq<TaskId>
    decreases outcomes.len(),
{
    if outcomes.len() == 0 {
        queue
    } else {
        after_poll(after_polls(queue, outcomes.drop_last()), outcomes.last())
    }
}

/// An executor that keeps its tasks in a queue and polls the one at the front.
pub struct SimpleExecutor<F> {
    task_queue: VecDeque<Task<F>>,
}

impl<F: Future<Output = ()> + Unpin> SimpleExecutor<F> {
    /// The ids of the tasks in the queue, the one that is polled next first.
    pub closed spec fn ids(&self) -> Seq<TaskId> {
        self.task_queue@.map_values(|task: Task<F>| task.id())
    }

    /// Creates a new executor without tasks.
    pub fn new() -> (executor: SimpleExecutor<F>)
        ensures
            executor.ids() == Seq::<TaskId>::empty(),
    {
        let executor = SimpleExecutor { task_queue: VecDeque::new() };
        assert(executor.ids() =~= Seq::<TaskId>::empty());
        executor
    }

    /// Spawns a task: it joins the end of the queue.
    pub fn spawn(&mut self, task: Task<F>)
        ensures
            final(self).ids() == old(self).ids().push(task.id()),
    {
        self.task_queue.push_back(task);
        assert(self.ids() =~= old(self).ids().push(task.id()));
    }

    /// The number of tasks in the queue.
    pub fn task_count(&self) -> (count: usize)
        ensures
            count == self.ids().len(),
    {
        self.task_queue.len()
    }

    /// Puts a task that was polled back where it belongs: nowhere if it is ready, at the end of
    /// the queue if it is pending.
    pub fn settle(&mut self, task: Task<F>, ready: bool)
        ensures
            final(self).ids() == if ready {
                old(self).ids()
            } else {
                old(self).ids().push(task.id())
            },
    {
        if !ready {
            self.task_queue.push_back(task);
            assert(self.ids() =~= old(self).ids().push(task.id()));
        }
    }

    /// Runs the executor until no task is left or `max_polls` polls were made, and returns the
    /// number of polls.
    ///
    /// Each poll takes the task at the front of the queue and polls it once; a task that is
    /// not ready goes back to the end of the queue.
    pub fn run(&mut self, max_polls: usize) -> (polls: usize)
        ensures
            polls <= max_polls,
            polls < max_polls ==> final(self).ids().len() == 0,
            exists|outcomes: Seq<bool>|
                outcomes.len() == polls && final(self).ids() == #[trigger] after_polls(
                    old(self).ids(),
                    outcomes,
                ),
    {
        let mut polls: usize = 0;
        let ghost mut outcomes: Seq<bool> = Seq::empty();
        while polls < max_polls
            invariant
                polls <= max_polls,
                outcomes.len() == polls,
                self.ids() == after_polls(old(self).ids(), outcomes),
            decreases max_polls - polls,
        {
            let ghost before = self.ids();
            match self.task_queue.pop_front() {
                Some(mut task) => {
                    assert(self.ids() =~= before.drop_first());
                    assert(task.id() == before.first());
                    let waker = dummy_waker();
                    let mut context = context_from_waker(waker);
                    let poll = task.poll(&mut context);
                    let ready: bool = poll_is_ready(&poll);
                    self.settle(task, ready);
                    proof {
                        assert(outcomes.push(ready).drop_last() =~= outcomes);
                        outcomes = outcomes.push(ready);
                    }
                    polls += 1;
                },
                None => {
                    return polls;
                },
            }
        }
        polls
    }
}

} // verus!
