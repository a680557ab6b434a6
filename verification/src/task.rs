//! Cooperative tasks: a future with an id, and the executor that polls them.

pub mod simple_executor;

use core::future::Future;
use core::pin::Pin;
use core::sync::atomic::{AtomicU64, Ordering};
use core::task::{Context, Poll};
use vstd::prelude::*;

verus! {

/// `core::task::Context`: what a future is polled with.
#[verifier::external_type_specification]
#[verifier::external_body]
pub struct ExContext<'a>(Context<'a>);

/// `core::task::Poll`: what a poll of a future returns.
#[verifier::external_type_specification]
#[verifier::external_body]
#[verifier::reject_recursive_types(T)]
pub struct ExPoll<T>(Poll<T>);

/// The number of a task, by which the tasks of an executor are told apart.
#[derive(Debug, Clone, Copy, PartialEq, Eq, PartialOrd, Ord)]
pub struct TaskId(u64);

impl TaskId {
    /// Takes the next id from the counter `next_id` and moves the counter on.
    pub fn new(next_id: &AtomicU64) -> TaskId {
        TaskId::from_number(next_id.fetch_add(1, Ordering::Relaxed))
    }

    /// The id's number: the count at which the id was taken.
    pub closed spec fn number(self) -> u64 {
        self.0
    }

    /// The id with the given number.
    pub fn from_number(number: u64) -> (id: TaskId)
        ensures
            id.number() == number,
    {
        TaskId(number)
    }
}

/// A future that an executor polls until it is ready.
pub struct Task<F> {
    id: TaskId,
    future: F,
}

impl<F: Future<Output = ()> + Unpin> Task<F> {
    /// The task's id.
    pub closed spec fn id(&self) -> TaskId {
        self.id
    }

    /// The task's future, as far as it has come.
    pub closed spec fn future(&self) -> F {
        self.future
    }

    /// Creates a new task that wraps the given future, under the next id of the counter.
    pub fn new(future: F, next_id: &AtomicU64) -> (task: Task<F>)
        ensures
            task.future() == future,
    {
        Task { id: TaskId::new(next_id), future }
    }

    /// `Future::poll` on the task's future: polls it once. The task keeps its id; what the
    /// future does, and whether it is ready, is its own affair.
    #[verifier::external_body]
    pub(crate) fn poll(&mut self, context: &mut Context) -> (poll: Poll<()>)
        ensures
            final(self).id() == old(self).id(),
    {
        Pin::new(&mut self.future).poll(context)
    }
}

} // verus!
