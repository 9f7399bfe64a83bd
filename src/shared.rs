//! Entry points on the process-wide executor.
//!
//! The process keeps one executor behind a lock. Each entry point takes what
//! the attempt to take that lock produced: the executor when the lock was
//! free, or `None` when it is held (a pass is running, say, and the call
//! comes from a unit being polled). A busy executor is never waited for:
//! the entry point does nothing and says so, and the caller tries again later.
use crate::executor::{retained, Executor, Pendable};
use vstd::prelude::*;

verus! {

/// Submits `task` and drives one poll pass, returning the pass's reports as
/// `Executor::run` does; hands `task` back when the executor is busy.
pub fn run<T: Pendable>(default: Option<&mut Executor<T>>, task: T) -> (r: Result<Vec<bool>, T>)
    ensures
        match default {
            Some(exec) => r matches Ok(pending) && {
                &&& final(exec).active()
                &&& pending@.len() == exec.queue().len() + 1
                &&& forall|i: int|
                    0 <= i < pending@.len() ==> call_ensures(
                        T::is_pending,
                        (&exec.queue().push(task)[i],),
                        #[trigger] pending@[i],
                    )
                &&& final(exec).queue() == retained(exec.queue().push(task), pending@)
            },
            None => r == Err::<Vec<bool>, T>(task),
        },
{
    match default {
        Some(exec) => Ok(exec.run(task)),
        None => Err(task),
    }
}

/// Drives one poll pass, returning its reports as `Executor::poll_tasks`
/// does; returns `None`, polling nothing, when the executor is busy.
pub fn poll_tasks<T: Pendable>(default: Option<&mut Executor<T>>) -> (r: Option<Vec<bool>>)
    ensures
        match default {
            Some(exec) => r matches Some(pending) && {
                &&& final(exec).active()
                &&& pending@.len() == exec.queue().len()
                &&& forall|i: int|
                    0 <= i < pending@.len() ==> call_ensures(
                        T::is_pending,
                        (&exec.queue()[i],),
                        #[trigger] pending@[i],
                    )
                &&& final(exec).queue() == retained(exec.queue(), pending@)
            },
            None => r is None,
        },
{
    match default {
        Some(exec) => Some(exec.poll_tasks()),
        None => None,
    }
}

/// A unit waiting to be submitted by a callback that the host runs later.
/// The unit is handed over the first time the callback finds the executor
/// free; later firings find nothing to submit.
pub struct Deferred<T> {
    task: Option<T>,
}

impl<T> Deferred<T> {
    /// The unit still waiting, if it has not been submitted yet.
    pub closed spec fn held(&self) -> Option<T> {
        self.task
    }

    /// Whether the unit is still waiting.
    pub fn is_waiting(&self) -> (r: bool)
        ensures
            r == self.held().is_some(),
    {
        self.task.is_some()
    }
}

/// Prepares `task` for submission by a later callback; nothing is submitted
/// or polled now.
pub fn coroutine<T>(task: T) -> (d: Deferred<T>)
    ensures
        d.held() == Some(task),
{
    Deferred { task: Some(task) }
}

impl<T: Pendable> Deferred<T> {
    /// One firing of the callback against `exec`. On the first firing the
    /// unit is submitted and one poll pass runs, with the reports returned as
    /// by `Executor::run`, the last one being the unit's own; later firings
    /// poll nothing and return no reports.
    pub fn fire_into(&mut self, exec: &mut Executor<T>) -> (pending: Vec<bool>)
        ensures
            final(self).held() is None,
            match old(self).held() {
                Some(t) => {
                    &&& final(exec).active()
                    &&& pending@.len() == old(exec).queue().len() + 1
                    &&& forall|i: int|
                        0 <= i < pending@.len() ==> call_ensures(
                            T::is_pending,
                            (&old(exec).queue().push(t)[i],),
                            #[trigger] pending@[i],
                        )
                    &&& final(exec).queue() == retained(old(exec).queue().push(t), pending@)
                },
                None => *final(exec) == *old(exec) && pending@.len() == 0,
            },
    {
        match self.task.take() {
            Some(t) => exec.run(t),
            None => Vec::new(),
        }
    }

    /// One firing of the callback against the process-wide executor, as
    /// `fire_into` when the executor is free. When it is busy nothing
    /// changes, the unit keeps waiting, and `None` tells the caller to fire
    /// again later.
    pub fn fire(&mut self, default: Option<&mut Executor<T>>) -> (r: Option<Vec<bool>>)
        ensures
            match default {
                Some(exec) => r matches Some(pending) && final(self).held() is None && match old(
                    self,
                ).held() {
                    Some(t) => {
                        &&& final(exec).active()
                        &&& pending@.len() == exec.queue().len() + 1
                        &&& forall|i: int|
                            0 <= i < pending@.len() ==> call_ensures(
                                T::is_pending,
                                (&exec.queue().push(t)[i],),
                                #[trigger] pending@[i],
                            )
                        &&& final(exec).queue() == retained(exec.queue().push(t), pending@)
                    },
                    None => *final(exec) == *exec && pending@.len() == 0,
                },
                None => r is None && *final(self) == *old(self),
            },
    {
        match default {
            Some(exec) => Some(self.fire_into(exec)),
            None => None,
        }
    }
}

} // verus!
