//! The state that a pool's workers share, and the decisions that the
//! workers and the pool take on it: tasks wait in a first-in first-out
//! queue, and a shutdown request stops every worker.

use std::collections::VecDeque;
use vstd::prelude::*;

verus! {

/// A unit of work that a pool runs on one of its workers.
pub trait Task {
    /// Does the work.
    fn execute(&self);
}

/// What a worker does next.
pub enum WorkerStep<T> {
    /// Nothing to run yet: sleep until a task arrives or shutdown is asked.
    Wait,
    /// The pool is shutting down: leave the worker loop.
    Exit,
    /// The task to execute, once the lock is released.
    Run(T),
}

/// The abstract state shared by the workers: the queued tasks, oldest
/// first, and whether shutdown has been requested.
pub ghost struct PoolView<T> {
    pub queue: Seq<T>,
    pub shutdown: bool,
}

impl<T> PoolView<T> {
    /// The state after `task` is queued.
    pub open spec fn pushed(self, task: T) -> PoolView<T> {
        PoolView { queue: self.queue.push(task), shutdown: self.shutdown }
    }

    /// The state after every task of `tasks` is queued, in order.
    pub open spec fn pushed_all(self, tasks: Seq<T>) -> PoolView<T> {
        PoolView { queue: self.queue + tasks, shutdown: self.shutdown }
    }

    /// The state after shutdown is requested.
    pub open spec fn shut_down(self) -> PoolView<T> {
        PoolView { queue: self.queue, shutdown: true }
    }

    /// What a worker that takes the lock in this state decides, and the
    /// state it leaves behind: once shutdown is requested it exits, tasks
    /// still queued or not; otherwise it takes the oldest task, or waits
    /// when there is none.
    pub open spec fn step(self) -> (WorkerStep<T>, PoolView<T>) {
        if self.shutdown {
            (WorkerStep::Exit, self)
        } else if self.queue.len() == 0 {
            (WorkerStep::Wait, self)
        } else {
            (
                WorkerStep::Run(self.queue[0]),
                PoolView { queue: self.queue.drop_first(), shutdown: self.shutdown },
            )
        }
    }

    /// The tasks handed out by `k` successive worker steps from this
    /// state, up to the first step that does not run a task.
    pub open spec fn run_order(self, k: nat) -> Seq<T>
        decreases k,
    {
        if k == 0 {
            Seq::empty()
        } else {
            match self.step() {
                (WorkerStep::Run(t), next) => seq![t] + next.run_order((k - 1) as nat),
                _ => Seq::empty(),
            }
        }
    }

    /// The state after `k` successive worker steps from this state.
    pub open spec fn after_steps(self, k: nat) -> PoolView<T>
        decreases k,
    {
        if k == 0 {
            self
        } else {
            self.step().1.after_steps((k - 1) as nat)
        }
    }
}

/// A pool that is not shutting down hands out its queued tasks one per
/// worker step, oldest first, and then has its workers wait.
proof fn lemma_drain<T>(s: PoolView<T>)
    requires
        !s.shutdown,
    ensures
        s.run_order(s.queue.len()) == s.queue,
        s.after_steps(s.queue.len()) == (PoolView::<T> { queue: Seq::empty(), shutdown: false }),
    decreases s.queue.len(),
{
    if s.queue.len() > 0 {
        let next = s.step().1;
        lemma_drain(next);
        assert(seq![s.queue[0]] + next.queue =~= s.queue);
    } else {
        assert(s.queue =~= Seq::<T>::empty());
    }
}

/// Tasks run in the order in which they were queued: when tasks `tasks`
/// are queued on a pool that is not shutting down, the workers' next steps
/// run first the tasks queued before, then `tasks` in order, after which
/// a worker waits.
pub proof fn lemma_fifo<T>(s: PoolView<T>, tasks: Seq<T>)
    requires
        !s.shutdown,
    ensures
        s.pushed_all(tasks).run_order(s.queue.len() + tasks.len()) == s.queue + tasks,
        s.pushed_all(tasks).after_steps(s.queue.len() + tasks.len()).step().0 is Wait,
{
    lemma_drain(s.pushed_all(tasks));
}

/// Queuing one task after another is queuing the two in order.
pub proof fn lemma_push_twice<T>(s: PoolView<T>, a: T, b: T)
    ensures
        s.pushed(a).pushed(b) == s.pushed_all(seq![a, b]),
{
    assert(s.queue.push(a).push(b) =~= s.queue + seq![a, b]);
}

/// Once shutdown is requested, no task runs again: whatever is queued
/// afterwards, every worker step exits and leaves the state unchanged.
pub proof fn lemma_shutdown_final<T>(s: PoolView<T>, tasks: Seq<T>, k: nat)
    ensures
        s.shut_down().pushed_all(tasks).step() == (
        WorkerStep::<T>::Exit,
        s.shut_down().pushed_all(tasks),
        ),
        s.shut_down().pushed_all(tasks).run_order(k) == Seq::<T>::empty(),
        s.shut_down().pushed_all(tasks).after_steps(k) == s.shut_down().pushed_all(tasks),
    decreases k,
{
    if k > 0 {
        lemma_shutdown_final(s, tasks, (k - 1) as nat);
    }
}

/// No task is lost or made up: a step that runs a task takes exactly that
/// task off the front of the queue, and a step that runs none leaves the
/// queue as it was.
pub proof fn lemma_step_conserves<T>(s: PoolView<T>)
    ensures
        s.step().0 matches WorkerStep::Run(t) ==> s.queue == seq![t] + s.step().1.queue,
        !(s.step().0 is Run) ==> s.step().1 == s,
        s.step().1.shutdown == s.shutdown,
{
    if !s.shutdown && s.queue.len() > 0 {
        assert(s.queue =~= seq![s.queue[0]] + s.queue.drop_first());
    }
}

/// The data that the pool shares with its workers under one lock.
pub struct PoolSharedData<T> {
    task_queue: VecDeque<T>,
    shutdown_flag: bool,
}

impl<T> View for PoolSharedData<T> {
    type V = PoolView<T>;

    closed spec fn view(&self) -> PoolView<T> {
        PoolView { queue: self.task_queue@, shutdown: self.shutdown_flag }
    }
}

impl<T> PoolSharedData<T> {
    /// An empty queue, with no shutdown requested.
    pub fn new() -> (d: Self)
        ensures
            d@.queue == Seq::<T>::empty(),
            !d@.shutdown,
    {
        PoolSharedData { task_queue: VecDeque::with_capacity(128), shutdown_flag: false }
    }

    /// Queues `task` behind every task already queued.
    pub fn push_task(&mut self, task: T)
        ensures
            final(self)@ == old(self)@.pushed(task),
    {
        self.task_queue.push_back(task);
    }

    /// Asks every worker to stop; tasks still queued are not run.
    pub fn request_shutdown(&mut self)
        ensures
            final(self)@ == old(self)@.shut_down(),
    {
        self.shutdown_flag = true;
    }

    /// Whether shutdown has been requested.
    pub fn is_shutdown(&self) -> (b: bool)
        ensures
            b == self@.shutdown,
    {
        self.shutdown_flag
    }

    /// Decides what a worker holding the lock does next, and takes the
    /// task it is to run off the queue.
    pub fn next_step(&mut self) -> (r: WorkerStep<T>)
        ensures
            (r, final(self)@) == old(self)@.step(),
    {
        if self.shutdown_flag {
            return WorkerStep::Exit;
        }
        match self.task_queue.pop_front() {
            Some(task) => {
                proof {
                    assert(self.task_queue@ =~= old(self)@.queue.drop_first());
                }
                WorkerStep::Run(task)
            },
            None => WorkerStep::Wait,
        }
    }
}

} // verus!
