//! A pool of a fixed number of workers that take jobs from one channel. The
//! pool keeps the books: which jobs wait, which worker still runs, and what
//! each worker is to do next. The threads themselves belong to the caller.

use crate::channel::{Channel, ChannelState, Received};
use vstd::prelude::*;

verus! {

/// What a pool holds.
pub struct PoolState<J> {
    /// The jobs that wait, the oldest first.
    pub queue: Seq<J>,
    /// Whether the pool has been shut down.
    pub closed: bool,
    /// For each worker, whether it still runs.
    pub running: Seq<bool>,
    /// Every job that the pool was given, the oldest first.
    pub submitted: Seq<J>,
    /// Every job that was handed to a worker, the oldest first.
    pub handed: Seq<J>,
}

impl<J> PoolState<J> {
    /// A pool of `size` running workers that was given nothing yet.
    pub open spec fn fresh(size: nat) -> PoolState<J> {
        PoolState {
            queue: Seq::empty(),
            closed: false,
            running: Seq::new(size, |i: int| true),
            submitted: Seq::empty(),
            handed: Seq::empty(),
        }
    }

    /// Whether the books are in order: every job given to the pool either
    /// waits or was handed to a worker, in the order in which the jobs came,
    /// and a worker has stopped only after shutdown, with no job waiting.
    pub open spec fn inv(self) -> bool {
        &&& self.running.len() > 0
        &&& self.submitted == self.handed + self.queue
        &&& (exists|w: int| 0 <= w < self.running.len() && !self.running[w]) ==> self.closed
            && self.queue.len() == 0
    }

    /// The state after `job` was given to the pool.
    pub open spec fn execute(self, job: J) -> PoolState<J> {
        PoolState { queue: self.queue.push(job), submitted: self.submitted.push(job), ..self }
    }

    /// The state after shutdown was asked for. The jobs that wait stay.
    pub open spec fn shutdown(self) -> PoolState<J> {
        PoolState { closed: true, ..self }
    }

    /// What the worker `worker` is to do next: run the oldest job that
    /// waits; or, with none waiting, stop if the pool is shut down and wait
    /// if it is not.
    pub open spec fn next_job(self) -> Received<J> {
        ChannelState { queue: self.queue, closed: self.closed }.received()
    }

    /// The state after the worker `worker` asked what to do next.
    pub open spec fn after_next_job(self, worker: int) -> PoolState<J> {
        if self.queue.len() > 0 {
            PoolState {
                queue: self.queue.drop_first(),
                handed: self.handed.push(self.queue[0]),
                ..self
            }
        } else if self.closed {
            PoolState { running: self.running.update(worker, false), ..self }
        } else {
            self
        }
    }

    /// Whether every worker has stopped.
    pub open spec fn terminated(self) -> bool {
        forall|w: int| 0 <= w < self.running.len() ==> !self.running[w]
    }
}

/// A new pool has its books in order.
pub proof fn lemma_fresh_pool<J>(size: nat)
    requires
        size > 0,
    ensures
        PoolState::<J>::fresh(size).inv(),
{
    let state = PoolState::<J>::fresh(size);
    assert(state.submitted =~= state.handed + state.queue);
}

/// Giving a job to a pool that is not shut down keeps the books in order.
pub proof fn lemma_execute_keeps_order<J>(state: PoolState<J>, job: J)
    requires
        state.inv(),
        !state.closed,
    ensures
        state.execute(job).inv(),
{
    let after = state.execute(job);
    assert(after.submitted =~= after.handed + after.queue);
    assert(after.running == state.running);
}

/// Shutting down keeps the books in order, and doing it twice is doing it
/// once.
pub proof fn lemma_shutdown_keeps_order<J>(state: PoolState<J>)
    requires
        state.inv(),
    ensures
        state.shutdown().inv(),
        state.shutdown().shutdown() == state.shutdown(),
{
    let after = state.shutdown();
    assert(after.running == state.running);
}

/// A worker that asks what to do next keeps the books in order.
pub proof fn lemma_next_job_keeps_order<J>(state: PoolState<J>, worker: int)
    requires
        state.inv(),
        0 <= worker < state.running.len(),
    ensures
        state.after_next_job(worker).inv(),
{
    let after = state.after_next_job(worker);
    if state.queue.len() > 0 {
        assert(after.submitted =~= after.handed + after.queue);
        assert(after.running == state.running);
    } else if state.closed {
        assert(after.submitted =~= after.handed + after.queue);
    }
}

/// Once every worker has stopped, every job that the pool was given has
/// been handed to a worker, in the order in which the jobs came: none was
/// dropped.
pub proof fn lemma_terminated_pool_dropped_nothing<J>(state: PoolState<J>)
    requires
        state.inv(),
        state.terminated(),
    ensures
        state.closed,
        state.queue.len() == 0,
        state.handed == state.submitted,
{
    assert(!state.running[0]);
    assert(state.handed + state.queue =~= state.handed);
}

/// One worker of a pool.
struct Worker {
    id: usize,
    running: bool,
}

impl Worker {
    /// A running worker.
    fn new(id: usize) -> (worker: Worker)
        ensures
            worker.id == id,
            worker.running,
    {
        Worker { id, running: true }
    }
}

/// A pool of workers and the jobs that wait for them.
pub struct ThreadPool<J> {
    workers: Vec<Worker>,
    channel: Channel<J>,
    submitted: Ghost<Seq<J>>,
    handed: Ghost<Seq<J>>,
}

impl<J> View for ThreadPool<J> {
    type V = PoolState<J>;

    closed spec fn view(&self) -> PoolState<J> {
        PoolState {
            queue: self.channel@.queue,
            closed: self.channel@.closed,
            running: Seq::new(self.workers.len() as nat, |i: int| self.workers[i].running),
            submitted: self.submitted@,
            handed: self.handed@,
        }
    }
}

impl<J> ThreadPool<J> {
    /// Whether the pool's books are in order.
    pub closed spec fn wf(&self) -> bool {
        &&& self@.inv()
        &&& forall|i: int| 0 <= i < self.workers.len() ==> (#[trigger] self.workers[i]).id == i
    }

    /// A pool of `size` workers, all running, with no job.
    pub fn new(size: usize) -> (pool: ThreadPool<J>)
        requires
            size > 0,
        ensures
            pool.wf(),
            pool@ == PoolState::<J>::fresh(size as nat),
    {
        let mut workers: Vec<Worker> = Vec::with_capacity(size);
        let mut id: usize = 0;
        while id < size
            invariant
                id <= size,
                workers.len() == id,
                forall|i: int|
                    0 <= i < id ==> (#[trigger] workers[i]).id == i && workers[i].running,
            decreases size - id,
        {
            workers.push(Worker::new(id));
            id += 1;
        }
        let pool = ThreadPool {
            workers,
            channel: Channel::new(),
            submitted: Ghost(Seq::empty()),
            handed: Ghost(Seq::empty()),
        };
        proof {
            assert(pool@.running =~= PoolState::<J>::fresh(size as nat).running);
            lemma_fresh_pool::<J>(size as nat);
        }
        pool
    }

    /// Gives `job` to the pool: it waits behind the jobs that wait already.
    /// Nothing comes back, and the caller does not wait. One waiting worker,
    /// if there is any, is to be woken after this.
    pub fn execute(&mut self, job: J)
        requires
            old(self).wf(),
            !old(self)@.closed,
        ensures
            final(self).wf(),
            final(self)@ == old(self)@.execute(job),
    {
        let ghost given = job;
        self.channel.send(job);
        self.submitted = Ghost(self.submitted@.push(given));
        proof {
            assert(self@.running =~= old(self)@.running);
            lemma_execute_keeps_order(old(self)@, given);
        }
    }

    /// Asks the workers to stop once no job waits. The jobs that wait are
    /// still handed out. Every waiting worker is to be woken after this.
    pub fn shutdown(&mut self)
        requires
            old(self).wf(),
        ensures
            final(self).wf(),
            final(self)@ == old(self)@.shutdown(),
    {
        self.channel.close();
        proof {
            assert(self@.running =~= old(self)@.running);
            lemma_shutdown_keeps_order(old(self)@);
        }
    }

    /// Tells the worker `worker` what to do next: run the job it is handed;
    /// wait and ask again; or stop, which the pool takes note of.
    pub fn next_job(&mut self, worker: usize) -> (next: Received<J>)
        requires
            old(self).wf(),
            worker < old(self)@.running.len(),
        ensures
            final(self).wf(),
            next == old(self)@.next_job(),
            final(self)@ == old(self)@.after_next_job(worker as int),
    {
        let next = self.channel.receive();
        match &next {
            Received::Item(job) => {
                self.handed = Ghost(self.handed@.push(*job));
                assert(self@.running =~= old(self)@.running);
            },
            Received::Closed => {
                self.workers[worker].running = false;
                assert(self@.running =~= old(self)@.running.update(worker as int, false));
            },
            Received::Wait => {
                assert(self@.running =~= old(self)@.running);
            },
        }
        proof {
            lemma_next_job_keeps_order(old(self)@, worker as int);
        }
        next
    }

    /// The number of workers.
    pub fn size(&self) -> (size: usize)
        ensures
            size == self@.running.len(),
    {
        self.workers.len()
    }

    /// Whether the pool has been shut down.
    pub fn is_shut_down(&self) -> (closed: bool)
        ensures
            closed == self@.closed,
    {
        self.channel.is_closed()
    }

    /// The number of jobs that wait.
    pub fn waiting(&self) -> (waiting: usize)
        ensures
            waiting == self@.queue.len(),
    {
        self.channel.len()
    }

    /// Whether every worker has stopped.
    pub fn is_terminated(&self) -> (terminated: bool)
        ensures
            terminated == self@.terminated(),
    {
        let mut i: usize = 0;
        while i < self.workers.len()
            invariant
                i <= self.workers.len(),
                forall|w: int| 0 <= w < i ==> !self@.running[w],
            decreases self.workers.len() - i,
        {
            if self.workers[i].running {
                assert(self@.running[i as int]);
                return false;
            }
            i += 1;
        }
        true
    }
}

} // verus!
