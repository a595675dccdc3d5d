//! The scheduler: changes to the index are handed to a pool of workers, so
//! that whoever asks for them never waits for the index.

use crate::channel::Received;
use crate::inverted_index::tokenize::tokens_of;
use crate::inverted_index::{IndexState, InvertedIndex};
use crate::threadpool::{PoolState, ThreadPool};
use vstd::prelude::*;

verus! {

/// A change to the index.
pub enum Task {
    /// Add the document stored at this path.
    AddDocument(String),
    /// Delete the document with this id.
    DeleteDocument(u64),
}

impl Task {
    /// The index after the task. `content` is what was read at the path of
    /// a document to add, `None` where it could not be read.
    pub open spec fn effect(self, state: IndexState, content: Option<Seq<char>>) -> IndexState {
        match self {
            Task::AddDocument(path) => match content {
                Some(text) => state.add(path@, tokens_of(text)),
                None => state,
            },
            Task::DeleteDocument(id) => state.delete(id),
        }
    }

    /// The path of the content that is to be removed from storage after the
    /// task: that of a deleted document which the catalogue held.
    pub open spec fn leftover(self, state: IndexState) -> Option<Seq<char>> {
        match self {
            Task::DeleteDocument(id) if state.documents.contains_key(id) => Some(
                state.documents[id],
            ),
            _ => None,
        }
    }

    /// Carries the task out on `index`. For a document to add, `content` is
    /// what was read at its path, `None` where it could not be read: the
    /// task then changes nothing. A deletion always takes the document out
    /// of the index; what is handed back is the path of its content, which
    /// is the caller's to remove.
    pub fn perform(self, index: &mut InvertedIndex, content: Option<&str>) -> (removed: Option<
        String,
    >)
        requires
            old(index).wf(),
        ensures
            final(index).wf(),
            final(index)@ == self.effect(
                old(index)@,
                match content {
                    Some(text) => Some(text@),
                    None => None,
                },
            ),
            match removed {
                Some(path) => self.leftover(old(index)@) == Some(path@),
                None => self.leftover(old(index)@) is None,
            },
    {
        match self {
            Task::AddDocument(path) => {
                index.add_document(path, content);
                None
            },
            Task::DeleteDocument(id) => index.delete_document(id),
        }
    }
}

/// Hands changes to the index to a pool of workers of its own.
pub struct Scheduler {
    thread_pool: ThreadPool<Task>,
}

impl View for Scheduler {
    type V = PoolState<Task>;

    closed spec fn view(&self) -> PoolState<Task> {
        self.thread_pool@
    }
}

impl Scheduler {
    /// Whether the pool's books are in order.
    pub closed spec fn wf(&self) -> bool {
        self.thread_pool.wf()
    }

    /// A scheduler with `num_threads` workers and nothing to do.
    pub fn new(num_threads: usize) -> (scheduler: Scheduler)
        requires
            num_threads > 0,
        ensures
            scheduler.wf(),
            scheduler@ == PoolState::<Task>::fresh(num_threads as nat),
    {
        Scheduler { thread_pool: ThreadPool::new(num_threads) }
    }

    /// Schedules `task` and returns at once: the task waits for a worker.
    /// When it is carried out, and whether before or after a task scheduled
    /// later, is up to the workers.
    pub fn run(&mut self, task: Task)
        requires
            old(self).wf(),
            !old(self)@.closed,
        ensures
            final(self).wf(),
            final(self)@ == old(self)@.execute(task),
    {
        self.thread_pool.execute(task);
    }

    /// Tells the worker `worker` what to do next: carry out the task it is
    /// handed; wait and ask again; or stop.
    pub fn next_task(&mut self, worker: usize) -> (next: Received<Task>)
        requires
            old(self).wf(),
            worker < old(self)@.running.len(),
        ensures
            final(self).wf(),
            next == old(self)@.next_job(),
            final(self)@ == old(self)@.after_next_job(worker as int),
    {
        self.thread_pool.next_job(worker)
    }

    /// Asks the workers to stop once no task waits.
    pub fn shutdown(&mut self)
        requires
            old(self).wf(),
        ensures
            final(self).wf(),
            final(self)@ == old(self)@.shutdown(),
    {
        self.thread_pool.shutdown();
    }

    /// The number of workers.
    pub fn size(&self) -> (size: usize)
        ensures
            size == self@.running.len(),
    {
        self.thread_pool.size()
    }

    /// Whether the scheduler has been shut down.
    pub fn is_shut_down(&self) -> (closed: bool)
        ensures
            closed == self@.closed,
    {
        self.thread_pool.is_shut_down()
    }

    /// Whether every worker has stopped.
    pub fn is_terminated(&self) -> (terminated: bool)
        ensures
            terminated == self@.terminated(),
    {
        self.thread_pool.is_terminated()
    }
}

} // verus!
