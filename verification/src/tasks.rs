use vstd::prelude::*;

verus! {

use crate::error::ErrorCode;

// The global task queue: ready nodes waiting for a worker, plus the
// side-channel of completed asynchronous work.  The queue enforces the
// scheduler's central invariant: one node identity never has two outstanding
// tasks at a time.

/// Relies on `core::mem::replace`: moves `src` into `*dest` and returns the
/// previous value of `*dest`.
pub assume_specification<T>[ core::mem::replace ](dest: &mut T, src: T) -> (r: T)
    ensures
        r == *old(dest),
        *final(dest) == src,
;

/// A finished unit of offloaded work, on its way back into the graph.
#[derive(Debug)]
pub struct CompletedAsyncTask {
    /// The node whose work completed.
    pub id: usize,
    /// The worker that dispatched it, for wake-up affinity.
    pub worker_id: usize,
    /// What the offloaded work returned.
    pub res: Result<(), ErrorCode>,
}

impl CompletedAsyncTask {
    pub fn create(id: usize, worker_id: usize, res: Result<(), ErrorCode>) -> (t:
        CompletedAsyncTask)
        ensures
            t.id == id,
            t.worker_id == worker_id,
            t.res == res,
    {
        CompletedAsyncTask { id, worker_id, res }
    }
}

/// One dispatchable unit of work held by a worker.
#[derive(Debug)]
pub enum ExecutorTask {
    /// No work.
    Empty,
    /// The node is ready for in-place CPU work.
    Sync(usize),
    /// The node is ready for offloaded work.
    Async(usize),
    /// A previously offloaded unit finished and must be folded back.
    AsyncCompleted(CompletedAsyncTask),
}

/// Per-worker state: the worker's ordinal and the task it currently holds.
#[derive(Debug)]
pub struct ExecutorWorkerContext {
    pub worker_num: usize,
    pub task: ExecutorTask,
}

impl ExecutorWorkerContext {
    pub fn create(worker_num: usize) -> (c: ExecutorWorkerContext)
        ensures
            c.worker_num == worker_num,
            c.task is Empty,
    {
        ExecutorWorkerContext { worker_num, task: ExecutorTask::Empty }
    }

    pub fn has_task(&self) -> (r: bool)
        ensures
            r == !(self.task is Empty),
    {
        !matches!(&self.task, ExecutorTask::Empty)
    }

    pub fn get_worker_num(&self) -> (r: usize)
        ensures
            r == self.worker_num,
    {
        self.worker_num
    }

    pub fn set_task(&mut self, task: ExecutorTask)
        ensures
            final(self).task == task,
            final(self).worker_num == old(self).worker_num,
    {
        self.task = task;
    }

    pub fn take_task(&mut self) -> (r: ExecutorTask)
        ensures
            r == old(self).task,
            final(self).task is Empty,
            final(self).worker_num == old(self).worker_num,
    {
        core::mem::replace(&mut self.task, ExecutorTask::Empty)
    }
}

/// How many times node `n` occurs in a sequence of ready entries.
pub open spec fn count_node(s: Seq<usize>, n: usize) -> nat
    decreases s.len(),
{
    if s.len() == 0 {
        0
    } else {
        count_node(s.drop_last(), n) + (if s.last() == n {
            1nat
        } else {
            0nat
        })
    }
}

/// How many completions carry node `n`.
pub open spec fn count_completed(s: Seq<CompletedAsyncTask>, n: usize) -> nat
    decreases s.len(),
{
    if s.len() == 0 {
        0
    } else {
        count_completed(s.drop_last(), n) + (if s.last().id == n {
            1nat
        } else {
            0nat
        })
    }
}

proof fn lemma_count_node_zero(s: Seq<usize>, n: usize)
    requires
        forall|i: int| 0 <= i < s.len() ==> s[i] != n,
    ensures
        count_node(s, n) == 0,
    decreases s.len(),
{
    if s.len() > 0 {
        lemma_count_node_zero(s.drop_last(), n);
    }
}

proof fn lemma_count_node_distinct(s: Seq<usize>, n: usize)
    requires
        forall|i: int, j: int| 0 <= i < s.len() && 0 <= j < s.len() && i != j ==> s[i] != s[j],
    ensures
        count_node(s, n) <= 1,
    decreases s.len(),
{
    if s.len() > 0 {
        let p = s.drop_last();
        if s.last() == n {
            assert forall|i: int| 0 <= i < p.len() implies p[i] != n by {
                assert(s[i] == p[i]);
                assert(s[i] != s[s.len() - 1]);
            }
            lemma_count_node_zero(p, n);
        } else {
            lemma_count_node_distinct(p, n);
        }
    }
}

proof fn lemma_count_completed_zero(s: Seq<CompletedAsyncTask>, n: usize)
    requires
        forall|i: int| 0 <= i < s.len() ==> s[i].id != n,
    ensures
        count_completed(s, n) == 0,
    decreases s.len(),
{
    if s.len() > 0 {
        lemma_count_completed_zero(s.drop_last(), n);
    }
}

proof fn lemma_count_completed_distinct(s: Seq<CompletedAsyncTask>, n: usize)
    requires
        forall|i: int, j: int|
            0 <= i < s.len() && 0 <= j < s.len() && i != j ==> s[i].id != s[j].id,
    ensures
        count_completed(s, n) <= 1,
    decreases s.len(),
{
    if s.len() > 0 {
        let p = s.drop_last();
        if s.last().id == n {
            assert forall|i: int| 0 <= i < p.len() implies p[i].id != n by {
                assert(s[i] == p[i]);
                assert(s[i].id != s[s.len() - 1].id);
            }
            lemma_count_completed_zero(p, n);
        } else {
            lemma_count_completed_distinct(p, n);
        }
    }
}

/// The global, shared queue of ready tasks, the list of completed
/// asynchronous tasks awaiting pickup, and the per-node bookkeeping that
/// rules out double-scheduling.
#[derive(Debug)]
pub struct ExecutorTasksQueue {
    /// Ready node identities, oldest first.
    pub pending: Vec<usize>,
    /// Completed asynchronous tasks not yet folded back into the graph.
    pub completed: Vec<CompletedAsyncTask>,
    /// Per node: whether the node currently has any outstanding task (queued,
    /// held by a worker, offloaded, or awaiting pickup).
    pub in_flight: Vec<bool>,
    /// Per node: whether the node's work is currently offloaded and its
    /// completion has not yet been posted.
    pub async_outstanding: Vec<bool>,
}

impl ExecutorTasksQueue {
    pub open spec fn node_count(&self) -> int {
        self.in_flight@.len() as int
    }

    /// The queue's invariant.  Ready entries are distinct node identities
    /// (no double-scheduling), every outstanding entry is flagged in-flight,
    /// and no node is simultaneously queued, completed, and offloaded.
    pub open spec fn wf(&self) -> bool {
        &&& self.async_outstanding@.len() == self.in_flight@.len()
        &&& forall|i: int|
            0 <= i < self.pending@.len() ==> (#[trigger] self.pending@[i]) < self.node_count()
        &&& forall|i: int, j: int|
            0 <= i < self.pending@.len() && 0 <= j < self.pending@.len() && i != j
                ==> self.pending@[i] != self.pending@[j]
        &&& forall|i: int|
            0 <= i < self.pending@.len() ==> self.in_flight@[#[trigger] self.pending@[i] as int]
        &&& forall|i: int|
            0 <= i < self.pending@.len() ==> !self.async_outstanding@[#[trigger] self.pending@[i] as int]
        &&& forall|i: int|
            0 <= i < self.completed@.len() ==> (#[trigger] self.completed@[i]).id
                < self.node_count() && self.in_flight@[self.completed@[i].id as int]
                && !self.async_outstanding@[self.completed@[i].id as int]
        &&& forall|i: int, j: int|
            0 <= i < self.completed@.len() && 0 <= j < self.completed@.len() && i != j ==> (
            #[trigger] self.completed@[i]).id != (#[trigger] self.completed@[j]).id
        &&& forall|i: int, j: int|
            0 <= i < self.pending@.len() && 0 <= j < self.completed@.len() ==> (
            #[trigger] self.pending@[i]) != (#[trigger] self.completed@[j]).id
        &&& forall|n: int|
            0 <= n < self.node_count() && (#[trigger] self.async_outstanding@[n])
                ==> self.in_flight@[n]
    }

    /// An empty queue for a graph of `nodes` processors.
    pub fn create(nodes: usize) -> (q: ExecutorTasksQueue)
        ensures
            q.wf(),
            q.node_count() == nodes,
            q.pending@.len() == 0,
            q.completed@.len() == 0,
            forall|n: int| 0 <= n < nodes ==> !q.in_flight@[n] && !q.async_outstanding@[n],
    {
        let mut in_flight: Vec<bool> = Vec::new();
        let mut async_outstanding: Vec<bool> = Vec::new();
        let mut i: usize = 0;
        while i < nodes
            invariant
                in_flight@.len() == i,
                async_outstanding@.len() == i,
                i <= nodes,
                forall|n: int| 0 <= n < i ==> !in_flight@[n] && !async_outstanding@[n],
            decreases nodes - i,
        {
            in_flight.push(false);
            async_outstanding.push(false);
            i = i + 1;
        }
        ExecutorTasksQueue { pending: Vec::new(), completed: Vec::new(), in_flight, async_outstanding }
    }

    /// Idempotent insert: queue node `n` unless it already has an
    /// outstanding task.
    pub fn push_ready(&mut self, n: usize) -> (queued: bool)
        requires
            old(self).wf(),
            n < old(self).node_count(),
        ensures
            final(self).wf(),
            final(self).node_count() == old(self).node_count(),
            final(self).completed@ == old(self).completed@,
            final(self).async_outstanding@ == old(self).async_outstanding@,
            queued == !old(self).in_flight@[n as int],
            queued ==> final(self).pending@ == old(self).pending@.push(n)
                && final(self).in_flight@ == old(self).in_flight@.update(n as int, true),
            !queued ==> final(self).pending@ == old(self).pending@
                && final(self).in_flight@ == old(self).in_flight@,
    {
        if self.in_flight[n] {
            return false;
        }
        self.pending.push(n);
        self.in_flight[n] = true;
        true
    }

    /// Take the oldest ready node, keeping it flagged in-flight: the caller
    /// now holds the node's only outstanding task.
    pub fn pop_ready(&mut self) -> (r: Option<usize>)
        requires
            old(self).wf(),
        ensures
            final(self).wf(),
            final(self).node_count() == old(self).node_count(),
            final(self).completed@ == old(self).completed@,
            final(self).async_outstanding@ == old(self).async_outstanding@,
            final(self).in_flight@ == old(self).in_flight@,
            match r {
                Some(n) => old(self).pending@.len() > 0 && n == old(self).pending@[0]
                    && final(self).pending@ == old(self).pending@.drop_first() && n < old(
                    self,
                ).node_count() && old(self).in_flight@[n as int] && !old(
                    self,
                ).async_outstanding@[n as int] && (forall|i: int|
                    0 <= i < final(self).pending@.len() ==> final(self).pending@[i] != n) && (
                forall|i: int| 0 <= i < old(self).completed@.len() ==> old(self).completed@[i].id != n),
                None => old(self).pending@.len() == 0 && final(self).pending@ == old(self).pending@,
            },
    {
        if self.pending.len() == 0 {
            return None;
        }
        let n = self.pending.remove(0);
        proof {
            assert forall|i: int| 0 <= i < self.pending@.len() implies self.pending@[i] != n by {
                assert(self.pending@[i] == old(self).pending@[i + 1]);
                assert(old(self).pending@[0] != old(self).pending@[i + 1]);
            }
        }
        Some(n)
    }

    /// Post a completed asynchronous task; called from the runtime's
    /// completion path, possibly from a foreign thread.
    pub fn push_async_completion(&mut self, t: CompletedAsyncTask)
        requires
            old(self).wf(),
            t.id < old(self).node_count(),
            old(self).async_outstanding@[t.id as int],
        ensures
            final(self).wf(),
            final(self).node_count() == old(self).node_count(),
            final(self).pending@ == old(self).pending@,
            final(self).in_flight@ == old(self).in_flight@,
            final(self).completed@ == old(self).completed@.push(t),
            final(self).async_outstanding@ == old(self).async_outstanding@.update(
                t.id as int,
                false,
            ),
    {
        let id = t.id;
        self.completed.push(t);
        self.async_outstanding[id] = false;
    }

    /// Mark the task the caller holds for node `n` as offloaded.
    pub fn begin_async(&mut self, n: usize)
        requires
            old(self).wf(),
            n < old(self).node_count(),
            old(self).in_flight@[n as int],
            !old(self).async_outstanding@[n as int],
            forall|i: int| 0 <= i < old(self).pending@.len() ==> old(self).pending@[i] != n,
            forall|i: int| 0 <= i < old(self).completed@.len() ==> old(self).completed@[i].id != n,
        ensures
            final(self).wf(),
            final(self).node_count() == old(self).node_count(),
            final(self).pending@ == old(self).pending@,
            final(self).completed@ == old(self).completed@,
            final(self).in_flight@ == old(self).in_flight@,
            final(self).async_outstanding@ == old(self).async_outstanding@.update(n as int, true),
    {
        self.async_outstanding[n] = true;
    }

    /// Atomically claim all pending async completions.
    pub fn drain_completions(&mut self) -> (r: Vec<CompletedAsyncTask>)
        requires
            old(self).wf(),
        ensures
            final(self).wf(),
            final(self).node_count() == old(self).node_count(),
            final(self).pending@ == old(self).pending@,
            final(self).in_flight@ == old(self).in_flight@,
            final(self).async_outstanding@ == old(self).async_outstanding@,
            final(self).completed@.len() == 0,
            r@ == old(self).completed@,
    {
        core::mem::replace(&mut self.completed, Vec::new())
    }

    /// Release the execution right the caller held for node `n`.
    pub fn finish_task(&mut self, n: usize)
        requires
            old(self).wf(),
            n < old(self).node_count(),
            forall|i: int| 0 <= i < old(self).pending@.len() ==> old(self).pending@[i] != n,
            forall|i: int| 0 <= i < old(self).completed@.len() ==> old(self).completed@[i].id != n,
            !old(self).async_outstanding@[n as int],
        ensures
            final(self).wf(),
            final(self).node_count() == old(self).node_count(),
            final(self).pending@ == old(self).pending@,
            final(self).completed@ == old(self).completed@,
            final(self).async_outstanding@ == old(self).async_outstanding@,
            final(self).in_flight@ == old(self).in_flight@.update(n as int, false),
    {
        self.in_flight[n] = false;
    }
}

/// No double-scheduling: under the queue invariant, one node identity never
/// has two entries among the ready tasks.
pub proof fn lemma_no_double_scheduling(q: ExecutorTasksQueue, n: usize)
    requires
        q.wf(),
    ensures
        count_node(q.pending@, n) <= 1,
{
    lemma_count_node_distinct(q.pending@, n);
}

/// Mutual exclusion: under the queue invariant, a node has at most one
/// outstanding task across the ready queue, the completion list and the
/// offloaded set together — so two workers can never hold work for the same
/// processor at once.
pub proof fn lemma_exclusive_task(q: ExecutorTasksQueue, n: usize)
    requires
        q.wf(),
        n < q.node_count(),
    ensures
        count_node(q.pending@, n) + count_completed(q.completed@, n) + (if q.async_outstanding@[n as int] {
            1int
        } else {
            0int
        }) <= 1,
        !q.in_flight@[n as int] ==> count_node(q.pending@, n) + count_completed(q.completed@, n)
            == 0 && !q.async_outstanding@[n as int],
{
    lemma_count_node_distinct(q.pending@, n);
    lemma_count_completed_distinct(q.completed@, n);
    if q.async_outstanding@[n as int] {
        assert forall|i: int| 0 <= i < q.pending@.len() implies q.pending@[i] != n by {}
        lemma_count_node_zero(q.pending@, n);
        assert forall|i: int| 0 <= i < q.completed@.len() implies q.completed@[i].id != n by {}
        lemma_count_completed_zero(q.completed@, n);
    } else if exists|i: int| 0 <= i < q.pending@.len() && q.pending@[i] == n {
        assert forall|i: int| 0 <= i < q.completed@.len() implies q.completed@[i].id != n by {
            let w = choose|w: int| 0 <= w < q.pending@.len() && q.pending@[w] == n;
            assert(q.pending@[w] != q.completed@[i].id);
        }
        lemma_count_completed_zero(q.completed@, n);
    } else {
        assert forall|i: int| 0 <= i < q.pending@.len() implies q.pending@[i] != n by {}
        lemma_count_node_zero(q.pending@, n);
    }
    if !q.in_flight@[n as int] {
        assert forall|i: int| 0 <= i < q.pending@.len() implies q.pending@[i] != n by {}
        lemma_count_node_zero(q.pending@, n);
        assert forall|i: int| 0 <= i < q.completed@.len() implies q.completed@[i].id != n by {}
        lemma_count_completed_zero(q.completed@, n);
    }
}

} // verus!
