use vstd::prelude::*;

verus! {

use crate::error::{ErrorCode, ErrorKind};
use crate::graph::{
    RunningGraph,
    Edge,
    runnable,
    in_neighborhood,
    node_shape_eq,
    lemma_process_frame,
    lemma_event_frame,
    lemma_neighborhood_eq,
};
use crate::processor::Event;
use crate::tasks::{CompletedAsyncTask, ExecutorTasksQueue, ExecutorWorkerContext};
use crate::notify::WorkersNotify;

// The top-level driver: owns the graph, the task queue, the notifier and the
// worker contexts, and drives the pipeline from initial readiness to a
// terminal state.

/// Both graphs have the same nodes, kinds, port lists and configuration;
/// only the execution state may differ.
pub open spec fn graph_shape_eq(g1: RunningGraph, g2: RunningGraph) -> bool {
    &&& g2.procs@.len() == g1.procs@.len()
    &&& g2.edges@.len() == g1.edges@.len()
    &&& forall|n: int| 0 <= n < g1.procs@.len() ==> node_shape_eq(g1.procs@[n], g2.procs@[n])
    &&& forall|e: int|
        0 <= e < g1.edges@.len() ==> (#[trigger] g2.edges@[e]).from == g1.edges@[e].from
            && g2.edges@[e].to == g1.edges@[e].to
}

/// Node `n`'s injected failure ordinal has genuinely been reached: the
/// graph still shows that its call counter passed the configured failing
/// call.
pub open spec fn fail_evidence(g: RunningGraph, n: int) -> bool {
    &&& 0 <= n < g.node_count()
    &&& g.procs@[n].fail_at > 0
    &&& g.procs@[n].calls >= g.procs@[n].fail_at
}

/// Failure evidence survives any step: call counters only grow and the
/// failing ordinal is part of the node's fixed shape.
proof fn lemma_fail_evidence_preserved(g1: RunningGraph, g2: RunningGraph, m: int)
    requires
        fail_evidence(g1, m),
        g2.procs@.len() == g1.procs@.len(),
        g2.procs@[m].fail_at == g1.procs@[m].fail_at,
        g2.procs@[m].calls >= g1.procs@[m].calls,
    ensures
        fail_evidence(g2, m),
{
}

/// Drives one pipeline to completion, failure or cancellation.
#[derive(Debug)]
pub struct PipelineExecutor {
    pub graph: RunningGraph,
    pub global_tasks_queue: ExecutorTasksQueue,
    pub workers_notify: WorkersNotify,
    pub workers: Vec<ExecutorWorkerContext>,
    /// The first error any worker observed; never overwritten.
    pub error: Option<ErrorCode>,
    /// Set by the single-shot cancellation signal.
    pub cancelled: bool,
    /// How many scheduling rounds the executor has taken; the execution
    /// budget is exhausted when this counter saturates.
    pub rounds: u64,
}

impl PipelineExecutor {
    /// No failure was recorded and no cancellation was requested.
    pub open spec fn quiet(&self) -> bool {
        self.error is None && !self.cancelled
    }

    /// Every node that wants a worker is accounted for: it already has an
    /// outstanding task, or a completion whose fold will re-examine it is
    /// still awaiting pickup.
    pub open spec fn sched_inv(&self) -> bool {
        forall|m: int|
            0 <= m < self.graph.node_count() && runnable(self.graph, m)
                ==> self.global_tasks_queue.in_flight@[m] || exists|i: int|
                0 <= i < self.global_tasks_queue.completed@.len() && in_neighborhood(
                    self.graph,
                    (#[trigger] self.global_tasks_queue.completed@[i]).id as int,
                    m,
                )
    }

    /// An in-flight flag is always backed by a queued entry or a pending
    /// completion (between scheduling rounds no worker holds a task).
    pub open spec fn flag_backed(&self) -> bool {
        forall|x: int|
            0 <= x < self.global_tasks_queue.node_count()
                && (#[trigger] self.global_tasks_queue.in_flight@[x]) ==> (exists|i: int|
                0 <= i < self.global_tasks_queue.pending@.len()
                    && self.global_tasks_queue.pending@[i] as int == x) || (exists|i: int|
                0 <= i < self.global_tasks_queue.completed@.len()
                    && self.global_tasks_queue.completed@[i].id as int == x)
    }

    pub open spec fn no_async_outstanding(&self) -> bool {
        forall|x: int|
            0 <= x < self.global_tasks_queue.node_count()
                ==> !(#[trigger] self.global_tasks_queue.async_outstanding@[x])
    }

    /// Node `x` has a queue entry or a pending completion behind its flag.
    pub open spec fn backed(&self, x: int) -> bool {
        (exists|i: int|
            0 <= i < self.global_tasks_queue.pending@.len()
                && self.global_tasks_queue.pending@[i] as int == x) || (exists|i: int|
            0 <= i < self.global_tasks_queue.completed@.len()
                && self.global_tasks_queue.completed@[i].id as int == x)
    }

    /// The state of the executor right after a worker claimed the task for
    /// node `n`: the node is flagged but no longer queued, and everything
    /// else is as between rounds.
    pub open spec fn holding_task(&self, n: int) -> bool {
        &&& self.graph.wf()
        &&& self.global_tasks_queue.wf()
        &&& self.global_tasks_queue.node_count() == self.graph.node_count()
        &&& self.workers_notify.wf()
        &&& self.workers@.len() >= 1
        &&& self.workers_notify.worker_count() == self.workers@.len()
        &&& 0 <= n < self.graph.node_count()
        &&& self.global_tasks_queue.in_flight@[n]
        &&& !self.global_tasks_queue.async_outstanding@[n]
        &&& (forall|i: int|
            0 <= i < self.global_tasks_queue.pending@.len()
                ==> (#[trigger] self.global_tasks_queue.pending@[i]) as int != n)
        &&& (forall|i: int|
            0 <= i < self.global_tasks_queue.completed@.len() ==> (
            #[trigger] self.global_tasks_queue.completed@[i]).id as int != n)
        &&& self.no_async_outstanding()
        &&& (forall|x: int|
            0 <= x < self.global_tasks_queue.node_count() && x != n && (
            #[trigger] self.global_tasks_queue.in_flight@[x]) ==> self.backed(x))
        &&& self.completions_grounded()
        &&& self.shutdown_finished()
        &&& (self.quiet() ==> self.sched_inv() && self.graph.clean_finished())
    }

    /// The recorded error is backed by something that actually happened: a
    /// processor failure whose trace is still visible in the graph, or an
    /// exhausted execution budget (a call counter or the round counter at
    /// its limit).
    pub open spec fn error_grounded(&self) -> bool {
        match self.error {
            Some(e) => (e@.kind == ErrorKind::ProcessorError && exists|n: int|
                fail_evidence(self.graph, n)) || (e@.kind == ErrorKind::LogicalError && ((exists|
                n: int,
            |
                0 <= n < self.graph.node_count() && (#[trigger] self.graph.procs@[n]).calls
                    == u64::MAX) || self.rounds == u64::MAX)),
            None => true,
        }
    }

    /// Every failed completion still awaiting pickup is backed by a genuine
    /// processor failure.
    pub open spec fn completions_grounded(&self) -> bool {
        forall|i: int|
            0 <= i < self.global_tasks_queue.completed@.len() && (
            #[trigger] self.global_tasks_queue.completed@[i]).res is Err ==> fail_evidence(
                self.graph,
                self.global_tasks_queue.completed@[i].id as int,
            ) && self.global_tasks_queue.completed@[i].res.unwrap_err()@.kind
                == ErrorKind::ProcessorError
    }

    /// Once a failure was latched or cancellation was raised, every port has
    /// been forced to end-of-stream: no processor can be told to produce.
    pub open spec fn shutdown_finished(&self) -> bool {
        (self.error is Some || self.cancelled) ==> forall|e: int|
            0 <= e < self.graph.edge_count() ==> (#[trigger] self.graph.edges@[e]).finished
    }

    /// The executor's invariant between scheduling rounds.
    pub open spec fn wf_exec(&self) -> bool {
        &&& self.graph.wf()
        &&& self.global_tasks_queue.wf()
        &&& self.global_tasks_queue.node_count() == self.graph.node_count()
        &&& self.workers_notify.wf()
        &&& self.workers@.len() >= 1
        &&& self.workers_notify.worker_count() == self.workers@.len()
        &&& self.no_async_outstanding()
        &&& self.flag_backed()
        &&& self.completions_grounded()
        &&& self.shutdown_finished()
        &&& (self.quiet() ==> self.sched_inv() && self.graph.clean_finished())
    }

    /// Build an executor over `graph` with `worker_count` workers and seed
    /// the queue with every initially runnable node.
    pub fn create(graph: RunningGraph, worker_count: usize) -> (ex: PipelineExecutor)
        requires
            graph.wf(),
            graph.clean_finished(),
            worker_count >= 1,
        ensures
            ex.wf_exec(),
            ex.graph == graph,
            ex.error is None,
            !ex.cancelled,
            ex.rounds == 0,
            ex.workers@.len() == worker_count,
    {
        let node_count = graph.procs.len();
        let mut queue = ExecutorTasksQueue::create(node_count);
        let mut n: usize = 0;
        while n < node_count
            invariant
                graph.wf(),
                node_count == graph.node_count(),
                queue.wf(),
                queue.node_count() == node_count,
                queue.completed@.len() == 0,
                n <= node_count,
                forall|x: int|
                    0 <= x < node_count ==> !(#[trigger] queue.async_outstanding@[x]),
                forall|m: int|
                    0 <= m < n && runnable(graph, m) ==> queue.in_flight@[m],
                forall|x: int|
                    n <= x < node_count ==> !(#[trigger] queue.in_flight@[x]),
                forall|x: int|
                    0 <= x < node_count && (#[trigger] queue.in_flight@[x]) ==> exists|i: int|
                        0 <= i < queue.pending@.len() && queue.pending@[i] as int == x,
            decreases node_count - n,
        {
            let ev = graph.event(n);
            if matches!(ev, Event::Sync | Event::Async) {
                let ghost q_pre = queue;
                let queued = queue.push_ready(n);
                proof {
                    assert(queued);
                    assert forall|x: int|
                        0 <= x < node_count && (#[trigger] queue.in_flight@[x]) implies exists|i: int|
                        0 <= i < queue.pending@.len() && queue.pending@[i] as int == x by {
                        if x == n as int {
                            assert(queue.pending@[queue.pending@.len() - 1] as int == x);
                        } else {
                            assert(q_pre.in_flight@[x]);
                            let i = choose|i: int|
                                0 <= i < q_pre.pending@.len() && q_pre.pending@[i] as int == x;
                            assert(queue.pending@[i] as int == x);
                        }
                    }
                }
            }
            n = n + 1;
        }
        let workers_notify = WorkersNotify::create(worker_count);
        let mut workers: Vec<ExecutorWorkerContext> = Vec::new();
        let mut w: usize = 0;
        while w < worker_count
            invariant
                workers@.len() == w,
                w <= worker_count,
            decreases worker_count - w,
        {
            workers.push(ExecutorWorkerContext::create(w));
            w = w + 1;
        }
        PipelineExecutor {
            graph,
            global_tasks_queue: queue,
            workers_notify,
            workers,
            error: None,
            cancelled: false,
            rounds: 0,
        }
    }

    /// Record a failure (keeping the first one), force-finish every port so
    /// blocked processors observe shutdown, and wake all workers.
    fn latch_error_and_shutdown(&mut self, e: ErrorCode)
        requires
            old(self).graph.wf(),
            old(self).workers_notify.wf(),
        ensures
            final(self).graph.wf(),
            final(self).workers_notify.wf(),
            final(self).workers_notify.worker_count() == old(self).workers_notify.worker_count(),
            final(self).error is Some,
            old(self).error is Some ==> final(self).error == old(self).error,
            old(self).error is None ==> final(self).error == Some(e),
            final(self).cancelled == old(self).cancelled,
            final(self).rounds == old(self).rounds,
            final(self).global_tasks_queue == old(self).global_tasks_queue,
            final(self).workers@ == old(self).workers@,
            graph_shape_eq(old(self).graph, final(self).graph),
            final(self).graph.procs@ == old(self).graph.procs@,
            forall|i: int|
                0 <= i < old(self).graph.edge_count() ==> final(self).graph.edges@[i] == (Edge {
                    finished: true,
                    ..old(self).graph.edges@[i]
                }),
            forall|w: int|
                0 <= w < final(self).workers_notify.worker_count() ==> final(self).workers_notify.notified@[w] && !final(self).workers_notify.waiting@[w],
    {
        if self.error.is_none() {
            self.error = Some(e);
        }
        self.graph.force_finish_all_ports();
        self.workers_notify.wakeup_all();
    }

    /// Raise the single-shot cancellation signal: force-finish every port
    /// and wake all workers; queued work still drains.
    pub fn cancel(&mut self)
        requires
            old(self).wf_exec(),
        ensures
            final(self).wf_exec(),
            final(self).cancelled,
            final(self).error == old(self).error,
            final(self).rounds == old(self).rounds,
            final(self).global_tasks_queue == old(self).global_tasks_queue,
            final(self).workers@ == old(self).workers@,
            graph_shape_eq(old(self).graph, final(self).graph),
            final(self).graph.procs@ == old(self).graph.procs@,
            forall|i: int|
                0 <= i < old(self).graph.edge_count() ==> final(self).graph.edges@[i] == (Edge {
                    finished: true,
                    ..old(self).graph.edges@[i]
                }),
            forall|w: int|
                0 <= w < final(self).workers_notify.worker_count() ==> final(self).workers_notify.notified@[w] && !final(self).workers_notify.waiting@[w],
    {
        self.cancelled = true;
        self.graph.force_finish_all_ports();
        self.workers_notify.wakeup_all();
    }


    /// After one `check_and_push`, every node that newly became in-flight
    /// has an entry in the ready queue.
    proof fn lemma_backing_after_push(
        q0: ExecutorTasksQueue,
        q1: ExecutorTasksQueue,
        q2: ExecutorTasksQueue,
        m: usize,
    )
        requires
            q1.node_count() == q0.node_count(),
            q2.node_count() == q1.node_count(),
            forall|x: int|
                0 <= x < q1.node_count() && (#[trigger] q1.in_flight@[x]) && !q0.in_flight@[x]
                    ==> exists|i: int|
                    0 <= i < q1.pending@.len() && q1.pending@[i] as int == x,
            forall|x: int|
                0 <= x < q2.node_count() && (#[trigger] q2.in_flight@[x]) ==> q1.in_flight@[x]
                    || x == m as int,
            forall|x: int|
                0 <= x < q1.node_count() && (#[trigger] q1.in_flight@[x]) ==> q2.in_flight@[x],
            forall|i: int|
                0 <= i < q1.pending@.len() ==> q2.pending@[i] == q1.pending@[i],
            q2.pending@.len() >= q1.pending@.len(),
            forall|i: int|
                q1.pending@.len() <= i < q2.pending@.len() ==> q2.pending@[i] == m,
            (!q1.in_flight@[m as int] && q2.in_flight@[m as int]) ==> q2.pending@.len()
                > q1.pending@.len(),
        ensures
            forall|x: int|
                0 <= x < q2.node_count() && (#[trigger] q2.in_flight@[x]) && !q0.in_flight@[x]
                    ==> exists|i: int|
                    0 <= i < q2.pending@.len() && q2.pending@[i] as int == x,
    {
        assert forall|x: int|
            0 <= x < q2.node_count() && (#[trigger] q2.in_flight@[x]) && !q0.in_flight@[x] implies exists|i: int|
            0 <= i < q2.pending@.len() && q2.pending@[i] as int == x by {
            if q1.in_flight@[x] {
                let i = choose|i: int|
                    0 <= i < q1.pending@.len() && q1.pending@[i] as int == x;
                assert(q2.pending@[i] as int == x);
            } else {
                assert(x == m as int);
                assert(q2.pending@[q1.pending@.len() as int] == m);
            }
        }
    }

    /// Re-check one node and queue it when it is runnable and not already
    /// accounted for; wakes a parked worker for fresh work.
    fn check_and_push(&mut self, m: usize)
        requires
            old(self).graph.wf(),
            old(self).global_tasks_queue.wf(),
            old(self).global_tasks_queue.node_count() == old(self).graph.node_count(),
            old(self).workers_notify.wf(),
            m < old(self).graph.node_count(),
        ensures
            final(self).graph == old(self).graph,
            final(self).error == old(self).error,
            final(self).cancelled == old(self).cancelled,
            final(self).rounds == old(self).rounds,
            final(self).workers@ == old(self).workers@,
            final(self).workers_notify.wf(),
            final(self).workers_notify.worker_count() == old(self).workers_notify.worker_count(),
            final(self).global_tasks_queue.wf(),
            final(self).global_tasks_queue.node_count() == old(self).global_tasks_queue.node_count(),
            final(self).global_tasks_queue.completed@ == old(self).global_tasks_queue.completed@,
            final(self).global_tasks_queue.async_outstanding@ == old(self).global_tasks_queue.async_outstanding@,
            runnable(final(self).graph, m as int) ==> final(self).global_tasks_queue.in_flight@[m as int],
            (!old(self).global_tasks_queue.in_flight@[m as int] && final(self).global_tasks_queue.in_flight@[m as int])
                ==> final(self).global_tasks_queue.pending@.len() > old(self).global_tasks_queue.pending@.len(),
            forall|x: int|
                0 <= x < old(self).global_tasks_queue.node_count() && (#[trigger] old(self).global_tasks_queue.in_flight@[x]) ==> final(self).global_tasks_queue.in_flight@[x],
            forall|x: int|
                0 <= x < old(self).global_tasks_queue.node_count() && (#[trigger] final(self).global_tasks_queue.in_flight@[x]) ==> old(self).global_tasks_queue.in_flight@[x]
                    || x == m as int,
            forall|i: int|
                0 <= i < old(self).global_tasks_queue.pending@.len() ==> final(self).global_tasks_queue.pending@[i] == old(self).global_tasks_queue.pending@[i],
            final(self).global_tasks_queue.pending@.len() >= old(self).global_tasks_queue.pending@.len(),
            forall|i: int|
                old(self).global_tasks_queue.pending@.len() <= i < final(self).global_tasks_queue.pending@.len() ==> final(self).global_tasks_queue.pending@[i]
                    == m && !old(self).global_tasks_queue.in_flight@[final(self).global_tasks_queue.pending@[i] as int],
    {
        let ev = self.graph.event(m);
        if matches!(ev, Event::Sync | Event::Async) {
            let queued = self.global_tasks_queue.push_ready(m);
            if queued {
                self.workers_notify.wakeup_any();
            }
        }
    }

    /// Re-check a node and all its graph neighbors after its state changed,
    /// queueing every one that became runnable.
    fn schedule_neighborhood(&mut self, n: usize)
        requires
            old(self).graph.wf(),
            old(self).global_tasks_queue.wf(),
            old(self).global_tasks_queue.node_count() == old(self).graph.node_count(),
            old(self).workers_notify.wf(),
            n < old(self).graph.node_count(),
        ensures
            final(self).graph == old(self).graph,
            final(self).error == old(self).error,
            final(self).cancelled == old(self).cancelled,
            final(self).rounds == old(self).rounds,
            final(self).workers@ == old(self).workers@,
            final(self).workers_notify.wf(),
            final(self).workers_notify.worker_count() == old(self).workers_notify.worker_count(),
            final(self).global_tasks_queue.wf(),
            final(self).global_tasks_queue.node_count() == old(self).global_tasks_queue.node_count(),
            final(self).global_tasks_queue.completed@ == old(self).global_tasks_queue.completed@,
            final(self).global_tasks_queue.async_outstanding@ == old(self).global_tasks_queue.async_outstanding@,
            forall|x: int|
                0 <= x < old(self).global_tasks_queue.node_count() && (#[trigger] old(self).global_tasks_queue.in_flight@[x]) ==> final(self).global_tasks_queue.in_flight@[x],
            forall|m: int|
                0 <= m < old(self).graph.node_count() && runnable(old(self).graph, m)
                    && in_neighborhood(old(self).graph, n as int, m) ==> final(self).global_tasks_queue.in_flight@[m],
            forall|x: int|
                0 <= x < old(self).global_tasks_queue.node_count() && (#[trigger] final(self).global_tasks_queue.in_flight@[x]) && !old(self).global_tasks_queue.in_flight@[x]
                    ==> exists|i: int|
                    0 <= i < final(self).global_tasks_queue.pending@.len() && final(self).global_tasks_queue.pending@[i] as int == x,
            forall|i: int|
                0 <= i < old(self).global_tasks_queue.pending@.len() ==> final(self).global_tasks_queue.pending@[i] == old(self).global_tasks_queue.pending@[i],
            final(self).global_tasks_queue.pending@.len() >= old(self).global_tasks_queue.pending@.len(),
            forall|i: int|
                old(self).global_tasks_queue.pending@.len() <= i < final(self).global_tasks_queue.pending@.len()
                    ==> !old(self).global_tasks_queue.in_flight@[(#[trigger] final(self).global_tasks_queue.pending@[i]) as int],
    {
        let ghost q_before = self.global_tasks_queue;
        self.check_and_push(n);
        proof {
            Self::lemma_backing_after_push(
                old(self).global_tasks_queue,
                q_before,
                self.global_tasks_queue,
                n,
            );
        }
        let icount = self.graph.procs[n].inputs.len();
        let mut j: usize = 0;
        while j < icount
            invariant
                self.graph == old(self).graph,
                self.error == old(self).error,
                self.cancelled == old(self).cancelled,
                self.rounds == old(self).rounds,
                self.workers@ == old(self).workers@,
                self.workers_notify.wf(),
                self.workers_notify.worker_count() == old(self).workers_notify.worker_count(),
                self.graph.wf(),
                n < self.graph.node_count(),
                icount == self.graph.procs@[n as int].inputs@.len(),
                j <= icount,
                self.global_tasks_queue.wf(),
                self.global_tasks_queue.node_count() == self.graph.node_count(),
                self.global_tasks_queue.node_count() == old(self).global_tasks_queue.node_count(),
                self.global_tasks_queue.completed@ == old(self).global_tasks_queue.completed@,
                self.global_tasks_queue.async_outstanding@ == old(self).global_tasks_queue.async_outstanding@,
                forall|x: int|
                    0 <= x < self.global_tasks_queue.node_count() && (#[trigger] old(self).global_tasks_queue.in_flight@[x])
                        ==> self.global_tasks_queue.in_flight@[x],
                runnable(self.graph, n as int) ==> self.global_tasks_queue.in_flight@[n as int],
                forall|k: int|
                    0 <= k < j && runnable(
                        self.graph,
                        self.graph.edges@[#[trigger] self.graph.procs@[n as int].inputs@[k] as int].from as int,
                    ) ==> self.global_tasks_queue.in_flight@[self.graph.edges@[self.graph.procs@[n as int].inputs@[k] as int].from as int],
                forall|x: int|
                    0 <= x < self.global_tasks_queue.node_count() && (
                    #[trigger] self.global_tasks_queue.in_flight@[x]) && !old(self).global_tasks_queue.in_flight@[x] ==> exists|i: int|
                        0 <= i < self.global_tasks_queue.pending@.len()
                            && self.global_tasks_queue.pending@[i] as int == x,
                forall|i: int|
                    0 <= i < old(self).global_tasks_queue.pending@.len()
                        ==> self.global_tasks_queue.pending@[i] == old(self).global_tasks_queue.pending@[i],
                self.global_tasks_queue.pending@.len() >= old(self).global_tasks_queue.pending@.len(),
                forall|i: int|
                    old(self).global_tasks_queue.pending@.len() <= i
                        < self.global_tasks_queue.pending@.len() ==> !old(self).global_tasks_queue.in_flight@[(
                    #[trigger] self.global_tasks_queue.pending@[i]) as int],
            decreases icount - j,
        {
            let e = self.graph.procs[n].inputs[j];
            let m = self.graph.edges[e].from;
            let ghost q_mid = self.global_tasks_queue;
            self.check_and_push(m);
            proof {
                Self::lemma_backing_after_push(
                    old(self).global_tasks_queue,
                    q_mid,
                    self.global_tasks_queue,
                    m,
                );
            }
            j = j + 1;
        }
        let ocount = self.graph.procs[n].outputs.len();
        let mut k: usize = 0;
        while k < ocount
            invariant
                self.graph == old(self).graph,
                self.error == old(self).error,
                self.cancelled == old(self).cancelled,
                self.rounds == old(self).rounds,
                self.workers@ == old(self).workers@,
                self.workers_notify.wf(),
                self.workers_notify.worker_count() == old(self).workers_notify.worker_count(),
                self.graph.wf(),
                n < self.graph.node_count(),
                ocount == self.graph.procs@[n as int].outputs@.len(),
                k <= ocount,
                self.global_tasks_queue.wf(),
                self.global_tasks_queue.node_count() == self.graph.node_count(),
                self.global_tasks_queue.node_count() == old(self).global_tasks_queue.node_count(),
                self.global_tasks_queue.completed@ == old(self).global_tasks_queue.completed@,
                self.global_tasks_queue.async_outstanding@ == old(self).global_tasks_queue.async_outstanding@,
                forall|x: int|
                    0 <= x < self.global_tasks_queue.node_count() && (#[trigger] old(self).global_tasks_queue.in_flight@[x])
                        ==> self.global_tasks_queue.in_flight@[x],
                runnable(self.graph, n as int) ==> self.global_tasks_queue.in_flight@[n as int],
                forall|k2: int|
                    0 <= k2 < self.graph.procs@[n as int].inputs@.len() && runnable(
                        self.graph,
                        self.graph.edges@[#[trigger] self.graph.procs@[n as int].inputs@[k2] as int].from as int,
                    ) ==> self.global_tasks_queue.in_flight@[self.graph.edges@[self.graph.procs@[n as int].inputs@[k2] as int].from as int],
                forall|k2: int|
                    0 <= k2 < k && runnable(
                        self.graph,
                        self.graph.edges@[#[trigger] self.graph.procs@[n as int].outputs@[k2] as int].to as int,
                    ) ==> self.global_tasks_queue.in_flight@[self.graph.edges@[self.graph.procs@[n as int].outputs@[k2] as int].to as int],
                forall|x: int|
                    0 <= x < self.global_tasks_queue.node_count() && (
                    #[trigger] self.global_tasks_queue.in_flight@[x]) && !old(self).global_tasks_queue.in_flight@[x] ==> exists|i: int|
                        0 <= i < self.global_tasks_queue.pending@.len()
                            && self.global_tasks_queue.pending@[i] as int == x,
                forall|i: int|
                    0 <= i < old(self).global_tasks_queue.pending@.len()
                        ==> self.global_tasks_queue.pending@[i] == old(self).global_tasks_queue.pending@[i],
                self.global_tasks_queue.pending@.len() >= old(self).global_tasks_queue.pending@.len(),
                forall|i: int|
                    old(self).global_tasks_queue.pending@.len() <= i
                        < self.global_tasks_queue.pending@.len() ==> !old(self).global_tasks_queue.in_flight@[(
                    #[trigger] self.global_tasks_queue.pending@[i]) as int],
            decreases ocount - k,
        {
            let e = self.graph.procs[n].outputs[k];
            let m = self.graph.edges[e].to;
            let ghost q_mid = self.global_tasks_queue;
            self.check_and_push(m);
            proof {
                Self::lemma_backing_after_push(
                    old(self).global_tasks_queue,
                    q_mid,
                    self.global_tasks_queue,
                    m,
                );
            }
            k = k + 1;
        }
        proof {
            assert forall|m: int|
                0 <= m < old(self).graph.node_count() && runnable(old(self).graph, m)
                    && in_neighborhood(old(self).graph, n as int, m) implies self.global_tasks_queue.in_flight@[m] by {
                if m != n as int {
                    if exists|j2: int|
                        0 <= j2 < self.graph.procs@[n as int].inputs@.len()
                            && self.graph.edges@[self.graph.procs@[n as int].inputs@[j2] as int].from as int
                            == m {
                        let j2 = choose|j2: int|
                            0 <= j2 < self.graph.procs@[n as int].inputs@.len()
                                && self.graph.edges@[self.graph.procs@[n as int].inputs@[j2] as int].from as int
                                == m;
                        assert(runnable(
                            self.graph,
                            self.graph.edges@[self.graph.procs@[n as int].inputs@[j2] as int].from as int,
                        ));
                    } else {
                        let j2 = choose|j2: int|
                            0 <= j2 < self.graph.procs@[n as int].outputs@.len()
                                && self.graph.edges@[self.graph.procs@[n as int].outputs@[j2] as int].to as int
                                == m;
                        assert(runnable(
                            self.graph,
                            self.graph.edges@[self.graph.procs@[n as int].outputs@[j2] as int].to as int,
                        ));
                    }
                }
            }
        }
    }

    /// Run one claimed unit of work on node `n` — synchronously in place, or
    /// through the offload path with its completion posted to the queue —
    /// then fold the consequences back into the scheduling state.
    #[verifier::rlimit(60)]
    fn run_claimed_task(&mut self, n: usize, w: usize)
        requires
            old(self).holding_task(n as int),
            old(self).graph.procs@[n as int].calls < u64::MAX,
        ensures
            final(self).wf_exec(),
            graph_shape_eq(old(self).graph, final(self).graph),
            final(self).cancelled == old(self).cancelled,
            final(self).rounds == old(self).rounds,
            old(self).error is Some ==> final(self).error == old(self).error,
            old(self).error is None ==> final(self).error is None || (final(self).error.unwrap()@.kind == ErrorKind::ProcessorError
                && exists|m: int| fail_evidence(final(self).graph, m)),
            forall|m: int|
                0 <= m < old(self).graph.node_count() ==> (#[trigger] final(self).graph.procs@[m]).calls
                    >= old(self).graph.procs@[m].calls,
            final(self).workers@ == old(self).workers@,
    {
        let ghost g_pre = self.graph;
        let ghost q_pre = self.global_tasks_queue;
        let ev = self.graph.event(n);
        match ev {
            Event::Sync => {
                let res = self.graph.process(n);
                proof {
                    lemma_process_frame(g_pre, self.graph, n as int, res);
                }
                match res {
                    Ok(_) => {
                        self.global_tasks_queue.finish_task(n);
                        let ghost g_post = self.graph;
                        let ghost q_mid = self.global_tasks_queue;
                        self.schedule_neighborhood(n);
                        proof {
                            assert(self.completions_grounded()) by {
                                assert forall|i: int|
                                    0 <= i < self.global_tasks_queue.completed@.len() && (
                                    #[trigger] self.global_tasks_queue.completed@[i]).res is Err implies fail_evidence(
                                    self.graph,
                                    self.global_tasks_queue.completed@[i].id as int,
                                ) && self.global_tasks_queue.completed@[i].res.unwrap_err()@.kind
                                    == ErrorKind::ProcessorError by {
                                    let id = self.global_tasks_queue.completed@[i].id as int;
                                    assert(fail_evidence(g_pre, id));
                                    assert(node_shape_eq(g_pre.procs@[n as int], self.graph.procs@[n as int]));
                                    lemma_fail_evidence_preserved(g_pre, self.graph, id);
                                }
                            }
                            assert(self.shutdown_finished()) by {
                                if self.error is Some || self.cancelled {
                                    assert forall|e2: int|
                                        0 <= e2 < self.graph.edge_count() implies (
                                    #[trigger] self.graph.edges@[e2]).finished by {
                                        assert(g_pre.edges@[e2].finished);
                                    }
                                }
                            }
                            self.restore_after_work(g_pre, g_post, q_pre, q_mid, n);
                        }
                    },
                    Err(e) => {
                        let ghost g_mid = self.graph;
                        proof {
                            assert(fail_evidence(g_mid, n as int));
                        }
                        self.latch_error_and_shutdown(e);
                        self.global_tasks_queue.finish_task(n);
                        proof {
                            assert(self.graph.procs@ == g_mid.procs@);
                            assert(fail_evidence(self.graph, n as int));
                            assert(self.completions_grounded()) by {
                                assert forall|i: int|
                                    0 <= i < self.global_tasks_queue.completed@.len() && (
                                    #[trigger] self.global_tasks_queue.completed@[i]).res is Err implies fail_evidence(
                                    self.graph,
                                    self.global_tasks_queue.completed@[i].id as int,
                                ) && self.global_tasks_queue.completed@[i].res.unwrap_err()@.kind
                                    == ErrorKind::ProcessorError by {
                                    let id = self.global_tasks_queue.completed@[i].id as int;
                                    assert(fail_evidence(g_pre, id));
                                    assert(node_shape_eq(
                                        g_pre.procs@[n as int],
                                        g_mid.procs@[n as int],
                                    ));
                                    lemma_fail_evidence_preserved(g_pre, self.graph, id);
                                }
                            }
                            assert(self.shutdown_finished()) by {
                                assert forall|e2: int|
                                    0 <= e2 < self.graph.edge_count() implies (
                                #[trigger] self.graph.edges@[e2]).finished by {
                                    assert(self.graph.edges@[e2] == (Edge {
                                        finished: true,
                                        ..g_mid.edges@[e2]
                                    }));
                                }
                            }
                            self.restore_after_failure(q_pre, n);
                        }
                    },
                }
            },
            Event::Async => {
                self.global_tasks_queue.begin_async(n);
                let res = self.graph.async_process(n);
                proof {
                    lemma_process_frame(g_pre, self.graph, n as int, res);
                }
                proof {
                    if res is Err {
                        assert(fail_evidence(self.graph, n as int));
                    }
                }
                let t = CompletedAsyncTask::create(n, w, res);
                self.global_tasks_queue.push_async_completion(t);
                proof {
                    assert(self.completions_grounded()) by {
                        assert forall|i: int|
                            0 <= i < self.global_tasks_queue.completed@.len() && (
                            #[trigger] self.global_tasks_queue.completed@[i]).res is Err implies fail_evidence(
                            self.graph,
                            self.global_tasks_queue.completed@[i].id as int,
                        ) && self.global_tasks_queue.completed@[i].res.unwrap_err()@.kind
                            == ErrorKind::ProcessorError by {
                            if i < q_pre.completed@.len() {
                                let id = self.global_tasks_queue.completed@[i].id as int;
                                assert(self.global_tasks_queue.completed@[i] == q_pre.completed@[i]);
                                assert(fail_evidence(g_pre, id));
                                assert(node_shape_eq(g_pre.procs@[n as int], self.graph.procs@[n as int]));
                                lemma_fail_evidence_preserved(g_pre, self.graph, id);
                            }
                        }
                    }
                    assert(self.shutdown_finished()) by {
                        if self.error is Some || self.cancelled {
                            assert forall|e2: int|
                                0 <= e2 < self.graph.edge_count() implies (
                            #[trigger] self.graph.edges@[e2]).finished by {
                                assert(g_pre.edges@[e2].finished);
                            }
                        }
                    }
                    self.restore_after_dispatch(g_pre, q_pre, n);
                }
            },
            _ => {
                self.global_tasks_queue.finish_task(n);
                proof {
                    assert(!runnable(self.graph, n as int));
                    assert(self.wf_exec()) by {
                        self.assemble_wf(q_pre, n);
                    }
                }
            },
        }
    }

    /// Re-assemble `wf_exec` after a step that did not change the graph and
    /// only released node `n`'s task.
    proof fn assemble_wf(&self, q_pre: ExecutorTasksQueue, n: usize)
        requires
            self.completions_grounded(),
            self.shutdown_finished(),
            self.graph.wf(),
            self.global_tasks_queue.wf(),
            self.global_tasks_queue.node_count() == self.graph.node_count(),
            self.workers_notify.wf(),
            self.workers@.len() >= 1,
            self.workers_notify.worker_count() == self.workers@.len(),
            self.no_async_outstanding(),
            0 <= n < self.graph.node_count(),
            self.global_tasks_queue.pending@ == q_pre.pending@,
            self.global_tasks_queue.completed@ == q_pre.completed@,
            self.global_tasks_queue.node_count() == q_pre.node_count(),
            self.global_tasks_queue.in_flight@ == q_pre.in_flight@.update(n as int, false),
            forall|x: int|
                0 <= x < q_pre.node_count() && x != n && (#[trigger] q_pre.in_flight@[x]) ==> (
                exists|i: int|
                    0 <= i < q_pre.pending@.len() && q_pre.pending@[i] as int == x) || (exists|
                i: int,
            |
                0 <= i < q_pre.completed@.len() && q_pre.completed@[i].id as int == x),
            self.quiet() ==> self.graph.clean_finished(),
            self.quiet() ==> forall|m: int|
                0 <= m < self.graph.node_count() && runnable(self.graph, m) && m != n ==> (
                #[trigger] q_pre.in_flight@[m]) || exists|i: int|
                    0 <= i < q_pre.completed@.len() && in_neighborhood(
                        self.graph,
                        q_pre.completed@[i].id as int,
                        m,
                    ),
            self.quiet() ==> !runnable(self.graph, n as int),
        ensures
            self.wf_exec(),
    {
        assert(self.flag_backed());
        if self.quiet() {
            assert forall|m: int|
                0 <= m < self.graph.node_count() && runnable(self.graph, m) implies self.global_tasks_queue.in_flight@[m] || exists|i: int|
                0 <= i < self.global_tasks_queue.completed@.len() && in_neighborhood(
                    self.graph,
                    (#[trigger] self.global_tasks_queue.completed@[i]).id as int,
                    m,
                ) by {
                assert(m != n);
            }
        }
    }

    /// Restore the executor invariant after a failed step: not quiet any
    /// more, so only the structural parts remain.
    proof fn restore_after_failure(&self, q_pre: ExecutorTasksQueue, n: usize)
        requires
            self.completions_grounded(),
            self.shutdown_finished(),
            self.graph.wf(),
            self.global_tasks_queue.wf(),
            self.global_tasks_queue.node_count() == self.graph.node_count(),
            self.workers_notify.wf(),
            self.workers@.len() >= 1,
            self.workers_notify.worker_count() == self.workers@.len(),
            self.no_async_outstanding(),
            0 <= n < self.graph.node_count(),
            self.error is Some,
            self.global_tasks_queue.pending@ == q_pre.pending@,
            self.global_tasks_queue.completed@ == q_pre.completed@,
            self.global_tasks_queue.node_count() == q_pre.node_count(),
            self.global_tasks_queue.in_flight@ == q_pre.in_flight@.update(n as int, false),
            forall|x: int|
                0 <= x < q_pre.node_count() && x != n && (#[trigger] q_pre.in_flight@[x]) ==> (
                exists|i: int|
                    0 <= i < q_pre.pending@.len() && q_pre.pending@[i] as int == x) || (exists|
                i: int,
            |
                0 <= i < q_pre.completed@.len() && q_pre.completed@[i].id as int == x),
        ensures
            self.wf_exec(),
    {
        assert(self.flag_backed());
    }

    /// Restore the executor invariant after a successful synchronous step on
    /// `n`: the node's task was released and its neighborhood re-checked.
    proof fn restore_after_work(
        &self,
        g_pre: RunningGraph,
        g_post: RunningGraph,
        q_pre: ExecutorTasksQueue,
        q_mid: ExecutorTasksQueue,
        n: usize,
    )
        requires
            self.completions_grounded(),
            self.shutdown_finished(),
            g_pre.wf(),
            g_post.wf(),
            self.graph == g_post,
            0 <= n < g_pre.node_count(),
            g_post.procs@.len() == g_pre.procs@.len(),
            g_post.edges@.len() == g_pre.edges@.len(),
            forall|x: int|
                0 <= x < g_pre.procs@.len() && x != n ==> g_post.procs@[x] == g_pre.procs@[x],
            node_shape_eq(g_pre.procs@[n as int], g_post.procs@[n as int]),
            forall|e: int|
                0 <= e < g_pre.edges@.len() && !g_pre.procs@[n as int].inputs@.contains(e as usize)
                    && !g_pre.procs@[n as int].outputs@.contains(e as usize) ==> g_post.edges@[e]
                    == g_pre.edges@[e],
            forall|e: int|
                0 <= e < g_pre.edges@.len() ==> (#[trigger] g_post.edges@[e]).from
                    == g_pre.edges@[e].from && g_post.edges@[e].to == g_pre.edges@[e].to,
            // the queue state the schedule pass started from
            self.global_tasks_queue.wf(),
            self.global_tasks_queue.node_count() == self.graph.node_count(),
            self.workers_notify.wf(),
            self.workers@.len() >= 1,
            self.workers_notify.worker_count() == self.workers@.len(),
            self.no_async_outstanding(),
            q_mid.node_count() == self.global_tasks_queue.node_count(),
            q_mid.completed@ == self.global_tasks_queue.completed@,
            forall|x: int|
                0 <= x < q_mid.node_count() && (#[trigger] q_mid.in_flight@[x])
                    ==> self.global_tasks_queue.in_flight@[x],
            forall|m: int|
                0 <= m < g_post.node_count() && runnable(g_post, m) && in_neighborhood(
                    g_post,
                    n as int,
                    m,
                ) ==> self.global_tasks_queue.in_flight@[m],
            forall|x: int|
                0 <= x < q_mid.node_count() && (#[trigger] self.global_tasks_queue.in_flight@[x])
                    && !q_mid.in_flight@[x] ==> exists|i: int|
                    0 <= i < self.global_tasks_queue.pending@.len()
                        && self.global_tasks_queue.pending@[i] as int == x,
            forall|i: int|
                0 <= i < q_mid.pending@.len() ==> self.global_tasks_queue.pending@[i]
                    == q_mid.pending@[i],
            self.global_tasks_queue.pending@.len() >= q_mid.pending@.len(),
            // how q_mid relates to the pre-pop queue q_pre
            q_mid.pending@ == q_pre.pending@,
            q_mid.completed@ == q_pre.completed@,
            q_mid.node_count() == q_pre.node_count(),
            q_mid.in_flight@ == q_pre.in_flight@.update(n as int, false),
            forall|x: int|
                0 <= x < q_pre.node_count() && x != n && (#[trigger] q_pre.in_flight@[x]) ==> (
                exists|i: int|
                    0 <= i < q_pre.pending@.len() && q_pre.pending@[i] as int == x) || (exists|
                i: int,
            |
                0 <= i < q_pre.completed@.len() && q_pre.completed@[i].id as int == x),
            self.quiet() ==> g_pre.clean_finished() ==> g_post.clean_finished(),
            self.quiet() ==> g_pre.clean_finished(),
            self.quiet() ==> forall|m: int|
                0 <= m < g_pre.node_count() && runnable(g_pre, m) ==> (
                #[trigger] q_pre.in_flight@[m]) || exists|i: int|
                    0 <= i < q_pre.completed@.len() && in_neighborhood(
                        g_pre,
                        q_pre.completed@[i].id as int,
                        m,
                    ),
        ensures
            self.wf_exec(),
    {
        assert forall|x: int|
            0 <= x < self.global_tasks_queue.node_count() && (
            #[trigger] self.global_tasks_queue.in_flight@[x]) implies self.backed(x) by {
            if q_mid.in_flight@[x] {
                assert(x != n && q_pre.in_flight@[x]);
                if exists|i: int|
                    0 <= i < q_pre.pending@.len() && q_pre.pending@[i] as int == x {
                    let i = choose|i: int|
                        0 <= i < q_pre.pending@.len() && q_pre.pending@[i] as int == x;
                    assert(self.global_tasks_queue.pending@[i] as int == x);
                } else {
                    let i = choose|i: int|
                        0 <= i < q_pre.completed@.len() && q_pre.completed@[i].id as int == x;
                    assert(self.global_tasks_queue.completed@[i].id as int == x);
                }
            }
        }
        assert(self.flag_backed());
        if self.quiet() {
            assert(g_post.clean_finished());
            assert forall|m: int|
                0 <= m < self.graph.node_count() && runnable(self.graph, m) implies self.global_tasks_queue.in_flight@[m] || exists|i: int|
                0 <= i < self.global_tasks_queue.completed@.len() && in_neighborhood(
                    self.graph,
                    (#[trigger] self.global_tasks_queue.completed@[i]).id as int,
                    m,
                ) by {
                if !in_neighborhood(g_post, n as int, m) {
                    lemma_neighborhood_eq(g_pre, g_post, n as int, m);
                    lemma_event_frame(g_pre, g_post, n as int, m);
                    assert(runnable(g_pre, m));
                    assert(m != n);
                    if q_pre.in_flight@[m] {
                        assert(q_mid.in_flight@[m]);
                        assert(self.global_tasks_queue.in_flight@[m]);
                    } else {
                        let i = choose|i: int|
                            0 <= i < q_pre.completed@.len() && in_neighborhood(
                                g_pre,
                                q_pre.completed@[i].id as int,
                                m,
                            );
                        lemma_neighborhood_eq(
                            g_pre,
                            g_post,
                            q_pre.completed@[i].id as int,
                            m,
                        );
                        assert(in_neighborhood(
                            g_post,
                            self.global_tasks_queue.completed@[i].id as int,
                            m,
                        ));
                    }
                }
            }
        }
    }

    /// Restore the executor invariant after dispatching `n`'s offloaded work
    /// and posting its completion.
    proof fn restore_after_dispatch(
        &self,
        g_pre: RunningGraph,
        q_pre: ExecutorTasksQueue,
        n: usize,
    )
        requires
            self.completions_grounded(),
            self.shutdown_finished(),
            g_pre.wf(),
            self.graph.wf(),
            0 <= n < g_pre.node_count(),
            self.graph.procs@.len() == g_pre.procs@.len(),
            self.graph.edges@.len() == g_pre.edges@.len(),
            forall|x: int|
                0 <= x < g_pre.procs@.len() && x != n ==> self.graph.procs@[x] == g_pre.procs@[x],
            node_shape_eq(g_pre.procs@[n as int], self.graph.procs@[n as int]),
            forall|e: int|
                0 <= e < g_pre.edges@.len() && !g_pre.procs@[n as int].inputs@.contains(e as usize)
                    && !g_pre.procs@[n as int].outputs@.contains(e as usize)
                    ==> self.graph.edges@[e] == g_pre.edges@[e],
            forall|e: int|
                0 <= e < g_pre.edges@.len() ==> (#[trigger] self.graph.edges@[e]).from
                    == g_pre.edges@[e].from && self.graph.edges@[e].to == g_pre.edges@[e].to,
            self.global_tasks_queue.wf(),
            self.global_tasks_queue.node_count() == self.graph.node_count(),
            self.workers_notify.wf(),
            self.workers@.len() >= 1,
            self.workers_notify.worker_count() == self.workers@.len(),
            self.global_tasks_queue.pending@ == q_pre.pending@,
            self.global_tasks_queue.completed@.len() == q_pre.completed@.len() + 1,
            forall|i: int|
                0 <= i < q_pre.completed@.len() ==> self.global_tasks_queue.completed@[i]
                    == q_pre.completed@[i],
            self.global_tasks_queue.completed@[q_pre.completed@.len() as int].id == n,
            self.global_tasks_queue.in_flight@ == q_pre.in_flight@,
            self.global_tasks_queue.node_count() == q_pre.node_count(),
            self.global_tasks_queue.async_outstanding@ == q_pre.async_outstanding@.update(
                n as int,
                true,
            ).update(n as int, false),
            forall|x: int|
                0 <= x < q_pre.node_count() ==> !(#[trigger] q_pre.async_outstanding@[x]),
            q_pre.in_flight@[n as int],
            forall|x: int|
                0 <= x < q_pre.node_count() && x != n && (#[trigger] q_pre.in_flight@[x]) ==> (
                exists|i: int|
                    0 <= i < q_pre.pending@.len() && q_pre.pending@[i] as int == x) || (exists|
                i: int,
            |
                0 <= i < q_pre.completed@.len() && q_pre.completed@[i].id as int == x),
            self.quiet() ==> g_pre.clean_finished() ==> self.graph.clean_finished(),
            self.quiet() ==> g_pre.clean_finished(),
            self.quiet() ==> forall|m: int|
                0 <= m < g_pre.node_count() && runnable(g_pre, m) ==> (
                #[trigger] q_pre.in_flight@[m]) || exists|i: int|
                    0 <= i < q_pre.completed@.len() && in_neighborhood(
                        g_pre,
                        q_pre.completed@[i].id as int,
                        m,
                    ),
        ensures
            self.wf_exec(),
    {
        assert(self.no_async_outstanding()) by {
            assert forall|x: int|
                0 <= x < self.global_tasks_queue.node_count() implies !(
            #[trigger] self.global_tasks_queue.async_outstanding@[x]) by {
                if x != n as int {
                    assert(self.global_tasks_queue.async_outstanding@[x]
                        == q_pre.async_outstanding@[x]);
                }
            }
        }
        assert forall|x: int|
            0 <= x < self.global_tasks_queue.node_count() && (
            #[trigger] self.global_tasks_queue.in_flight@[x]) implies self.backed(x) by {
            if x == n as int {
                assert(self.global_tasks_queue.completed@[q_pre.completed@.len() as int].id as int
                    == x);
            } else {
                if exists|i: int|
                    0 <= i < q_pre.pending@.len() && q_pre.pending@[i] as int == x {
                } else {
                    let i = choose|i: int|
                        0 <= i < q_pre.completed@.len() && q_pre.completed@[i].id as int == x;
                    assert(self.global_tasks_queue.completed@[i].id as int == x);
                }
            }
        }
        assert(self.flag_backed());
        if self.quiet() {
            assert forall|m: int|
                0 <= m < self.graph.node_count() && runnable(self.graph, m) implies self.global_tasks_queue.in_flight@[m] || exists|i: int|
                0 <= i < self.global_tasks_queue.completed@.len() && in_neighborhood(
                    self.graph,
                    (#[trigger] self.global_tasks_queue.completed@[i]).id as int,
                    m,
                ) by {
                if in_neighborhood(self.graph, n as int, m) {
                    let i = q_pre.completed@.len() as int;
                    assert(self.global_tasks_queue.completed@[i].id as int == n as int);
                } else {
                    lemma_neighborhood_eq(g_pre, self.graph, n as int, m);
                    lemma_event_frame(g_pre, self.graph, n as int, m);
                    assert(runnable(g_pre, m));
                    if q_pre.in_flight@[m] {
                    } else {
                        let i = choose|i: int|
                            0 <= i < q_pre.completed@.len() && in_neighborhood(
                                g_pre,
                                q_pre.completed@[i].id as int,
                                m,
                            );
                        lemma_neighborhood_eq(
                            g_pre,
                            self.graph,
                            q_pre.completed@[i].id as int,
                            m,
                        );
                        assert(in_neighborhood(
                            self.graph,
                            self.global_tasks_queue.completed@[i].id as int,
                            m,
                        ));
                    }
                }
            }
        }
    }

    /// Fold a batch of drained completions back into the graph: release each
    /// node's execution right, latch any failure, and re-check neighborhoods.
    fn fold_completions(&mut self, comps: Vec<CompletedAsyncTask>)
        requires
            old(self).graph.wf(),
            old(self).global_tasks_queue.wf(),
            old(self).global_tasks_queue.node_count() == old(self).graph.node_count(),
            old(self).workers_notify.wf(),
            old(self).workers@.len() >= 1,
            old(self).workers_notify.worker_count() == old(self).workers@.len(),
            old(self).no_async_outstanding(),
            old(self).global_tasks_queue.completed@.len() == 0,
            forall|i: int|
                0 <= i < comps@.len() ==> (#[trigger] comps@[i]).id < old(self).graph.node_count(),
            forall|i: int|
                0 <= i < comps@.len() ==> old(self).global_tasks_queue.in_flight@[(
                #[trigger] comps@[i]).id as int],
            forall|i: int, j: int|
                0 <= i < comps@.len() && 0 <= j < comps@.len() && i != j ==> (
                #[trigger] comps@[i]).id != (#[trigger] comps@[j]).id,
            forall|i: int, j: int|
                0 <= i < comps@.len() && 0 <= j < old(self).global_tasks_queue.pending@.len()
                    ==> (#[trigger] comps@[i]).id != (#[trigger] old(self).global_tasks_queue.pending@[j]),
            forall|x: int|
                0 <= x < old(self).global_tasks_queue.node_count() && (#[trigger] old(self).global_tasks_queue.in_flight@[x]) ==> (exists|i: int|
                    0 <= i < old(self).global_tasks_queue.pending@.len() && old(self).global_tasks_queue.pending@[i] as int == x) || (exists|i: int|
                    0 <= i < comps@.len() && (#[trigger] comps@[i]).id as int == x),
            forall|i: int|
                0 <= i < comps@.len() && (#[trigger] comps@[i]).res is Err ==> fail_evidence(
                    old(self).graph,
                    comps@[i].id as int,
                ) && comps@[i].res.unwrap_err()@.kind == ErrorKind::ProcessorError,
            old(self).shutdown_finished(),
            old(self).quiet() ==> old(self).graph.clean_finished(),
            old(self).quiet() ==> forall|m: int|
                0 <= m < old(self).graph.node_count() && runnable(old(self).graph, m) ==> (
                #[trigger] old(self).global_tasks_queue.in_flight@[m]) || exists|i: int|
                    0 <= i < comps@.len() && in_neighborhood(
                        old(self).graph,
                        (#[trigger] comps@[i]).id as int,
                        m,
                    ),
        ensures
            final(self).wf_exec(),
            graph_shape_eq(old(self).graph, final(self).graph),
            final(self).cancelled == old(self).cancelled,
            final(self).rounds == old(self).rounds,
            final(self).graph.procs@ == old(self).graph.procs@,
            old(self).error is Some ==> final(self).error == old(self).error,
            old(self).error is None ==> final(self).error is None || (final(self).error.unwrap()@.kind == ErrorKind::ProcessorError
                && exists|m: int| fail_evidence(final(self).graph, m)),
            final(self).workers@ == old(self).workers@,
    {
        let mut comps = comps;
        while comps.len() > 0
            invariant
                self.graph.wf(),
                graph_shape_eq(old(self).graph, self.graph),
                self.graph.node_count() == old(self).graph.node_count(),
                self.graph.procs@ == old(self).graph.procs@,
                self.rounds == old(self).rounds,
                self.shutdown_finished(),
                old(self).error is None ==> self.error is None || (self.error.unwrap()@.kind
                    == ErrorKind::ProcessorError && exists|m: int|
                    fail_evidence(self.graph, m)),
                forall|i: int|
                    0 <= i < comps@.len() && (#[trigger] comps@[i]).res is Err ==> fail_evidence(
                        self.graph,
                        comps@[i].id as int,
                    ) && comps@[i].res.unwrap_err()@.kind == ErrorKind::ProcessorError,
                self.global_tasks_queue.wf(),
                self.global_tasks_queue.node_count() == self.graph.node_count(),
                self.workers_notify.wf(),
                self.workers@.len() >= 1,
                self.workers_notify.worker_count() == self.workers@.len(),
                self.workers@ == old(self).workers@,
                self.cancelled == old(self).cancelled,
                old(self).error is Some ==> self.error == old(self).error,
                self.no_async_outstanding(),
                self.global_tasks_queue.completed@.len() == 0,
                forall|i: int|
                    0 <= i < comps@.len() ==> (#[trigger] comps@[i]).id < self.graph.node_count(),
                forall|i: int|
                    0 <= i < comps@.len() ==> self.global_tasks_queue.in_flight@[(
                    #[trigger] comps@[i]).id as int],
                forall|i: int, j: int|
                    0 <= i < comps@.len() && 0 <= j < comps@.len() && i != j ==> (
                    #[trigger] comps@[i]).id != (#[trigger] comps@[j]).id,
                forall|i: int, j: int|
                    0 <= i < comps@.len() && 0 <= j < self.global_tasks_queue.pending@.len() ==> (
                    #[trigger] comps@[i]).id != (#[trigger] self.global_tasks_queue.pending@[j]),
                forall|x: int|
                    0 <= x < self.global_tasks_queue.node_count() && (
                    #[trigger] self.global_tasks_queue.in_flight@[x]) ==> (exists|i: int|
                        0 <= i < self.global_tasks_queue.pending@.len()
                            && self.global_tasks_queue.pending@[i] as int == x) || (exists|i: int|
                        0 <= i < comps@.len() && (#[trigger] comps@[i]).id as int == x),
                self.quiet() ==> self.graph.clean_finished(),
                self.quiet() ==> forall|m: int|
                    0 <= m < self.graph.node_count() && runnable(self.graph, m) ==> (
                    #[trigger] self.global_tasks_queue.in_flight@[m]) || exists|i: int|
                        0 <= i < comps@.len() && in_neighborhood(
                            self.graph,
                            (#[trigger] comps@[i]).id as int,
                            m,
                        ),
            decreases comps@.len(),
        {
            let ghost comps_pre = comps@;
            let t = comps.remove(0);
            let id = t.id;
            let ghost q_pre = self.global_tasks_queue;
            proof {
                assert(comps@ =~= comps_pre.drop_first());
                assert(t == comps_pre[0]);
            }
            self.global_tasks_queue.finish_task(id);
            match t.res {
                Ok(_) => {
                    let ghost q_mid = self.global_tasks_queue;
                    self.schedule_neighborhood(id);
                    proof {
                        assert forall|x: int|
                            0 <= x < self.global_tasks_queue.node_count() && (
                            #[trigger] self.global_tasks_queue.in_flight@[x]) implies (exists|
                            i: int,
                        |
                            0 <= i < self.global_tasks_queue.pending@.len()
                                && self.global_tasks_queue.pending@[i] as int == x) || (exists|
                            i: int,
                        |
                            0 <= i < comps@.len() && (#[trigger] comps@[i]).id as int == x) by {
                            if q_mid.in_flight@[x] {
                                assert(x != id as int && q_pre.in_flight@[x]);
                                if exists|i: int|
                                    0 <= i < q_pre.pending@.len() && q_pre.pending@[i] as int
                                        == x {
                                    let i = choose|i: int|
                                        0 <= i < q_pre.pending@.len() && q_pre.pending@[i] as int
                                            == x;
                                    assert(self.global_tasks_queue.pending@[i] as int == x);
                                } else {
                                    let i = choose|i: int|
                                        0 <= i < comps_pre.len() && comps_pre[i].id as int == x;
                                    assert(i != 0);
                                    assert(comps@[i - 1].id as int == x);
                                }
                            }
                        }
                        if self.quiet() {
                            assert forall|m: int|
                                0 <= m < self.graph.node_count() && runnable(
                                self.graph,
                                m,
                            ) implies (#[trigger] self.global_tasks_queue.in_flight@[m]) || exists|
                                i: int,
                            |
                                0 <= i < comps@.len() && in_neighborhood(
                                    self.graph,
                                    (#[trigger] comps@[i]).id as int,
                                    m,
                                ) by {
                                if !self.global_tasks_queue.in_flight@[m] {
                                    if in_neighborhood(self.graph, id as int, m) {
                                        assert(self.global_tasks_queue.in_flight@[m]);
                                    } else {
                                        assert(m != id as int);
                                        assert(!q_pre.in_flight@[m]) by {
                                            if q_pre.in_flight@[m] {
                                                assert(q_mid.in_flight@[m]);
                                                assert(self.global_tasks_queue.in_flight@[m]);
                                            }
                                        }
                                        assert(exists|i: int|
                                            0 <= i < comps_pre.len() && in_neighborhood(
                                                self.graph,
                                                (#[trigger] comps_pre[i]).id as int,
                                                m,
                                            ));
                                        let i = choose|i: int|
                                            0 <= i < comps_pre.len() && in_neighborhood(
                                                self.graph,
                                                (#[trigger] comps_pre[i]).id as int,
                                                m,
                                            );
                                        assert(i != 0);
                                        assert(in_neighborhood(
                                            self.graph,
                                            comps@[i - 1].id as int,
                                            m,
                                        ));
                                    }
                                }
                            }
                        }
                        assert forall|i: int, j: int|
                            0 <= i < comps@.len() && 0 <= j
                                < self.global_tasks_queue.pending@.len() implies (
                        #[trigger] comps@[i]).id != (
                        #[trigger] self.global_tasks_queue.pending@[j]) by {
                            if j < q_pre.pending@.len() {
                                assert(self.global_tasks_queue.pending@[j]
                                    == q_pre.pending@[j]);
                                assert(comps_pre[i + 1].id != q_pre.pending@[j]);
                            } else {
                                assert(!q_mid.in_flight@[self.global_tasks_queue.pending@[j] as int]);
                                assert(q_mid.in_flight@[comps@[i].id as int]);
                            }
                        }
                        assert forall|i: int|
                            0 <= i < comps@.len() implies self.global_tasks_queue.in_flight@[(
                        #[trigger] comps@[i]).id as int] by {
                            assert(comps@[i] == comps_pre[i + 1]);
                            assert(comps_pre[i + 1].id != comps_pre[0].id);
                            assert(q_pre.in_flight@[comps_pre[i + 1].id as int]);
                            assert(q_mid.in_flight@[comps_pre[i + 1].id as int]);
                        }
                    }
                },
                Err(e) => {
                    proof {
                        assert(comps_pre[0].res is Err);
                        assert(fail_evidence(self.graph, id as int));
                        assert(comps_pre[0].res.unwrap_err()@.kind == ErrorKind::ProcessorError);
                    }
                    if self.cancelled {
                        // A completion arriving after cancellation is
                        // honored but its result is discarded.
                    } else {
                        self.latch_error_and_shutdown(e);
                    }
                    proof {
                        assert(fail_evidence(self.graph, id as int));
                        assert forall|x: int|
                            0 <= x < self.global_tasks_queue.node_count() && (
                            #[trigger] self.global_tasks_queue.in_flight@[x]) implies (exists|
                            i: int,
                        |
                            0 <= i < self.global_tasks_queue.pending@.len()
                                && self.global_tasks_queue.pending@[i] as int == x) || (exists|
                            i: int,
                        |
                            0 <= i < comps@.len() && (#[trigger] comps@[i]).id as int == x) by {
                            assert(x != id as int && q_pre.in_flight@[x]);
                            if exists|i: int|
                                0 <= i < q_pre.pending@.len() && q_pre.pending@[i] as int == x {
                            } else {
                                let i = choose|i: int|
                                    0 <= i < comps_pre.len() && comps_pre[i].id as int == x;
                                assert(i != 0);
                                assert(comps@[i - 1].id as int == x);
                            }
                        }
                        assert forall|i: int|
                            0 <= i < comps@.len() implies self.global_tasks_queue.in_flight@[(
                        #[trigger] comps@[i]).id as int] by {
                            assert(comps@[i] == comps_pre[i + 1]);
                            assert(comps_pre[i + 1].id != comps_pre[0].id);
                            assert(q_pre.in_flight@[comps_pre[i + 1].id as int]);
                        }
                    }
                },
            }
        }
        proof {
            assert(self.flag_backed());
        }
    }

    /// Drive the pipeline until no work remains.  Returns the first latched
    /// error; succeeds after natural completion or after cancellation.  When
    /// it succeeds without cancellation, no processor has any runnable work
    /// left.
    pub fn execute(&mut self) -> (r: Result<(), ErrorCode>)
        requires
            old(self).wf_exec(),
        ensures
            final(self).wf_exec(),
            graph_shape_eq(old(self).graph, final(self).graph),
            final(self).cancelled == old(self).cancelled,
            final(self).rounds >= old(self).rounds,
            old(self).error is Some ==> final(self).error == old(self).error,
            old(self).error is None ==> final(self).error_grounded(),
            match r {
                Ok(_) => final(self).error is None,
                Err(e) => {
                    let latched = final(self).error.unwrap();
                    final(self).error is Some && e@.kind == latched@.kind && e@.msg == latched@.msg
                },
            },
            (final(self).error is None && !final(self).cancelled) ==> forall|m: int|
                0 <= m < final(self).graph.node_count() ==> !runnable(final(self).graph, m),
    {
        let worker_total = self.workers.len();
        let mut w: usize = 0;
        let mut fuel: u64 = u64::MAX - self.rounds;
        let mut done = false;
        while !done && fuel > 0
            invariant
                self.wf_exec(),
                self.workers@.len() == old(self).workers@.len(),
                worker_total == self.workers@.len(),
                w < worker_total,
                graph_shape_eq(old(self).graph, self.graph),
                self.cancelled == old(self).cancelled,
                fuel == u64::MAX - self.rounds,
                self.rounds >= old(self).rounds,
                old(self).error is Some ==> self.error == old(self).error,
                old(self).error is None ==> self.error_grounded(),
                done ==> (self.quiet() ==> forall|m: int|
                    0 <= m < self.graph.node_count() ==> !runnable(self.graph, m)),
            decreases fuel,
        {
            let ghost self_top = *self;
            let ghost q0 = self.global_tasks_queue;
            let popped = self.global_tasks_queue.pop_ready();
            match popped {
                Some(n) => {
                    proof {
                        assert forall|x: int|
                            0 <= x < self.global_tasks_queue.node_count() && x != n as int && (
                            #[trigger] self.global_tasks_queue.in_flight@[x]) implies self.backed(
                            x,
                        ) by {
                            if exists|i: int|
                                0 <= i < q0.pending@.len() && q0.pending@[i] as int == x {
                                let i = choose|i: int|
                                    0 <= i < q0.pending@.len() && q0.pending@[i] as int == x;
                                assert(q0.pending@[0] == n);
                                assert(i != 0);
                                assert(self.global_tasks_queue.pending@[i - 1] as int == x);
                            } else {
                                let i = choose|i: int|
                                    0 <= i < q0.completed@.len() && q0.completed@[i].id as int
                                        == x;
                                assert(self.global_tasks_queue.completed@[i].id as int == x);
                            }
                        }
                        assert(self.holding_task(n as int));
                    }
                    if self.graph.procs[n].calls == u64::MAX {
                        let ghost q_pre = self.global_tasks_queue;
                        let ghost g_mid = self.graph;
                        let em = ErrorCode::new(
                            ErrorKind::LogicalError,
                            "processor call counter exhausted".to_owned(),
                        );
                        self.latch_error_and_shutdown(em);
                        self.global_tasks_queue.finish_task(n);
                        proof {
                            assert(self.graph.procs@ == g_mid.procs@);
                            assert(self.completions_grounded()) by {
                                assert forall|i: int|
                                    0 <= i < self.global_tasks_queue.completed@.len() && (
                                    #[trigger] self.global_tasks_queue.completed@[i]).res is Err implies fail_evidence(
                                    self.graph,
                                    self.global_tasks_queue.completed@[i].id as int,
                                ) && self.global_tasks_queue.completed@[i].res.unwrap_err()@.kind
                                    == ErrorKind::ProcessorError by {
                                    assert(fail_evidence(
                                        g_mid,
                                        self.global_tasks_queue.completed@[i].id as int,
                                    ));
                                }
                            }
                            assert(self.shutdown_finished()) by {
                                assert forall|e2: int|
                                    0 <= e2 < self.graph.edge_count() implies (
                                #[trigger] self.graph.edges@[e2]).finished by {
                                    assert(self.graph.edges@[e2] == (Edge {
                                        finished: true,
                                        ..g_mid.edges@[e2]
                                    }));
                                }
                            }
                            self.restore_after_failure(q_pre, n);
                            if self_top.error is None {
                                assert(self.graph.procs@[n as int].calls == u64::MAX);
                            }
                        }
                    } else {
                        self.run_claimed_task(n, w);
                    }
                },
                None => {
                    let comps = self.global_tasks_queue.drain_completions();
                    if comps.len() == 0 {
                        proof {
                            if self.quiet() {
                                assert forall|m: int|
                                    0 <= m < self.graph.node_count() implies !runnable(
                                    self.graph,
                                    m,
                                ) by {
                                    if runnable(self.graph, m) {
                                        assert(self.global_tasks_queue.in_flight@[m]);
                                        assert(false);
                                    }
                                }
                            }
                        }
                        // The worker would park here.  A pending wake is
                        // consumed and the queue re-checked once more;
                        // otherwise, with no task, no completion and no
                        // offloaded work, the pipeline is terminal.
                        let woken = self.workers_notify.wait(w);
                        if !woken {
                            done = true;
                        }
                    } else {
                        proof {
                            assert(comps@ == q0.completed@);
                        }
                        self.fold_completions(comps);
                    }
                },
            }
            proof {
                if old(self).error is None {
                    if self_top.error is None {
                        assert(self.error_grounded());
                    } else {
                        assert(self.error == self_top.error);
                        assert(self_top.error_grounded());
                        match self_top.error {
                            Some(e) => {
                                if e@.kind == ErrorKind::ProcessorError {
                                    let m = choose|m: int| fail_evidence(self_top.graph, m);
                                    assert(fail_evidence(self.graph, m)) by {
                                        lemma_fail_evidence_preserved(
                                            self_top.graph,
                                            self.graph,
                                            m,
                                        );
                                    }
                                } else {
                                    if exists|m: int|
                                        0 <= m < self_top.graph.node_count() && (
                                        #[trigger] self_top.graph.procs@[m]).calls == u64::MAX {
                                        let m = choose|m: int|
                                            0 <= m < self_top.graph.node_count() && (
                                            #[trigger] self_top.graph.procs@[m]).calls
                                                == u64::MAX;
                                        assert(self.graph.procs@[m].calls == u64::MAX);
                                    }
                                }
                            },
                            None => {},
                        }
                        assert(self.error_grounded());
                    }
                }
            }
            w = w + 1;
            if w == worker_total {
                w = 0;
            }
            self.rounds = self.rounds + 1;
            fuel = fuel - 1;
        }
        if !done {
            let ghost self_pre = *self;
            let ghost g_mid = self.graph;
            let em = ErrorCode::new(
                ErrorKind::LogicalError,
                "scheduling budget exhausted".to_owned(),
            );
            self.latch_error_and_shutdown(em);
            proof {
                assert(self.rounds == u64::MAX);
                assert(self.flag_backed());
                assert(self.completions_grounded()) by {
                    assert forall|i: int|
                        0 <= i < self.global_tasks_queue.completed@.len() && (
                        #[trigger] self.global_tasks_queue.completed@[i]).res is Err implies fail_evidence(
                        self.graph,
                        self.global_tasks_queue.completed@[i].id as int,
                    ) && self.global_tasks_queue.completed@[i].res.unwrap_err()@.kind
                        == ErrorKind::ProcessorError by {
                        assert(fail_evidence(
                            g_mid,
                            self.global_tasks_queue.completed@[i].id as int,
                        ));
                    }
                }
                assert(self.shutdown_finished()) by {
                    assert forall|e2: int|
                        0 <= e2 < self.graph.edge_count() implies (
                    #[trigger] self.graph.edges@[e2]).finished by {
                        assert(self.graph.edges@[e2] == (Edge {
                            finished: true,
                            ..g_mid.edges@[e2]
                        }));
                    }
                }
                if old(self).error is None {
                    if self_pre.error is None {
                        assert(self.error == Some(em));
                        assert(self.error_grounded());
                    } else {
                        assert(self.error == self_pre.error);
                        assert(self_pre.error_grounded());
                        assert(self.graph.procs@ == self_pre.graph.procs@);
                        assert(self.rounds == self_pre.rounds);
                        match self_pre.error {
                            Some(e) => {
                                if e@.kind == ErrorKind::ProcessorError {
                                    let m = choose|m: int| fail_evidence(self_pre.graph, m);
                                    assert(fail_evidence(self.graph, m));
                                }
                            },
                            None => {},
                        }
                        assert(self.error_grounded());
                    }
                }
            }
        }
        match &self.error {
            None => Ok(()),
            Some(e) => Err(e.duplicate()),
        }
    }
}

/// The executor entry point: spawn `worker_count` workers over `graph`,
/// drive it to a terminal state and hand the graph back for inspection.  On
/// success every processor has reached a state with no runnable work.
pub fn run(graph: RunningGraph, worker_count: usize) -> (r: (Result<(), ErrorCode>, RunningGraph))
    requires
        graph.wf(),
        graph.clean_finished(),
        worker_count >= 1,
    ensures
        r.1.wf(),
        graph_shape_eq(graph, r.1),
        r.0 is Ok ==> r.1.clean_finished() && forall|m: int|
            0 <= m < r.1.node_count() ==> !runnable(r.1, m),
        match r.0 {
            Ok(_) => true,
            Err(e) => (e@.kind == ErrorKind::ProcessorError && (exists|n: int|
                fail_evidence(r.1, n))) || e@.kind == ErrorKind::LogicalError,
        },
{
    let mut ex = PipelineExecutor::create(graph, worker_count);
    let res = ex.execute();
    proof {
        if res is Ok {
            assert(ex.error is None);
            assert(!ex.cancelled);
        } else {
            assert(ex.error_grounded());
            let latched = ex.error.unwrap();
            let e = res.unwrap_err();
            assert(e@.kind == latched@.kind);
            if latched@.kind == ErrorKind::ProcessorError {
                assert(exists|n: int| fail_evidence(ex.graph, n));
            } else {
                assert(latched@.kind == ErrorKind::LogicalError);
            }
        }
    }
    (res, ex.graph)
}

/// Progress, end to end: build a pipeline of one source emitting `total`
/// units connected directly to one sink, run it on `worker_count` workers,
/// and — whenever the run succeeds — the sink has received exactly the
/// units `0, 1, ..., total - 1`, in order.  Neither node injects a failure,
/// so the run can only fail by genuinely exhausting the execution budget,
/// which the returned executor still shows.
pub fn run_source_to_sink(total: u64, worker_count: usize) -> (r: (Result<
    (),
    ErrorCode,
>, PipelineExecutor))
    requires
        worker_count >= 1,
    ensures
        r.1.graph.node_count() == 2,
        r.0 is Ok ==> r.1.graph.procs@[1].received@.len() == total && forall|i: int|
            0 <= i < r.1.graph.procs@[1].received@.len() ==> r.1.graph.procs@[1].received@[i]
                == i,
        r.0 is Err ==> r.1.error is Some && r.1.error_grounded() && r.1.error.unwrap()@.kind
            == ErrorKind::LogicalError,
{
    let mut g = RunningGraph::create();
    let src = g.add_node(crate::graph::ProcKind::Source, total, 0, 0);
    let snk = g.add_node(crate::graph::ProcKind::Sink, 0, 0, 0);
    let e = g.connect(src, snk);
    proof {
        assert(g.procs@[0].outputs@ =~= seq![0usize]);
        assert(g.procs@[1].inputs@ =~= seq![0usize]);
        assert(g.wf());
        assert(g.clean_finished());
    }
    let mut ex = PipelineExecutor::create(g, worker_count);
    let res = ex.execute();
    proof {
        let g2 = ex.graph;
        if res is Ok {
            assert(ex.error is None);
            assert(!ex.cancelled);
            assert(g2.procs@[0].outputs@ =~= seq![0usize]) by {
                assert(node_shape_eq(g.procs@[0], g2.procs@[0]));
            }
            assert(g2.procs@[1].inputs@ =~= seq![0usize]) by {
                assert(node_shape_eq(g.procs@[1], g2.procs@[1]));
            }
            crate::graph::lemma_chain_pipeline_exact(g2, 0, 1, 0);
            assert(g2.procs@[0].total == total) by {
                assert(node_shape_eq(g.procs@[0], g2.procs@[0]));
            }
        } else {
            // Neither node injects a failure, so the only possible error is
            // an exhausted execution budget.
            assert(ex.error_grounded());
            let latched = ex.error.unwrap();
            if latched@.kind == ErrorKind::ProcessorError {
                let m = choose|m: int| fail_evidence(g2, m);
                assert(node_shape_eq(g.procs@[m], g2.procs@[m]));
                assert(g.procs@[m].fail_at == 0);
                assert(false);
            }
        }
    }
    (res, ex)
}

/// Fan-out and fan-in, end to end: build one source feeding two parallel
/// transforms that converge on one sink, run it, and — whenever the run
/// succeeds — the sink has received each of the source's `total` units
/// exactly once.
pub fn run_fan_out_fan_in(total: u64, worker_count: usize) -> (r: (Result<
    (),
    ErrorCode,
>, PipelineExecutor))
    requires
        worker_count >= 1,
    ensures
        r.1.graph.node_count() == 4,
        r.0 is Ok ==> r.1.graph.procs@[3].received@.len() == total,
        r.0 is Err ==> r.1.error is Some && r.1.error_grounded() && r.1.error.unwrap()@.kind
            == ErrorKind::LogicalError,
{
    let mut g = RunningGraph::create();
    let src = g.add_node(crate::graph::ProcKind::Source, total, 0, 0);
    let t1 = g.add_node(crate::graph::ProcKind::Transform, 0, 0, 0);
    let t2 = g.add_node(crate::graph::ProcKind::Transform, 0, 0, 0);
    let snk = g.add_node(crate::graph::ProcKind::Sink, 0, 0, 0);
    let a1 = g.connect(src, t1);
    let a2 = g.connect(src, t2);
    let b1 = g.connect(t1, snk);
    let b2 = g.connect(t2, snk);
    proof {
        assert(g.procs@[0].outputs@ =~= seq![0usize, 1usize]);
        assert(g.procs@[1].inputs@ =~= seq![0usize]);
        assert(g.procs@[1].outputs@ =~= seq![2usize]);
        assert(g.procs@[2].inputs@ =~= seq![1usize]);
        assert(g.procs@[2].outputs@ =~= seq![3usize]);
        assert(g.procs@[3].inputs@ =~= seq![2usize, 3usize]);
        assert(g.wf());
        assert(g.clean_finished());
    }
    let mut ex = PipelineExecutor::create(g, worker_count);
    let res = ex.execute();
    proof {
        let g2 = ex.graph;
        if res is Ok {
            assert(ex.error is None);
            assert(!ex.cancelled);
            assert(node_shape_eq(g.procs@[0], g2.procs@[0]));
            assert(node_shape_eq(g.procs@[1], g2.procs@[1]));
            assert(node_shape_eq(g.procs@[2], g2.procs@[2]));
            assert(node_shape_eq(g.procs@[3], g2.procs@[3]));
            assert(g2.procs@[0].outputs@ =~= seq![0usize, 1usize]);
            assert(g2.procs@[1].inputs@ =~= seq![0usize]);
            assert(g2.procs@[1].outputs@ =~= seq![2usize]);
            assert(g2.procs@[2].inputs@ =~= seq![1usize]);
            assert(g2.procs@[2].outputs@ =~= seq![3usize]);
            assert(g2.procs@[3].inputs@ =~= seq![2usize, 3usize]);
            crate::graph::lemma_diamond_pipeline_count(g2, 0, 1, 2, 3, 0, 1, 2, 3);
            assert(g2.procs@[0].total == total);
        } else {
            assert(ex.error_grounded());
            let latched = ex.error.unwrap();
            if latched@.kind == ErrorKind::ProcessorError {
                let m = choose|m: int| fail_evidence(g2, m);
                assert(node_shape_eq(g.procs@[m], g2.procs@[m]));
                assert(g.procs@[m].fail_at == 0);
                assert(false);
            }
        }
    }
    (res, ex)
}

} // verus!
