use vstd::prelude::*;

verus! {

// The thread-parking model.  A wake is a sticky per-worker flag, so a wake
// that races with a worker about to park is never lost: parking first
// consumes a pending wake instead of sleeping.

/// Parks idle workers and wakes them when work arrives.
#[derive(Debug)]
pub struct WorkersNotify {
    /// Per worker: parked, waiting to be woken.
    pub waiting: Vec<bool>,
    /// Per worker: a wake was posted and not yet consumed.
    pub notified: Vec<bool>,
}

impl WorkersNotify {
    pub open spec fn worker_count(&self) -> int {
        self.waiting@.len() as int
    }

    pub open spec fn wf(&self) -> bool {
        self.notified@.len() == self.waiting@.len()
    }

    pub fn create(workers: usize) -> (w: WorkersNotify)
        ensures
            w.wf(),
            w.worker_count() == workers,
            forall|i: int| 0 <= i < workers ==> !w.waiting@[i] && !w.notified@[i],
    {
        let mut waiting: Vec<bool> = Vec::new();
        let mut notified: Vec<bool> = Vec::new();
        let mut i: usize = 0;
        while i < workers
            invariant
                waiting@.len() == i,
                notified@.len() == i,
                i <= workers,
                forall|j: int| 0 <= j < i ==> !waiting@[j] && !notified@[j],
            decreases workers - i,
        {
            waiting.push(false);
            notified.push(false);
            i = i + 1;
        }
        WorkersNotify { waiting, notified }
    }

    /// A worker tries to park.  If a wake is already pending it is consumed
    /// and the worker stays runnable; otherwise the worker is parked.
    /// Returns whether the worker stays runnable.
    pub fn wait(&mut self, worker: usize) -> (runnable: bool)
        requires
            old(self).wf(),
            worker < old(self).worker_count(),
        ensures
            final(self).wf(),
            final(self).worker_count() == old(self).worker_count(),
            runnable == old(self).notified@[worker as int],
            runnable ==> final(self).notified@ == old(self).notified@.update(worker as int, false)
                && final(self).waiting@ == old(self).waiting@,
            !runnable ==> final(self).notified@ == old(self).notified@ && final(self).waiting@
                == old(self).waiting@.update(worker as int, true),
    {
        if self.notified[worker] {
            self.notified[worker] = false;
            true
        } else {
            self.waiting[worker] = true;
            false
        }
    }

    /// Wake a specific worker.  Idempotent: the wake flag is sticky, so a
    /// wake posted while the worker was not yet parked is kept.
    pub fn wakeup(&mut self, worker: usize)
        requires
            old(self).wf(),
            worker < old(self).worker_count(),
        ensures
            final(self).wf(),
            final(self).worker_count() == old(self).worker_count(),
            final(self).notified@ == old(self).notified@.update(worker as int, true),
            final(self).waiting@ == old(self).waiting@.update(worker as int, false),
    {
        self.notified[worker] = true;
        self.waiting[worker] = false;
    }

    /// Wake one parked worker, if any is parked: the first one found.
    pub fn wakeup_any(&mut self)
        requires
            old(self).wf(),
        ensures
            final(self).wf(),
            final(self).worker_count() == old(self).worker_count(),
            (exists|i: int| 0 <= i < old(self).worker_count() && old(self).waiting@[i]) ==> {
                let w = first_waiting(old(self).waiting@, 0);
                &&& final(self).notified@ == old(self).notified@.update(w, true)
                &&& final(self).waiting@ == old(self).waiting@.update(w, false)
            },
            !(exists|i: int| 0 <= i < old(self).worker_count() && old(self).waiting@[i])
                ==> final(self).notified@ == old(self).notified@ && final(self).waiting@ == old(
                self,
            ).waiting@,
    {
        let mut i: usize = 0;
        while i < self.waiting.len()
            invariant
                old(self).wf(),
                *self == *old(self),
                i <= old(self).waiting@.len(),
                forall|j: int| 0 <= j < i ==> !old(self).waiting@[j],
            decreases old(self).waiting@.len() - i,
        {
            if self.waiting[i] {
                proof {
                    lemma_first_waiting_skip(old(self).waiting@, i as int);
                }
                self.notified[i] = true;
                self.waiting[i] = false;
                return ;
            }
            i = i + 1;
        }
    }

    /// Wake every worker; used on completion, failure and cancellation so
    /// that all workers observe the terminal state.
    pub fn wakeup_all(&mut self)
        requires
            old(self).wf(),
        ensures
            final(self).wf(),
            final(self).worker_count() == old(self).worker_count(),
            forall|i: int|
                0 <= i < final(self).worker_count() ==> final(self).notified@[i]
                    && !final(self).waiting@[i],
    {
        let count = self.waiting.len();
        let mut i: usize = 0;
        while i < count
            invariant
                self.wf(),
                count == self.waiting@.len(),
                self.waiting@.len() == old(self).waiting@.len(),
                i <= count,
                forall|j: int| 0 <= j < i ==> self.notified@[j] && !self.waiting@[j],
            decreases count - i,
        {
            self.notified[i] = true;
            self.waiting[i] = false;
            i = i + 1;
        }
    }

    /// Whether any worker is parked.
    pub fn has_waiting(&self) -> (r: bool)
        ensures
            r == exists|i: int| 0 <= i < self.worker_count() && self.waiting@[i],
    {
        let mut i: usize = 0;
        while i < self.waiting.len()
            invariant
                i <= self.waiting@.len(),
                forall|j: int| 0 <= j < i ==> !self.waiting@[j],
            decreases self.waiting@.len() - i,
        {
            if self.waiting[i] {
                return true;
            }
            i = i + 1;
        }
        false
    }
}

/// The first parked worker at or after `j`; the list length when none is.
pub open spec fn first_waiting(waiting: Seq<bool>, j: int) -> int
    decreases waiting.len() - j,
{
    if j < 0 || j >= waiting.len() {
        waiting.len() as int
    } else if waiting[j] {
        j
    } else {
        first_waiting(waiting, j + 1)
    }
}

proof fn lemma_first_waiting_skip(waiting: Seq<bool>, j: int)
    requires
        0 <= j <= waiting.len(),
        forall|k: int| 0 <= k < j ==> !waiting[k],
    ensures
        first_waiting(waiting, 0) == first_waiting(waiting, j),
    decreases j,
{
    if j > 0 {
        lemma_first_waiting_skip(waiting, j - 1);
    }
}

} // verus!
