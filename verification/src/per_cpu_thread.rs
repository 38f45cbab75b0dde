//! The per-CPU workers: one queue of deferred work per possible CPU.
//!
//! Some operations must run on the CPU that owns a cell — above all releases
//! that detected they were running on the wrong CPU. Such work is submitted to
//! the owning CPU's worker and performed there, in submission order. In the
//! running system each worker is a thread pinned to its CPU, spawned on first
//! submission, draining its queue forever; the embedding runs that loop. Here
//! the workers are their queues: submission appends, and the container drains
//! a queue explicitly in place of the worker thread.
//!
//! A worker that dies would strand references, so in the running system a
//! worker panic aborts the process; no task submitted here is ever abandoned.

use vstd::prelude::*;

verus! {

/// The per-CPU workers, reduced to what they hold: for every possible CPU a
/// flag saying whether the worker was ever started, and the queue of
/// outstanding tasks. A task is the handle of a cell awaiting release on the
/// worker's CPU.
pub struct CpuWorkers {
    pub(crate) queues: Vec<Vec<usize>>,
    pub(crate) started: Vec<bool>,
}

impl CpuWorkers {
    /// How many CPUs have a worker slot.
    pub open(crate) spec fn num_cpus(&self) -> int {
        self.queues@.len() as int
    }

    /// The outstanding tasks of CPU `c`'s worker, oldest first.
    pub open(crate) spec fn queue(&self, c: int) -> Seq<usize> {
        self.queues@[c]@
    }

    /// Whether CPU `c`'s worker was ever started.
    pub open(crate) spec fn is_started(&self, c: int) -> bool {
        self.started@[c]
    }

    pub open(crate) spec fn inv(&self) -> bool {
        self.started@.len() == self.queues@.len()
    }

    /// One worker slot per possible CPU; nothing queued, nothing started.
    pub fn new(num_cpus: usize) -> (r: CpuWorkers)
        ensures
            r.inv(),
            r.num_cpus() == num_cpus,
            forall|c: int| 0 <= c < num_cpus ==> r.queue(c) =~= Seq::<usize>::empty(),
            forall|c: int| 0 <= c < num_cpus ==> !r.is_started(c),
    {
        let mut queues: Vec<Vec<usize>> = Vec::new();
        let mut started: Vec<bool> = Vec::new();
        let mut c: usize = 0;
        while c < num_cpus
            invariant
                c <= num_cpus,
                queues@.len() == c,
                started@.len() == c,
                forall|k: int| 0 <= k < c ==> queues@[k]@ =~= Seq::<usize>::empty(),
                forall|k: int| 0 <= k < c ==> !started@[k],
            decreases num_cpus - c,
        {
            queues.push(Vec::new());
            started.push(false);
            c = c + 1;
        }
        CpuWorkers { queues, started }
    }

    /// How many tasks CPU `cpu`'s worker still has to run.
    pub fn queue_len(&self, cpu: usize) -> (n: usize)
        requires
            self.inv(),
            cpu < self.num_cpus(),
        ensures
            n == self.queue(cpu as int).len(),
    {
        let q = &self.queues[cpu];
        q.len()
    }

    /// Takes the oldest outstanding task of CPU `cpu`'s worker: the worker
    /// runs tasks in submission order.
    pub fn pop_task(&mut self, cpu: usize) -> (h: usize)
        requires
            old(self).inv(),
            cpu < old(self).num_cpus(),
            old(self).queue(cpu as int).len() > 0,
        ensures
            final(self).inv(),
            final(self).num_cpus() == old(self).num_cpus(),
            h == old(self).queue(cpu as int).first(),
            final(self).queue(cpu as int) == old(self).queue(cpu as int).drop_first(),
            forall|c: int|
                0 <= c < old(self).num_cpus() && c != cpu ==> final(self).queue(c) == old(
                    self,
                ).queue(c),
            forall|c: int|
                0 <= c < old(self).num_cpus() ==> final(self).is_started(c) == old(
                    self,
                ).is_started(c),
    {
        let mut q: Vec<usize> = Vec::new();
        self.queues.set_and_swap(cpu, &mut q);
        let h = q.remove(0);
        self.queues.set_and_swap(cpu, &mut q);
        proof {
            assert(self.queue(cpu as int) =~= old(self).queue(cpu as int).drop_first());
        }
        h
    }
}

/// Submits a task to CPU `cpu`'s worker: the task will run on a thread whose
/// affinity is fixed to that CPU, after every task submitted before it. The
/// worker is started on first submission.
pub fn run_on_cpu(workers: &mut CpuWorkers, cpu: usize, task: usize)
    requires
        old(workers).inv(),
        cpu < old(workers).num_cpus(),
    ensures
        final(workers).inv(),
        final(workers).num_cpus() == old(workers).num_cpus(),
        final(workers).queue(cpu as int) == old(workers).queue(cpu as int).push(task),
        forall|c: int|
            0 <= c < old(workers).num_cpus() && c != cpu ==> final(workers).queue(c) == old(
                workers,
            ).queue(c),
        final(workers).is_started(cpu as int),
        forall|c: int|
            0 <= c < old(workers).num_cpus() && c != cpu ==> final(workers).is_started(c) == old(
                workers,
            ).is_started(c),
{
    if !workers.started[cpu] {
        // First submission: the worker thread is spawned and pinned here.
        workers.started.set(cpu, true);
    }
    let mut q: Vec<usize> = Vec::new();
    workers.queues.set_and_swap(cpu, &mut q);
    q.push(task);
    workers.queues.set_and_swap(cpu, &mut q);
    proof {
        assert(workers.queue(cpu as int) =~= old(workers).queue(cpu as int).push(task));
    }
}

} // verus!
