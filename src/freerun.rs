//! The free-running dialect: each worker runs its own list of operations back
//! to back, each repeated for its iterations and striding through a working
//! set, the whole list repeated a number of times, with an optional think
//! time after each operation.
use crate::common::{ExecError, Task, ThreadStats};
use crate::generator::{or_else, wadd};
use crate::metrics::{faulted, fresh_stats, recorded};
use vstd::prelude::*;

verus! {

/// Kind of a free-running operation.
#[derive(Debug, Clone, Copy, PartialEq, Eq, Structural)]
pub enum OpType {
    Read,
    Write,
    Cpu,
}

/// One operation of a worker's list; absent fields take their defaults
/// (address 0, 4096 bytes, 1000 cycles, one iteration, no stride, no think time).
#[derive(Debug, Clone, Copy, PartialEq, Eq, Structural)]
pub struct ThreadOp {
    pub op_type: OpType,
    pub address: Option<u64>,
    pub size: Option<u64>,
    pub cpu_cycles: Option<u64>,
    pub iterations: Option<u64>,
    pub stride: Option<u64>,
    pub think_time_ns: Option<u64>,
}

/// The operations of one worker, with its working set and repeat count
/// (defaults: base 0, a working set reaching to the end of the address space,
/// one pass).
#[derive(Debug, Clone)]
pub struct ThreadPattern {
    pub thread_id: u32,
    pub operations: Vec<ThreadOp>,
    pub working_set_base: Option<u64>,
    pub working_set_size: Option<u64>,
    pub repeat_pattern: Option<u64>,
}

pub open spec fn iterations_of(op: ThreadOp) -> u64 {
    or_else(op.iterations, 1)
}

pub open spec fn size_of(op: ThreadOp) -> u64 {
    or_else(op.size, 4096)
}

pub open spec fn cycles_of(op: ThreadOp) -> u64 {
    or_else(op.cpu_cycles, 1000)
}

pub open spec fn stride_of(op: ThreadOp) -> u64 {
    or_else(op.stride, 0)
}

pub open spec fn think_of(op: ThreadOp) -> u64 {
    or_else(op.think_time_ns, 0)
}

/// Where the first iteration of `op` starts: its address past the working
/// set's base.
pub open spec fn start_of(base: u64, op: ThreadOp) -> u64 {
    wadd(base, or_else(op.address, 0))
}

/// `idx` lists, in increasing order, exactly the operations of `ops` that
/// have at least one iteration.
pub open spec fn runnable_indices(ops: Seq<ThreadOp>, idx: Seq<usize>) -> bool {
    &&& forall|a: int, b: int| #![trigger idx[a], idx[b]] 0 <= a < b < idx.len() ==> idx[a] < idx[b]
    &&& forall|i: int|
        0 <= i < idx.len() ==> #[trigger] idx[i] < ops.len() && iterations_of(ops[idx[i] as int])
            > 0
    &&& forall|k: int|
        0 <= k < ops.len() && iterations_of(ops[k]) > 0 ==> #[trigger] idx.contains(k as usize)
}

/// A free-running worker: where it stands in its list and its counters.
pub struct FreeWorker {
    thread_id: u32,
    ops: Vec<ThreadOp>,
    runnable: Vec<usize>,
    base: u64,
    ws_end: u128,
    repeat: u64,
    rep: u64,
    j: usize,
    it: u64,
    current: u64,
    stats: ThreadStats,
}

impl FreeWorker {
    pub closed spec fn spec_thread_id(&self) -> u32 {
        self.thread_id
    }

    pub closed spec fn spec_ops(&self) -> Seq<ThreadOp> {
        self.ops@
    }

    /// Indices of the operations that run, in order.
    pub closed spec fn spec_runnable(&self) -> Seq<usize> {
        self.runnable@
    }

    pub closed spec fn spec_base(&self) -> u64 {
        self.base
    }

    /// One past the working set's last byte.
    pub closed spec fn spec_ws_end(&self) -> int {
        self.ws_end as int
    }

    pub closed spec fn spec_repeat(&self) -> u64 {
        self.repeat
    }

    /// The pass through the list.
    pub closed spec fn spec_rep(&self) -> u64 {
        self.rep
    }

    /// Position in the runnable operations.
    pub closed spec fn spec_j(&self) -> nat {
        self.j as nat
    }

    /// Iteration of the current operation.
    pub closed spec fn spec_it(&self) -> u64 {
        self.it
    }

    /// The address the next access starts from.
    pub closed spec fn spec_current(&self) -> u64 {
        self.current
    }

    pub closed spec fn spec_stats(&self) -> ThreadStats {
        self.stats
    }

    pub closed spec fn wf(&self) -> bool {
        &&& runnable_indices(self.ops@, self.runnable@)
        &&& self.stats.thread_id == self.thread_id
        &&& (self.runnable@.len() > 0 ==> self.j < self.runnable@.len() && self.it
            < iterations_of(self.ops@[self.runnable@[self.j as int] as int]))
    }

    /// The worker has nothing left to run.
    pub open spec fn finished(&self) -> bool {
        self.spec_runnable().len() == 0 || self.spec_rep() >= self.spec_repeat()
            || self.spec_stats().fault is Some
    }

    /// The operation at the worker's position.
    pub open spec fn current_op(&self) -> ThreadOp {
        self.spec_ops()[self.spec_runnable()[self.spec_j() as int] as int]
    }

    /// Where the next access goes: back to the working set's base when the
    /// block would run past the working set's end.
    pub open spec fn target(&self) -> u64 {
        if self.spec_current() + size_of(self.current_op()) > self.spec_ws_end() {
            self.spec_base()
        } else {
            self.spec_current()
        }
    }

    /// The task at the worker's position.
    pub open spec fn current_task(&self) -> Task {
        let op = self.current_op();
        match op.op_type {
            OpType::Read => Task::Read { address: self.target(), size: size_of(op) },
            OpType::Write => Task::Write { address: self.target(), size: size_of(op) },
            OpType::Cpu => Task::Cpu { cycles: cycles_of(op) },
        }
    }

    /// The fresh worker for `tp`.
    pub fn new(tp: &ThreadPattern) -> (w: FreeWorker)
        ensures
            w.wf(),
            w.spec_thread_id() == tp.thread_id,
            w.spec_ops() == tp.operations@,
            w.spec_base() == or_else(tp.working_set_base, 0),
            w.spec_ws_end() == w.spec_base() + or_else(tp.working_set_size, u64::MAX),
            w.spec_repeat() == or_else(tp.repeat_pattern, 1),
            w.spec_rep() == 0 && w.spec_j() == 0 && w.spec_it() == 0,
            w.spec_runnable().len() > 0 ==> w.spec_current() == start_of(
                w.spec_base(),
                w.current_op(),
            ),
            w.spec_stats() == fresh_stats(tp.thread_id),
    {
        let base: u64 = match tp.working_set_base {
            Some(b) => b,
            None => 0,
        };
        let size: u64 = match tp.working_set_size {
            Some(s) => s,
            None => u64::MAX,
        };
        let repeat: u64 = match tp.repeat_pattern {
            Some(r) => r,
            None => 1,
        };
        let mut ops: Vec<ThreadOp> = Vec::new();
        let mut runnable: Vec<usize> = Vec::new();
        let mut k: usize = 0;
        while k < tp.operations.len()
            invariant
                k <= tp.operations@.len(),
                ops@ == tp.operations@.subrange(0, k as int),
                forall|a: int, b: int|
                    #![trigger runnable@[a], runnable@[b]]
                    0 <= a < b < runnable@.len() ==> runnable@[a] < runnable@[b],
                forall|i: int|
                    0 <= i < runnable@.len() ==> #[trigger] runnable@[i] < k && iterations_of(
                        tp.operations@[runnable@[i] as int],
                    ) > 0,
                forall|m: int|
                    0 <= m < k && iterations_of(tp.operations@[m]) > 0
                        ==> #[trigger] runnable@.contains(m as usize),
            decreases tp.operations@.len() - k,
        {
            let op = tp.operations[k];
            let ghost before = runnable@;
            let n = match op.iterations {
                Some(n) => n,
                None => 1,
            };
            if n > 0 {
                runnable.push(k);
            }
            assert forall|m: int|
                0 <= m < k + 1 && iterations_of(tp.operations@[m]) > 0
                    implies #[trigger] runnable@.contains(m as usize) by {
                if m < k {
                    assert(before.contains(m as usize));
                    let i = choose|i: int| 0 <= i < before.len() && before[i] == m as usize;
                    assert(runnable@[i] == m as usize);
                } else {
                    assert(runnable@[before.len() as int] == k);
                }
            }
            ops.push(op);
            assert(ops@ =~= tp.operations@.subrange(0, k + 1));
            k = k + 1;
        }
        assert(ops@ =~= tp.operations@);
        let current = if runnable.len() > 0 {
            let first = ops[runnable[0]];
            match first.address {
                Some(a) => base.wrapping_add(a),
                None => base,
            }
        } else {
            base
        };
        FreeWorker {
            thread_id: tp.thread_id,
            ops,
            runnable,
            base,
            ws_end: base as u128 + size as u128,
            repeat,
            rep: 0,
            j: 0,
            it: 0,
            current,
            stats: ThreadStats::new(tp.thread_id),
        }
    }

    /// The logical thread this worker stands for.
    pub fn thread_id(&self) -> (r: u32)
        ensures
            r == self.spec_thread_id(),
    {
        self.thread_id
    }

    /// The worker's counters so far.
    pub fn stats(&self) -> (r: ThreadStats)
        ensures
            r == self.spec_stats(),
    {
        self.stats
    }

    fn task_now(&self) -> (r: Task)
        requires
            self.wf(),
            !self.finished(),
        ensures
            r == self.current_task(),
    {
        let op = self.ops[self.runnable[self.j]];
        let size = match op.size {
            Some(s) => s,
            None => 4096,
        };
        let target = if self.current as u128 + size as u128 > self.ws_end {
            self.base
        } else {
            self.current
        };
        match op.op_type {
            OpType::Read => Task::Read { address: target, size },
            OpType::Write => Task::Write { address: target, size },
            OpType::Cpu => Task::Cpu {
                cycles: match op.cpu_cycles {
                    Some(c) => c,
                    None => 1000,
                },
            },
        }
    }

    /// What to do next: the task at the worker's position, or nothing.
    pub fn next_step(&self) -> (r: crate::schedule::Step)
        requires
            self.wf(),
        ensures
            r == (if self.finished() {
                crate::schedule::Step::Done
            } else {
                crate::schedule::Step::Run(self.current_task())
            }),
    {
        if self.runnable.len() == 0 || self.rep >= self.repeat || self.stats.fault.is_some() {
            crate::schedule::Step::Done
        } else {
            crate::schedule::Step::Run(self.task_now())
        }
    }

    /// Takes the outcome of the task that [`FreeWorker::next_step`] handed
    /// out and returns the think time to wait before the next one. A latency
    /// counts the task, strides the address and moves on, to the next
    /// iteration, operation or pass; an error stops the worker.
    pub fn complete(&mut self, outcome: Result<u64, ExecError>) -> (pause: u64)
        requires
            old(self).wf(),
            !old(self).finished(),
        ensures
            final(self).wf(),
            final(self).spec_thread_id() == old(self).spec_thread_id(),
            final(self).spec_ops() == old(self).spec_ops(),
            final(self).spec_runnable() == old(self).spec_runnable(),
            final(self).spec_base() == old(self).spec_base(),
            final(self).spec_ws_end() == old(self).spec_ws_end(),
            final(self).spec_repeat() == old(self).spec_repeat(),
            match outcome {
                Ok(latency) => {
                    let op = old(self).current_op();
                    let n = old(self).spec_runnable().len();
                    let after = if op.op_type is Cpu {
                        old(self).spec_current()
                    } else {
                        old(self).target()
                    };
                    &&& final(self).spec_stats() == recorded(
                        old(self).spec_stats(),
                        old(self).current_task(),
                        latency,
                    )
                    &&& pause == think_of(op)
                    &&& if old(self).spec_it() + 1 < iterations_of(op) {
                        &&& final(self).spec_rep() == old(self).spec_rep()
                        &&& final(self).spec_j() == old(self).spec_j()
                        &&& final(self).spec_it() == old(self).spec_it() + 1
                        &&& final(self).spec_current() == wadd(after, stride_of(op))
                    } else if old(self).spec_j() + 1 < n {
                        &&& final(self).spec_rep() == old(self).spec_rep()
                        &&& final(self).spec_j() == old(self).spec_j() + 1
                        &&& final(self).spec_it() == 0
                        &&& final(self).spec_current() == start_of(
                            old(self).spec_base(),
                            final(self).current_op(),
                        )
                    } else {
                        &&& final(self).spec_rep() == old(self).spec_rep() + 1
                        &&& final(self).spec_j() == 0
                        &&& final(self).spec_it() == 0
                        &&& final(self).spec_current() == start_of(
                            old(self).spec_base(),
                            final(self).current_op(),
                        )
                    }
                },
                Err(e) => {
                    &&& final(self).spec_stats() == faulted(old(self).spec_stats(), e)
                    &&& final(self).spec_rep() == old(self).spec_rep()
                    &&& final(self).spec_j() == old(self).spec_j()
                    &&& final(self).spec_it() == old(self).spec_it()
                    &&& final(self).spec_current() == old(self).spec_current()
                    &&& pause == 0
                },
            },
    {
        match outcome {
            Err(e) => {
                self.stats.record_fault(e);
                0
            },
            Ok(latency) => {
                let task = self.task_now();
                let op = self.ops[self.runnable[self.j]];
                self.stats.record(task, latency);
                let after = match task {
                    Task::Read { address, .. } => address,
                    Task::Write { address, .. } => address,
                    _ => self.current,
                };
                let iterations = match op.iterations {
                    Some(n) => n,
                    None => 1,
                };
                if self.it + 1 < iterations {
                    self.it = self.it + 1;
                    let stride = match op.stride {
                        Some(s) => s,
                        None => 0,
                    };
                    self.current = after.wrapping_add(stride);
                } else {
                    self.it = 0;
                    let count = self.runnable.len();
                    if self.j < count - 1 {
                        self.j = self.j + 1;
                    } else {
                        self.j = 0;
                        self.rep = self.rep + 1;
                    }
                    let next = self.ops[self.runnable[self.j]];
                    self.current = match next.address {
                        Some(a) => self.base.wrapping_add(a),
                        None => self.base,
                    };
                }
                match op.think_time_ns {
                    Some(t) => t,
                    None => 0,
                }
            },
        }
    }
}

/// One more than the largest thread id among `tps`; 0 when there are none.
pub open spec fn free_thread_end(tps: Seq<ThreadPattern>) -> nat
    decreases tps.len(),
{
    if tps.len() == 0 {
        0
    } else {
        let m = free_thread_end(tps.drop_last());
        let e = tps.last().thread_id as nat + 1;
        if e > m {
            e
        } else {
            m
        }
    }
}

proof fn lemma_free_thread_end_bound(tps: Seq<ThreadPattern>)
    ensures
        free_thread_end(tps) <= 0x1_0000_0000,
    decreases tps.len(),
{
    if tps.len() > 0 {
        lemma_free_thread_end_bound(tps.drop_last());
    }
}

/// The number of counter slots that workers `tps` need: one more than the
/// largest thread id.
pub fn free_thread_count(tps: &Vec<ThreadPattern>) -> (r: u64)
    ensures
        r == free_thread_end(tps@),
        r <= 0x1_0000_0000,
{
    proof {
        lemma_free_thread_end_bound(tps@);
    }
    let mut m: u64 = 0;
    let mut i: usize = 0;
    proof {
        assert(tps@.subrange(0, 0) =~= Seq::<ThreadPattern>::empty());
    }
    while i < tps.len()
        invariant
            i <= tps@.len(),
            m == free_thread_end(tps@.subrange(0, i as int)),
        decreases tps@.len() - i,
    {
        proof {
            assert(tps@.subrange(0, i + 1).drop_last() =~= tps@.subrange(0, i as int));
        }
        let e = tps[i].thread_id as u64 + 1;
        if e > m {
            m = e;
        }
        i = i + 1;
    }
    proof {
        assert(tps@.subrange(0, tps@.len() as int) =~= tps@);
    }
    m
}

} // verus!
