//! Per-thread operation statistics and the finalized run report derived
//! from them.
use crate::common::{task_of, ExecError, ExecutionResults, Operation, Task, ThreadStats};
use vstd::prelude::*;

verus! {

/// `x` clamped to the range of `u64`.
pub open spec fn sat(x: int) -> u64 {
    if x > u64::MAX {
        u64::MAX
    } else if x < 0 {
        0
    } else {
        x as u64
    }
}

/// Counters of a worker that has recorded nothing yet.
pub open spec fn fresh_stats(thread_id: u32) -> ThreadStats {
    ThreadStats {
        thread_id,
        operations_completed: 0,
        bytes_read: 0,
        bytes_written: 0,
        cpu_cycles_executed: 0,
        total_latency_ns: 0,
        min_latency_ns: 0,
        max_latency_ns: 0,
        fault: None,
    }
}

/// Bytes that a successful `task` adds to `bytes_read`.
pub open spec fn read_amount(task: Task) -> u64 {
    match task {
        Task::Read { size, .. } => size,
        _ => 0,
    }
}

/// Bytes that a successful `task` adds to `bytes_written`.
pub open spec fn write_amount(task: Task) -> u64 {
    match task {
        Task::Write { size, .. } => size,
        _ => 0,
    }
}

/// Cycles that a successful `task` adds to `cpu_cycles_executed`.
pub open spec fn cycle_amount(task: Task) -> u64 {
    match task {
        Task::Cpu { cycles } => cycles,
        _ => 0,
    }
}

/// `s` after recording one successful `task` that took `latency` nanoseconds.
/// The first record sets both latency extremes; later ones widen them.
pub open spec fn recorded(s: ThreadStats, task: Task, latency: u64) -> ThreadStats {
    ThreadStats {
        operations_completed: sat(s.operations_completed + 1),
        bytes_read: sat(s.bytes_read + read_amount(task)),
        bytes_written: sat(s.bytes_written + write_amount(task)),
        cpu_cycles_executed: sat(s.cpu_cycles_executed + cycle_amount(task)),
        total_latency_ns: sat(s.total_latency_ns + latency),
        min_latency_ns: if s.operations_completed == 0 || latency < s.min_latency_ns {
            latency
        } else {
            s.min_latency_ns
        },
        max_latency_ns: if s.operations_completed == 0 || latency > s.max_latency_ns {
            latency
        } else {
            s.max_latency_ns
        },
        ..s
    }
}

/// `s` after the worker stopped on `error`.
pub open spec fn faulted(s: ThreadStats, error: ExecError) -> ThreadStats {
    ThreadStats { fault: Some(error), ..s }
}

pub open spec fn operations_field() -> spec_fn(ThreadStats) -> u64 {
    |t: ThreadStats| t.operations_completed
}

pub open spec fn bytes_read_field() -> spec_fn(ThreadStats) -> u64 {
    |t: ThreadStats| t.bytes_read
}

pub open spec fn bytes_written_field() -> spec_fn(ThreadStats) -> u64 {
    |t: ThreadStats| t.bytes_written
}

pub open spec fn cycles_field() -> spec_fn(ThreadStats) -> u64 {
    |t: ThreadStats| t.cpu_cycles_executed
}

pub open spec fn latency_field() -> spec_fn(ThreadStats) -> u64 {
    |t: ThreadStats| t.total_latency_ns
}

/// The sum of one counter over all threads.
pub open spec fn sum_of(s: Seq<ThreadStats>, f: spec_fn(ThreadStats) -> u64) -> int
    decreases s.len(),
{
    if s.len() == 0 {
        0
    } else {
        sum_of(s.drop_last(), f) + f(s.last())
    }
}

/// Whole units per second when `amount` units took `duration_ns`; 0 for no time.
pub open spec fn per_second(amount: u64, duration_ns: u64) -> int {
    if duration_ns == 0 {
        0
    } else {
        (amount as int) * 1_000_000_000 / (duration_ns as int)
    }
}

/// `r` is the report derived from the per-thread counters `s` over a run of `d` ns.
pub open spec fn finalized(s: Seq<ThreadStats>, d: u64, r: ExecutionResults) -> bool {
    &&& r.total_duration_ns == d
    &&& r.total_operations == sat(sum_of(s, operations_field()))
    &&& r.total_bytes_read == sat(sum_of(s, bytes_read_field()))
    &&& r.total_bytes_written == sat(sum_of(s, bytes_written_field()))
    &&& r.total_cpu_cycles == sat(sum_of(s, cycles_field()))
    &&& r.total_latency_ns == sat(sum_of(s, latency_field()))
    &&& r.average_latency_ns == (if r.total_operations == 0 {
        0
    } else {
        r.total_latency_ns / r.total_operations
    })
    &&& r.read_throughput_bps == per_second(r.total_bytes_read, d)
    &&& r.write_throughput_bps == per_second(r.total_bytes_written, d)
    &&& r.operations_per_second == per_second(r.total_operations, d)
    &&& r.thread_stats@ == s
}

/// Two reports that agree in every field.
pub open spec fn same_report(a: ExecutionResults, b: ExecutionResults) -> bool {
    &&& a.pattern_name@ == b.pattern_name@
    &&& a.total_duration_ns == b.total_duration_ns
    &&& a.total_operations == b.total_operations
    &&& a.total_bytes_read == b.total_bytes_read
    &&& a.total_bytes_written == b.total_bytes_written
    &&& a.total_cpu_cycles == b.total_cpu_cycles
    &&& a.total_latency_ns == b.total_latency_ns
    &&& a.average_latency_ns == b.average_latency_ns
    &&& a.read_throughput_bps == b.read_throughput_bps
    &&& a.write_throughput_bps == b.write_throughput_bps
    &&& a.operations_per_second == b.operations_per_second
    &&& a.thread_stats@ == b.thread_stats@
}

proof fn lemma_sum_nonneg(s: Seq<ThreadStats>, f: spec_fn(ThreadStats) -> u64)
    ensures
        sum_of(s, f) >= 0,
    decreases s.len(),
{
    if s.len() > 0 {
        lemma_sum_nonneg(s.drop_last(), f);
    }
}

proof fn lemma_sum_step(s: Seq<ThreadStats>, i: int, f: spec_fn(ThreadStats) -> u64)
    requires
        0 <= i < s.len(),
    ensures
        sum_of(s.subrange(0, i + 1), f) == sum_of(s.subrange(0, i), f) + f(s[i]),
        sat(sat(sum_of(s.subrange(0, i), f)) + f(s[i])) == sat(sum_of(s.subrange(0, i + 1), f)),
{
    assert(s.subrange(0, i + 1).drop_last() =~= s.subrange(0, i));
    lemma_sum_nonneg(s.subrange(0, i), f);
}

impl ThreadStats {
    /// Counters of worker `thread_id` before its first operation.
    pub fn new(thread_id: u32) -> (r: ThreadStats)
        ensures
            r == fresh_stats(thread_id),
    {
        ThreadStats {
            thread_id,
            operations_completed: 0,
            bytes_read: 0,
            bytes_written: 0,
            cpu_cycles_executed: 0,
            total_latency_ns: 0,
            min_latency_ns: 0,
            max_latency_ns: 0,
            fault: None,
        }
    }

    /// Counts one successful `task` that took `latency_ns` nanoseconds.
    pub fn record(&mut self, task: Task, latency_ns: u64)
        ensures
            *final(self) == recorded(*old(self), task, latency_ns),
    {
        let first = self.operations_completed == 0;
        self.operations_completed = self.operations_completed.saturating_add(1);
        self.total_latency_ns = self.total_latency_ns.saturating_add(latency_ns);
        if first || latency_ns < self.min_latency_ns {
            self.min_latency_ns = latency_ns;
        }
        if first || latency_ns > self.max_latency_ns {
            self.max_latency_ns = latency_ns;
        }
        match task {
            Task::Read { size, .. } => {
                self.bytes_read = self.bytes_read.saturating_add(size);
            },
            Task::Write { size, .. } => {
                self.bytes_written = self.bytes_written.saturating_add(size);
            },
            Task::Cpu { cycles } => {
                self.cpu_cycles_executed = self.cpu_cycles_executed.saturating_add(cycles);
            },
            Task::Unsupported => {},
        }
    }

    /// Notes the error that stopped this worker.
    pub fn record_fault(&mut self, error: ExecError)
        ensures
            *final(self) == faulted(*old(self), error),
    {
        self.fault = Some(error);
    }
}

/// The statistics sink of one run: one counter slot per logical thread.
pub struct MetricsCollector {
    thread_stats: Vec<ThreadStats>,
}

/// Slot `i` holds the counters of thread `i`.
pub open spec fn numbered(s: Seq<ThreadStats>) -> bool {
    forall|i: int| 0 <= i < s.len() ==> (#[trigger] s[i]).thread_id == i
}

/// What joining one worker adds to the slots: its counters, or, for a
/// worker that did not finish, a `WorkerFault` in its slot.
pub open spec fn joined(s: Seq<ThreadStats>, outcome: (u32, Option<ThreadStats>)) -> Seq<ThreadStats> {
    match outcome.1 {
        Some(stats) => if (stats.thread_id as int) < s.len() {
            s.update(stats.thread_id as int, stats)
        } else {
            s
        },
        None => if (outcome.0 as int) < s.len() {
            s.update(outcome.0 as int, faulted(s[outcome.0 as int], ExecError::WorkerFault))
        } else {
            s
        },
    }
}

/// The slots after joining every worker of `outcomes`, in order.
pub open spec fn joined_all(s: Seq<ThreadStats>, outcomes: Seq<(u32, Option<ThreadStats>)>) -> Seq<
    ThreadStats,
>
    decreases outcomes.len(),
{
    if outcomes.len() == 0 {
        s
    } else {
        joined(joined_all(s, outcomes.drop_last()), outcomes.last())
    }
}

impl View for MetricsCollector {
    type V = Seq<ThreadStats>;

    closed spec fn view(&self) -> Seq<ThreadStats> {
        self.thread_stats@
    }
}

impl MetricsCollector {
    /// A sink with fresh slots for threads `0..num_threads`.
    pub fn new(num_threads: usize) -> (r: MetricsCollector)
        requires
            num_threads <= 0x1_0000_0000,
        ensures
            r@ == Seq::new(num_threads as nat, |i: int| fresh_stats(i as u32)),
            numbered(r@),
    {
        let mut v: Vec<ThreadStats> = Vec::new();
        let mut i: usize = 0;
        while i < num_threads
            invariant
                i <= num_threads <= 0x1_0000_0000,
                v@ == Seq::new(i as nat, |j: int| fresh_stats(j as u32)),
            decreases num_threads - i,
        {
            v.push(ThreadStats::new(i as u32));
            i = i + 1;
            assert(v@ =~= Seq::new(i as nat, |j: int| fresh_stats(j as u32)));
        }
        MetricsCollector { thread_stats: v }
    }

    /// Number of thread slots.
    pub fn num_threads(&self) -> (r: usize)
        ensures
            r == self@.len(),
    {
        self.thread_stats.len()
    }

    /// Records one successful `op` of thread `thread_id` that took `latency_ns`.
    pub fn record_operation(&mut self, thread_id: usize, op: &Operation, latency_ns: u64)
        requires
            thread_id < old(self)@.len(),
        ensures
            final(self)@ == old(self)@.update(
                thread_id as int,
                recorded(old(self)@[thread_id as int], task_of(*op), latency_ns),
            ),
            numbered(old(self)@) ==> numbered(final(self)@),
    {
        let mut s = self.thread_stats[thread_id];
        s.record(op.task(), latency_ns);
        self.thread_stats.set(thread_id, s);
    }

    /// Records that thread `thread_id` stopped on `error`.
    pub fn record_fault(&mut self, thread_id: usize, error: ExecError)
        requires
            thread_id < old(self)@.len(),
        ensures
            final(self)@ == old(self)@.update(
                thread_id as int,
                faulted(old(self)@[thread_id as int], error),
            ),
            numbered(old(self)@) ==> numbered(final(self)@),
    {
        let mut s = self.thread_stats[thread_id];
        s.record_fault(error);
        self.thread_stats.set(thread_id, s);
    }

    /// Puts counters gathered by a worker into its slot; counters of a thread
    /// without a slot are left out.
    pub fn store_thread(&mut self, stats: ThreadStats)
        ensures
            final(self)@ == (if (stats.thread_id as int) < old(self)@.len() {
                old(self)@.update(stats.thread_id as int, stats)
            } else {
                old(self)@
            }),
            numbered(old(self)@) ==> numbered(final(self)@),
    {
        let id = stats.thread_id as usize;
        if id < self.thread_stats.len() {
            self.thread_stats.set(id, stats);
        }
    }

    /// Takes what the joined workers handed back, in order: a worker's
    /// counters go to its slot, and a worker that did not finish (`None`)
    /// gets a `WorkerFault` in its slot. Ids without a slot are left out.
    pub fn gather(&mut self, outcomes: Vec<(u32, Option<ThreadStats>)>)
        ensures
            final(self)@ == joined_all(old(self)@, outcomes@),
            numbered(old(self)@) ==> numbered(final(self)@),
    {
        let mut i: usize = 0;
        proof {
            assert(outcomes@.subrange(0, 0) =~= Seq::<(u32, Option<ThreadStats>)>::empty());
        }
        while i < outcomes.len()
            invariant
                i <= outcomes@.len(),
                self@ == joined_all(old(self)@, outcomes@.subrange(0, i as int)),
                numbered(old(self)@) ==> numbered(self@),
            decreases outcomes@.len() - i,
        {
            proof {
                assert(outcomes@.subrange(0, i + 1).drop_last() =~= outcomes@.subrange(0, i as int));
            }
            let (id, stats) = outcomes[i];
            match stats {
                Some(st) => self.store_thread(st),
                None => {
                    if (id as usize) < self.thread_stats.len() {
                        self.record_fault(id as usize, ExecError::WorkerFault);
                    }
                },
            }
            i = i + 1;
        }
        proof {
            assert(outcomes@.subrange(0, outcomes@.len() as int) =~= outcomes@);
        }
    }

    /// The report over everything recorded so far, for a run of
    /// `total_duration_ns`; the counters are left as they are. The report's
    /// `pattern_name` is empty.
    pub fn finalize(&self, total_duration_ns: u64) -> (r: ExecutionResults)
        ensures
            finalized(self@, total_duration_ns, r),
            r.pattern_name@ == Seq::<char>::empty(),
    {
        let ghost s = self.thread_stats@;
        let mut ops: u64 = 0;
        let mut read: u64 = 0;
        let mut written: u64 = 0;
        let mut cycles: u64 = 0;
        let mut latency: u64 = 0;
        let mut i: usize = 0;
        proof {
            assert(s.subrange(0, 0) =~= Seq::<ThreadStats>::empty());
        }
        while i < self.thread_stats.len()
            invariant
                i <= s.len(),
                s == self.thread_stats@,
                ops == sat(sum_of(s.subrange(0, i as int), operations_field())),
                read == sat(sum_of(s.subrange(0, i as int), bytes_read_field())),
                written == sat(sum_of(s.subrange(0, i as int), bytes_written_field())),
                cycles == sat(sum_of(s.subrange(0, i as int), cycles_field())),
                latency == sat(sum_of(s.subrange(0, i as int), latency_field())),
            decreases s.len() - i,
        {
            let t = self.thread_stats[i];
            proof {
                lemma_sum_step(s, i as int, operations_field());
                lemma_sum_step(s, i as int, bytes_read_field());
                lemma_sum_step(s, i as int, bytes_written_field());
                lemma_sum_step(s, i as int, cycles_field());
                lemma_sum_step(s, i as int, latency_field());
            }
            ops = ops.saturating_add(t.operations_completed);
            read = read.saturating_add(t.bytes_read);
            written = written.saturating_add(t.bytes_written);
            cycles = cycles.saturating_add(t.cpu_cycles_executed);
            latency = latency.saturating_add(t.total_latency_ns);
            i = i + 1;
        }
        proof {
            assert(s.subrange(0, s.len() as int) =~= s);
        }
        let average = if ops == 0 {
            0
        } else {
            latency / ops
        };
        let mut stats: Vec<ThreadStats> = Vec::new();
        stats.extend_from_slice(self.thread_stats.as_slice());
        assert(stats@ =~= s);
        ExecutionResults {
            pattern_name: String::new(),
            total_duration_ns,
            total_operations: ops,
            total_bytes_read: read,
            total_bytes_written: written,
            total_cpu_cycles: cycles,
            total_latency_ns: latency,
            average_latency_ns: average,
            read_throughput_bps: rate(read, total_duration_ns),
            write_throughput_bps: rate(written, total_duration_ns),
            operations_per_second: rate(ops, total_duration_ns),
            thread_stats: stats,
        }
    }
}

/// Units per second, rounded down, when `amount` units took `duration_ns`.
pub fn rate(amount: u64, duration_ns: u64) -> (r: u128)
    ensures
        r == per_second(amount, duration_ns),
{
    if duration_ns == 0 {
        0
    } else {
        (amount as u128 * 1_000_000_000) / duration_ns as u128
    }
}

/// Finalizing twice with no record in between gives the same report.
pub proof fn finalize_is_idempotent(
    c: MetricsCollector,
    d: u64,
    first: ExecutionResults,
    second: ExecutionResults,
)
    requires
        finalized(c@, d, first),
        finalized(c@, d, second),
        first.pattern_name@ == Seq::<char>::empty(),
        second.pattern_name@ == Seq::<char>::empty(),
    ensures
        same_report(first, second),
{
}

/// Ids of the threads whose counters hold a fault, in slot order.
pub open spec fn faulted_ids(s: Seq<ThreadStats>) -> Seq<u32>
    decreases s.len(),
{
    if s.len() == 0 {
        Seq::empty()
    } else if s.last().fault is Some {
        faulted_ids(s.drop_last()).push(s.last().thread_id)
    } else {
        faulted_ids(s.drop_last())
    }
}

impl ExecutionResults {
    /// Ids of the threads that stopped on an error.
    pub fn faulted_threads(&self) -> (r: Vec<u32>)
        ensures
            r@ == faulted_ids(self.thread_stats@),
    {
        let ghost s = self.thread_stats@;
        let mut r: Vec<u32> = Vec::new();
        let mut i: usize = 0;
        proof {
            assert(s.subrange(0, 0) =~= Seq::<ThreadStats>::empty());
        }
        while i < self.thread_stats.len()
            invariant
                i <= s.len(),
                s == self.thread_stats@,
                r@ == faulted_ids(s.subrange(0, i as int)),
            decreases s.len() - i,
        {
            proof {
                assert(s.subrange(0, i + 1).drop_last() =~= s.subrange(0, i as int));
            }
            if self.thread_stats[i].fault.is_some() {
                r.push(self.thread_stats[i].thread_id);
            }
            i = i + 1;
        }
        proof {
            assert(s.subrange(0, s.len() as int) =~= s);
        }
        r
    }
}

} // verus!
