//! Partitioning of a pattern's operations into per-thread lanes ordered by
//! timestamp, and the pacing state machine that each worker follows.
use crate::common::{task_of, ExecError, ExecutionResults, Operation, Pattern, Task, ThreadStats};
use crate::metrics::{
    faulted, finalized, fresh_stats, operations_field, recorded, sat, sum_of, MetricsCollector,
};
use crate::region::{heap_pattern, MemoryManager};
use vstd::prelude::*;

verus! {

/// The timestamp of operation `i`; operations without one start at 0.
pub open spec fn timestamp_of(ts: Seq<u64>, i: int) -> u64 {
    if 0 <= i < ts.len() {
        ts[i]
    } else {
        0
    }
}

/// Operation `i` comes before operation `j` in a lane: by timestamp, then by
/// position in the pattern.
pub open spec fn precedes(ts: Seq<u64>, i: int, j: int) -> bool {
    timestamp_of(ts, i) < timestamp_of(ts, j) || (timestamp_of(ts, i) == timestamp_of(ts, j)
        && i < j)
}

/// The operation indices of `lane` are in strictly increasing `precedes` order.
pub open spec fn in_order(lane: Seq<usize>, ts: Seq<u64>) -> bool {
    forall|a: int, b: int|
        #![trigger lane[a], lane[b]]
        0 <= a < b < lane.len() ==> precedes(ts, lane[a] as int, lane[b] as int)
}

/// The lane, among `n`, of operation `i`: its thread id modulo `n`.
pub open spec fn lane_of(ops: Seq<Operation>, n: nat, i: int) -> int {
    ops[i].spec_thread() as int % n as int
}

/// `lane` holds exactly the indices of the operations of lane `t`.
pub open spec fn is_lane(ops: Seq<Operation>, n: nat, t: int, lane: Seq<usize>) -> bool {
    &&& forall|k: int|
        0 <= k < lane.len() ==> #[trigger] lane[k] < ops.len() && lane_of(ops, n, lane[k] as int)
            == t
    &&& forall|i: int|
        0 <= i < ops.len() && lane_of(ops, n, i) == t ==> #[trigger] lane.contains(i as usize)
}

/// `lanes` splits the operations among `n` workers by thread id modulo `n`,
/// each lane ordered by timestamp and, among equal timestamps, by position.
pub open spec fn partitioned(ops: Seq<Operation>, ts: Seq<u64>, n: nat, lanes: Seq<Vec<usize>>) -> bool {
    &&& lanes.len() == n
    &&& forall|t: int|
        0 <= t < n ==> #[trigger] is_lane(ops, n, t, lanes[t]@) && in_order(lanes[t]@, ts)
}

fn timestamp_at(ts: &Vec<u64>, i: usize) -> (r: u64)
    ensures
        r == timestamp_of(ts@, i as int),
{
    if i < ts.len() {
        ts[i]
    } else {
        0
    }
}

proof fn lemma_in_order_timestamps(lane: Seq<usize>, ts: Seq<u64>, a: int, b: int)
    requires
        in_order(lane, ts),
        0 <= a <= b < lane.len(),
    ensures
        timestamp_of(ts, lane[a] as int) <= timestamp_of(ts, lane[b] as int),
{
    if a < b {
        assert(precedes(ts, lane[a] as int, lane[b] as int));
    }
}

/// Inserts `i`, larger than every index in `lane`, at its place in the order.
fn insert_ordered(lane: &mut Vec<usize>, i: usize, ts: &Vec<u64>)
    requires
        in_order(old(lane)@, ts@),
        forall|k: int| 0 <= k < old(lane)@.len() ==> #[trigger] old(lane)@[k] < i,
    ensures
        in_order(final(lane)@, ts@),
        forall|x: usize| #[trigger]
            final(lane)@.contains(x) <==> (old(lane)@.contains(x) || x == i),
        forall|k: int| 0 <= k < final(lane)@.len() ==> #[trigger] final(lane)@[k] <= i,
{
    let key = timestamp_at(ts, i);
    let mut pos: usize = lane.len();
    while pos > 0 && timestamp_at(ts, lane[pos - 1]) > key
        invariant
            pos <= lane@.len(),
            forall|k: int| pos <= k < lane@.len() ==> timestamp_of(ts@, #[trigger] lane@[k] as int) > key,
        decreases pos,
    {
        pos = pos - 1;
    }
    let ghost p = lane@;
    proof {
        assert forall|k: int| 0 <= k < pos implies timestamp_of(ts@, #[trigger] p[k] as int) <= key by {
            lemma_in_order_timestamps(p, ts@, k, pos - 1);
        }
    }
    lane.insert(pos, i);
    let ghost q = lane@;
    assert(q =~= p.insert(pos as int, i));
    assert forall|a: int, b: int|
        #![trigger q[a], q[b]]
        0 <= a < b < q.len() implies precedes(ts@, q[a] as int, q[b] as int) by {
        if b < pos {
            assert(q[a] == p[a] && q[b] == p[b]);
        } else if b == pos {
            assert(q[a] == p[a]);
        } else if a < pos {
            assert(q[a] == p[a] && q[b] == p[b - 1]);
        } else if a == pos {
            assert(q[b] == p[b - 1]);
        } else {
            assert(q[a] == p[a - 1] && q[b] == p[b - 1]);
        }
    }
    assert forall|x: usize| #[trigger] q.contains(x) <==> (p.contains(x) || x == i) by {
        if p.contains(x) {
            let k = choose|k: int| 0 <= k < p.len() && p[k] == x;
            if k < pos {
                assert(q[k] == x);
            } else {
                assert(q[k + 1] == x);
            }
        }
        if x == i {
            assert(q[pos as int] == i);
        }
        if q.contains(x) {
            let k = choose|k: int| 0 <= k < q.len() && q[k] == x;
            if k < pos {
                assert(q[k] == p[k]);
            } else if k > pos {
                assert(q[k] == p[k - 1]);
            }
        }
    }
    assert forall|k: int| 0 <= k < q.len() implies #[trigger] q[k] <= i by {
        if k < pos {
            assert(q[k] == p[k]);
        } else if k > pos {
            assert(q[k] == p[k - 1]);
        }
    }
}

/// Splits the operations among `n` lanes: operation `i` goes to lane
/// `thread mod n`, and each lane is ordered by timestamp, equal timestamps
/// keeping their order in the pattern.
pub fn partition(ops: &Vec<Operation>, timestamps: &Vec<u64>, n: u64) -> (lanes: Vec<Vec<usize>>)
    requires
        1 <= n <= 0x1_0000_0000,
    ensures
        partitioned(ops@, timestamps@, n as nat, lanes@),
{
    let mut lanes: Vec<Vec<usize>> = Vec::new();
    let mut t: u64 = 0;
    while t < n
        invariant
            t <= n,
            lanes@.len() == t,
            forall|j: int| 0 <= j < t ==> (#[trigger] lanes@[j])@.len() == 0,
        decreases n - t,
    {
        lanes.push(Vec::new());
        t = t + 1;
    }
    let mut i: usize = 0;
    while i < ops.len()
        invariant
            1 <= n <= 0x1_0000_0000,
            i <= ops@.len(),
            lanes@.len() == n,
            forall|t: int|
                0 <= t < n ==> in_order(#[trigger] lanes@[t]@, timestamps@),
            forall|t: int, k: int|
                0 <= t < n && 0 <= k < lanes@[t]@.len() ==> #[trigger] lanes@[t]@[k] < i
                    && lane_of(ops@, n as nat, lanes@[t]@[k] as int) == t,
            forall|j: int|
                0 <= j < i ==> #[trigger] lanes@[lane_of(ops@, n as nat, j)]@.contains(j as usize),
        decreases ops@.len() - i,
    {
        let t = (ops[i].thread() as u64 % n) as usize;
        assert(t as int == lane_of(ops@, n as nat, i as int));
        let ghost before = lanes@;
        insert_ordered(&mut lanes[t], i, timestamps);
        proof {
            assert forall|u: int| 0 <= u < n && u != t implies #[trigger] lanes@[u] == before[u] by {}
            assert forall|u: int, k: int|
                0 <= u < n && 0 <= k < lanes@[u]@.len() implies #[trigger] lanes@[u]@[k] < i + 1
                && lane_of(ops@, n as nat, lanes@[u]@[k] as int) == u by {
                if u == t {
                    let x = lanes@[u]@[k];
                    assert(lanes@[u]@.contains(x));
                    if x != i {
                        assert(before[u]@.contains(x));
                        let k2 = choose|k2: int| 0 <= k2 < before[u]@.len() && before[u]@[k2] == x;
                        assert(before[u]@[k2] < i);
                    }
                }
            }
            assert forall|j: int| 0 <= j < i + 1 implies #[trigger] lanes@[lane_of(
                ops@,
                n as nat,
                j,
            )]@.contains(j as usize) by {
                let u = lane_of(ops@, n as nat, j);
                if j < i {
                    assert(before[u]@.contains(j as usize));
                }
            }
        }
        i = i + 1;
    }
    proof {
        assert forall|t: int| 0 <= t < n implies #[trigger] is_lane(
            ops@,
            n as nat,
            t,
            lanes@[t]@,
        ) && in_order(lanes@[t]@, timestamps@) by {
            assert forall|k: int| 0 <= k < lanes@[t]@.len() implies #[trigger] lanes@[t]@[k]
                < ops@.len() && lane_of(ops@, n as nat, lanes@[t]@[k] as int) == t by {
                assert(lanes@[t]@[k] < i);
            }
            assert forall|j: int|
                0 <= j < ops@.len() && lane_of(ops@, n as nat, j) == t implies #[trigger] lanes@[t]@.contains(
                j as usize,
            ) by {
                assert(lanes@[lane_of(ops@, n as nat, j)]@.contains(j as usize));
            }
        }
    }
    lanes
}

/// One more than the largest thread id among `ops`; 0 for no operations.
pub open spec fn max_thread_end(ops: Seq<Operation>) -> nat
    decreases ops.len(),
{
    if ops.len() == 0 {
        0
    } else {
        let m = max_thread_end(ops.drop_last());
        let e = ops.last().spec_thread() as nat + 1;
        if e > m {
            e
        } else {
            m
        }
    }
}

/// The number of workers of a pattern: the explicit count when it is
/// positive, else one more than the largest thread id.
pub open spec fn thread_count_of(explicit: Option<u32>, ops: Seq<Operation>) -> nat {
    match explicit {
        Some(n) => if n > 0 {
            n as nat
        } else {
            max_thread_end(ops)
        },
        None => max_thread_end(ops),
    }
}

proof fn lemma_max_thread_end(ops: Seq<Operation>)
    ensures
        max_thread_end(ops) <= 0x1_0000_0000,
        ops.len() > 0 ==> max_thread_end(ops) >= 1,
    decreases ops.len(),
{
    if ops.len() > 0 {
        lemma_max_thread_end(ops.drop_last());
    }
}

/// The number of workers that `pattern` runs on.
pub fn thread_count(pattern: &Pattern) -> (r: u64)
    ensures
        r == thread_count_of(pattern.thread_count, pattern.operations@),
        r <= 0x1_0000_0000,
        pattern.operations@.len() > 0 ==> r >= 1,
{
    proof {
        lemma_max_thread_end(pattern.operations@);
    }
    if let Some(n) = pattern.thread_count {
        if n > 0 {
            return n as u64;
        }
    }
    let ops = &pattern.operations;
    let mut m: u64 = 0;
    let mut i: usize = 0;
    proof {
        assert(ops@.subrange(0, 0) =~= Seq::<Operation>::empty());
    }
    while i < ops.len()
        invariant
            i <= ops@.len(),
            m == max_thread_end(ops@.subrange(0, i as int)),
        decreases ops@.len() - i,
    {
        proof {
            assert(ops@.subrange(0, i + 1).drop_last() =~= ops@.subrange(0, i as int));
        }
        let e = ops[i].thread() as u64 + 1;
        if e > m {
            m = e;
        }
        i = i + 1;
    }
    proof {
        assert(ops@.subrange(0, ops@.len() as int) =~= ops@);
    }
    m
}

/// What a worker does next.
#[derive(Debug, Clone, Copy, PartialEq, Eq, Structural)]
pub enum Step {
    /// Carry out the task, then report its outcome with [`Worker::complete`].
    Run(Task),
    /// Wait this many nanoseconds, then ask again.
    Sleep(u64),
    /// Nothing is left to do: the lane is through, or a task failed.
    Done,
}

/// One logical worker: its lane of tasks with their timestamps, how far it
/// has come, and its counters.
pub struct Worker {
    thread_id: u32,
    lane: Vec<usize>,
    tasks: Vec<Task>,
    timestamps: Vec<u64>,
    next: usize,
    stats: ThreadStats,
}

impl Worker {
    pub closed spec fn spec_thread_id(&self) -> u32 {
        self.thread_id
    }

    /// Pattern indices of the lane's operations, in the order they run.
    pub closed spec fn spec_lane(&self) -> Seq<usize> {
        self.lane@
    }

    pub closed spec fn spec_tasks(&self) -> Seq<Task> {
        self.tasks@
    }

    pub closed spec fn spec_timestamps(&self) -> Seq<u64> {
        self.timestamps@
    }

    /// How many tasks have completed; the position of the next one.
    pub closed spec fn spec_next(&self) -> nat {
        self.next as nat
    }

    pub closed spec fn spec_stats(&self) -> ThreadStats {
        self.stats
    }

    pub closed spec fn wf(&self) -> bool {
        &&& self.lane@.len() == self.tasks@.len()
        &&& self.tasks@.len() == self.timestamps@.len()
        &&& self.next <= self.tasks@.len()
        &&& self.stats.thread_id == self.thread_id
        &&& self.stats.operations_completed == self.next
    }

    /// What a well-formed worker keeps: one task and one timestamp per lane
    /// entry, its position within the lane, one completed operation counted
    /// per position passed, and counters under its own thread id.
    pub open spec fn consistent(&self) -> bool {
        &&& self.spec_tasks().len() == self.spec_lane().len()
        &&& self.spec_timestamps().len() == self.spec_lane().len()
        &&& self.spec_next() <= self.spec_tasks().len()
        &&& self.spec_stats().operations_completed == self.spec_next()
        &&& self.spec_stats().thread_id == self.spec_thread_id()
    }

    /// A well-formed worker is consistent.
    pub proof fn lemma_consistent(&self)
        requires
            self.wf(),
        ensures
            self.consistent(),
    {
    }

    /// The worker has nothing left to run.
    pub open spec fn finished(&self) -> bool {
        self.spec_next() >= self.spec_tasks().len() || self.spec_stats().fault is Some
    }

    /// The step that follows when the worker has been running `elapsed_ns`.
    pub open spec fn step_at(&self, elapsed_ns: u64) -> Step {
        if self.finished() {
            Step::Done
        } else {
            let due = self.spec_timestamps()[self.spec_next() as int];
            if elapsed_ns < due {
                Step::Sleep((due - elapsed_ns) as u64)
            } else {
                Step::Run(self.spec_tasks()[self.spec_next() as int])
            }
        }
    }

    /// The logical thread this worker stands for.
    pub fn thread_id(&self) -> (r: u32)
        ensures
            r == self.spec_thread_id(),
    {
        self.thread_id
    }

    /// The worker's counters so far.
    pub fn stats(&self) -> (r: ThreadStats)
        ensures
            r == self.spec_stats(),
    {
        self.stats
    }

    /// Number of tasks in the lane.
    pub fn len(&self) -> (r: usize)
        ensures
            r == self.spec_tasks().len(),
    {
        self.tasks.len()
    }

    /// Decides what to do when the worker has been running `elapsed_ns`: run
    /// the next task once its timestamp has come, else sleep until it does.
    pub fn next_step(&self, elapsed_ns: u64) -> (r: Step)
        requires
            self.wf(),
        ensures
            r == self.step_at(elapsed_ns),
    {
        if self.next >= self.tasks.len() || self.stats.fault.is_some() {
            Step::Done
        } else {
            let due = self.timestamps[self.next];
            if elapsed_ns < due {
                Step::Sleep(due - elapsed_ns)
            } else {
                Step::Run(self.tasks[self.next])
            }
        }
    }

    /// Takes the outcome of the task that [`Worker::next_step`] handed out: a
    /// latency counts the task and moves on, an error stops the worker.
    pub fn complete(&mut self, outcome: Result<u64, ExecError>)
        requires
            old(self).wf(),
            !old(self).finished(),
        ensures
            final(self).wf(),
            final(self).consistent(),
            final(self).spec_thread_id() == old(self).spec_thread_id(),
            final(self).spec_lane() == old(self).spec_lane(),
            final(self).spec_tasks() == old(self).spec_tasks(),
            final(self).spec_timestamps() == old(self).spec_timestamps(),
            match outcome {
                Ok(latency) => final(self).spec_next() == old(self).spec_next() + 1
                    && final(self).spec_stats() == recorded(
                    old(self).spec_stats(),
                    old(self).spec_tasks()[old(self).spec_next() as int],
                    latency,
                ),
                Err(e) => final(self).spec_next() == old(self).spec_next()
                    && final(self).spec_stats() == faulted(old(self).spec_stats(), e),
            },
    {
        match outcome {
            Ok(latency) => {
                assert(self.next < self.tasks.len());
                let task = self.tasks[self.next];
                self.stats.record(task, latency);
                self.next = self.next + 1;
            },
            Err(e) => {
                self.stats.record_fault(e);
            },
        }
    }
}

/// `w` is the fresh worker for lane `t` of the pattern's operations.
pub open spec fn planned(ops: Seq<Operation>, ts: Seq<u64>, n: nat, t: int, w: Worker) -> bool {
    let lane = w.spec_lane();
    &&& w.wf()
    &&& w.consistent()
    &&& w.spec_tasks().len() == lane.len()
    &&& w.spec_timestamps().len() == lane.len()
    &&& w.spec_thread_id() == t
    &&& is_lane(ops, n, t, lane)
    &&& in_order(lane, ts)
    &&& forall|k: int|
        0 <= k < lane.len() ==> #[trigger] w.spec_tasks()[k] == task_of(ops[lane[k] as int])
            && w.spec_timestamps()[k] == timestamp_of(ts, lane[k] as int)
    &&& w.spec_next() == 0
    &&& w.spec_stats() == fresh_stats(t as u32)
}

/// The fresh worker for thread `t`, given its lane.
fn build_worker(
    ops: &Vec<Operation>,
    ts: &Vec<u64>,
    n: u64,
    t: u64,
    lane: Vec<usize>,
) -> (w: Worker)
    requires
        t < n <= 0x1_0000_0000,
        is_lane(ops@, n as nat, t as int, lane@),
        in_order(lane@, ts@),
    ensures
        planned(ops@, ts@, n as nat, t as int, w),
        w.spec_lane() == lane@,
{
    let mut tasks: Vec<Task> = Vec::new();
    let mut stamps: Vec<u64> = Vec::new();
    let mut k: usize = 0;
    while k < lane.len()
        invariant
            k <= lane@.len(),
            is_lane(ops@, n as nat, t as int, lane@),
            tasks@.len() == k,
            stamps@.len() == k,
            forall|j: int|
                0 <= j < k ==> #[trigger] tasks@[j] == task_of(ops@[lane@[j] as int])
                    && stamps@[j] == timestamp_of(ts@, lane@[j] as int),
        decreases lane@.len() - k,
    {
        let i = lane[k];
        assert(i < ops@.len());
        tasks.push(ops[i].task());
        stamps.push(timestamp_at(ts, i));
        k = k + 1;
    }
    Worker {
        thread_id: t as u32,
        lane,
        tasks,
        timestamps: stamps,
        next: 0,
        stats: ThreadStats::new(t as u32),
    }
}

/// The pattern's region is a device mapped into memory.
pub open spec fn maps_device(p: Pattern) -> bool {
    p.device_path is Some && p.use_mmap
}

/// `m` is the region built for `p`: none for a mapped device, else `p`'s
/// memory size of heap bytes `i mod 256`, or of a zeroed device staging buffer.
pub open spec fn region_built(p: Pattern, m: Option<MemoryManager>) -> bool {
    match m {
        None => maps_device(p),
        Some(m) => {
            &&& !maps_device(p)
            &&& m.wf()
            &&& m.spec_size() == p.memory_size
            &&& m.spec_is_device() == (p.device_path is Some)
            &&& m@ == (if p.device_path is Some {
                Seq::new(p.memory_size as nat, |i: int| 0u8)
            } else {
                heap_pattern(p.memory_size as nat)
            })
        },
    }
}

/// `e` is the plan of `p`: one worker per logical thread, worker `t` fresh and
/// holding lane `t` of the operations in timestamp order.
pub open spec fn plans(p: Pattern, e: PatternExecutor) -> bool {
    &&& e.spec_name() == p.name@
    &&& e.spec_workers().len() == thread_count_of(p.thread_count, p.operations@)
    &&& forall|t: int|
        0 <= t < e.spec_workers().len() ==> planned(
            p.operations@,
            p.timestamps_ns@,
            e.spec_workers().len(),
            t,
            #[trigger] e.spec_workers()[t],
        )
}

/// A pattern made ready to run: one planned worker per logical thread.
pub struct PatternExecutor {
    pattern_name: String,
    workers: Vec<Worker>,
}

impl PatternExecutor {
    pub closed spec fn spec_workers(&self) -> Seq<Worker> {
        self.workers@
    }

    pub closed spec fn spec_name(&self) -> Seq<char> {
        self.pattern_name@
    }

    /// Plans `pattern`: [`thread_count`] workers, worker `t` holding the
    /// operations whose thread id is `t` modulo that count, ordered by timestamp.
    fn plan(pattern: &Pattern) -> (r: PatternExecutor)
        ensures
            plans(*pattern, r),
    {
        let n = thread_count(pattern);
        let mut workers: Vec<Worker> = Vec::new();
        if n > 0 {
            let mut lanes = partition(&pattern.operations, &pattern.timestamps_ns, n);
            let ghost all = lanes@;
            let mut t: u64 = n;
            let mut rev: Vec<Worker> = Vec::new();
            while t > 0
                invariant
                    t <= n <= 0x1_0000_0000,
                    n == thread_count_of(pattern.thread_count, pattern.operations@),
                    partitioned(pattern.operations@, pattern.timestamps_ns@, n as nat, all),
                    lanes@ == all.subrange(0, t as int),
                    rev@.len() == n - t,
                    forall|j: int|
                        0 <= j < rev@.len() ==> planned(
                            pattern.operations@,
                            pattern.timestamps_ns@,
                            n as nat,
                            n - 1 - j,
                            #[trigger] rev@[j],
                        ),
                decreases t,
            {
                let lane = lanes.pop().unwrap();
                t = t - 1;
                assert(is_lane(pattern.operations@, n as nat, t as int, all[t as int]@));
                let w = build_worker(&pattern.operations, &pattern.timestamps_ns, n, t, lane);
                rev.push(w);
            }
            while rev.len() > 0
                invariant
                    workers@.len() + rev@.len() == n,
                    forall|j: int|
                        0 <= j < workers@.len() ==> planned(
                            pattern.operations@,
                            pattern.timestamps_ns@,
                            n as nat,
                            j,
                            #[trigger] workers@[j],
                        ),
                    forall|j: int|
                        0 <= j < rev@.len() ==> planned(
                            pattern.operations@,
                            pattern.timestamps_ns@,
                            n as nat,
                            n - 1 - j,
                            #[trigger] rev@[j],
                        ),
                decreases rev@.len(),
            {
                let w = rev.pop().unwrap();
                workers.push(w);
            }
        }
        PatternExecutor { pattern_name: pattern.name.clone(), workers }
    }

    /// Builds the run of `pattern`: its region, then its plan. The region is
    /// heap memory of `memory_size` bytes holding `i mod 256` at byte `i`, or,
    /// for a device read through a staging buffer, that zeroed buffer; for a
    /// memory-mapped device there is none here, as the mapping is the
    /// caller's part, as is opening the device. Fails with `AllocationError`,
    /// before any plan is made, when the memory cannot be had.
    pub fn new(pattern: &Pattern) -> (r: Result<(PatternExecutor, Option<MemoryManager>), ExecError>)
        ensures
            match r {
                Ok((e, m)) => plans(*pattern, e) && region_built(*pattern, m),
                Err(err) => err == ExecError::AllocationError && !maps_device(*pattern),
            },
            !maps_device(*pattern) && pattern.memory_size > usize::MAX ==> r is Err,
    {
        let memory = if pattern.device_path.is_some() && pattern.use_mmap {
            None
        } else {
            match Self::create_memory(pattern) {
                Ok(m) => Some(m),
                Err(e) => {
                    return Err(e);
                },
            }
        };
        Ok((Self::plan(pattern), memory))
    }

    /// Number of workers.
    pub fn thread_count(&self) -> (r: usize)
        ensures
            r == self.spec_workers().len(),
    {
        self.workers.len()
    }

    /// The name of the planned pattern.
    pub fn pattern_name(&self) -> (r: String)
        ensures
            r@ == self.spec_name(),
    {
        self.pattern_name.clone()
    }

    /// Hands out the workers, worker `t` at position `t`, leaving none behind.
    pub fn take_workers(&mut self) -> (r: Vec<Worker>)
        ensures
            r@ == old(self).spec_workers(),
            final(self).spec_workers().len() == 0,
            final(self).spec_name() == old(self).spec_name(),
    {
        let mut r: Vec<Worker> = Vec::new();
        std::mem::swap(&mut r, &mut self.workers);
        r
    }

    fn create_memory(pattern: &Pattern) -> (r: Result<MemoryManager, ExecError>)
        requires
            !maps_device(*pattern),
        ensures
            match r {
                Ok(m) => region_built(*pattern, Some(m)),
                Err(e) => e == ExecError::AllocationError,
            },
            pattern.memory_size > usize::MAX ==> r is Err,
    {
        if pattern.device_path.is_some() {
            MemoryManager::new_device_memory(pattern.memory_size)
        } else {
            MemoryManager::new_system_memory(pattern.memory_size)
        }
    }

    /// The run's report: the metrics finalized over `total_duration_ns`,
    /// under the pattern's name.
    pub fn finish(&self, metrics: &MetricsCollector, total_duration_ns: u64) -> (r: ExecutionResults)
        ensures
            finalized(metrics@, total_duration_ns, r),
            r.pattern_name@ == self.spec_name(),
    {
        let mut r = metrics.finalize(total_duration_ns);
        r.pattern_name = self.pattern_name.clone();
        r
    }
}

/// The counters of each worker, in order.
pub open spec fn stats_of(ws: Seq<Worker>) -> Seq<ThreadStats> {
    Seq::new(ws.len(), |i: int| ws[i].spec_stats())
}

/// The number of tasks that completed without error, over all workers.
pub open spec fn completed_total(ws: Seq<Worker>) -> int
    decreases ws.len(),
{
    if ws.len() == 0 {
        0
    } else {
        completed_total(ws.drop_last()) + ws.last().spec_next()
    }
}

proof fn lemma_completed_total_nonneg(ws: Seq<Worker>)
    ensures
        completed_total(ws) >= 0,
    decreases ws.len(),
{
    if ws.len() > 0 {
        lemma_completed_total_nonneg(ws.drop_last());
    }
}

proof fn lemma_sum_counts_completions(ws: Seq<Worker>)
    requires
        forall|i: int| 0 <= i < ws.len() ==> (#[trigger] ws[i]).wf(),
    ensures
        sum_of(stats_of(ws), operations_field()) == completed_total(ws),
    decreases ws.len(),
{
    if ws.len() > 0 {
        let rest = ws.drop_last();
        assert forall|i: int| 0 <= i < rest.len() implies (#[trigger] rest[i]).wf() by {
            assert(rest[i] == ws[i]);
        }
        lemma_sum_counts_completions(rest);
        assert(stats_of(ws).drop_last() =~= stats_of(rest));
        assert(ws.last().wf());
    }
}

/// The report's operation total is the sum of the per-thread counts, and that
/// sum is the number of tasks that completed without error, failed ones left
/// out; only a count beyond `u64::MAX` is cut to it.
pub proof fn total_operations_counts_completions(ws: Seq<Worker>, d: u64, r: ExecutionResults)
    requires
        forall|i: int| 0 <= i < ws.len() ==> (#[trigger] ws[i]).wf(),
        finalized(stats_of(ws), d, r),
    ensures
        r.total_operations == sat(sum_of(r.thread_stats@, operations_field())),
        r.total_operations == sat(completed_total(ws)),
        completed_total(ws) <= u64::MAX ==> r.total_operations == sum_of(
            r.thread_stats@,
            operations_field(),
        ) && r.total_operations == completed_total(ws),
{
    lemma_sum_counts_completions(ws);
    lemma_completed_total_nonneg(ws);
}

/// Within one worker's lane, an operation with an earlier timestamp sits at an
/// earlier position, and a worker runs its lane position by position.
pub proof fn lane_runs_in_timestamp_order(
    ops: Seq<Operation>,
    ts: Seq<u64>,
    n: nat,
    t: int,
    w: Worker,
    a: int,
    b: int,
)
    requires
        planned(ops, ts, n, t, w),
        0 <= a < w.spec_lane().len(),
        0 <= b < w.spec_lane().len(),
        timestamp_of(ts, w.spec_lane()[a] as int) < timestamp_of(ts, w.spec_lane()[b] as int),
    ensures
        a < b,
        w.spec_timestamps()[a] < w.spec_timestamps()[b],
{
    let lane = w.spec_lane();
    if b < a {
        assert(precedes(ts, lane[b] as int, lane[a] as int));
    }
    assert(w.spec_tasks()[a] == task_of(ops[lane[a] as int]));
    assert(w.spec_tasks()[b] == task_of(ops[lane[b] as int]));
}

} // verus!
