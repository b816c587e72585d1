//! The data that flows through the engine: operations, patterns, topology
//! hints, per-thread statistics and the finalized run report.
use vstd::prelude::*;

verus! {

/// One unit of work, issued by the logical worker `thread`.
#[derive(Debug, Clone)]
pub enum Operation {
    /// Copy `size` bytes starting at `addr` out of the region.
    Read { addr: u64, size: u64, thread: u32 },
    /// Fill `size` bytes starting at `addr` with the write pattern.
    Write { addr: u64, size: u64, thread: u32 },
    /// Burn `cycles` iterations of a dependent arithmetic recurrence.
    Cpu { cycles: u64, thread: u32 },
    /// A GPU kernel; the engine has no backend for it.
    Gpu { kernel: String, thread: u32 },
}

/// What a worker does for one operation: an operation without its thread.
#[derive(Debug, Clone, Copy, PartialEq, Eq, Structural)]
pub enum Task {
    Read { address: u64, size: u64 },
    Write { address: u64, size: u64 },
    Cpu { cycles: u64 },
    /// An operation kind that has no execution backend.
    Unsupported,
}

impl Task {
    pub open spec fn spec_is_write(&self) -> bool {
        self is Write
    }

    /// Whether the task changes the region's bytes.
    #[verifier::when_used_as_spec(spec_is_write)]
    pub fn is_write(&self) -> (r: bool)
        ensures
            r == self.spec_is_write(),
    {
        match self {
            Task::Write { .. } => true,
            _ => false,
        }
    }
}

/// The task that `op` asks of its worker.
pub open spec fn task_of(op: Operation) -> Task {
    match op {
        Operation::Read { addr, size, .. } => Task::Read { address: addr, size },
        Operation::Write { addr, size, .. } => Task::Write { address: addr, size },
        Operation::Cpu { cycles, .. } => Task::Cpu { cycles },
        Operation::Gpu { .. } => Task::Unsupported,
    }
}

impl Operation {
    /// The task that this operation asks of its worker.
    pub fn task(&self) -> (r: Task)
        ensures
            r == task_of(*self),
    {
        match self {
            Operation::Read { addr, size, .. } => Task::Read { address: *addr, size: *size },
            Operation::Write { addr, size, .. } => Task::Write { address: *addr, size: *size },
            Operation::Cpu { cycles, .. } => Task::Cpu { cycles: *cycles },
            Operation::Gpu { .. } => Task::Unsupported,
        }
    }

    pub open spec fn spec_thread(&self) -> u32 {
        match self {
            Operation::Read { thread, .. } => *thread,
            Operation::Write { thread, .. } => *thread,
            Operation::Cpu { thread, .. } => *thread,
            Operation::Gpu { thread, .. } => *thread,
        }
    }

    /// The logical worker that issues this operation.
    #[verifier::when_used_as_spec(spec_thread)]
    pub fn thread(&self) -> (r: u32)
        ensures
            r == self.spec_thread(),
    {
        match self {
            Operation::Read { thread, .. } => *thread,
            Operation::Write { thread, .. } => *thread,
            Operation::Cpu { thread, .. } => *thread,
            Operation::Gpu { thread, .. } => *thread,
        }
    }
}

/// A named, ordered list of operations plus the memory they run against.
///
/// `timestamps_ns[i]`, where present, is the time after its worker's start at
/// which operation `i` may begin; an operation without one runs as soon as its
/// turn comes. `thread_count` of `None` (or `Some(0)`) means one more than the
/// largest thread id in `operations`.
#[derive(Debug, Clone)]
pub struct Pattern {
    pub name: String,
    pub operations: Vec<Operation>,
    pub memory_size: u64,
    pub device_path: Option<String>,
    pub use_mmap: bool,
    pub thread_count: Option<u32>,
    pub timestamps_ns: Vec<u64>,
}

/// Kinds of memory that an address map can describe.
#[derive(Debug, Clone, Copy, PartialEq, Eq, Structural)]
pub enum RegionType {
    Dram,
    Cxl,
    Gpu,
    Storage,
}

/// One named range of an address map.
#[derive(Debug, Clone)]
pub struct MemoryRegion {
    pub name: String,
    pub base: u64,
    pub size: u64,
    pub region_type: RegionType,
    pub device: Option<String>,
    pub numa_node: Option<u32>,
}

/// Address placement hints; carried through, not acted upon.
#[derive(Debug, Clone)]
pub struct AddressMap {
    pub memory_regions: Vec<MemoryRegion>,
}

/// Where one logical thread would like to run.
#[derive(Debug, Clone, Copy, PartialEq, Eq, Structural)]
pub struct ThreadMapping {
    pub thread: u32,
    pub cpu: Option<u32>,
    pub gpu: Option<u32>,
    pub numa_node: Option<u32>,
}

/// Thread placement hints; carried through, not acted upon.
#[derive(Debug, Clone)]
pub struct ScheduleMap {
    pub thread_mapping: Vec<ThreadMapping>,
}

/// Run-level settings chosen by the caller.
#[derive(Debug, Clone, Copy, PartialEq, Eq, Structural)]
pub struct ExecutionConfig {
    pub duration_seconds: Option<u64>,
    pub rate_limit: Option<u64>,
    pub warmup_seconds: Option<u64>,
    pub metrics_interval: Option<u64>,
}

/// Shapes of synthetic workload that a pattern generator can produce.
#[derive(Debug, Clone, Copy, PartialEq, Eq, Structural)]
pub enum WorkloadType {
    Sequential,
    Random,
    Hotspot,
    Database,
    Analytics,
    Cache,
    Mixed,
}

/// Everything that can go wrong while building or running a pattern.
#[derive(Debug, Clone, Copy, PartialEq, Eq, Structural)]
pub enum ExecError {
    /// The region's memory could not be obtained.
    AllocationError,
    /// The backing device could not be opened or mapped.
    DeviceError,
    /// An access `[address, address + size)` reaches past the region's end.
    OutOfBounds { address: u64, size: u64, region_size: u64 },
    /// A worker thread terminated abnormally.
    WorkerFault,
    /// The operation has no execution backend (GPU kernels).
    UnsupportedOperation,
}

/// Counters of one logical worker.
///
/// Until the first record the latency extremes hold no observation; the
/// first record sets both. `fault` holds the error that stopped the worker,
/// if one did.
#[derive(Debug, Clone, Copy, PartialEq, Eq, Structural)]
pub struct ThreadStats {
    pub thread_id: u32,
    pub operations_completed: u64,
    pub bytes_read: u64,
    pub bytes_written: u64,
    pub cpu_cycles_executed: u64,
    pub total_latency_ns: u64,
    pub min_latency_ns: u64,
    pub max_latency_ns: u64,
    pub fault: Option<ExecError>,
}

/// The finalized report of one run.
///
/// Totals saturate at `u64::MAX`. Rates are whole units per second, rounded
/// down: `read_throughput_bps` is bytes read per second of wall-clock time.
#[derive(Debug, Clone)]
pub struct ExecutionResults {
    pub pattern_name: String,
    pub total_duration_ns: u64,
    pub total_operations: u64,
    pub total_bytes_read: u64,
    pub total_bytes_written: u64,
    pub total_cpu_cycles: u64,
    pub total_latency_ns: u64,
    pub average_latency_ns: u64,
    pub read_throughput_bps: u128,
    pub write_throughput_bps: u128,
    pub operations_per_second: u128,
    pub thread_stats: Vec<ThreadStats>,
}

} // verus!
