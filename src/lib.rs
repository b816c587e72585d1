//! Synthetic memory and compute workload engine: parses sizes, models a
//! bounds-checked memory region, partitions and paces operations per worker
//! thread, and aggregates per-thread statistics into a run report.
pub mod analysis;
pub mod common;
pub mod freerun;
pub mod generator;
pub mod metrics;
pub mod region;
pub mod schedule;
pub mod size;

pub use analysis::{address_range, recommended_schedule, thread_ids};
pub use common::{
    AddressMap, ExecError, ExecutionConfig, ExecutionResults, MemoryRegion, Operation, Pattern,
    RegionType, ScheduleMap, Task, ThreadMapping, ThreadStats, WorkloadType,
};
pub use freerun::{free_thread_count, FreeWorker, OpType, ThreadOp, ThreadPattern};
pub use generator::{generate_pattern, GenerateError, WorkloadParams};
pub use metrics::MetricsCollector;
pub use region::{check_access, cpu_burn, MemoryManager, WRITE_PATTERN};
pub use schedule::{partition, thread_count, PatternExecutor, Step, Worker};
pub use size::{parse_bandwidth_string, parse_size_string, ParseError};
