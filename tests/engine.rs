use workload_gen::{
    partition, thread_count, ExecError, ExecutionResults, MemoryManager, MetricsCollector,
    Operation, Pattern, PatternExecutor, Step, Task, ThreadStats,
};

fn pattern(memory_size: u64, operations: Vec<Operation>, timestamps_ns: Vec<u64>) -> Pattern {
    Pattern {
        name: "trial".to_string(),
        operations,
        memory_size,
        device_path: None,
        use_mmap: false,
        thread_count: None,
        timestamps_ns,
    }
}

/// Runs every worker to its end, one after the other, with pacing skipped.
fn run(p: &Pattern, duration_ns: u64) -> ExecutionResults {
    let (mut plan, memory) = PatternExecutor::new(p).unwrap();
    let mut memory = memory.unwrap();
    let mut metrics = MetricsCollector::new(plan.thread_count());
    for mut w in plan.take_workers() {
        loop {
            match w.next_step(u64::MAX) {
                Step::Done => break,
                Step::Sleep(_) => panic!("no sleep once every timestamp has passed"),
                Step::Run(task) => {
                    let outcome = memory.execute_task(task);
                    w.complete(outcome);
                }
            }
        }
        metrics.store_thread(w.stats());
    }
    plan.finish(&metrics, duration_ns)
}

#[test]
fn write_then_read_one_thread() {
    let ops = vec![
        Operation::Write { addr: 0, size: 4096, thread: 0 },
        Operation::Read { addr: 0, size: 4096, thread: 0 },
    ];
    let r = run(&pattern(1024 * 1024, ops, vec![]), 1_000_000_000);
    assert_eq!(r.pattern_name, "trial");
    assert_eq!(r.total_operations, 2);
    assert_eq!(r.total_bytes_written, 4096);
    assert_eq!(r.total_bytes_read, 4096);
    assert_eq!(r.thread_stats.len(), 1);
    assert_eq!(r.thread_stats[0].fault, None);
    assert_eq!(r.read_throughput_bps, 4096);
    assert_eq!(r.write_throughput_bps, 4096);
    assert_eq!(r.operations_per_second, 2);
    assert!(r.faulted_threads().is_empty());
}

#[test]
fn read_past_the_end_faults_the_thread() {
    let ops = vec![Operation::Read { addr: 0, size: 8192, thread: 0 }];
    let r = run(&pattern(4096, ops, vec![]), 10);
    assert_eq!(r.total_operations, 0);
    assert_eq!(
        r.thread_stats[0].fault,
        Some(ExecError::OutOfBounds { address: 0, size: 8192, region_size: 4096 })
    );
    assert_eq!(r.faulted_threads(), vec![0]);
}

#[test]
fn cpu_operations_split_over_four_threads() {
    let mut ops = Vec::new();
    for i in 0..1000u32 {
        ops.push(Operation::Cpu { cycles: 1000, thread: i % 4 });
    }
    let r = run(&pattern(4096, ops, vec![]), 1_000_000);
    assert_eq!(r.thread_stats.len(), 4);
    assert_eq!(r.total_cpu_cycles, 1000 * 1000);
    assert_eq!(r.total_operations, 1000);
    assert!(r.average_latency_ns > 0);
    for t in &r.thread_stats {
        assert_eq!(t.operations_completed, 250);
        assert_eq!(t.cpu_cycles_executed, 250 * 1000);
    }
}

#[test]
fn fault_stops_only_the_faulting_worker() {
    let ops = vec![
        Operation::Cpu { cycles: 10, thread: 0 },
        Operation::Write { addr: 100, size: 10, thread: 1 },
        Operation::Read { addr: 4090, size: 10, thread: 0 },
        Operation::Cpu { cycles: 10, thread: 0 },
        Operation::Read { addr: 0, size: 16, thread: 1 },
    ];
    let r = run(&pattern(4096, ops, vec![]), 0);
    assert_eq!(r.thread_stats[0].operations_completed, 1);
    assert_eq!(r.thread_stats[1].operations_completed, 2);
    assert_eq!(r.total_operations, 3);
    assert_eq!(r.faulted_threads(), vec![0]);
    assert_eq!(r.read_throughput_bps, 0);
    assert_eq!(r.operations_per_second, 0);
}

#[test]
fn gpu_operation_is_unsupported() {
    let ops = vec![Operation::Gpu { kernel: "gemm".to_string(), thread: 0 }];
    let r = run(&pattern(64, ops, vec![]), 5);
    assert_eq!(r.total_operations, 0);
    assert_eq!(r.thread_stats[0].fault, Some(ExecError::UnsupportedOperation));
}

#[test]
fn finalize_twice_gives_the_same_report() {
    let mut m = MetricsCollector::new(2);
    m.record_operation(0, &Operation::Read { addr: 0, size: 64, thread: 0 }, 30);
    m.record_operation(1, &Operation::Write { addr: 0, size: 32, thread: 1 }, 10);
    let a = m.finalize(2_000_000_000);
    let b = m.finalize(2_000_000_000);
    assert_eq!(a.total_operations, b.total_operations);
    assert_eq!(a.total_bytes_read, b.total_bytes_read);
    assert_eq!(a.total_bytes_written, b.total_bytes_written);
    assert_eq!(a.average_latency_ns, b.average_latency_ns);
    assert_eq!(a.read_throughput_bps, b.read_throughput_bps);
    assert_eq!(a.thread_stats, b.thread_stats);
    assert_eq!(a.total_operations, 2);
    assert_eq!(a.average_latency_ns, 20);
    assert_eq!(a.read_throughput_bps, 32);
    assert_eq!(a.write_throughput_bps, 16);
    assert_eq!(a.operations_per_second, 1);
    assert_eq!(a.pattern_name, "");
}

#[test]
fn throughput_is_zero_for_zero_duration() {
    let mut m = MetricsCollector::new(1);
    m.record_operation(0, &Operation::Read { addr: 0, size: 1 << 20, thread: 0 }, 5);
    let r = m.finalize(0);
    assert_eq!(r.total_bytes_read, 1 << 20);
    assert_eq!(r.read_throughput_bps, 0);
    let r = m.finalize(500_000_000);
    assert_eq!(r.read_throughput_bps, 2 << 20);
}

#[test]
fn record_tracks_latency_extremes() {
    let mut s = ThreadStats::new(3);
    let op = Task::Cpu { cycles: 7 };
    s.record(op, 50);
    assert_eq!((s.min_latency_ns, s.max_latency_ns), (50, 50));
    s.record(op, 20);
    s.record(op, 90);
    assert_eq!((s.min_latency_ns, s.max_latency_ns), (20, 90));
    assert_eq!(s.total_latency_ns, 160);
    assert_eq!(s.cpu_cycles_executed, 21);
    assert_eq!(s.operations_completed, 3);
    assert_eq!(s.thread_id, 3);
}

#[test]
fn counters_saturate() {
    let mut s = ThreadStats::new(0);
    s.record(Task::Read { address: 0, size: u64::MAX }, u64::MAX);
    s.record(Task::Read { address: 0, size: 5 }, 1);
    assert_eq!(s.bytes_read, u64::MAX);
    assert_eq!(s.total_latency_ns, u64::MAX);
}

#[test]
fn heap_region_starts_with_index_pattern() {
    let m = MemoryManager::new_system_memory(600).unwrap();
    assert_eq!(m.size(), 600);
    assert!(!m.is_device());
    let bytes = m.contents(250, 10).unwrap();
    assert_eq!(bytes, vec![250, 251, 252, 253, 254, 255, 0, 1, 2, 3]);
}

#[test]
fn write_fills_only_its_range() {
    let mut m = MemoryManager::new_system_memory(16).unwrap();
    assert!(m.execute_write(4, 4).is_ok());
    let bytes = m.contents(0, 16).unwrap();
    assert_eq!(bytes, vec![0, 1, 2, 3, 0xAA, 0xAA, 0xAA, 0xAA, 8, 9, 10, 11, 12, 13, 14, 15]);
    assert_eq!(
        m.execute_write(10, 7),
        Err(ExecError::OutOfBounds { address: 10, size: 7, region_size: 16 })
    );
    assert_eq!(m.contents(8, 8).unwrap(), vec![8, 9, 10, 11, 12, 13, 14, 15]);
}

#[test]
fn accesses_at_the_edge() {
    let m = MemoryManager::new_system_memory(4096).unwrap();
    assert!(m.execute_read(0, 4096).is_ok());
    assert!(m.execute_read(4096, 0).is_ok());
    assert!(m.execute_read(4096, 1).is_err());
    assert!(m.execute_read(u64::MAX, 2).is_err());
    assert!(m.contents(4000, 97).is_err());
    assert!(m.execute_cpu(0).is_ok());
    assert!(MemoryManager::new_system_memory(u64::MAX).is_err());
}

#[test]
fn device_staging_buffer_is_zeroed() {
    let m = MemoryManager::new_device_memory(8).unwrap();
    assert!(m.is_device());
    assert_eq!(m.contents(0, 8).unwrap(), vec![0; 8]);
}

#[test]
fn lanes_follow_timestamps_then_position() {
    let ops = vec![
        Operation::Cpu { cycles: 1, thread: 0 },
        Operation::Cpu { cycles: 1, thread: 1 },
        Operation::Cpu { cycles: 1, thread: 2 },
        Operation::Cpu { cycles: 1, thread: 0 },
        Operation::Cpu { cycles: 1, thread: 5 },
        Operation::Cpu { cycles: 1, thread: 0 },
    ];
    let ts = vec![30, 5, 0, 10, 10];
    let lanes = partition(&ops, &ts, 2);
    assert_eq!(lanes, vec![vec![2, 5, 3, 0], vec![1, 4]]);
}

#[test]
fn thread_count_is_explicit_or_derived() {
    let ops = vec![
        Operation::Cpu { cycles: 1, thread: 3 },
        Operation::Cpu { cycles: 1, thread: 6 },
    ];
    let mut p = pattern(0, ops, vec![]);
    assert_eq!(thread_count(&p), 7);
    p.thread_count = Some(2);
    assert_eq!(thread_count(&p), 2);
    p.thread_count = Some(0);
    assert_eq!(thread_count(&p), 7);
    assert_eq!(thread_count(&pattern(0, vec![], vec![])), 0);
}

#[test]
fn worker_sleeps_until_timestamp() {
    let ops = vec![
        Operation::Cpu { cycles: 1, thread: 0 },
        Operation::Read { addr: 0, size: 8, thread: 0 },
    ];
    let p = pattern(64, ops, vec![1000, 500]);
    let (mut plan, _) = PatternExecutor::new(&p).unwrap();
    let mut workers = plan.take_workers();
    let w = &mut workers[0];
    assert_eq!(w.len(), 2);
    assert_eq!(w.next_step(100), Step::Sleep(400));
    assert_eq!(w.next_step(500), Step::Run(Task::Read { address: 0, size: 8 }));
    w.complete(Ok(7));
    assert_eq!(w.next_step(600), Step::Sleep(400));
    assert_eq!(w.next_step(2000), Step::Run(Task::Cpu { cycles: 1 }));
    w.complete(Ok(3));
    assert_eq!(w.next_step(2000), Step::Done);
    assert_eq!(w.stats().operations_completed, 2);
    assert_eq!(w.stats().bytes_read, 8);
}

#[test]
fn worker_without_operations_is_done() {
    let ops = vec![Operation::Cpu { cycles: 1, thread: 1 }];
    let p = pattern(64, ops, vec![]);
    let (mut plan, _) = PatternExecutor::new(&p).unwrap();
    assert_eq!(plan.thread_count(), 2);
    assert_eq!(plan.pattern_name(), "trial");
    let workers = plan.take_workers();
    assert_eq!(workers[0].next_step(0), Step::Done);
    assert_eq!(workers[1].thread_id(), 1);
    assert_eq!(workers[1].next_step(0), Step::Run(Task::Cpu { cycles: 1 }));
}

#[test]
fn task_of_each_operation() {
    assert_eq!(
        Operation::Write { addr: 9, size: 3, thread: 2 }.task(),
        Task::Write { address: 9, size: 3 }
    );
    assert_eq!(Operation::Gpu { kernel: "k".to_string(), thread: 4 }.thread(), 4);
    assert!(Task::Write { address: 0, size: 1 }.is_write());
    assert!(!Task::Read { address: 0, size: 1 }.is_write());
}

#[test]
fn shared_execution_of_reads() {
    let m = MemoryManager::new_system_memory(32).unwrap();
    assert!(m.execute_task_shared(Task::Read { address: 16, size: 16 }).is_ok());
    assert_eq!(
        m.execute_task_shared(Task::Read { address: 17, size: 16 }),
        Err(ExecError::OutOfBounds { address: 17, size: 16, region_size: 32 })
    );
    assert_eq!(m.execute_task_shared(Task::Unsupported), Err(ExecError::UnsupportedOperation));
}

#[test]
fn faults_and_stored_threads() {
    let mut m = MetricsCollector::new(2);
    assert_eq!(m.num_threads(), 2);
    m.record_fault(1, ExecError::WorkerFault);
    let mut s = ThreadStats::new(0);
    s.record(Task::Write { address: 0, size: 10 }, 4);
    m.store_thread(s);
    m.store_thread(ThreadStats::new(9));
    let r = m.finalize(1);
    assert_eq!(r.thread_stats[0], s);
    assert_eq!(r.thread_stats[1].fault, Some(ExecError::WorkerFault));
    assert_eq!(r.faulted_threads(), vec![1]);
    assert_eq!(r.total_bytes_written, 10);
    assert_eq!(r.write_throughput_bps, 10_000_000_000);
}

#[test]
fn constructor_builds_the_region() {
    let ops = vec![Operation::Read { addr: 0, size: 8, thread: 0 }];
    let (plan, memory) = PatternExecutor::new(&pattern(300, ops.clone(), vec![])).unwrap();
    assert_eq!(plan.thread_count(), 1);
    let memory = memory.unwrap();
    assert_eq!(memory.size(), 300);
    assert!(!memory.is_device());
    assert_eq!(memory.contents(255, 3).unwrap(), vec![255, 0, 1]);

    let mut staged = pattern(16, ops.clone(), vec![]);
    staged.device_path = Some("/dev/null".to_string());
    let memory = PatternExecutor::new(&staged).unwrap().1.unwrap();
    assert!(memory.is_device());
    assert_eq!(memory.contents(0, 16).unwrap(), vec![0; 16]);

    let mut mapped = staged.clone();
    mapped.use_mmap = true;
    assert!(PatternExecutor::new(&mapped).unwrap().1.is_none());

    assert_eq!(
        PatternExecutor::new(&pattern(u64::MAX, ops, vec![])).err(),
        Some(ExecError::AllocationError)
    );
}

#[test]
fn a_real_zero_latency_is_the_minimum() {
    let mut s = ThreadStats::new(0);
    let op = Task::Cpu { cycles: 1 };
    s.record(op, 0);
    s.record(op, 5);
    assert_eq!((s.min_latency_ns, s.max_latency_ns), (0, 5));
    let mut t = ThreadStats::new(0);
    t.record(op, 5);
    t.record(op, 0);
    assert_eq!(s, t);
}

#[test]
fn gather_stores_counters_and_faults() {
    let mut m = MetricsCollector::new(3);
    let mut s = ThreadStats::new(2);
    s.record(Task::Read { address: 0, size: 4 }, 1);
    m.gather(vec![(2, Some(s)), (1, None), (7, None)]);
    let r = m.finalize(1);
    assert_eq!(r.thread_stats[2], s);
    assert_eq!(r.thread_stats[1].fault, Some(ExecError::WorkerFault));
    assert_eq!(r.thread_stats[0], ThreadStats::new(0));
    assert_eq!(r.faulted_threads(), vec![1]);
}
