use workload_gen::{
    address_range, generate_pattern, recommended_schedule, thread_ids, GenerateError, Operation,
    ThreadMapping, WorkloadParams, WorkloadType,
};

fn params(operations: u64, threads: u32) -> WorkloadParams {
    WorkloadParams { operations: Some(operations), threads: Some(threads), ..Default::default() }
}

fn parts(op: &Operation) -> (u64, u64, u32) {
    match op {
        Operation::Read { addr, size, thread } | Operation::Write { addr, size, thread } => {
            (*addr, *size, *thread)
        }
        _ => panic!("not a memory operation"),
    }
}

#[test]
fn sequential_blocks_follow_each_other() {
    let p = generate_pattern("seq".to_string(), WorkloadType::Sequential, &params(10, 2)).unwrap();
    assert_eq!(p.name, "seq");
    assert_eq!(p.thread_count, Some(2));
    assert_eq!(p.memory_size, 1 << 30);
    assert_eq!(p.operations.len(), 10);
    for (k, op) in p.operations.iter().enumerate() {
        let (t, j) = (k as u64 / 5, k as u64 % 5);
        assert_eq!(parts(op), (t * 1048576 + j * 4096, 4096, t as u32));
    }
}

#[test]
fn read_ratio_extremes_decide_the_kind() {
    let mut all_reads = params(8, 1);
    all_reads.read_ratio_ppm = Some(1_000_000);
    let p = generate_pattern("r".to_string(), WorkloadType::Sequential, &all_reads).unwrap();
    assert!(p.operations.iter().all(|o| matches!(o, Operation::Read { .. })));
    let mut all_writes = params(8, 1);
    all_writes.read_ratio_ppm = Some(0);
    let p = generate_pattern("w".to_string(), WorkloadType::Mixed, &all_writes).unwrap();
    assert!(p.operations.iter().all(|o| !matches!(o, Operation::Read { .. })));
}

#[test]
fn operations_split_evenly_and_remainder_dropped() {
    let p = generate_pattern("x".to_string(), WorkloadType::Random, &params(10, 3)).unwrap();
    assert_eq!(p.operations.len(), 9);
}

#[test]
fn random_blocks_stay_inside_memory() {
    let mut q = params(200, 2);
    q.memory_size = Some(64 * 1024);
    q.block_size = Some(512);
    let p = generate_pattern("rnd".to_string(), WorkloadType::Random, &q).unwrap();
    for op in &p.operations {
        let (a, s, _) = parts(op);
        assert_eq!(a % 512, 0);
        assert!(a + s <= 64 * 1024);
    }
}

#[test]
fn hotspot_blocks_stay_inside_their_region() {
    let mut q = params(300, 3);
    q.memory_size = Some(1 << 20);
    let p = generate_pattern("hot".to_string(), WorkloadType::Hotspot, &q).unwrap();
    let hot = (1u64 << 20) / 10;
    for op in &p.operations {
        let (a, s, _) = parts(op);
        assert!(a + s <= hot || (a >= hot && a + s <= 1 << 20 && (a - hot) % 4096 == 0));
    }
}

#[test]
fn analytics_reads_with_computation_after_every_fifth() {
    let mut q = params(12, 2);
    q.block_size = Some(100);
    q.cpu_cycles = Some(77);
    let p = generate_pattern("an".to_string(), WorkloadType::Analytics, &q).unwrap();
    assert_eq!(p.operations.len(), 14);
    assert!(matches!(p.operations[0], Operation::Read { addr: 0, size: 100, thread: 0 }));
    assert!(matches!(p.operations[4], Operation::Read { addr: 400, size: 100, thread: 0 }));
    assert!(matches!(p.operations[5], Operation::Cpu { cycles: 77, thread: 0 }));
    assert!(matches!(p.operations[6], Operation::Read { addr: 500, size: 100, thread: 0 }));
    assert!(matches!(p.operations[7], Operation::Read { addr: 104857600, size: 100, thread: 1 }));
    assert!(matches!(p.operations[12], Operation::Cpu { cycles: 77, thread: 1 }));
}

#[test]
fn database_runs_of_ten() {
    let p = generate_pattern("db".to_string(), WorkloadType::Database, &params(40, 2)).unwrap();
    assert_eq!(p.operations.len(), 40);
    for (k, op) in p.operations.iter().enumerate() {
        let (a, s, t) = parts(op);
        assert_eq!(s, 8192);
        assert_eq!(t as usize, k / 20);
        let base = t as u64 * 10 * 1048576;
        if k % 20 % 10 == 0 {
            assert!(a >= base && a < base + 5 * 1048576);
            assert_eq!(a % 8192, 0);
        } else {
            assert_eq!(a, parts(&p.operations[k - 1]).0 + 8192);
        }
    }
}

#[test]
fn cache_addresses_near_thread_base() {
    let p = generate_pattern("c".to_string(), WorkloadType::Cache, &params(100, 4)).unwrap();
    for op in &p.operations {
        let (a, s, t) = parts(op);
        let base = t as u64 * 1048576;
        assert_eq!(s, 64);
        assert_eq!(a % 64, 0);
        assert!(a >= base && a < base + 32 * 1024 + 512 * 1024);
    }
}

#[test]
fn mixed_memory_blocks_advance_only_on_access() {
    let mut q = params(50, 1);
    q.cpu_ratio_ppm = Some(500_000);
    let p = generate_pattern("m".to_string(), WorkloadType::Mixed, &q).unwrap();
    let mut next = 0u64;
    for op in &p.operations {
        match op {
            Operation::Cpu { cycles, thread } => assert_eq!((*cycles, *thread), (10_000, 0)),
            _ => {
                assert_eq!(parts(op), (next, 4096, 0));
                next += 4096;
            }
        }
    }
}

#[test]
fn invalid_settings_are_reported() {
    assert_eq!(
        generate_pattern("z".to_string(), WorkloadType::Sequential, &params(10, 0)).unwrap_err(),
        GenerateError::NoThreads
    );
    let mut q = params(10, 1);
    q.block_size = Some(0);
    assert_eq!(
        generate_pattern("z".to_string(), WorkloadType::Random, &q).unwrap_err(),
        GenerateError::ZeroBlockSize
    );
    assert_eq!(
        generate_pattern("z".to_string(), WorkloadType::Cache, &q).unwrap_err(),
        GenerateError::ZeroBlockSize
    );
    let mut q = params(10, 1);
    q.memory_size = Some(4096);
    assert_eq!(
        generate_pattern("z".to_string(), WorkloadType::Random, &q).unwrap_err(),
        GenerateError::EmptyAddressRange
    );
    assert_eq!(
        generate_pattern("z".to_string(), WorkloadType::Hotspot, &q).unwrap_err(),
        GenerateError::EmptyAddressRange
    );
    let p = generate_pattern("z".to_string(), WorkloadType::Random, &params(3, 4)).unwrap();
    assert!(p.operations.is_empty());
}

#[test]
fn distinct_threads_in_order() {
    let ops = vec![
        Operation::Cpu { cycles: 1, thread: 7 },
        Operation::Gpu { kernel: "k".to_string(), thread: 3 },
        Operation::Read { addr: 0, size: 1, thread: 7 },
        Operation::Write { addr: 0, size: 1, thread: 1 },
    ];
    assert_eq!(thread_ids(&ops, false), vec![1, 3, 7]);
    assert_eq!(thread_ids(&ops, true), vec![3]);
    assert_eq!(thread_ids(&vec![], false), Vec::<u32>::new());
}

#[test]
fn address_range_over_accesses() {
    let ops = vec![
        Operation::Read { addr: 4096, size: 100, thread: 0 },
        Operation::Cpu { cycles: 1, thread: 0 },
        Operation::Write { addr: 1000, size: 10, thread: 1 },
        Operation::Read { addr: u64::MAX - 1, size: 10, thread: 0 },
    ];
    assert_eq!(address_range(&ops), Some((1000, u64::MAX)));
    assert_eq!(address_range(&ops[..2].to_vec()), Some((4096, 4196)));
    assert_eq!(address_range(&vec![Operation::Cpu { cycles: 1, thread: 0 }]), None);
}

#[test]
fn schedule_places_cpu_and_gpu_threads() {
    let threads = vec![0, 2, 3, 5, 6, 8, 9];
    let gpus = vec![3];
    let m = recommended_schedule(&threads, &gpus);
    assert_eq!(m.thread_mapping.len(), 7);
    assert_eq!(
        m.thread_mapping[2],
        ThreadMapping { thread: 3, cpu: None, gpu: Some(0), numa_node: None }
    );
    assert_eq!(
        m.thread_mapping[0],
        ThreadMapping { thread: 0, cpu: Some(0), gpu: None, numa_node: Some(0) }
    );
    assert_eq!(
        m.thread_mapping[5],
        ThreadMapping { thread: 8, cpu: Some(4), gpu: None, numa_node: Some(1) }
    );
    assert_eq!(
        m.thread_mapping[6],
        ThreadMapping { thread: 9, cpu: Some(5), gpu: None, numa_node: Some(1) }
    );
}
