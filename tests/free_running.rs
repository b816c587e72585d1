use workload_gen::{
    free_thread_count, ExecError, FreeWorker, MemoryManager, OpType, Step, Task, ThreadOp,
    ThreadPattern,
};

fn op(op_type: OpType) -> ThreadOp {
    ThreadOp {
        op_type,
        address: None,
        size: None,
        cpu_cycles: None,
        iterations: None,
        stride: None,
        think_time_ns: None,
    }
}

fn pattern(operations: Vec<ThreadOp>) -> ThreadPattern {
    ThreadPattern {
        thread_id: 2,
        operations,
        working_set_base: None,
        working_set_size: None,
        repeat_pattern: None,
    }
}

/// Every task the worker hands out, each completed with latency 1.
fn tasks(mut w: FreeWorker) -> (Vec<Task>, Vec<u64>) {
    let mut out = Vec::new();
    let mut pauses = Vec::new();
    while let Step::Run(task) = w.next_step() {
        out.push(task);
        pauses.push(w.complete(Ok(1)));
    }
    (out, pauses)
}

#[test]
fn defaults_give_one_pass_of_single_iterations() {
    let w = FreeWorker::new(&pattern(vec![op(OpType::Read), op(OpType::Cpu)]));
    assert_eq!(w.thread_id(), 2);
    let (t, p) = tasks(w);
    assert_eq!(t, vec![Task::Read { address: 0, size: 4096 }, Task::Cpu { cycles: 1000 }]);
    assert_eq!(p, vec![0, 0]);
}

#[test]
fn iterations_stride_and_working_set_wrap() {
    let mut w = op(OpType::Write);
    w.address = Some(100);
    w.size = Some(100);
    w.iterations = Some(4);
    w.stride = Some(150);
    w.think_time_ns = Some(5);
    let mut tp = pattern(vec![w]);
    tp.working_set_base = Some(1000);
    tp.working_set_size = Some(500);
    let (t, p) = tasks(FreeWorker::new(&tp));
    assert_eq!(
        t,
        vec![
            Task::Write { address: 1100, size: 100 },
            Task::Write { address: 1250, size: 100 },
            Task::Write { address: 1400, size: 100 },
            Task::Write { address: 1000, size: 100 },
        ]
    );
    assert_eq!(p, vec![5, 5, 5, 5]);
}

#[test]
fn repeats_restart_each_operation_at_its_address() {
    let mut r = op(OpType::Read);
    r.address = Some(8);
    r.size = Some(8);
    r.iterations = Some(2);
    r.stride = Some(8);
    let mut skipped = op(OpType::Cpu);
    skipped.iterations = Some(0);
    let mut tp = pattern(vec![skipped, r]);
    tp.repeat_pattern = Some(2);
    let (t, _) = tasks(FreeWorker::new(&tp));
    assert_eq!(
        t,
        vec![
            Task::Read { address: 8, size: 8 },
            Task::Read { address: 16, size: 8 },
            Task::Read { address: 8, size: 8 },
            Task::Read { address: 16, size: 8 },
        ]
    );
}

#[test]
fn nothing_to_run() {
    let mut tp = pattern(vec![op(OpType::Read)]);
    tp.repeat_pattern = Some(0);
    assert_eq!(FreeWorker::new(&tp).next_step(), Step::Done);
    assert_eq!(FreeWorker::new(&pattern(vec![])).next_step(), Step::Done);
}

#[test]
fn failure_stops_the_free_worker() {
    let mut big = op(OpType::Read);
    big.size = Some(64);
    big.iterations = Some(3);
    let mut w = FreeWorker::new(&pattern(vec![big]));
    let mut region = MemoryManager::new_system_memory(32).unwrap();
    let mut steps = 0;
    while let Step::Run(task) = w.next_step() {
        let outcome = region.execute_task(task);
        assert_eq!(w.complete(outcome), 0);
        steps += 1;
    }
    assert_eq!(steps, 1);
    assert_eq!(
        w.stats().fault,
        Some(ExecError::OutOfBounds { address: 0, size: 64, region_size: 32 })
    );
    assert_eq!(w.stats().operations_completed, 0);
}

#[test]
fn counts_record_completed_tasks() {
    let mut c = op(OpType::Cpu);
    c.cpu_cycles = Some(10);
    c.iterations = Some(3);
    let mut w = FreeWorker::new(&pattern(vec![c]));
    while let Step::Run(_) = w.next_step() {
        w.complete(Ok(2));
    }
    assert_eq!(w.stats().operations_completed, 3);
    assert_eq!(w.stats().cpu_cycles_executed, 30);
    assert_eq!(w.stats().total_latency_ns, 6);
}

#[test]
fn slots_cover_the_largest_thread_id() {
    let mut a = pattern(vec![]);
    a.thread_id = 5;
    let mut b = pattern(vec![]);
    b.thread_id = 1;
    assert_eq!(free_thread_count(&vec![a, b]), 6);
    assert_eq!(free_thread_count(&vec![]), 0);
}
