//! What a pattern asks of the machine: which threads it uses, which of them
//! run GPU kernels, the address range it touches, and a thread placement
//! that follows from that.
use crate::common::{Operation, ScheduleMap, ThreadMapping};
use vstd::prelude::*;

verus! {

/// Some operation of `ops` is issued by thread `x` (a GPU kernel, if `gpu_only`).
pub open spec fn issues(ops: Seq<Operation>, x: u32, gpu_only: bool) -> bool {
    exists|i: int|
        0 <= i < ops.len() && (#[trigger] ops[i]).spec_thread() == x && (!gpu_only
            || ops[i] is Gpu)
}

pub open spec fn increasing(s: Seq<u32>) -> bool {
    forall|a: int, b: int| #![trigger s[a], s[b]] 0 <= a < b < s.len() ==> s[a] < s[b]
}

/// Inserts `x` into the increasing `v`, unless it is there already.
fn insert_sorted(v: &mut Vec<u32>, x: u32)
    requires
        increasing(old(v)@),
    ensures
        increasing(final(v)@),
        forall|y: u32| #[trigger] final(v)@.contains(y) <==> (old(v)@.contains(y) || y == x),
{
    let mut pos: usize = v.len();
    while pos > 0 && v[pos - 1] > x
        invariant
            pos <= v@.len(),
            forall|k: int| pos <= k < v@.len() ==> #[trigger] v@[k] > x,
        decreases pos,
    {
        pos = pos - 1;
    }
    if pos > 0 && v[pos - 1] == x {
        return;
    }
    let ghost p = v@;
    proof {
        assert forall|k: int| 0 <= k < pos implies #[trigger] p[k] < x by {
            if k < pos - 1 {
                assert(p[k] < p[pos - 1]);
            }
        }
    }
    v.insert(pos, x);
    let ghost q = v@;
    assert(q =~= p.insert(pos as int, x));
    assert forall|a: int, b: int| #![trigger q[a], q[b]] 0 <= a < b < q.len() implies q[a] < q[b] by {
        if b < pos {
            assert(q[a] == p[a] && q[b] == p[b]);
        } else if b == pos {
            assert(q[a] == p[a]);
        } else if a < pos {
            assert(q[a] == p[a] && q[b] == p[b - 1]);
        } else if a == pos {
            assert(q[b] == p[b - 1]);
        } else {
            assert(q[a] == p[a - 1] && q[b] == p[b - 1]);
        }
    }
    assert forall|y: u32| #[trigger] q.contains(y) <==> (p.contains(y) || y == x) by {
        if p.contains(y) {
            let k = choose|k: int| 0 <= k < p.len() && p[k] == y;
            if k < pos {
                assert(q[k] == y);
            } else {
                assert(q[k + 1] == y);
            }
        }
        if y == x {
            assert(q[pos as int] == x);
        }
        if q.contains(y) {
            let k = choose|k: int| 0 <= k < q.len() && q[k] == y;
            if k < pos {
                assert(q[k] == p[k]);
            } else if k > pos {
                assert(q[k] == p[k - 1]);
            }
        }
    }
}

proof fn lemma_increasing_bound(s: Seq<u32>, i: int)
    requires
        increasing(s),
        0 <= i < s.len(),
    ensures
        s[i] >= i,
    decreases i,
{
    if i > 0 {
        lemma_increasing_bound(s, i - 1);
        assert(s[i - 1] < s[i]);
    }
}

/// The distinct ids of the threads that issue operations (GPU kernels only,
/// if `gpu_only`), in increasing order.
pub fn thread_ids(ops: &Vec<Operation>, gpu_only: bool) -> (r: Vec<u32>)
    ensures
        increasing(r@),
        forall|x: u32| #[trigger] r@.contains(x) <==> issues(ops@, x, gpu_only),
        r@.len() <= 0x1_0000_0000,
{
    let mut r: Vec<u32> = Vec::new();
    let mut i: usize = 0;
    while i < ops.len()
        invariant
            i <= ops@.len(),
            increasing(r@),
            forall|x: u32|
                #[trigger] r@.contains(x) <==> exists|j: int|
                    0 <= j < i && (#[trigger] ops@[j]).spec_thread() == x && (!gpu_only
                        || ops@[j] is Gpu),
        decreases ops@.len() - i,
    {
        let take = match &ops[i] {
            Operation::Gpu { .. } => true,
            _ => !gpu_only,
        };
        let ghost before = r@;
        if take {
            insert_sorted(&mut r, ops[i].thread());
        }
        assert forall|x: u32|
            #[trigger] r@.contains(x) <==> exists|j: int|
                0 <= j < i + 1 && (#[trigger] ops@[j]).spec_thread() == x && (!gpu_only
                    || ops@[j] is Gpu) by {
            if r@.contains(x) && !before.contains(x) {
                assert(ops@[i as int].spec_thread() == x);
            }
            if exists|j: int|
                0 <= j < i + 1 && (#[trigger] ops@[j]).spec_thread() == x && (!gpu_only
                    || ops@[j] is Gpu) {
                let j = choose|j: int|
                    0 <= j < i + 1 && (#[trigger] ops@[j]).spec_thread() == x && (!gpu_only
                        || ops@[j] is Gpu);
                if j < i {
                    assert(before.contains(x));
                }
            }
        }
        i = i + 1;
    }
    proof {
        if r@.len() > 0 {
            lemma_increasing_bound(r@, r@.len() - 1);
        }
    }
    r
}

/// The first byte and the end of the block that a read or write touches;
/// the end saturates at `u64::MAX`.
pub open spec fn span_of(op: Operation) -> Option<(u64, u64)> {
    match op {
        Operation::Read { addr, size, .. } => Some((addr, crate::metrics::sat(addr + size))),
        Operation::Write { addr, size, .. } => Some((addr, crate::metrics::sat(addr + size))),
        _ => None,
    }
}

/// `(lo, hi)` spans every block that `ops` reads or writes, and no less.
pub open spec fn is_address_range(ops: Seq<Operation>, lo: u64, hi: u64) -> bool {
    &&& forall|i: int|
        0 <= i < ops.len() && (#[trigger] span_of(ops[i])) is Some ==> lo <= span_of(
            ops[i],
        )->Some_0.0 && span_of(ops[i])->Some_0.1 <= hi
    &&& exists|i: int|
        0 <= i < ops.len() && (#[trigger] span_of(ops[i])) is Some && span_of(ops[i])->Some_0.0
            == lo
    &&& exists|i: int|
        0 <= i < ops.len() && (#[trigger] span_of(ops[i])) is Some && span_of(ops[i])->Some_0.1
            == hi
}

/// The lowest address and the highest block end that `ops` reads or writes,
/// or `None` when it does neither.
pub fn address_range(ops: &Vec<Operation>) -> (r: Option<(u64, u64)>)
    ensures
        match r {
            None => forall|i: int| 0 <= i < ops@.len() ==> (#[trigger] span_of(ops@[i])) is None,
            Some((lo, hi)) => is_address_range(ops@, lo, hi),
        },
{
    let mut r: Option<(u64, u64)> = None;
    let mut i: usize = 0;
    while i < ops.len()
        invariant
            i <= ops@.len(),
            match r {
                None => forall|j: int| 0 <= j < i ==> (#[trigger] span_of(ops@[j])) is None,
                Some((lo, hi)) => is_address_range(ops@.subrange(0, i as int), lo, hi),
            },
        decreases ops@.len() - i,
    {
        let ghost pre = ops@.subrange(0, i as int);
        let ghost post = ops@.subrange(0, i + 1);
        assert forall|j: int| 0 <= j < i implies post[j] == pre[j] && pre[j] == ops@[j] by {}
        assert(post[i as int] == ops@[i as int]);
        let span: Option<(u64, u64)> = match &ops[i] {
            Operation::Read { addr, size, .. } => Some((*addr, addr.saturating_add(*size))),
            Operation::Write { addr, size, .. } => Some((*addr, addr.saturating_add(*size))),
            _ => None,
        };
        assert(span == span_of(ops@[i as int]));
        match span {
            None => {
                proof {
                    if let Some((lo, hi)) = r {
                        assert forall|j: int|
                            0 <= j < post.len() && (#[trigger] span_of(post[j])) is Some implies lo
                            <= span_of(post[j])->Some_0.0 && span_of(post[j])->Some_0.1 <= hi by {
                            assert(span_of(pre[j]) is Some);
                        }
                        let k1 = choose|k: int|
                            0 <= k < pre.len() && (#[trigger] span_of(pre[k])) is Some && span_of(
                                pre[k],
                            )->Some_0.0 == lo;
                        assert(span_of(post[k1]) is Some);
                        let k2 = choose|k: int|
                            0 <= k < pre.len() && (#[trigger] span_of(pre[k])) is Some && span_of(
                                pre[k],
                            )->Some_0.1 == hi;
                        assert(span_of(post[k2]) is Some);
                    }
                }
            },
            Some((a, e)) => {
                let ghost old_r = r;
                r = match r {
                    None => Some((a, e)),
                    Some((lo, hi)) => Some(
                        (if a < lo {
                            a
                        } else {
                            lo
                        }, if e > hi {
                            e
                        } else {
                            hi
                        }),
                    ),
                };
                proof {
                    let (nlo, nhi) = r.unwrap();
                    assert(span_of(post[i as int]) is Some);
                    match old_r {
                        None => {
                            assert forall|j: int|
                                0 <= j < post.len() && (#[trigger] span_of(post[j])) is Some implies nlo
                                <= span_of(post[j])->Some_0.0 && span_of(post[j])->Some_0.1
                                <= nhi by {
                                if j < i {
                                    assert(span_of(pre[j]) is None);
                                }
                            }
                        },
                        Some((lo, hi)) => {
                            assert forall|j: int|
                                0 <= j < post.len() && (#[trigger] span_of(post[j])) is Some implies nlo
                                <= span_of(post[j])->Some_0.0 && span_of(post[j])->Some_0.1
                                <= nhi by {
                                if j < i {
                                    assert(span_of(pre[j]) is Some);
                                }
                            }
                            if nlo == lo {
                                let k1 = choose|k: int|
                                    0 <= k < pre.len() && (#[trigger] span_of(pre[k])) is Some
                                        && span_of(pre[k])->Some_0.0 == lo;
                                assert(span_of(post[k1]) is Some);
                            }
                            if nhi == hi {
                                let k2 = choose|k: int|
                                    0 <= k < pre.len() && (#[trigger] span_of(pre[k])) is Some
                                        && span_of(pre[k])->Some_0.1 == hi;
                                assert(span_of(post[k2]) is Some);
                            }
                        },
                    }
                }
            },
        }
        i = i + 1;
    }
    proof {
        assert(ops@.subrange(0, ops@.len() as int) =~= ops@);
    }
    r
}

/// The placement of `threads`, in order: a thread in `gpus` gets GPU 0; each
/// other thread gets the next CPU from `cpu` on, and NUMA node CPU / 4.
pub open spec fn placements(threads: Seq<u32>, gpus: Seq<u32>, cpu: nat) -> Seq<ThreadMapping>
    decreases threads.len(),
{
    if threads.len() == 0 {
        Seq::empty()
    } else if gpus.contains(threads[0]) {
        seq![ThreadMapping { thread: threads[0], cpu: None, gpu: Some(0u32), numa_node: None }]
            + placements(threads.drop_first(), gpus, cpu)
    } else {
        seq![
            ThreadMapping {
                thread: threads[0],
                cpu: Some(cpu as u32),
                gpu: None,
                numa_node: Some((cpu / 4) as u32),
            },
        ] + placements(threads.drop_first(), gpus, cpu + 1)
    }
}

fn contains_id(v: &Vec<u32>, x: u32) -> (r: bool)
    ensures
        r == v@.contains(x),
{
    let mut i: usize = 0;
    while i < v.len()
        invariant
            i <= v@.len(),
            forall|k: int| 0 <= k < i ==> #[trigger] v@[k] != x,
        decreases v@.len() - i,
    {
        if v[i] == x {
            return true;
        }
        i = i + 1;
    }
    false
}

/// A thread placement for `threads` (distinct ids, as [`thread_ids`] gives
/// them): GPU 0 for each thread in `gpu_threads`, and consecutive CPUs from 0,
/// four to a NUMA node, for the rest.
pub fn recommended_schedule(threads: &Vec<u32>, gpu_threads: &Vec<u32>) -> (r: ScheduleMap)
    requires
        threads@.len() <= 0x1_0000_0000,
    ensures
        r.thread_mapping@ == placements(threads@, gpu_threads@, 0),
{
    let mut out: Vec<ThreadMapping> = Vec::new();
    let mut cpu: u64 = 0;
    let mut i: usize = 0;
    proof {
        assert(threads@.subrange(0, threads@.len() as int) =~= threads@);
    }
    while i < threads.len()
        invariant
            i <= threads@.len() <= 0x1_0000_0000,
            cpu <= i,
            out@ + placements(threads@.subrange(i as int, threads@.len() as int), gpu_threads@, cpu as nat)
                == placements(threads@, gpu_threads@, 0),
        decreases threads@.len() - i,
    {
        let ghost rest = threads@.subrange(i as int, threads@.len() as int);
        assert(rest.drop_first() =~= threads@.subrange(i + 1, threads@.len() as int));
        assert(rest[0] == threads@[i as int]);
        let t = threads[i];
        let ghost before = out@;
        if contains_id(gpu_threads, t) {
            out.push(ThreadMapping { thread: t, cpu: None, gpu: Some(0), numa_node: None });
            assert(before + placements(rest, gpu_threads@, cpu as nat) =~= out@ + placements(
                threads@.subrange(i + 1, threads@.len() as int),
                gpu_threads@,
                cpu as nat,
            ));
        } else {
            out.push(
                ThreadMapping {
                    thread: t,
                    cpu: Some(cpu as u32),
                    gpu: None,
                    numa_node: Some((cpu / 4) as u32),
                },
            );
            assert(before + placements(rest, gpu_threads@, cpu as nat) =~= out@ + placements(
                threads@.subrange(i + 1, threads@.len() as int),
                gpu_threads@,
                (cpu + 1) as nat,
            ));
            cpu = cpu + 1;
        }
        i = i + 1;
    }
    assert(out@ + placements(
        threads@.subrange(i as int, threads@.len() as int),
        gpu_threads@,
        cpu as nat,
    ) =~= out@);
    ScheduleMap { thread_mapping: out }
}

} // verus!
