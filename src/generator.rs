//! Synthetic pattern generation: for each thread, a sequence of operations of
//! one workload shape (sequential, random, hotspot, database, analytics,
//! cache or mixed).
//!
//! Probabilities are given in parts per million. Address arithmetic wraps at
//! `u64::MAX`.
use crate::common::{Operation, Pattern, WorkloadType};
use rand::rngs::StdRng;
use rand::{Rng, SeedableRng};
use vstd::prelude::*;

verus! {

#[verifier::external_type_specification]
#[verifier::external_body]
pub struct ExStdRng(StdRng);

/// Relies on `rand::random`: a value from the thread-local generator; nothing
/// is known of it.
pub assume_specification<T>[ rand::random::<T> ]() -> T
    where
        rand::distributions::Standard: rand::distributions::Distribution<T>,
;

/// Relies on `SeedableRng::seed_from_u64` for `StdRng`: a generator seeded
/// from `seed`.
#[verifier::external_body]
fn seeded_rng(seed: u64) -> StdRng {
    StdRng::seed_from_u64(seed)
}

/// Relies on `Rng::gen_range` over `0..bound`, which panics on an empty
/// range: a value below `bound`.
#[verifier::external_body]
fn draw_below(rng: &mut StdRng, bound: u64) -> (r: u64)
    requires
        bound > 0,
    ensures
        r < bound,
{
    rng.gen_range(0..bound)
}

/// One million: a probability of 1 in parts per million.
pub const PPM: u32 = 1_000_000;

pub const KIB: u64 = 1024;

pub const MIB: u64 = 1048576;

pub const GIB: u64 = 1073741824;

/// Seed of the generator that draws random addresses.
pub const ADDRESS_SEED: u64 = 42;

/// True with probability `ppm` in a million.
fn chance(ppm: u32) -> (r: bool)
    ensures
        ppm == 0 ==> !r,
        ppm >= PPM ==> r,
{
    let d: u32 = rand::random::<u32>();
    d % PPM < ppm
}

/// Why a pattern could not be generated.
#[derive(Debug, Clone, Copy, PartialEq, Eq, Structural)]
pub enum GenerateError {
    /// The thread count is zero.
    NoThreads,
    /// The block size is zero where addresses are multiples of it.
    ZeroBlockSize,
    /// The memory leaves no room to place a block at random.
    EmptyAddressRange,
}

/// Optional knobs of a workload; an absent one takes the shape's default.
#[derive(Debug, Clone, Copy, PartialEq, Eq, Structural, Default)]
pub struct WorkloadParams {
    pub operations: Option<u64>,
    pub threads: Option<u32>,
    pub read_ratio_ppm: Option<u32>,
    pub block_size: Option<u64>,
    pub memory_size: Option<u64>,
    pub hotspot_ratio_ppm: Option<u32>,
    pub cache_miss_ratio_ppm: Option<u32>,
    pub cpu_ratio_ppm: Option<u32>,
    pub cpu_cycles: Option<u64>,
}

/// The knobs of a workload with every default filled in.
#[derive(Debug, Clone, Copy, PartialEq, Eq, Structural)]
pub struct Settings {
    pub operations: u64,
    pub threads: u32,
    pub read_ppm: u32,
    pub block_size: u64,
    pub memory_size: u64,
    pub hotspot_ppm: u32,
    pub miss_ppm: u32,
    pub cpu_ppm: u32,
    pub cpu_cycles: u64,
}

pub open spec fn or_else<T>(o: Option<T>, d: T) -> T {
    match o {
        Some(v) => v,
        None => d,
    }
}

pub open spec fn default_read_ppm(kind: WorkloadType) -> u32 {
    match kind {
        WorkloadType::Hotspot => 800_000,
        WorkloadType::Database => 900_000,
        WorkloadType::Cache => 950_000,
        _ => 700_000,
    }
}

pub open spec fn default_block_size(kind: WorkloadType) -> u64 {
    match kind {
        WorkloadType::Database => 8192,
        WorkloadType::Analytics => 1048576,
        WorkloadType::Cache => 64,
        _ => 4096,
    }
}

pub open spec fn default_cpu_cycles(kind: WorkloadType) -> u64 {
    match kind {
        WorkloadType::Analytics => 1_000_000,
        _ => 10_000,
    }
}

/// The settings of a `kind` workload under `p`.
pub open spec fn settings_of(kind: WorkloadType, p: WorkloadParams) -> Settings {
    Settings {
        operations: or_else(p.operations, 1000),
        threads: or_else(p.threads, 4),
        read_ppm: or_else(p.read_ratio_ppm, default_read_ppm(kind)),
        block_size: or_else(p.block_size, default_block_size(kind)),
        memory_size: or_else(p.memory_size, 1073741824),
        hotspot_ppm: or_else(p.hotspot_ratio_ppm, 800_000),
        miss_ppm: or_else(p.cache_miss_ratio_ppm, 100_000),
        cpu_ppm: or_else(p.cpu_ratio_ppm, 200_000),
        cpu_cycles: or_else(p.cpu_cycles, default_cpu_cycles(kind)),
    }
}

/// Operations each thread gets: the total split evenly, the rest dropped.
pub open spec fn per_thread(s: Settings) -> nat {
    if s.threads == 0 {
        0
    } else {
        (s.operations / s.threads as u64) as nat
    }
}

/// Size of the hot region of a hotspot workload: a tenth of the memory.
pub open spec fn hot_size(s: Settings) -> u64 {
    s.memory_size / 10
}

/// The error, if any, that keeps a `kind` workload with settings `s` from
/// being generated.
pub open spec fn settings_error(kind: WorkloadType, s: Settings) -> Option<GenerateError> {
    let bs = s.block_size;
    if s.threads == 0 {
        Some(GenerateError::NoThreads)
    } else if per_thread(s) == 0 {
        None
    } else {
        match kind {
            WorkloadType::Random => if bs == 0 {
                Some(GenerateError::ZeroBlockSize)
            } else if s.memory_size < 2 * bs {
                Some(GenerateError::EmptyAddressRange)
            } else {
                None
            },
            WorkloadType::Hotspot => if bs == 0 {
                Some(GenerateError::ZeroBlockSize)
            } else if hot_size(s) < 2 * bs || s.memory_size - hot_size(s) < 2 * bs {
                Some(GenerateError::EmptyAddressRange)
            } else {
                None
            },
            WorkloadType::Database => if bs == 0 {
                Some(GenerateError::ZeroBlockSize)
            } else {
                None
            },
            WorkloadType::Cache => if bs == 0 {
                Some(GenerateError::ZeroBlockSize)
            } else {
                None
            },
            _ => None,
        }
    }
}

/// `a + b`, wrapping at `u64::MAX`.
pub open spec fn wadd(a: u64, b: u64) -> u64 {
    if a + b > u64::MAX {
        (a + b - 0x1_0000_0000_0000_0000) as u64
    } else {
        (a + b) as u64
    }
}

/// The address `j` strides of `step` past `base`.
pub open spec fn stride(base: u64, step: u64, j: nat) -> u64
    decreases j,
{
    if j == 0 {
        base
    } else {
        wadd(stride(base, step, (j - 1) as nat), step)
    }
}

/// Where thread `t`'s addresses start when each thread owns `span` bytes.
pub open spec fn thread_base(t: u32, span: u64) -> u64 {
    (t * span) as u64
}

/// `op` reads or writes `size` bytes at `addr` for thread `t`.
pub open spec fn is_access_at(op: Operation, addr: u64, size: u64, t: u32) -> bool {
    match op {
        Operation::Read { addr: a, size: z, thread: h } => a == addr && z == size && h == t,
        Operation::Write { addr: a, size: z, thread: h } => a == addr && z == size && h == t,
        _ => false,
    }
}

/// The address that a read or write touches.
pub open spec fn address_of(op: Operation) -> u64 {
    match op {
        Operation::Read { addr, .. } => addr,
        Operation::Write { addr, .. } => addr,
        _ => 0,
    }
}

/// A read or a write, as `read` says.
fn access(read: bool, addr: u64, size: u64, t: u32) -> (r: Operation)
    ensures
        is_access_at(r, addr, size, t),
        read ==> r is Read,
        !read ==> r is Write,
{
    if read {
        Operation::Read { addr, size, thread: t }
    } else {
        Operation::Write { addr, size, thread: t }
    }
}

/// Thread `t` of a sequential workload: `n` blocks back to back from its own
/// megabyte, each a read or a write.
pub open spec fn sequential_ok(b: Seq<Operation>, t: u32, n: nat, bs: u64) -> bool {
    &&& b.len() == n
    &&& forall|j: int|
        0 <= j < n ==> is_access_at(#[trigger] b[j], stride(thread_base(t, MIB), bs, j as nat), bs, t)
}

fn sequential_thread(t: u32, n: u64, s: &Settings) -> (b: Vec<Operation>)
    ensures
        sequential_ok(b@, t, n as nat, s.block_size),
{
    let bs = s.block_size;
    let base: u64 = t as u64 * MIB;
    let mut b: Vec<Operation> = Vec::new();
    let mut current = base;
    let mut j: u64 = 0;
    while j < n
        invariant
            j <= n,
            base == thread_base(t, MIB),
            bs == s.block_size,
            current == stride(base, bs, j as nat),
            sequential_ok(b@, t, j as nat, bs),
        decreases n - j,
    {
        b.push(access(chance(s.read_ppm), current, bs, t));
        current = current.wrapping_add(bs);
        j = j + 1;
    }
    b
}

/// Thread `t` of an analytics workload after `n` reads: large reads back to
/// back from its own hundred megabytes, a computation after every fifth.
pub open spec fn analytics_ops(t: u32, n: nat, bs: u64, cycles: u64) -> Seq<Operation>
    decreases n,
{
    if n == 0 {
        Seq::empty()
    } else {
        let k = (n - 1) as nat;
        let read = Operation::Read { addr: stride(thread_base(t, 104857600), bs, k), size: bs, thread: t };
        let before = analytics_ops(t, k, bs, cycles).push(read);
        if k % 5 == 4 {
            before.push(Operation::Cpu { cycles, thread: t })
        } else {
            before
        }
    }
}

fn analytics_thread(t: u32, n: u64, s: &Settings) -> (b: Vec<Operation>)
    ensures
        b@ == analytics_ops(t, n as nat, s.block_size, s.cpu_cycles),
{
    let bs = s.block_size;
    let base: u64 = t as u64 * 104857600;
    let mut b: Vec<Operation> = Vec::new();
    let mut current = base;
    let mut i: u64 = 0;
    while i < n
        invariant
            i <= n,
            base == thread_base(t, 104857600),
            bs == s.block_size,
            current == stride(base, bs, i as nat),
            b@ == analytics_ops(t, i as nat, bs, s.cpu_cycles),
        decreases n - i,
    {
        b.push(Operation::Read { addr: current, size: bs, thread: t });
        if i % 5 == 4 {
            b.push(Operation::Cpu { cycles: s.cpu_cycles, thread: t });
        }
        current = current.wrapping_add(bs);
        i = i + 1;
    }
    b
}

/// `op` reads or writes, for thread `t`, a `bs`-byte block that lies in
/// `[lo, hi)` at a multiple of `bs` from `lo`.
pub open spec fn block_in(op: Operation, t: u32, bs: u64, lo: u64, hi: u64) -> bool {
    let a = address_of(op);
    &&& is_access_at(op, a, bs, t)
    &&& lo <= a
    &&& a + bs <= hi
    &&& (a - lo) % (bs as int) == 0
}

/// Thread `t` of a random workload: `n` blocks anywhere in memory.
pub open spec fn random_ok(b: Seq<Operation>, t: u32, n: nat, s: Settings) -> bool {
    &&& b.len() == n
    &&& forall|j: int|
        0 <= j < n ==> block_in(#[trigger] b[j], t, s.block_size, 0, s.memory_size)
}

/// Thread `t` of a hotspot workload: `n` blocks, each in the hot first tenth
/// of memory or in the cold rest.
pub open spec fn hotspot_ok(b: Seq<Operation>, t: u32, n: nat, s: Settings) -> bool {
    &&& b.len() == n
    &&& forall|j: int|
        0 <= j < n ==> block_in(#[trigger] b[j], t, s.block_size, 0, hot_size(s)) || block_in(
            b[j],
            t,
            s.block_size,
            hot_size(s),
            s.memory_size,
        )
}

/// `x` rounded down to a multiple of `bs`, a power of two.
pub open spec fn masked(x: u64, bs: u64) -> u64 {
    x & !((bs - 1) as u64)
}

/// Where a database seek of `m` bytes into thread `t`'s region lands.
pub open spec fn seek_target(t: u32, m: u64, bs: u64) -> u64 {
    masked((thread_base(t, 10485760) + m) as u64, bs)
}

/// Thread `t` of a database workload: runs of ten blocks back to back, each
/// run starting at a random seek into the first five megabytes of the
/// thread's ten.
pub open spec fn database_ok(b: Seq<Operation>, t: u32, n: nat, bs: u64) -> bool {
    &&& b.len() == n
    &&& forall|j: int|
        0 <= j < n ==> {
            &&& is_access_at(#[trigger] b[j], address_of(b[j]), bs, t)
            &&& if j % 10 == 0 {
                exists|m: u64| m < 5 * MIB && address_of(b[j]) == #[trigger] seek_target(t, m, bs)
            } else {
                address_of(b[j]) == wadd(address_of(b[j - 1]), bs)
            }
        }
}

pub open spec fn cache_hit(t: u32, m: u64, bs: u64) -> u64 {
    masked((thread_base(t, MIB) + m) as u64, bs)
}

pub open spec fn cache_miss(t: u32, m: u64, bs: u64) -> u64 {
    masked((thread_base(t, MIB) + 32 * KIB + m) as u64, bs)
}

/// One cache-workload address: a hit in the thread's first 32 KiB or a miss
/// in the 512 KiB after them.
pub open spec fn cache_address(a: u64, t: u32, bs: u64) -> bool {
    (exists|m: u64| m < 32 * KIB && a == #[trigger] cache_hit(t, m, bs)) || (exists|m: u64|
        m < 512 * KIB && a == #[trigger] cache_miss(t, m, bs))
}

/// Thread `t` of a cache workload: `n` small blocks, mostly hits.
pub open spec fn cache_ok(b: Seq<Operation>, t: u32, n: nat, bs: u64) -> bool {
    &&& b.len() == n
    &&& forall|j: int|
        0 <= j < n ==> is_access_at(#[trigger] b[j], address_of(b[j]), bs, t) && cache_address(
            address_of(b[j]),
            t,
            bs,
        )
}

/// Number of reads and writes in `b`.
pub open spec fn accesses(b: Seq<Operation>) -> nat
    decreases b.len(),
{
    if b.len() == 0 {
        0
    } else if b.last() is Cpu {
        accesses(b.drop_last())
    } else {
        accesses(b.drop_last()) + 1
    }
}

pub open spec fn is_cpu(op: Operation, cycles: u64, t: u32) -> bool {
    match op {
        Operation::Cpu { cycles: c, thread: h } => c == cycles && h == t,
        _ => false,
    }
}

/// Thread `t` of a mixed workload: computations among blocks that run back
/// to back from the thread's own megabyte.
pub open spec fn mixed_ok(b: Seq<Operation>, t: u32, n: nat, s: Settings) -> bool {
    &&& b.len() == n
    &&& forall|j: int|
        0 <= j < n ==> is_cpu(#[trigger] b[j], s.cpu_cycles, t) || is_access_at(
            b[j],
            stride(thread_base(t, MIB), s.block_size, accesses(b.subrange(0, j))),
            s.block_size,
            t,
        )
}

fn random_thread(t: u32, n: u64, s: &Settings, rng: &mut StdRng) -> (b: Vec<Operation>)
    requires
        n > 0 ==> s.block_size > 0 && s.memory_size >= 2 * s.block_size,
    ensures
        random_ok(b@, t, n as nat, *s),
{
    let bs = s.block_size;
    let mut b: Vec<Operation> = Vec::new();
    let mut j: u64 = 0;
    while j < n
        invariant
            j <= n,
            bs == s.block_size,
            n > 0 ==> bs > 0 && s.memory_size >= 2 * bs,
            random_ok(b@, t, j as nat, *s),
        decreases n - j,
    {
        let slots = (s.memory_size - bs) / bs;
        proof {
            lemma_has_slot((s.memory_size - bs) as u64, bs);
        }
        let k = draw_below(rng, slots);
        proof {
            lemma_block_fits(k, bs, (s.memory_size - bs) as u64);
        }
        let addr = k * bs;
        let op = access(chance(s.read_ppm), addr, bs, t);
        b.push(op);
        j = j + 1;
    }
    b
}

/// Block `k` of `bs` bytes, for `k` below the number of blocks in `room`,
/// ends within `room + bs` and sits at a multiple of `bs`.
proof fn lemma_has_slot(room: u64, bs: u64)
    requires
        room >= bs > 0,
    ensures
        room / bs >= 1,
{
    assert(room / bs >= 1) by (nonlinear_arith)
        requires
            room >= bs > 0,
    ;
}

proof fn lemma_block_fits(k: u64, bs: u64, room: u64)
    requires
        bs > 0,
        room >= bs,
        k < room / bs,
    ensures
        k * bs + bs <= room,
        (k * bs) % (bs as int) == 0,
{
    let q = room / bs;
    assert(k * bs + bs <= q * bs) by (nonlinear_arith)
        requires
            k + 1 <= q,
            bs > 0,
    ;
    assert(q * bs <= room) by (nonlinear_arith)
        requires
            q == room / bs,
            bs > 0,
    ;
    vstd::arithmetic::div_mod::lemma_mod_multiples_basic(k as int, bs as int);
}

fn hotspot_thread(t: u32, n: u64, s: &Settings, rng: &mut StdRng) -> (b: Vec<Operation>)
    requires
        n > 0 ==> s.block_size > 0 && hot_size(*s) >= 2 * s.block_size && s.memory_size
            - hot_size(*s) >= 2 * s.block_size,
    ensures
        hotspot_ok(b@, t, n as nat, *s),
{
    let bs = s.block_size;
    let hot = s.memory_size / 10;
    let mut b: Vec<Operation> = Vec::new();
    let mut j: u64 = 0;
    while j < n
        invariant
            j <= n,
            bs == s.block_size,
            hot == hot_size(*s),
            n > 0 ==> bs > 0 && hot >= 2 * bs && s.memory_size - hot >= 2 * bs,
            hotspot_ok(b@, t, j as nat, *s),
        decreases n - j,
    {
        let addr = if chance(s.hotspot_ppm) {
            proof {
                lemma_has_slot((hot - bs) as u64, bs);
            }
            let k = draw_below(rng, (hot - bs) / bs);
            proof {
                lemma_block_fits(k, bs, (hot - bs) as u64);
            }
            k * bs
        } else {
            proof {
                lemma_has_slot((s.memory_size - hot - bs) as u64, bs);
            }
            let k = draw_below(rng, (s.memory_size - hot - bs) / bs);
            proof {
                lemma_block_fits(k, bs, (s.memory_size - hot - bs) as u64);
            }
            hot + k * bs
        };
        let op = access(chance(s.read_ppm), addr, bs, t);
        b.push(op);
        j = j + 1;
    }
    b
}

fn database_thread(t: u32, n: u64, s: &Settings) -> (b: Vec<Operation>)
    requires
        n > 0 ==> s.block_size > 0,
    ensures
        database_ok(b@, t, n as nat, s.block_size),
{
    let bs = s.block_size;
    let base: u64 = t as u64 * 10485760;
    let mut b: Vec<Operation> = Vec::new();
    let mut current: u64 = base;
    let mut i: u64 = 0;
    while i < n
        invariant
            i <= n,
            bs == s.block_size,
            n > 0 ==> bs > 0,
            base == thread_base(t, 10485760),
            i > 0 ==> current == wadd(address_of(b@[i - 1]), bs),
            database_ok(b@, t, i as nat, bs),
        decreases n - i,
    {
        if i % 10 == 0 {
            let r: u64 = rand::random::<u64>();
            let m = r % 5242880;
            current = (base + m) & !(bs - 1);
            assert(m < 5 * MIB && current == seek_target(t, m, bs));
        }
        let op = access(chance(s.read_ppm), current, bs, t);
        let ghost before = b@;
        b.push(op);
        assert forall|j: int| 0 <= j < i + 1 implies {
            &&& is_access_at(#[trigger] b@[j], address_of(b@[j]), bs, t)
            &&& if j % 10 == 0 {
                exists|m: u64| m < 5 * MIB && address_of(b@[j]) == #[trigger] seek_target(t, m, bs)
            } else {
                address_of(b@[j]) == wadd(address_of(b@[j - 1]), bs)
            }
        } by {
            if j < i {
                assert(b@[j] == before[j]);
                if j % 10 != 0 {
                    assert(b@[j - 1] == before[j - 1]);
                }
            }
        }
        current = current.wrapping_add(bs);
        i = i + 1;
    }
    b
}

fn cache_thread(t: u32, n: u64, s: &Settings) -> (b: Vec<Operation>)
    requires
        n > 0 ==> s.block_size > 0,
    ensures
        cache_ok(b@, t, n as nat, s.block_size),
{
    let bs = s.block_size;
    let base: u64 = t as u64 * MIB;
    let mut b: Vec<Operation> = Vec::new();
    let mut j: u64 = 0;
    while j < n
        invariant
            j <= n,
            bs == s.block_size,
            n > 0 ==> bs > 0,
            base == thread_base(t, MIB),
            cache_ok(b@, t, j as nat, bs),
        decreases n - j,
    {
        let r: u64 = rand::random::<u64>();
        let addr = if chance(s.miss_ppm) {
            let m = r % 524288;
            let a = (base + 32768 + m) & !(bs - 1);
            assert(m < 512 * KIB && a == cache_miss(t, m, bs));
            assert(cache_address(a, t, bs));
            a
        } else {
            let m = r % 32768;
            let a = (base + m) & !(bs - 1);
            assert(m < 32 * KIB && a == cache_hit(t, m, bs));
            assert(cache_address(a, t, bs));
            a
        };
        assert(cache_address(addr, t, bs));
        let op = access(chance(s.read_ppm), addr, bs, t);
        b.push(op);
        j = j + 1;
    }
    b
}

fn mixed_thread(t: u32, n: u64, s: &Settings) -> (b: Vec<Operation>)
    ensures
        mixed_ok(b@, t, n as nat, *s),
{
    let bs = s.block_size;
    let base: u64 = t as u64 * MIB;
    let mut b: Vec<Operation> = Vec::new();
    let mut current = base;
    let mut j: u64 = 0;
    while j < n
        invariant
            j <= n,
            bs == s.block_size,
            base == thread_base(t, MIB),
            b@.len() == j,
            current == stride(base, bs, accesses(b@)),
            mixed_ok(b@, t, j as nat, *s),
        decreases n - j,
    {
        let ghost before = b@;
        assert(before.subrange(0, j as int) =~= before);
        if chance(s.cpu_ppm) {
            b.push(Operation::Cpu { cycles: s.cpu_cycles, thread: t });
            assert(b@.drop_last() =~= before);
        } else {
            let op = access(chance(s.read_ppm), current, bs, t);
            b.push(op);
            assert(b@.drop_last() =~= before);
            current = current.wrapping_add(bs);
        }
        assert forall|k: int| 0 <= k < j + 1 implies is_cpu(#[trigger] b@[k], s.cpu_cycles, t)
            || is_access_at(
            b@[k],
            stride(thread_base(t, MIB), s.block_size, accesses(b@.subrange(0, k))),
            s.block_size,
            t,
        ) by {
            assert(b@.subrange(0, k) =~= before.subrange(0, k));
        }
        j = j + 1;
    }
    b
}

/// `b` is what thread `t` of a `kind` workload with settings `s` may produce.
pub open spec fn thread_ok(kind: WorkloadType, s: Settings, t: u32, b: Seq<Operation>) -> bool {
    let n = per_thread(s);
    match kind {
        WorkloadType::Sequential => sequential_ok(b, t, n, s.block_size),
        WorkloadType::Random => random_ok(b, t, n, s),
        WorkloadType::Hotspot => hotspot_ok(b, t, n, s),
        WorkloadType::Database => database_ok(b, t, n, s.block_size),
        WorkloadType::Analytics => b == analytics_ops(t, n, s.block_size, s.cpu_cycles),
        WorkloadType::Cache => cache_ok(b, t, n, s.block_size),
        WorkloadType::Mixed => mixed_ok(b, t, n, s),
    }
}

/// The operations of a pattern are the threads' sequences one after another,
/// thread 0 first, each what its thread may produce.
pub open spec fn generated(kind: WorkloadType, s: Settings, ops: Seq<Operation>) -> bool {
    exists|blocks: Seq<Seq<Operation>>|
        {
            &&& blocks.len() == s.threads
            &&& blocks.flatten() == ops
            &&& forall|t: int| 0 <= t < s.threads ==> thread_ok(kind, s, t as u32, #[trigger] blocks[t])
        }
}

/// The settings of a `kind` workload under `params`.
pub fn settings(kind: WorkloadType, params: &WorkloadParams) -> (r: Settings)
    ensures
        r == settings_of(kind, *params),
{
    let read_default: u32 = match kind {
        WorkloadType::Hotspot => 800_000,
        WorkloadType::Database => 900_000,
        WorkloadType::Cache => 950_000,
        _ => 700_000,
    };
    let block_default: u64 = match kind {
        WorkloadType::Database => 8192,
        WorkloadType::Analytics => 1048576,
        WorkloadType::Cache => 64,
        _ => 4096,
    };
    let cycles_default: u64 = match kind {
        WorkloadType::Analytics => 1_000_000,
        _ => 10_000,
    };
    Settings {
        operations: match params.operations {
            Some(v) => v,
            None => 1000,
        },
        threads: match params.threads {
            Some(v) => v,
            None => 4,
        },
        read_ppm: match params.read_ratio_ppm {
            Some(v) => v,
            None => read_default,
        },
        block_size: match params.block_size {
            Some(v) => v,
            None => block_default,
        },
        memory_size: match params.memory_size {
            Some(v) => v,
            None => GIB,
        },
        hotspot_ppm: match params.hotspot_ratio_ppm {
            Some(v) => v,
            None => 800_000,
        },
        miss_ppm: match params.cache_miss_ratio_ppm {
            Some(v) => v,
            None => 100_000,
        },
        cpu_ppm: match params.cpu_ratio_ppm {
            Some(v) => v,
            None => 200_000,
        },
        cpu_cycles: match params.cpu_cycles {
            Some(v) => v,
            None => cycles_default,
        },
    }
}

/// The error, if any, that keeps a `kind` workload with settings `s` from
/// being generated.
pub fn check_settings(kind: WorkloadType, s: &Settings) -> (r: Option<GenerateError>)
    ensures
        r == settings_error(kind, *s),
{
    let bs = s.block_size;
    if s.threads == 0 {
        return Some(GenerateError::NoThreads);
    }
    if s.operations / (s.threads as u64) == 0 {
        return None;
    }
    match kind {
        WorkloadType::Random => if bs == 0 {
            Some(GenerateError::ZeroBlockSize)
        } else if (s.memory_size as u128) < 2 * bs as u128 {
            Some(GenerateError::EmptyAddressRange)
        } else {
            None
        },
        WorkloadType::Hotspot => {
            let hot = s.memory_size / 10;
            if bs == 0 {
                Some(GenerateError::ZeroBlockSize)
            } else if (hot as u128) < 2 * bs as u128 || ((s.memory_size - hot) as u128) < 2
                * bs as u128 {
                Some(GenerateError::EmptyAddressRange)
            } else {
                None
            }
        },
        WorkloadType::Database | WorkloadType::Cache => if bs == 0 {
            Some(GenerateError::ZeroBlockSize)
        } else {
            None
        },
        _ => None,
    }
}

fn thread_ops(kind: WorkloadType, t: u32, s: &Settings, rng: &mut StdRng) -> (b: Vec<Operation>)
    requires
        settings_error(kind, *s) is None,
        t < s.threads,
    ensures
        thread_ok(kind, *s, t, b@),
{
    let n = s.operations / s.threads as u64;
    match kind {
        WorkloadType::Sequential => sequential_thread(t, n, s),
        WorkloadType::Random => random_thread(t, n, s, rng),
        WorkloadType::Hotspot => hotspot_thread(t, n, s, rng),
        WorkloadType::Database => database_thread(t, n, s),
        WorkloadType::Analytics => analytics_thread(t, n, s),
        WorkloadType::Cache => cache_thread(t, n, s),
        WorkloadType::Mixed => mixed_thread(t, n, s),
    }
}

/// Generates a `workload_type` pattern named `name`: `threads` threads, each
/// with `operations / threads` operations of the workload's shape, thread 0
/// first. The pattern declares the thread count and the memory size of the
/// settings, and carries no timestamps.
pub fn generate_pattern(name: String, workload_type: WorkloadType, params: &WorkloadParams) -> (r:
    Result<Pattern, GenerateError>)
    ensures
        match settings_error(workload_type, settings_of(workload_type, *params)) {
            Some(e) => r is Err && r->Err_0 == e,
            None => r is Ok,
        },
        r is Ok ==> {
            let s = settings_of(workload_type, *params);
            let p = r->Ok_0;
            &&& generated(workload_type, s, p.operations@)
            &&& p.name == name
            &&& p.memory_size == s.memory_size
            &&& p.device_path is None
            &&& !p.use_mmap
            &&& p.thread_count == Some(s.threads)
            &&& p.timestamps_ns@.len() == 0
        },
{
    let s = settings(workload_type, params);
    if let Some(e) = check_settings(workload_type, &s) {
        return Err(e);
    }
    let mut rng = seeded_rng(ADDRESS_SEED);
    let mut ops: Vec<Operation> = Vec::new();
    let ghost mut blocks: Seq<Seq<Operation>> = Seq::empty();
    let mut t: u32 = 0;
    while t < s.threads
        invariant
            t <= s.threads,
            s == settings_of(workload_type, *params),
            settings_error(workload_type, s) is None,
            blocks.len() == t,
            ops@ == blocks.flatten(),
            forall|u: int| 0 <= u < t ==> thread_ok(workload_type, s, u as u32, #[trigger] blocks[u]),
        decreases s.threads - t,
    {
        let mut b = thread_ops(workload_type, t, &s, &mut rng);
        let ghost bv = b@;
        proof {
            blocks.lemma_flatten_push(bv);
        }
        ops.append(&mut b);
        proof {
            blocks = blocks.push(bv);
        }
        t = t + 1;
    }
    Ok(
        Pattern {
            name,
            operations: ops,
            memory_size: s.memory_size,
            device_path: None,
            use_mmap: false,
            thread_count: Some(s.threads),
            timestamps_ns: Vec::new(),
        },
    )
}

} // verus!
