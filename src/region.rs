//! A fixed-size, exclusively owned byte region with bounds-checked, timed
//! read, write and compute primitives.
use crate::common::{ExecError, Task};
use std::time::{Duration, Instant};
use vstd::prelude::*;

verus! {

#[verifier::external_type_specification]
#[verifier::external_body]
pub struct ExInstant(Instant);

/// Relies on `std::time::Instant::now`: a reading of the monotonic clock.
#[verifier::external_body]
fn clock_now() -> Instant {
    Instant::now()
}

/// Relies on `std::time::Instant::elapsed`: the time passed since `start`.
#[verifier::external_body]
fn clock_elapsed(start: &Instant) -> Duration {
    start.elapsed()
}

/// Relies on `Duration::as_nanos`: the whole nanoseconds of a duration.
pub assume_specification[ Duration::as_nanos ](d: &Duration) -> u128;

/// Relies on `std::hint::black_box`: an identity function that the optimizer
/// must treat as using its argument.
pub assume_specification<T>[ core::hint::black_box::<T> ](dummy: T) -> (r: T)
    ensures
        r == dummy,
;

/// The byte that a write stores.
pub const WRITE_PATTERN: u8 = 0xAA;

/// Nanoseconds since `start`, saturated to `u64`.
fn elapsed_ns(start: &Instant) -> u64 {
    let n = clock_elapsed(start).as_nanos();
    if n > u64::MAX as u128 {
        u64::MAX
    } else {
        n as u64
    }
}

/// Whether `[address, address + size)` lies inside a region of `region_size` bytes.
pub open spec fn fits(address: u64, size: u64, region_size: u64) -> bool {
    address + size <= region_size
}

/// The content of a freshly created heap region: byte `i` is `i mod 256`.
pub open spec fn heap_pattern(n: nat) -> Seq<u8> {
    Seq::new(n, |i: int| (i % 256) as u8)
}

/// `s` after a write of `size` bytes at `address`.
pub open spec fn written(s: Seq<u8>, address: int, size: int) -> Seq<u8> {
    Seq::new(s.len(), |i: int| if address <= i < address + size { WRITE_PATTERN } else { s[i] })
}

/// The error that an access outside the region gives.
pub open spec fn out_of_bounds(address: u64, size: u64, region_size: u64) -> ExecError {
    ExecError::OutOfBounds { address, size, region_size }
}

/// Whether `task` succeeds on a region of `region_size` bytes.
pub open spec fn task_succeeds(task: Task, region_size: u64) -> bool {
    match task {
        Task::Read { address, size } => fits(address, size, region_size),
        Task::Write { address, size } => fits(address, size, region_size),
        Task::Cpu { .. } => true,
        Task::Unsupported => false,
    }
}

/// The error that a failing `task` gives on a region of `region_size` bytes.
pub open spec fn task_error(task: Task, region_size: u64) -> ExecError {
    match task {
        Task::Read { address, size } => out_of_bounds(address, size, region_size),
        Task::Write { address, size } => out_of_bounds(address, size, region_size),
        _ => ExecError::UnsupportedOperation,
    }
}

/// `Ok` when `[address, address + size)` lies inside a region of
/// `region_size` bytes, else the `OutOfBounds` error for that access.
pub fn check_access(address: u64, size: u64, region_size: u64) -> (r: Result<(), ExecError>)
    ensures
        r is Ok <==> fits(address, size, region_size),
        r is Err ==> r == Err::<(), ExecError>(out_of_bounds(address, size, region_size)),
{
    if address as u128 + size as u128 > region_size as u128 {
        Err(ExecError::OutOfBounds { address, size, region_size })
    } else {
        Ok(())
    }
}

/// Runs `cycles` iterations of a dependent multiply-add recurrence, whose
/// result the optimizer must keep, and returns the nanoseconds it took.
pub fn cpu_burn(cycles: u64) -> u64 {
    let start = clock_now();
    let mut sum: u64 = 0;
    let mut i: u64 = 0;
    while i < cycles
        decreases cycles - i,
    {
        sum = sum.wrapping_add(i).wrapping_mul(i);
        i = i + 1;
    }
    core::hint::black_box(sum);
    elapsed_ns(&start)
}

/// One contiguous byte range, backed by heap memory or by a device's staging buffer.
pub struct MemoryManager {
    data: Vec<u8>,
    size: u64,
    is_device: bool,
}

impl View for MemoryManager {
    type V = Seq<u8>;

    closed spec fn view(&self) -> Seq<u8> {
        self.data@
    }
}

impl MemoryManager {
    /// The buffer holds exactly `size` bytes.
    pub closed spec fn wf(&self) -> bool {
        self.data@.len() == self.size && self.size <= usize::MAX
    }

    pub closed spec fn spec_size(&self) -> u64 {
        self.size
    }

    pub closed spec fn spec_is_device(&self) -> bool {
        self.is_device
    }

    /// Number of addressable bytes.
    pub fn size(&self) -> (r: u64)
        requires
            self.wf(),
        ensures
            r == self.spec_size(),
            self@.len() == r,
    {
        self.size
    }

    /// Whether the region stands for a device.
    pub fn is_device(&self) -> (r: bool)
        ensures
            r == self.spec_is_device(),
    {
        self.is_device
    }

    /// An empty buffer that can hold `size` bytes, or `AllocationError`.
    /// The buffer is a `Vec<u8>`, aligned as bytes are: safe code here
    /// cannot ask the allocator for 4096-byte alignment.
    fn reserve(size: u64) -> (r: Result<Vec<u8>, ExecError>)
        ensures
            match r {
                Ok(v) => v@.len() == 0 && size <= usize::MAX,
                Err(e) => e == ExecError::AllocationError,
            },
    {
        if size > usize::MAX as u64 {
            return Err(ExecError::AllocationError);
        }
        let mut v: Vec<u8> = Vec::new();
        if v.try_reserve(size as usize).is_err() {
            return Err(ExecError::AllocationError);
        }
        Ok(v)
    }

    /// A heap region of `size` bytes whose byte `i` holds `i mod 256`. Its
    /// start is byte-aligned, not page-aligned.
    ///
    /// Fails with `AllocationError` when the memory cannot be had, and always
    /// when `size` exceeds the address space.
    pub fn new_system_memory(size: u64) -> (r: Result<MemoryManager, ExecError>)
        ensures
            match r {
                Ok(m) => m.wf() && m.spec_size() == size && !m.spec_is_device() && m@ == heap_pattern(
                    size as nat,
                ),
                Err(e) => e == ExecError::AllocationError,
            },
            size > usize::MAX ==> r is Err,
    {
        let mut data = match Self::reserve(size) {
            Ok(v) => v,
            Err(e) => {
                return Err(e);
            },
        };
        let mut i: u64 = 0;
        while i < size
            invariant
                i <= size,
                data@.len() == i,
                forall|j: int| 0 <= j < i ==> #[trigger] data@[j] == (j % 256) as u8,
            decreases size - i,
        {
            data.push((i % 256) as u8);
            i = i + 1;
        }
        assert(data@ =~= heap_pattern(size as nat));
        Ok(MemoryManager { data, size, is_device: false })
    }

    /// A device-backed region of `size` bytes, presented through a zeroed
    /// staging buffer. Opening the device is the caller's part.
    pub fn new_device_memory(size: u64) -> (r: Result<MemoryManager, ExecError>)
        ensures
            match r {
                Ok(m) => m.wf() && m.spec_size() == size && m.spec_is_device() && m@ == Seq::new(
                    size as nat,
                    |i: int| 0u8,
                ),
                Err(e) => e == ExecError::AllocationError,
            },
            size > usize::MAX ==> r is Err,
    {
        let mut data = match Self::reserve(size) {
            Ok(v) => v,
            Err(e) => {
                return Err(e);
            },
        };
        let mut i: u64 = 0;
        while i < size
            invariant
                i <= size,
                data@.len() == i,
                forall|j: int| 0 <= j < i ==> #[trigger] data@[j] == 0u8,
            decreases size - i,
        {
            data.push(0u8);
            i = i + 1;
        }
        assert(data@ =~= Seq::new(size as nat, |i: int| 0u8));
        Ok(MemoryManager { data, size, is_device: true })
    }

    /// A copy of the bytes `[address, address + size)`, or `OutOfBounds`.
    pub fn contents(&self, address: u64, size: u64) -> (r: Result<Vec<u8>, ExecError>)
        requires
            self.wf(),
        ensures
            r is Ok <==> fits(address, size, self.spec_size()),
            match r {
                Ok(v) => v@ == self@.subrange(address as int, address + size),
                Err(e) => e == out_of_bounds(address, size, self.spec_size()),
            },
    {
        if let Err(e) = check_access(address, size, self.size) {
            return Err(e);
        }
        let mut buf: Vec<u8> = Vec::new();
        self.copy_out(address as usize, (address + size) as usize, &mut buf);
        Ok(buf)
    }

    fn copy_out(&self, lo: usize, hi: usize, buf: &mut Vec<u8>)
        requires
            lo <= hi <= self@.len(),
            old(buf)@.len() == 0,
        ensures
            final(buf)@ == self@.subrange(lo as int, hi as int),
    {
        let src: &[u8] = &self.data.as_slice()[lo..hi];
        buf.extend_from_slice(src);
        assert(buf@ =~= self@.subrange(lo as int, hi as int));
    }

    /// Copies `size` bytes at `address` into a scratch buffer and returns the
    /// nanoseconds the copy took; `OutOfBounds` when the range leaves the region.
    pub fn execute_read(&self, address: u64, size: u64) -> (r: Result<u64, ExecError>)
        requires
            self.wf(),
        ensures
            r is Ok <==> fits(address, size, self.spec_size()),
            r is Err ==> r == Err::<u64, ExecError>(out_of_bounds(address, size, self.spec_size())),
    {
        if let Err(e) = check_access(address, size, self.size) {
            return Err(e);
        }
        let mut buf: Vec<u8> = Vec::with_capacity(size as usize);
        let start = clock_now();
        self.copy_out(address as usize, (address + size) as usize, &mut buf);
        let latency = elapsed_ns(&start);
        core::hint::black_box(buf);
        Ok(latency)
    }

    /// Fills `size` bytes at `address` with [`WRITE_PATTERN`] and returns the
    /// nanoseconds the fill took; `OutOfBounds`, with nothing written, when
    /// the range leaves the region.
    pub fn execute_write(&mut self, address: u64, size: u64) -> (r: Result<u64, ExecError>)
        requires
            old(self).wf(),
        ensures
            final(self).wf(),
            final(self).spec_size() == old(self).spec_size(),
            final(self).spec_is_device() == old(self).spec_is_device(),
            r is Ok <==> fits(address, size, old(self).spec_size()),
            match r {
                Ok(_) => final(self)@ == written(old(self)@, address as int, size as int),
                Err(e) => e == out_of_bounds(address, size, old(self).spec_size())
                    && final(self)@ == old(self)@,
            },
    {
        if let Err(e) = check_access(address, size, self.size) {
            return Err(e);
        }
        let lo = address as usize;
        let hi = (address + size) as usize;
        let ghost before = self.data@;
        let start = clock_now();
        let mut i: usize = lo;
        while i < hi
            invariant
                lo <= i <= hi <= before.len(),
                self.size == old(self).size,
                self.is_device == old(self).is_device,
                before == old(self).data@,
                self.data@.len() == before.len(),
                forall|j: int|
                    0 <= j < before.len() ==> #[trigger] self.data@[j] == (if lo <= j < i {
                        WRITE_PATTERN
                    } else {
                        before[j]
                    }),
            decreases hi - i,
        {
            self.data.set(i, WRITE_PATTERN);
            i = i + 1;
        }
        let latency = elapsed_ns(&start);
        assert(self.data@ =~= written(before, address as int, size as int));
        Ok(latency)
    }

    /// Runs `cycles` iterations of a dependent multiply-add recurrence and
    /// returns the nanoseconds it took. Never fails.
    pub fn execute_cpu(&self, cycles: u64) -> (r: Result<u64, ExecError>)
        ensures
            r is Ok,
    {
        Ok(cpu_burn(cycles))
    }

    /// Carries out `task`, a write included, and returns its latency in nanoseconds.
    pub fn execute_task(&mut self, task: Task) -> (r: Result<u64, ExecError>)
        requires
            old(self).wf(),
        ensures
            final(self).wf(),
            final(self).spec_size() == old(self).spec_size(),
            final(self).spec_is_device() == old(self).spec_is_device(),
            r is Ok <==> task_succeeds(task, old(self).spec_size()),
            r is Err ==> r == Err::<u64, ExecError>(task_error(task, old(self).spec_size())),
            final(self)@ == (match task {
                Task::Write { address, size } => if r is Ok {
                    written(old(self)@, address as int, size as int)
                } else {
                    old(self)@
                },
                _ => old(self)@,
            }),
    {
        match task {
            Task::Read { address, size } => self.execute_read(address, size),
            Task::Write { address, size } => self.execute_write(address, size),
            Task::Cpu { cycles } => self.execute_cpu(cycles),
            Task::Unsupported => Err(ExecError::UnsupportedOperation),
        }
    }

    /// Carries out a `task` that does not write, through a shared reference,
    /// and returns its latency in nanoseconds.
    pub fn execute_task_shared(&self, task: Task) -> (r: Result<u64, ExecError>)
        requires
            self.wf(),
            !task.is_write(),
        ensures
            r is Ok <==> task_succeeds(task, self.spec_size()),
            r is Err ==> r == Err::<u64, ExecError>(task_error(task, self.spec_size())),
    {
        match task {
            Task::Read { address, size } => self.execute_read(address, size),
            Task::Cpu { cycles } => self.execute_cpu(cycles),
            _ => Err(ExecError::UnsupportedOperation),
        }
    }
}

} // verus!
