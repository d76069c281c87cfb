//! The syscall dispatch surface and the kernel-side state of the running
//! task: its status, per-syscall invocation counters, start timestamp,
//! address space, program break and the physical memory its syscalls write.
//!
//! One task runs at a time on the single core; the scheduler only hands the
//! CPU back to a task that did not exit, so the task issuing a syscall is
//! always the current one and observes itself as `Running`. The monotonic
//! clock is an external collaborator: callers pass its readings in.

use vstd::prelude::*;
use crate::config::{
    MAX_SYSCALL_NUM, PAGE_SIZE, SYSCALL_EXIT, SYSCALL_GET_TIME, SYSCALL_MMAP, SYSCALL_MUNMAP,
    SYSCALL_SBRK, SYSCALL_TASK_INFO, SYSCALL_YIELD, TASK_INFO_BYTES, TASK_INFO_FIELDS,
    USEC_PER_SEC, WORD_SIZE,
};
use crate::perm::{MapPermission, PERM_R, PERM_W, check_port, perm_for_port, port_valid};
use crate::phys::PhysMemory;
use crate::space::AddressSpace;

verus! {

/// Lifecycle of a task; only the scheduler moves a task between `Ready` and
/// `Running`, and `Exited` is terminal.
#[derive(Clone, Copy, PartialEq, Eq, Structural, Debug)]
pub enum TaskStatus {
    UnInit,
    Ready,
    Running,
    Exited,
}

/// The word-sized tag a `task_info` call writes for a status value.
pub open spec fn status_code(s: TaskStatus) -> int {
    match s {
        TaskStatus::UnInit => 0,
        TaskStatus::Ready => 1,
        TaskStatus::Running => 2,
        TaskStatus::Exited => 3,
    }
}

/// Executable form of [`status_code`].
pub fn status_code_of(s: TaskStatus) -> (c: usize)
    ensures
        c as int == status_code(s),
{
    match s {
        TaskStatus::UnInit => 0,
        TaskStatus::Ready => 1,
        TaskStatus::Running => 2,
        TaskStatus::Exited => 3,
    }
}

/// A clock reading split into whole seconds and remainder microseconds, as
/// `get_time` writes it into user memory.
#[derive(Clone, Copy, PartialEq, Eq, Structural, Debug)]
pub struct TimeVal {
    pub sec: usize,
    pub usec: usize,
}

/// Whole seconds of a microsecond clock reading.
pub open spec fn time_sec(us: usize) -> int {
    us as int / (USEC_PER_SEC as int)
}

/// Remainder microseconds of a microsecond clock reading.
pub open spec fn time_usec(us: usize) -> int {
    us as int % (USEC_PER_SEC as int)
}

impl TimeVal {
    /// Split a raw microsecond reading.
    pub fn from_us(now_us: usize) -> (tv: TimeVal)
        ensures
            tv.sec as int == time_sec(now_us),
            tv.usec as int == time_usec(now_us),
    {
        TimeVal { sec: now_us / USEC_PER_SEC, usec: now_us % USEC_PER_SEC }
    }
}

/// The telemetry snapshot `task_info` reports: status, the full per-syscall
/// counter array, and elapsed running time in milliseconds.
pub struct TaskInfo {
    pub status: TaskStatus,
    pub syscall_times: Vec<u32>,
    pub time: usize,
}

/// Page number holding the byte address `addr`.
pub open spec fn vpn_of(addr: usize) -> int {
    addr as int / (PAGE_SIZE as int)
}

/// Number of pages needed for `len` bytes, rounding up.
pub open spec fn page_count_of(len: usize) -> int {
    (len as int + PAGE_SIZE - 1) / (PAGE_SIZE as int)
}

/// The physical address inside a translation result (unused on `None`).
pub open spec fn pa_val(o: Option<int>) -> int {
    match o {
        Some(pa) => pa,
        None => 0,
    }
}

/// The kernel-side state of the running task.
pub struct Kernel {
    pub status: TaskStatus,
    pub syscall_times: Vec<u32>,
    pub start_ms: usize,
    pub heap_bottom: usize,
    pub program_brk: usize,
    pub space: AddressSpace,
    pub mem: PhysMemory,
}

/// When `mmap(start, len, port)` is owed success: aligned start, valid port,
/// a length whose page round-up does not overflow, a fully unmapped target
/// range, and enough free frames.
pub open spec fn mmap_accepts(space: AddressSpace, start: usize, len: usize, port: usize) -> bool {
    &&& start as int % (PAGE_SIZE as int) == 0
    &&& port_valid(port)
    &&& len as int <= usize::MAX as int - (PAGE_SIZE - 1)
    &&& space.range_free(vpn_of(start), vpn_of(start) + page_count_of(len))
    &&& page_count_of(len) <= space.allocator.available()
}

/// Everything `mmap` guarantees about the address space and its result.
pub open spec fn mmap_effect(
    pre: AddressSpace,
    post: AddressSpace,
    start: usize,
    len: usize,
    port: usize,
    r: isize,
) -> bool {
    let s = vpn_of(start);
    let e = vpn_of(start) + page_count_of(len);
    &&& post.wf()
    &&& (r == 0 || r == -1)
    &&& (r == 0 <==> mmap_accepts(pre, start, len, port))
    &&& (r == -1 ==> post == pre)
    &&& (r == 0 ==> {
        &&& post.areas@.len() == pre.areas@.len() + 1
        &&& post.areas@.last().start_vpn == s
        &&& post.areas@.last().end_vpn == e
        &&& post.areas@.last().perm == perm_for_port(port)
        &&& forall|v: int| s <= v < e ==> #[trigger] post.vpn_mapped(v)
        &&& forall|v: int| s <= v < e ==> #[trigger] post.vpn_perm(v) == perm_for_port(port)
        &&& forall|v: int|
            !(s <= v < e) ==> #[trigger] post.vpn_mapped(v) == pre.vpn_mapped(v)
        &&& forall|v: int|
            !(s <= v < e) && pre.vpn_mapped(v) ==> #[trigger] post.vpn_perm(v) == pre.vpn_perm(
                v,
            )
    })
}

/// When `munmap(start, len)` is owed success: a length whose page round-up
/// does not overflow and a fully mapped target range. The start address is
/// deliberately not checked for page alignment — it is rounded down to its
/// page, mirroring how the range is computed for `mmap` — so an unaligned
/// unmap request acts on the pages its byte range touches.
pub open spec fn munmap_accepts(space: AddressSpace, start: usize, len: usize) -> bool {
    &&& len as int <= usize::MAX as int - (PAGE_SIZE - 1)
    &&& space.range_mapped(vpn_of(start), vpn_of(start) + page_count_of(len))
}

/// Everything `munmap` guarantees about the address space and its result.
pub open spec fn munmap_effect(
    pre: AddressSpace,
    post: AddressSpace,
    start: usize,
    len: usize,
    r: isize,
) -> bool {
    let s = vpn_of(start);
    let e = vpn_of(start) + page_count_of(len);
    &&& post.wf()
    &&& (r == 0 || r == -1)
    &&& (r == 0 <==> munmap_accepts(pre, start, len))
    &&& (r == -1 ==> post == pre)
    &&& (r == 0 ==> forall|v: int|
        #[trigger] post.vpn_mapped(v) == (pre.vpn_mapped(v) && !(s <= v < e)))
    &&& (r == 0 ==> forall|v: int|
        #[trigger] post.vpn_mapped(v) ==> post.vpn_perm(v) == pre.vpn_perm(v))
}

/// Everything `sbrk` guarantees: the break moves by `size` exactly when the
/// target stays between the heap bottom and the largest signed word, and the
/// previous break is returned; otherwise -1 and no change.
pub open spec fn sbrk_effect(
    heap_bottom: usize,
    pre_brk: usize,
    post_brk: usize,
    size: i32,
    r: isize,
) -> bool {
    let target = pre_brk as int + size as int;
    &&& (r == -1 <==> !(heap_bottom as int <= target <= isize::MAX as int))
    &&& (r == -1 ==> post_brk == pre_brk)
    &&& (r != -1 ==> r as int == pre_brk as int && post_brk as int == target)
}

/// When `get_time(ts)` is owed success: a word-aligned output record whose
/// two fields both lie in pages mapped writable. The two fields are
/// translated separately, so the record may straddle a page boundary.
pub open spec fn get_time_accepts(space: AddressSpace, ts: usize) -> bool {
    &&& ts % WORD_SIZE == 0
    &&& ts as int + 2 * (WORD_SIZE as int) <= usize::MAX as int
    &&& space.spec_translate(ts as int, PERM_W).is_some()
    &&& space.spec_translate(ts as int + WORD_SIZE, PERM_W).is_some()
}

/// Everything `get_time` guarantees about memory and its result.
pub open spec fn get_time_effect(
    space: AddressSpace,
    pre_mem: Map<usize, usize>,
    post_mem: Map<usize, usize>,
    ts: usize,
    now_us: usize,
    r: isize,
) -> bool {
    &&& (r == 0 || r == -1)
    &&& (r == 0 <==> get_time_accepts(space, ts))
    &&& (r == -1 ==> post_mem == pre_mem)
    &&& (r == 0 ==> post_mem == pre_mem.insert(
        pa_val(space.spec_translate(ts as int, PERM_W)) as usize,
        time_sec(now_us) as usize,
    ).insert(
        pa_val(space.spec_translate(ts as int + WORD_SIZE, PERM_W)) as usize,
        time_usec(now_us) as usize,
    ))
}

/// Byte address of the `k`-th scalar field of a user-space `task_info`
/// record at `ti`: the status word, then one 32-bit counter per syscall
/// number, then the elapsed-time word.
pub open spec fn ti_field_addr(ti: int, k: int) -> int {
    if k == 0 {
        ti
    } else if k <= MAX_SYSCALL_NUM {
        ti + WORD_SIZE + 4 * (k - 1)
    } else {
        ti + WORD_SIZE + 4 * (MAX_SYSCALL_NUM as int)
    }
}

/// Value of the `k`-th scalar field `task_info` writes: the caller is always
/// observed `Running`, then the counters, then the elapsed milliseconds.
pub open spec fn ti_field_val(times: Seq<u32>, elapsed: int, k: int) -> int {
    if k == 0 {
        status_code(TaskStatus::Running)
    } else if k <= MAX_SYSCALL_NUM {
        times[k - 1] as int
    } else {
        elapsed
    }
}

/// When `task_info(ti)` is owed success: a word-aligned record that fits
/// below the address space's top, every field of which lies in a page mapped
/// writable. Fields are translated one by one, so the record may straddle
/// page boundaries anywhere.
pub open spec fn task_info_accepts(space: AddressSpace, ti: usize) -> bool {
    &&& ti % WORD_SIZE == 0
    &&& ti as int + TASK_INFO_BYTES as int <= usize::MAX as int
    &&& forall|k: int|
        0 <= k < TASK_INFO_FIELDS ==> (#[trigger] space.spec_translate(
            ti_field_addr(ti as int, k),
            PERM_W,
        )).is_some()
}

/// Memory after the first `k` scalar writes of a `task_info` call.
pub open spec fn ti_mem_after(
    space: AddressSpace,
    m: Map<usize, usize>,
    ti: int,
    times: Seq<u32>,
    elapsed: int,
    k: int,
) -> Map<usize, usize>
    decreases k,
{
    if k <= 0 {
        m
    } else {
        ti_mem_after(space, m, ti, times, elapsed, k - 1).insert(
            pa_val(space.spec_translate(ti_field_addr(ti, k - 1), PERM_W)) as usize,
            ti_field_val(times, elapsed, k - 1) as usize,
        )
    }
}

/// Everything `task_info` guarantees about memory and its result, given the
/// counter array `times` in force during the call.
pub open spec fn task_info_effect(
    space: AddressSpace,
    pre_mem: Map<usize, usize>,
    post_mem: Map<usize, usize>,
    ti: usize,
    times: Seq<u32>,
    elapsed: int,
    r: isize,
) -> bool {
    &&& (r == 0 || r == -1)
    &&& (r == 0 <==> task_info_accepts(space, ti))
    &&& (r == -1 ==> post_mem == pre_mem)
    &&& (r == 0 ==> post_mem == ti_mem_after(
        space,
        pre_mem,
        ti as int,
        times,
        elapsed,
        TASK_INFO_FIELDS as int,
    ))
}

/// The syscall numbers this surface dispatches.
pub open spec fn known_syscall(id: usize) -> bool {
    ||| id == SYSCALL_EXIT
    ||| id == SYSCALL_YIELD
    ||| id == SYSCALL_GET_TIME
    ||| id == SYSCALL_TASK_INFO
    ||| id == SYSCALL_MMAP
    ||| id == SYSCALL_MUNMAP
    ||| id == SYSCALL_SBRK
}

/// One more invocation recorded, saturating so a counter never decreases.
pub open spec fn sat_inc(c: u32) -> u32 {
    if c == u32::MAX {
        c
    } else {
        (c + 1) as u32
    }
}

/// The counter array after recording one invocation of syscall `id`.
pub open spec fn bumped(times: Seq<u32>, id: int) -> Seq<u32> {
    times.update(id, sat_inc(times[id]))
}

impl Kernel {
    pub open spec fn wf(self) -> bool {
        &&& self.space.wf()
        &&& self.syscall_times@.len() == MAX_SYSCALL_NUM
        &&& self.heap_bottom <= self.program_brk
        &&& self.program_brk as int <= isize::MAX as int
    }

    /// A freshly scheduled task: running, no syscalls recorded yet, an empty
    /// address space over the frame range, and the break at the heap bottom.
    pub fn new(start_ms: usize, heap_bottom: usize, frame_start: usize, frame_end: usize) -> (k:
        Kernel)
        requires
            heap_bottom as int <= isize::MAX as int,
            frame_start <= frame_end,
            frame_end <= usize::MAX / PAGE_SIZE,
        ensures
            k.wf(),
            k.status == TaskStatus::Running,
            k.syscall_times@.len() == MAX_SYSCALL_NUM,
            forall|i: int| 0 <= i < MAX_SYSCALL_NUM ==> #[trigger] k.syscall_times@[i] == 0,
            k.start_ms == start_ms,
            k.heap_bottom == heap_bottom,
            k.program_brk == heap_bottom,
            forall|v: int| !(#[trigger] k.space.vpn_mapped(v)),
            k.space.allocator.available() == frame_end - frame_start,
            k.mem.contents() == Map::<usize, usize>::empty(),
    {
        let mut times: Vec<u32> = Vec::new();
        let mut i: usize = 0;
        while i < MAX_SYSCALL_NUM
            invariant
                i <= MAX_SYSCALL_NUM,
                times@.len() == i,
                forall|j: int| 0 <= j < i ==> #[trigger] times@[j] == 0,
            decreases MAX_SYSCALL_NUM - i,
        {
            times.push(0);
            i = i + 1;
        }
        Kernel {
            status: TaskStatus::Running,
            syscall_times: times,
            start_ms,
            heap_bottom,
            program_brk: heap_bottom,
            space: AddressSpace::new(frame_start, frame_end),
            mem: PhysMemory::new(),
        }
    }

    /// The task exits: its status becomes terminal and the scheduler takes
    /// the CPU; this surface is never entered for the task again.
    pub fn sys_exit(&mut self, _exit_code: i32)
        ensures
            final(self).status == TaskStatus::Exited,
            final(self).syscall_times@ == old(self).syscall_times@,
            final(self).start_ms == old(self).start_ms,
            final(self).heap_bottom == old(self).heap_bottom,
            final(self).program_brk == old(self).program_brk,
            final(self).space == old(self).space,
            final(self).mem == old(self).mem,
    {
        self.status = TaskStatus::Exited;
    }

    /// The task yields the rest of its quantum; the scheduler runs others
    /// and hands the CPU back, so no kernel-side task state changes.
    pub fn sys_yield(&mut self) -> (r: isize)
        ensures
            r == 0,
            *final(self) == *old(self),
    {
        0
    }

    /// Write the split clock reading `now_us` into the user record at `ts`,
    /// each field through its own translation (the record may straddle a
    /// page boundary). A record that is unaligned, wraps the address space,
    /// or touches a page not mapped writable fails with -1 and no write.
    pub fn sys_get_time(&mut self, ts: usize, _tz: usize, now_us: usize) -> (r: isize)
        requires
            old(self).wf(),
        ensures
            final(self).wf(),
            final(self).status == old(self).status,
            final(self).syscall_times@ == old(self).syscall_times@,
            final(self).start_ms == old(self).start_ms,
            final(self).heap_bottom == old(self).heap_bottom,
            final(self).program_brk == old(self).program_brk,
            final(self).space == old(self).space,
            get_time_effect(
                old(self).space,
                old(self).mem.contents(),
                final(self).mem.contents(),
                ts,
                now_us,
                r,
            ),
    {
        if ts % WORD_SIZE != 0 {
            return -1;
        }
        if ts > usize::MAX - 2 * WORD_SIZE {
            return -1;
        }
        let sec_pa = match self.space.translate(ts, PERM_W) {
            Some(pa) => pa,
            None => {
                return -1;
            },
        };
        let usec_pa = match self.space.translate(ts + WORD_SIZE, PERM_W) {
            Some(pa) => pa,
            None => {
                return -1;
            },
        };
        let tv = TimeVal::from_us(now_us);
        self.mem.write_scalar(sec_pa, tv.sec);
        self.mem.write_scalar(usec_pa, tv.usec);
        0
    }

    /// Request a page-aligned mapping of `len` bytes at `start` with the
    /// access bits of `port`; UserAccessible is always forced on. Returns 0
    /// exactly on the inputs `mmap_accepts` allows, -1 otherwise, and never
    /// leaves a partial mapping behind.
    pub fn sys_mmap(&mut self, start: usize, len: usize, port: usize) -> (r: isize)
        requires
            old(self).wf(),
        ensures
            final(self).wf(),
            final(self).status == old(self).status,
            final(self).syscall_times@ == old(self).syscall_times@,
            final(self).start_ms == old(self).start_ms,
            final(self).heap_bottom == old(self).heap_bottom,
            final(self).program_brk == old(self).program_brk,
            final(self).mem == old(self).mem,
            mmap_effect(old(self).space, final(self).space, start, len, port, r),
    {
        if start % PAGE_SIZE != 0 {
            return -1;
        }
        if !check_port(port) {
            return -1;
        }
        if len > usize::MAX - (PAGE_SIZE - 1) {
            return -1;
        }
        let start_vpn = start / PAGE_SIZE;
        let num_pages = (len + (PAGE_SIZE - 1)) / PAGE_SIZE;
        proof {
            lemma_vpn_sum_fits(start, len);
        }
        let end_vpn = start_vpn + num_pages;
        let perm = MapPermission::from_port(port);
        if self.space.mmap(start_vpn, end_vpn, perm) {
            0
        } else {
            -1
        }
    }

    /// Unmap the pages covered by `len` bytes from `start` (rounded down to
    /// its page). Returns 0 exactly on the inputs `munmap_accepts` allows,
    /// -1 otherwise, and unmaps nothing unless it unmaps everything asked.
    pub fn sys_munmap(&mut self, start: usize, len: usize) -> (r: isize)
        requires
            old(self).wf(),
        ensures
            final(self).wf(),
            final(self).status == old(self).status,
            final(self).syscall_times@ == old(self).syscall_times@,
            final(self).start_ms == old(self).start_ms,
            final(self).heap_bottom == old(self).heap_bottom,
            final(self).program_brk == old(self).program_brk,
            final(self).mem == old(self).mem,
            munmap_effect(old(self).space, final(self).space, start, len, r),
    {
        if len > usize::MAX - (PAGE_SIZE - 1) {
            return -1;
        }
        let start_vpn = start / PAGE_SIZE;
        let num_pages = (len + (PAGE_SIZE - 1)) / PAGE_SIZE;
        proof {
            lemma_vpn_sum_fits(start, len);
        }
        let end_vpn = start_vpn + num_pages;
        if self.space.munmap(start_vpn, end_vpn) {
            0
        } else {
            -1
        }
    }

    /// Move the program break by `size` bytes, returning the previous break,
    /// or -1 — leaving the break alone — when the target would fall below
    /// the heap bottom or above the largest signed word.
    pub fn sys_sbrk(&mut self, size: i32) -> (r: isize)
        requires
            old(self).wf(),
        ensures
            final(self).wf(),
            final(self).status == old(self).status,
            final(self).syscall_times@ == old(self).syscall_times@,
            final(self).start_ms == old(self).start_ms,
            final(self).heap_bottom == old(self).heap_bottom,
            final(self).space == old(self).space,
            final(self).mem == old(self).mem,
            sbrk_effect(
                old(self).heap_bottom,
                old(self).program_brk,
                final(self).program_brk,
                size,
                r,
            ),
    {
        let target: i128 = self.program_brk as i128 + size as i128;
        if target < self.heap_bottom as i128 || target > isize::MAX as i128 {
            -1
        } else {
            let old_brk = self.program_brk;
            self.program_brk = target as usize;
            old_brk as isize
        }
    }

    /// Record one invocation of syscall `id`.
    fn bump_counter(&mut self, id: usize)
        requires
            id < old(self).syscall_times@.len(),
        ensures
            final(self).syscall_times@ == bumped(old(self).syscall_times@, id as int),
            final(self).status == old(self).status,
            final(self).start_ms == old(self).start_ms,
            final(self).heap_bottom == old(self).heap_bottom,
            final(self).program_brk == old(self).program_brk,
            final(self).space == old(self).space,
            final(self).mem == old(self).mem,
    {
        let c = self.syscall_times[id];
        let nc = if c == u32::MAX {
            c
        } else {
            c + 1
        };
        self.syscall_times[id] = nc;
    }

    /// The telemetry snapshot about the calling task: always `Running` (only
    /// the scheduled task can issue the call), the counter array, and the
    /// elapsed milliseconds since the task was first scheduled.
    pub fn task_info_snapshot(&self, now_ms: usize) -> (ti: TaskInfo)
        requires
            self.wf(),
            now_ms >= self.start_ms,
        ensures
            ti.status == TaskStatus::Running,
            ti.syscall_times@ == self.syscall_times@,
            ti.time == now_ms - self.start_ms,
    {
        let n = self.syscall_times.len();
        let mut times: Vec<u32> = Vec::new();
        let mut i: usize = 0;
        while i < n
            invariant
                i <= n,
                n == self.syscall_times@.len(),
                times@ == self.syscall_times@.subrange(0, i as int),
            decreases n - i,
        {
            times.push(self.syscall_times[i]);
            proof {
                assert(times@ =~= self.syscall_times@.subrange(0, i + 1));
            }
            i = i + 1;
        }
        proof {
            assert(times@ =~= self.syscall_times@);
        }
        TaskInfo { status: TaskStatus::Running, syscall_times: times, time: now_ms - self.start_ms }
    }

    /// Write the telemetry snapshot into the user record at `ti`, one scalar
    /// per translation: the status word, each 32-bit counter, the elapsed
    /// milliseconds. All fields are translated before anything is written,
    /// so a bad record pointer fails with -1 and no partial write.
    pub fn sys_task_info(&mut self, ti: usize, now_ms: usize) -> (r: isize)
        requires
            old(self).wf(),
            now_ms >= old(self).start_ms,
        ensures
            final(self).wf(),
            final(self).status == old(self).status,
            final(self).syscall_times@ == old(self).syscall_times@,
            final(self).start_ms == old(self).start_ms,
            final(self).heap_bottom == old(self).heap_bottom,
            final(self).program_brk == old(self).program_brk,
            final(self).space == old(self).space,
            task_info_effect(
                old(self).space,
                old(self).mem.contents(),
                final(self).mem.contents(),
                ti,
                old(self).syscall_times@,
                now_ms - old(self).start_ms,
                r,
            ),
    {
        if ti % WORD_SIZE != 0 {
            return -1;
        }
        if ti > usize::MAX - TASK_INFO_BYTES {
            return -1;
        }
        // Check every field's translation before writing any.
        let mut k: usize = 0;
        while k < TASK_INFO_FIELDS
            invariant
                k <= TASK_INFO_FIELDS,
                *self == *old(self),
                self.wf(),
                ti % WORD_SIZE == 0,
                ti <= usize::MAX - TASK_INFO_BYTES,
                forall|j: int|
                    0 <= j < k ==> (#[trigger] self.space.spec_translate(
                        ti_field_addr(ti as int, j),
                        PERM_W,
                    )).is_some(),
            decreases TASK_INFO_FIELDS - k,
        {
            let a = ti_addr_exec(ti, k);
            if self.space.translate(a, PERM_W).is_none() {
                return -1;
            }
            k = k + 1;
        }
        assert(task_info_accepts(self.space, ti));
        let elapsed = now_ms - self.start_ms;
        let scode = status_code_of(TaskStatus::Running);
        let ghost pre_mem = self.mem.contents();
        let mut k: usize = 0;
        while k < TASK_INFO_FIELDS
            invariant
                k <= TASK_INFO_FIELDS,
                self.wf(),
                self.space == old(self).space,
                self.status == old(self).status,
                self.syscall_times@ == old(self).syscall_times@,
                self.start_ms == old(self).start_ms,
                self.heap_bottom == old(self).heap_bottom,
                self.program_brk == old(self).program_brk,
                ti % WORD_SIZE == 0,
                ti <= usize::MAX - TASK_INFO_BYTES,
                task_info_accepts(self.space, ti),
                now_ms >= self.start_ms,
                elapsed == now_ms - self.start_ms,
                scode as int == status_code(TaskStatus::Running),
                self.mem.contents() == ti_mem_after(
                    self.space,
                    pre_mem,
                    ti as int,
                    self.syscall_times@,
                    elapsed as int,
                    k as int,
                ),
                pre_mem == old(self).mem.contents(),
            decreases TASK_INFO_FIELDS - k,
        {
            let a = ti_addr_exec(ti, k);
            assert(self.space.spec_translate(ti_field_addr(ti as int, k as int), PERM_W).is_some());
            let pa = self.space.translate(a, PERM_W).unwrap();
            let v: usize = if k == 0 {
                scode
            } else if k <= MAX_SYSCALL_NUM {
                let t = self.syscall_times[k - 1];
                t as usize
            } else {
                elapsed
            };
            self.mem.write_scalar(pa, v);
            k = k + 1;
        }
        0
    }

    /// Dispatch entry point: records the invocation in the counter array —
    /// every syscall counts, including `task_info` itself — then validates
    /// and performs the requested syscall on the three raw argument words.
    /// `now_us` and `now_ms` are the collaborating clock's readings.
    pub fn syscall(
        &mut self,
        syscall_id: usize,
        arg0: usize,
        arg1: usize,
        arg2: usize,
        now_us: usize,
        now_ms: usize,
    ) -> (r: isize)
        requires
            old(self).wf(),
            known_syscall(syscall_id),
            syscall_id == SYSCALL_TASK_INFO ==> now_ms >= old(self).start_ms,
        ensures
            final(self).wf(),
            final(self).syscall_times@ == bumped(old(self).syscall_times@, syscall_id as int),
            final(self).start_ms == old(self).start_ms,
            final(self).heap_bottom == old(self).heap_bottom,
            syscall_id == SYSCALL_EXIT ==> final(self).status == TaskStatus::Exited && final(self).space == old(self).space && final(self).mem == old(self).mem && final(self).program_brk == old(self).program_brk && r == 0,
            syscall_id != SYSCALL_EXIT ==> final(self).status == old(self).status,
            syscall_id == SYSCALL_YIELD ==> r == 0 && final(self).space == old(self).space
                && final(self).mem == old(self).mem && final(self).program_brk == old(self).program_brk,
            syscall_id == SYSCALL_GET_TIME ==> get_time_effect(
                old(self).space,
                old(self).mem.contents(),
                final(self).mem.contents(),
                arg0,
                now_us,
                r,
            ) && final(self).space == old(self).space && final(self).program_brk == old(self).program_brk,
            syscall_id == SYSCALL_TASK_INFO ==> task_info_effect(
                old(self).space,
                old(self).mem.contents(),
                final(self).mem.contents(),
                arg0,
                bumped(old(self).syscall_times@, SYSCALL_TASK_INFO as int),
                now_ms - old(self).start_ms,
                r,
            ) && final(self).space == old(self).space && final(self).program_brk == old(self).program_brk,
            syscall_id == SYSCALL_MMAP ==> mmap_effect(
                old(self).space,
                final(self).space,
                arg0,
                arg1,
                arg2,
                r,
            ) && final(self).mem == old(self).mem && final(self).program_brk == old(self).program_brk,
            syscall_id == SYSCALL_MUNMAP ==> munmap_effect(
                old(self).space,
                final(self).space,
                arg0,
                arg1,
                r,
            ) && final(self).mem == old(self).mem && final(self).program_brk == old(self).program_brk,
            syscall_id == SYSCALL_SBRK ==> sbrk_effect(
                old(self).heap_bottom,
                old(self).program_brk,
                final(self).program_brk,
                arg0 as i32,
                r,
            ) && final(self).space == old(self).space && final(self).mem == old(self).mem,
    {
        self.bump_counter(syscall_id);
        if syscall_id == SYSCALL_EXIT {
            self.sys_exit(#[verifier::truncate] (arg0 as i32));
            0
        } else if syscall_id == SYSCALL_YIELD {
            self.sys_yield()
        } else if syscall_id == SYSCALL_GET_TIME {
            self.sys_get_time(arg0, arg1, now_us)
        } else if syscall_id == SYSCALL_TASK_INFO {
            self.sys_task_info(arg0, now_ms)
        } else if syscall_id == SYSCALL_MMAP {
            self.sys_mmap(arg0, arg1, arg2)
        } else if syscall_id == SYSCALL_MUNMAP {
            self.sys_munmap(arg0, arg1)
        } else {
            self.sys_sbrk(#[verifier::truncate] (arg0 as i32))
        }
    }

    /// Read back the scalar a user pointer refers to, through a translation
    /// needing the Readable bit — what a user load of that address sees.
    pub fn read_user_scalar(&self, va: usize) -> (r: Option<usize>)
        requires
            self.wf(),
        ensures
            r == ({
                let t = self.space.spec_translate(va as int, PERM_R);
                if t.is_some() && self.mem.contents().contains_key(pa_val(t) as usize) {
                    Some(self.mem.contents()[pa_val(t) as usize])
                } else {
                    None::<usize>
                }
            }),
    {
        match self.space.translate(va, PERM_R) {
            None => None,
            Some(pa) => self.mem.read_scalar(pa),
        }
    }
}

/// Byte address of field `k` of a `task_info` record at `ti`.
fn ti_addr_exec(ti: usize, k: usize) -> (a: usize)
    requires
        k < TASK_INFO_FIELDS,
        ti <= usize::MAX - TASK_INFO_BYTES,
    ensures
        a as int == ti_field_addr(ti as int, k as int),
{
    if k == 0 {
        ti
    } else if k <= MAX_SYSCALL_NUM {
        ti + WORD_SIZE + 4 * (k - 1)
    } else {
        ti + WORD_SIZE + 4 * MAX_SYSCALL_NUM
    }
}

/// Rounding a byte address down and a byte length up to pages keeps their
/// page-number sum within a machine word.
pub proof fn lemma_vpn_sum_fits(start: usize, len: usize)
    requires
        len as int <= usize::MAX as int - (PAGE_SIZE - 1),
    ensures
        vpn_of(start) + page_count_of(len) <= usize::MAX as int,
        0 <= vpn_of(start),
        0 <= page_count_of(len),
{
    let ps = PAGE_SIZE as int;
    let sv = vpn_of(start);
    let np = page_count_of(len);
    vstd::arithmetic::div_mod::lemma_fundamental_div_mod(start as int, ps);
    vstd::arithmetic::div_mod::lemma_fundamental_div_mod(len as int + ps - 1, ps);
    assert(start as int % ps >= 0);
    assert((len as int + ps - 1) % ps >= 0);
    assert(ps * sv <= start as int);
    assert(ps * np <= len as int + ps - 1);
    assert(sv >= 0 && np >= 0) by {
        vstd::arithmetic::div_mod::lemma_div_is_ordered(0, start as int, ps);
        vstd::arithmetic::div_mod::lemma_div_is_ordered(0, len as int + ps - 1, ps);
    }
}

} // verus!

