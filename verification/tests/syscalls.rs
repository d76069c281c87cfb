use os_core::config::{
    MAX_SYSCALL_NUM, PAGE_SIZE, SYSCALL_EXIT, SYSCALL_GET_TIME, SYSCALL_MMAP, SYSCALL_TASK_INFO,
    SYSCALL_YIELD, WORD_SIZE,
};
use os_core::kernel::{Kernel, TaskStatus, TimeVal};

fn fresh_kernel() -> Kernel {
    // Break starts at 0x10000; frames 0..1024 back up to 4 MiB of mappings.
    Kernel::new(100, 0x10000, 0, 1024)
}

#[test]
fn mmap_one_page_rw() {
    let mut k = fresh_kernel();
    // Readable+Writable, page-aligned, one page: succeeds with one new area
    // at VPN 0x1000 / PAGE_SIZE carrying R/W/User permissions.
    assert_eq!(k.sys_mmap(0x1000, 4096, 0b011), 0);
    assert_eq!(k.space.areas.len(), 1);
    let area = &k.space.areas[0];
    assert_eq!(area.start_vpn, 0x1000 / PAGE_SIZE);
    assert_eq!(area.end_vpn, 0x1000 / PAGE_SIZE + 1);
    assert!(area.perm.readable());
    assert!(area.perm.writable());
    assert!(!area.perm.executable());
    assert!(area.perm.user_accessible());
    assert!(k.space.is_mapped(1));
}

#[test]
fn mmap_rejects_invalid_port() {
    let mut k = fresh_kernel();
    assert_eq!(k.sys_mmap(0x1000, 4096, 0), -1);
    assert_eq!(k.sys_mmap(0x1000, 4096, 0b1000), -1);
    assert_eq!(k.sys_mmap(0x1000, 4096, 0b1001), -1);
    assert_eq!(k.space.areas.len(), 0);
    assert!(!k.space.is_mapped(1));
}

#[test]
fn mmap_rejects_misaligned_start() {
    let mut k = fresh_kernel();
    assert_eq!(k.sys_mmap(0x1001, 4096, 0b011), -1);
    assert_eq!(k.space.areas.len(), 0);
}

#[test]
fn mmap_overlap_second_call_fails() {
    let mut k = fresh_kernel();
    assert_eq!(k.sys_mmap(0x1000, 2 * 4096, 0b011), 0);
    // The second range intersects the first at VPN 2.
    assert_eq!(k.sys_mmap(0x2000, 4096, 0b001), -1);
    assert_eq!(k.space.areas.len(), 1);
    assert!(k.space.is_mapped(1));
    assert!(k.space.is_mapped(2));
    let area = &k.space.areas[0];
    assert!(area.perm.writable());
}

#[test]
fn mmap_munmap_round_trip() {
    let mut k = fresh_kernel();
    assert_eq!(k.sys_mmap(0x1000, 2 * 4096, 0b011), 0);
    assert_eq!(k.sys_munmap(0x1000, 2 * 4096), 0);
    assert_eq!(k.space.areas.len(), 0);
    assert!(!k.space.is_mapped(1));
    assert!(!k.space.is_mapped(2));
    // The frames were released: the same range maps again.
    assert_eq!(k.sys_mmap(0x1000, 2 * 4096, 0b111), 0);
    assert_eq!(k.space.areas.len(), 1);
}

#[test]
fn munmap_spanning_two_areas() {
    let mut k = fresh_kernel();
    assert_eq!(k.sys_mmap(0x1000, 4096, 0b011), 0);
    assert_eq!(k.sys_mmap(0x2000, 4096, 0b001), 0);
    assert_eq!(k.space.areas.len(), 2);
    // One munmap may span several pre-existing areas.
    assert_eq!(k.sys_munmap(0x1000, 2 * 4096), 0);
    assert_eq!(k.space.areas.len(), 0);
}

#[test]
fn munmap_unmapped_page_fails() {
    let mut k = fresh_kernel();
    assert_eq!(k.sys_munmap(0x1000, 4096), -1);
    assert_eq!(k.sys_mmap(0x1000, 4096, 0b011), 0);
    // Second page of the range was never mapped: fail, mutate nothing.
    assert_eq!(k.sys_munmap(0x1000, 2 * 4096), -1);
    assert!(k.space.is_mapped(1));
    assert_eq!(k.space.areas.len(), 1);
}

#[test]
fn munmap_splits_partly_covered_area() {
    let mut k = fresh_kernel();
    assert_eq!(k.sys_mmap(0x1000, 3 * 4096, 0b011), 0);
    assert_eq!(k.sys_munmap(0x2000, 4096), 0);
    assert!(k.space.is_mapped(1));
    assert!(!k.space.is_mapped(2));
    assert!(k.space.is_mapped(3));
    assert_eq!(k.space.areas.len(), 2);
    // The remainders keep their permissions.
    for area in &k.space.areas {
        assert!(area.perm.readable());
        assert!(area.perm.writable());
        assert!(area.perm.user_accessible());
    }
}

#[test]
fn get_time_writes_sec_and_usec() {
    let mut k = fresh_kernel();
    assert_eq!(k.sys_mmap(0x1000, 4096, 0b011), 0);
    assert_eq!(k.sys_get_time(0x1000, 0, 1_234_567), 0);
    assert_eq!(k.read_user_scalar(0x1000), Some(1));
    assert_eq!(k.read_user_scalar(0x1000 + WORD_SIZE), Some(234_567));
}

#[test]
fn get_time_two_calls_non_decreasing() {
    let mut k = fresh_kernel();
    assert_eq!(k.sys_mmap(0x1000, 4096, 0b011), 0);
    assert_eq!(k.sys_get_time(0x1000, 0, 1_999_999), 0);
    let sec1 = k.read_user_scalar(0x1000).unwrap();
    let usec1 = k.read_user_scalar(0x1000 + WORD_SIZE).unwrap();
    assert_eq!(k.sys_get_time(0x1000, 0, 2_000_003), 0);
    let sec2 = k.read_user_scalar(0x1000).unwrap();
    let usec2 = k.read_user_scalar(0x1000 + WORD_SIZE).unwrap();
    assert_eq!((sec1, usec1), (1, 999_999));
    assert_eq!((sec2, usec2), (2, 3));
    assert!((sec1, usec1) <= (sec2, usec2));
}

#[test]
fn get_time_record_straddles_page_boundary() {
    let mut k = fresh_kernel();
    assert_eq!(k.sys_mmap(0x1000, 2 * 4096, 0b011), 0);
    // sec lands on the last word of the first page, usec on the first word
    // of the second: each field goes through its own translation.
    let ts = 0x2000 - WORD_SIZE;
    assert_eq!(k.sys_get_time(ts, 0, 7_000_042), 0);
    assert_eq!(k.read_user_scalar(ts), Some(7));
    assert_eq!(k.read_user_scalar(0x2000), Some(42));
}

#[test]
fn get_time_fails_without_full_mapping() {
    let mut k = fresh_kernel();
    // Nothing mapped at all.
    assert_eq!(k.sys_get_time(0x1000, 0, 5), -1);
    // Only the first of the two fields lies in a mapped page.
    assert_eq!(k.sys_mmap(0x1000, 4096, 0b011), 0);
    let ts = 0x2000 - WORD_SIZE;
    assert_eq!(k.sys_get_time(ts, 0, 5), -1);
    assert_eq!(k.read_user_scalar(ts), None);
    // A page mapped read-only is not writable by the syscall.
    let mut k2 = fresh_kernel();
    assert_eq!(k2.sys_mmap(0x1000, 4096, 0b001), 0);
    assert_eq!(k2.sys_get_time(0x1000, 0, 5), -1);
}

#[test]
fn time_val_split() {
    let tv = TimeVal::from_us(3_000_250);
    assert_eq!(tv.sec, 3);
    assert_eq!(tv.usec, 250);
}

#[test]
fn task_info_counts_every_syscall_including_itself() {
    let mut k = fresh_kernel();
    let (now_us, now_ms) = (5_000_000, 5_000);
    assert_eq!(k.syscall(SYSCALL_YIELD, 0, 0, 0, now_us, now_ms), 0);
    assert_eq!(k.syscall(SYSCALL_YIELD, 0, 0, 0, now_us, now_ms), 0);
    assert_eq!(k.syscall(SYSCALL_MMAP, 0x1000, 4096, 0b011, now_us, now_ms), 0);
    let ti = 0x1000;
    assert_eq!(k.syscall(SYSCALL_TASK_INFO, ti, 0, 0, now_us, now_ms), 0);
    // Status word: the caller always observes itself Running.
    assert_eq!(k.read_user_scalar(ti), Some(2));
    let counter = |k: &Kernel, id: usize| k.read_user_scalar(ti + WORD_SIZE + 4 * id).unwrap();
    assert_eq!(counter(&k, SYSCALL_YIELD), 2);
    assert_eq!(counter(&k, SYSCALL_MMAP), 1);
    // The task-info invocation itself was recorded before the write.
    assert!(counter(&k, SYSCALL_TASK_INFO) >= 1);
    assert_eq!(counter(&k, SYSCALL_TASK_INFO), 1);
    // Elapsed time: now_ms minus the start timestamp (100 in fresh_kernel).
    assert_eq!(k.read_user_scalar(ti + WORD_SIZE + 4 * MAX_SYSCALL_NUM), Some(4_900));
}

#[test]
fn task_info_fails_on_unmapped_record() {
    let mut k = fresh_kernel();
    assert_eq!(k.sys_task_info(0x1000, 200), -1);
    // A record crossing out of the mapped page fails before any write: the
    // page ends 4096 bytes in, but the record needs 2016 bytes from 0x1f80.
    assert_eq!(k.sys_mmap(0x1000, 4096, 0b011), 0);
    let ti = 0x2000 - 128;
    assert_eq!(k.sys_task_info(ti, 200), -1);
    assert_eq!(k.read_user_scalar(ti), None);
}

#[test]
fn task_info_snapshot_reports_running_and_elapsed() {
    let mut k = fresh_kernel();
    assert_eq!(k.syscall(SYSCALL_YIELD, 0, 0, 0, 0, 100), 0);
    let ti = k.task_info_snapshot(350);
    assert_eq!(ti.status, TaskStatus::Running);
    assert_eq!(ti.time, 250);
    assert_eq!(ti.syscall_times.len(), MAX_SYSCALL_NUM);
    assert_eq!(ti.syscall_times[SYSCALL_YIELD], 1);
    assert_eq!(ti.syscall_times[SYSCALL_GET_TIME], 0);
}

#[test]
fn sbrk_zero_reports_current_break() {
    let mut k = fresh_kernel();
    assert_eq!(k.sys_sbrk(0), 0x10000);
    assert_eq!(k.program_brk, 0x10000);
}

#[test]
fn sbrk_grow_then_shrink_restores_break() {
    let mut k = fresh_kernel();
    assert_eq!(k.sys_sbrk(4096), 0x10000);
    assert_eq!(k.program_brk, 0x11000);
    assert_eq!(k.sys_sbrk(-4096), 0x11000);
    assert_eq!(k.program_brk, 0x10000);
}

#[test]
fn sbrk_below_heap_bottom_fails() {
    let mut k = fresh_kernel();
    assert_eq!(k.sys_sbrk(-1), -1);
    assert_eq!(k.program_brk, 0x10000);
    assert_eq!(k.sys_sbrk(-4096), -1);
    assert_eq!(k.program_brk, 0x10000);
}

#[test]
fn exit_is_terminal_and_yield_returns_zero() {
    let mut k = fresh_kernel();
    assert_eq!(k.sys_yield(), 0);
    assert_eq!(k.status, TaskStatus::Running);
    assert_eq!(k.syscall(SYSCALL_EXIT, 7, 0, 0, 0, 0), 0);
    assert_eq!(k.status, TaskStatus::Exited);
}

#[test]
fn dispatcher_routes_get_time() {
    let mut k = fresh_kernel();
    assert_eq!(k.syscall(SYSCALL_MMAP, 0x1000, 4096, 0b011, 0, 0), 0);
    assert_eq!(k.syscall(SYSCALL_GET_TIME, 0x1000, 0, 0, 9_000_001, 9_000), 0);
    assert_eq!(k.read_user_scalar(0x1000), Some(9));
    assert_eq!(k.read_user_scalar(0x1000 + WORD_SIZE), Some(1));
}

#[test]
fn frames_are_recycled_after_munmap() {
    let mut k = fresh_kernel();
    assert_eq!(k.sys_mmap(0x1000, 4096, 0b011), 0);
    let frame = k.space.areas[0].frames[0];
    assert_eq!(k.sys_munmap(0x1000, 4096), 0);
    assert_eq!(k.sys_mmap(0x5000, 4096, 0b011), 0);
    assert_eq!(k.space.areas[0].frames[0], frame);
}
