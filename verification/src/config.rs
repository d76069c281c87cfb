//! Compile-time constants shared by the mapper, the translator and the
//! syscall dispatch surface.

use vstd::prelude::*;

verus! {

/// Size in bytes of one virtual or physical page.
pub const PAGE_SIZE: usize = 4096;

/// Size in bytes of one machine word (the scalar written by `get_time` and
/// for the status and time fields of `task_info`).
pub const WORD_SIZE: usize = 8;

/// Number of entries in a task's per-syscall invocation counter array.
pub const MAX_SYSCALL_NUM: usize = 500;

/// Microseconds per second, used to split a raw clock reading.
pub const USEC_PER_SEC: usize = 1_000_000;

pub const SYSCALL_EXIT: usize = 93;
pub const SYSCALL_YIELD: usize = 124;
pub const SYSCALL_GET_TIME: usize = 169;
pub const SYSCALL_SBRK: usize = 214;
pub const SYSCALL_MUNMAP: usize = 215;
pub const SYSCALL_MMAP: usize = 222;
pub const SYSCALL_TASK_INFO: usize = 410;

/// Number of scalar fields a `task_info` call writes through the translator:
/// one word-sized status tag, one 32-bit counter per syscall number, and one
/// word-sized elapsed-time field.
pub const TASK_INFO_FIELDS: usize = MAX_SYSCALL_NUM + 2;

/// Size in bytes of the user-space record `task_info` fills: the status word,
/// the counter array, and the elapsed-time word (the counter array's byte
/// length is already word-aligned, so no padding is needed).
pub const TASK_INFO_BYTES: usize = WORD_SIZE + 4 * MAX_SYSCALL_NUM + WORD_SIZE;

} // verus!
