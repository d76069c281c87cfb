//! Verified model of the syscall-facing layer of a small single-core kernel.
//!
//! The library covers the state a running task can observe or mutate through
//! its syscalls: a page-granular address space with permission-tagged areas
//! backed by physical frames, a per-scalar page-table translator, a physical
//! memory store, task telemetry (status, per-syscall counters, elapsed time),
//! and the syscall dispatch surface itself (`exit`, `yield`, `get_time`,
//! `task_info`, `mmap`, `munmap`, `sbrk`).
//!
//! The scheduler, trap entry, timer hardware and console are external
//! collaborators: callers feed in monotonic clock readings and drive the
//! dispatch loop; the library performs and verifies every decision.

pub mod config;
pub mod perm;
pub mod frame;
pub mod space;
pub mod phys;
pub mod kernel;
pub mod laws;
