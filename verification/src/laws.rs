//! Laws relating the syscalls to one another: round trips, rejection of
//! invalid or conflicting requests, and monotonicity of what `get_time`
//! reports. Each law is stated over the effect predicates the syscalls
//! ensure, so it holds of any pair of calls those contracts describe.

use vstd::prelude::*;
use crate::config::{MAX_SYSCALL_NUM, SYSCALL_TASK_INFO, USEC_PER_SEC};
use crate::kernel::{
    bumped, mmap_accepts, mmap_effect, munmap_accepts, munmap_effect, page_count_of, sbrk_effect,
    ti_field_val, time_sec, time_usec, vpn_of,
};
use crate::perm::{perm_for_port, port_valid};
use crate::space::AddressSpace;

verus! {

/// A successful `mmap` followed by `munmap` of the same `start` and `len`
/// succeeds and leaves the address space mapping exactly as before: the same
/// pages mapped, each with its old permissions.
pub proof fn lemma_mmap_munmap_round_trip(
    s0: AddressSpace,
    s1: AddressSpace,
    s2: AddressSpace,
    start: usize,
    len: usize,
    port: usize,
    r2: isize,
)
    requires
        mmap_effect(s0, s1, start, len, port, 0),
        munmap_effect(s1, s2, start, len, r2),
    ensures
        r2 == 0,
        forall|v: int| #[trigger] s2.vpn_mapped(v) == s0.vpn_mapped(v),
        forall|v: int| #[trigger] s2.vpn_mapped(v) ==> s2.vpn_perm(v) == s0.vpn_perm(v),
{
    let s = vpn_of(start);
    let e = vpn_of(start) + page_count_of(len);
    assert(mmap_accepts(s0, start, len, port));
    assert forall|v: int| s <= v < e implies #[trigger] s1.vpn_mapped(v) by {}
    assert(s1.range_mapped(s, e));
    assert(munmap_accepts(s1, start, len));
    assert(r2 == 0);
    assert forall|v: int| #[trigger] s2.vpn_mapped(v) == s0.vpn_mapped(v) by {
        if s <= v < e {
            assert(!s0.vpn_mapped(v));
        }
    }
    assert forall|v: int| #[trigger] s2.vpn_mapped(v) implies s2.vpn_perm(v) == s0.vpn_perm(
        v,
    ) by {
        assert(!(s <= v < e));
        assert(s1.vpn_mapped(v));
    }
}

/// An `mmap` whose `port` is invalid — no access bit, or any bit at or above
/// bit 3 — returns -1 and creates no mapping.
pub proof fn lemma_mmap_invalid_port(
    s0: AddressSpace,
    s1: AddressSpace,
    start: usize,
    len: usize,
    port: usize,
    r: isize,
)
    requires
        mmap_effect(s0, s1, start, len, port, r),
        !port_valid(port),
    ensures
        r == -1,
        s1 == s0,
{
}

/// A second `mmap` whose page range intersects an existing mapping — here
/// witnessed by the shared page `v` — returns -1 and leaves the first
/// mapping intact, permissions included.
pub proof fn lemma_mmap_overlap_rejected(
    s0: AddressSpace,
    s1: AddressSpace,
    s2: AddressSpace,
    start1: usize,
    len1: usize,
    port1: usize,
    start2: usize,
    len2: usize,
    port2: usize,
    r2: isize,
    v: int,
)
    requires
        mmap_effect(s0, s1, start1, len1, port1, 0),
        mmap_effect(s1, s2, start2, len2, port2, r2),
        vpn_of(start1) <= v < vpn_of(start1) + page_count_of(len1),
        vpn_of(start2) <= v < vpn_of(start2) + page_count_of(len2),
    ensures
        r2 == -1,
        s2 == s1,
        forall|w: int|
            vpn_of(start1) <= w < vpn_of(start1) + page_count_of(len1)
                ==> #[trigger] s2.vpn_mapped(w) && s2.vpn_perm(w) == perm_for_port(port1),
{
    assert(s1.vpn_mapped(v));
    if r2 == 0 {
        assert(mmap_accepts(s1, start2, len2, port2));
        assert(!s1.vpn_mapped(v));
    }
}

/// A `munmap` whose range includes a currently unmapped page — witnessed by
/// `v` — returns -1 and leaves every existing mapping intact.
pub proof fn lemma_munmap_unmapped_page(
    s0: AddressSpace,
    s1: AddressSpace,
    start: usize,
    len: usize,
    r: isize,
    v: int,
)
    requires
        munmap_effect(s0, s1, start, len, r),
        vpn_of(start) <= v < vpn_of(start) + page_count_of(len),
        !s0.vpn_mapped(v),
    ensures
        r == -1,
        s1 == s0,
{
    if r == 0 {
        assert(munmap_accepts(s0, start, len));
        assert(s0.vpn_mapped(v));
    }
}

/// Two clock readings in order split into non-decreasing `(sec, usec)`
/// pairs: what two successive `get_time` calls write never goes backwards.
pub proof fn lemma_get_time_monotonic(n1: usize, n2: usize)
    requires
        n1 <= n2,
    ensures
        time_sec(n1) < time_sec(n2) || (time_sec(n1) == time_sec(n2) && time_usec(n1)
            <= time_usec(n2)),
{
    let d = USEC_PER_SEC as int;
    vstd::arithmetic::div_mod::lemma_div_is_ordered(n1 as int, n2 as int, d);
    if time_sec(n1) == time_sec(n2) {
        vstd::arithmetic::div_mod::lemma_fundamental_div_mod(n1 as int, d);
        vstd::arithmetic::div_mod::lemma_fundamental_div_mod(n2 as int, d);
    }
}

/// Two successive `get_time` calls on the same record, fed readings of the
/// monotonic clock in order, both succeed once the first did, and the
/// `(sec, usec)` pairs they write never go backwards.
pub proof fn lemma_get_time_successive(
    space: AddressSpace,
    m0: Map<usize, usize>,
    m1: Map<usize, usize>,
    m2: Map<usize, usize>,
    ts: usize,
    n1: usize,
    n2: usize,
    r2: isize,
)
    requires
        crate::kernel::get_time_effect(space, m0, m1, ts, n1, 0),
        crate::kernel::get_time_effect(space, m1, m2, ts, n2, r2),
        n1 <= n2,
    ensures
        r2 == 0,
        time_sec(n1) < time_sec(n2) || (time_sec(n1) == time_sec(n2) && time_usec(n1)
            <= time_usec(n2)),
{
    lemma_get_time_monotonic(n1, n2);
}

/// The dispatch entry path records a `task_info` invocation before the
/// syscall writes the snapshot, so the counter value written for the
/// task-info syscall number is at least one.
pub proof fn lemma_task_info_counts_itself(times: Seq<u32>, elapsed: int)
    requires
        times.len() == MAX_SYSCALL_NUM,
    ensures
        ti_field_val(
            bumped(times, SYSCALL_TASK_INFO as int),
            elapsed,
            SYSCALL_TASK_INFO as int + 1,
        ) >= 1,
{
}

/// `sbrk(0)` reports the current break and moves nothing.
pub proof fn lemma_sbrk_zero(heap_bottom: usize, brk0: usize, brk1: usize, r: isize)
    requires
        sbrk_effect(heap_bottom, brk0, brk1, 0, r),
        heap_bottom <= brk0,
        brk0 as int <= isize::MAX as int,
    ensures
        r as int == brk0 as int,
        brk1 == brk0,
{
}

/// Growing the break and then shrinking it by the same amount succeeds and
/// restores the original break.
pub proof fn lemma_sbrk_round_trip(
    heap_bottom: usize,
    brk0: usize,
    brk1: usize,
    brk2: usize,
    delta: i32,
    neg_delta: i32,
    r1: isize,
    r2: isize,
)
    requires
        delta >= 0,
        neg_delta as int == -(delta as int),
        heap_bottom <= brk0,
        brk0 as int <= isize::MAX as int,
        sbrk_effect(heap_bottom, brk0, brk1, delta, r1),
        r1 != -1,
        sbrk_effect(heap_bottom, brk1, brk2, neg_delta, r2),
    ensures
        r2 != -1,
        r2 as int == brk1 as int,
        brk2 == brk0,
{
}

} // verus!
