//! A task's virtual address space: an ordered collection of non-overlapping
//! mapped areas, each a `[start_vpn, end_vpn)` half-open range of pages with
//! one permission set and one owned physical frame per page, together with
//! the frame allocator that backs it.
//!
//! The invariant of the collection is that no two areas ever share a virtual
//! page number; `mmap` and `munmap` preserve it and never leave a partial
//! mutation behind on failure.

use vstd::prelude::*;
use crate::config::PAGE_SIZE;
use crate::frame::FrameAllocator;
use crate::perm::MapPermission;

verus! {

/// One contiguous, permission-tagged range of mapped pages. `frames[k]`
/// backs virtual page `start_vpn + k`.
pub struct Area {
    pub start_vpn: usize,
    pub end_vpn: usize,
    pub perm: MapPermission,
    pub frames: Vec<usize>,
}

impl Area {
    pub open spec fn wf(self) -> bool {
        &&& self.start_vpn <= self.end_vpn
        &&& self.frames@.len() == self.end_vpn - self.start_vpn
        &&& self.perm.wf()
    }

    pub open spec fn holds_vpn(self, vpn: int) -> bool {
        self.start_vpn <= vpn < self.end_vpn
    }

    /// The two areas share no page. An area with an empty range holds no
    /// page at all, so it is disjoint from everything.
    pub open spec fn vpn_disjoint(self, other: Area) -> bool {
        ||| self.end_vpn <= other.start_vpn
        ||| other.end_vpn <= self.start_vpn
        ||| self.start_vpn == self.end_vpn
        ||| other.start_vpn == other.end_vpn
    }
}

/// Every area is well formed and no two areas share a page.
pub open spec fn areas_wf(areas: Seq<Area>) -> bool {
    &&& forall|i: int| 0 <= i < areas.len() ==> (#[trigger] areas[i]).wf()
    &&& forall|i: int, j: int|
        0 <= i < areas.len() && 0 <= j < areas.len() && i != j
            ==> (#[trigger] areas[i]).vpn_disjoint(#[trigger] areas[j])
}

/// Every frame number held by an area lies below `bound`.
pub open spec fn frames_within(areas: Seq<Area>, bound: int) -> bool {
    forall|i: int, k: int|
        0 <= i < areas.len() && 0 <= k < areas[i].frames@.len()
            ==> (#[trigger] areas[i].frames@[k]) < bound
}

/// Some area of the sequence holds the page `vpn`.
pub open spec fn seq_maps_vpn(areas: Seq<Area>, vpn: int) -> bool {
    exists|i: int| 0 <= i < areas.len() && (#[trigger] areas[i]).holds_vpn(vpn)
}

/// Index of the (unique, given `areas_wf`) area holding `vpn`.
pub open spec fn seq_index_for(areas: Seq<Area>, vpn: int) -> int {
    choose|i: int| 0 <= i < areas.len() && (#[trigger] areas[i]).holds_vpn(vpn)
}

/// Permission of the page `vpn` under `areas`.
pub open spec fn seq_perm_at(areas: Seq<Area>, vpn: int) -> MapPermission {
    areas[seq_index_for(areas, vpn)].perm
}

/// Physical frame backing the page `vpn` under `areas`.
pub open spec fn seq_frame_at(areas: Seq<Area>, vpn: int) -> int {
    let a = areas[seq_index_for(areas, vpn)];
    a.frames@[vpn - a.start_vpn] as int
}

/// With disjoint areas, any area holding `vpn` is the one `seq_index_for`
/// picks, so permission and frame lookups are determined.
pub proof fn lemma_index_for_is(areas: Seq<Area>, vpn: int, i: int)
    requires
        areas_wf(areas),
        0 <= i < areas.len(),
        areas[i].holds_vpn(vpn),
    ensures
        seq_maps_vpn(areas, vpn),
        seq_index_for(areas, vpn) == i,
        seq_perm_at(areas, vpn) == areas[i].perm,
        seq_frame_at(areas, vpn) == areas[i].frames@[vpn - areas[i].start_vpn],
{
    assert(seq_maps_vpn(areas, vpn));
    let j = seq_index_for(areas, vpn);
    if j != i {
        assert(areas[i].vpn_disjoint(areas[j]));
    }
}

/// Instantiates the well-formedness of one area of a well-formed sequence.
pub proof fn lemma_areas_wf_at(areas: Seq<Area>, i: int)
    requires
        areas_wf(areas),
        0 <= i < areas.len(),
    ensures
        areas[i].wf(),
{
    assert(areas[i].wf());
}

/// Instantiates the disjointness of two areas of a well-formed sequence.
pub proof fn lemma_areas_wf_pair(areas: Seq<Area>, i: int, j: int)
    requires
        areas_wf(areas),
        0 <= i < areas.len(),
        0 <= j < areas.len(),
        i != j,
    ensures
        areas[i].vpn_disjoint(areas[j]),
{
    assert(areas[i].vpn_disjoint(areas[j]));
}

/// A sub-range of a page range shares no page with whatever the whole range
/// shares no page with.
pub proof fn lemma_part_disjoint(x: Area, whole: Area, part: Area)
    requires
        x.vpn_disjoint(whole),
        whole.start_vpn <= part.start_vpn,
        part.end_vpn <= whole.end_vpn,
        whole.start_vpn < whole.end_vpn,
    ensures
        x.vpn_disjoint(part),
        part.vpn_disjoint(x),
{
}

/// No area of `xs` shares a page with an area of `ys`.
pub open spec fn areas_cross_disjoint(xs: Seq<Area>, ys: Seq<Area>) -> bool {
    forall|i: int, j: int|
        0 <= i < xs.len() && 0 <= j < ys.len()
            ==> (#[trigger] xs[i]).vpn_disjoint(#[trigger] ys[j])
}

/// Instantiates the disjointness of one pair across two sequences.
pub proof fn lemma_cross_pair(xs: Seq<Area>, ys: Seq<Area>, i: int, j: int)
    requires
        areas_cross_disjoint(xs, ys),
        0 <= i < xs.len(),
        0 <= j < ys.len(),
    ensures
        xs[i].vpn_disjoint(ys[j]),
{
    assert(xs[i].vpn_disjoint(ys[j]));
}

/// One step of rebuilding an area list while unmapping `[s, e)`: moving an
/// area the range does not touch from the unprocessed list to the kept list
/// preserves the rebuild invariants.
pub proof fn lemma_keep_whole(
    kept_pre: Seq<Area>,
    kept_post: Seq<Area>,
    rem_pre: Seq<Area>,
    rem_post: Seq<Area>,
    orig: AddressSpace,
    ga: Area,
    ridx: int,
    s: int,
    e: int,
)
    requires
        orig.wf(),
        kept_post == kept_pre.push(ga),
        0 <= ridx < orig.areas@.len(),
        ga == orig.areas@[ridx],
        rem_pre == rem_post.push(ga),
        rem_post == orig.areas@.subrange(0, ridx),
        ridx == rem_post.len(),
        areas_wf(kept_pre),
        areas_cross_disjoint(kept_pre, rem_pre),
        frames_within(kept_pre, orig.allocator.end as int),
        forall|w: int|
            #[trigger] seq_maps_vpn(kept_pre, w) == (orig.vpn_mapped(w) && !seq_maps_vpn(
                rem_pre,
                w,
            ) && !(s <= w < e)),
        forall|w: int|
            #[trigger] seq_maps_vpn(kept_pre, w) ==> seq_perm_at(kept_pre, w) == orig.vpn_perm(w),
        ga.end_vpn <= s || e <= ga.start_vpn || ga.start_vpn == ga.end_vpn,
    ensures
        areas_wf(kept_post),
        areas_cross_disjoint(kept_post, rem_post),
        frames_within(kept_post, orig.allocator.end as int),
        forall|w: int|
            #[trigger] seq_maps_vpn(kept_post, w) == (orig.vpn_mapped(w) && !seq_maps_vpn(
                rem_post,
                w,
            ) && !(s <= w < e)),
        forall|w: int|
            #[trigger] seq_maps_vpn(kept_post, w) ==> seq_perm_at(kept_post, w) == orig.vpn_perm(
                w,
            ),
{
    lemma_areas_wf_at(orig.areas@, ridx);
    assert forall|i: int, j: int|
        0 <= i < kept_post.len() && 0 <= j < kept_post.len() && i != j implies (
    #[trigger] kept_post[i]).vpn_disjoint(#[trigger] kept_post[j]) by {
        let n0 = kept_pre.len() as int;
        if i < n0 && j < n0 {
            lemma_areas_wf_pair(kept_pre, i, j);
        } else if i < n0 {
            lemma_cross_pair(kept_pre, rem_pre, i, ridx);
            assert(rem_pre[ridx] == ga);
            assert(kept_post[j] == ga);
        } else if j < n0 {
            lemma_cross_pair(kept_pre, rem_pre, j, ridx);
            assert(rem_pre[ridx] == ga);
            assert(kept_post[i] == ga);
        }
    }
    assert forall|i: int| 0 <= i < kept_post.len() implies (#[trigger] kept_post[i]).wf() by {
        if i < kept_pre.len() {
            lemma_areas_wf_at(kept_pre, i);
        }
    }
    assert(areas_wf(kept_post));
    assert forall|i: int, j: int|
        0 <= i < kept_post.len() && 0 <= j < rem_post.len() implies (
    #[trigger] kept_post[i]).vpn_disjoint(#[trigger] rem_post[j]) by {
        if i < kept_pre.len() {
            lemma_cross_pair(kept_pre, rem_pre, i, j);
            assert(rem_pre[j] == rem_post[j]);
        } else {
            assert(kept_post[i] == ga);
            assert(rem_post[j] == orig.areas@[j]);
            lemma_areas_wf_pair(orig.areas@, ridx, j);
        }
    }
    assert(areas_cross_disjoint(kept_post, rem_post));
    assert forall|i: int, kk: int|
        0 <= i < kept_post.len() && 0 <= kk < kept_post[i].frames@.len() implies (
    #[trigger] kept_post[i].frames@[kk]) < orig.allocator.end as int by {
        if i < kept_pre.len() {
            assert(kept_pre[i].frames@[kk] < orig.allocator.end as int);
        } else {
            assert(kept_post[i] == ga);
            assert(orig.areas@[ridx].frames@[kk] < orig.allocator.end as int);
        }
    }
    assert(frames_within(kept_post, orig.allocator.end as int));
    assert forall|w: int| #[trigger] seq_maps_vpn(kept_post, w) == (orig.vpn_mapped(w)
        && !seq_maps_vpn(rem_post, w) && !(s <= w < e)) by {
        lemma_maps_vpn_push(kept_pre, ga, w);
        lemma_maps_vpn_push(rem_post, ga, w);
        if ga.holds_vpn(w) {
            lemma_index_for_is(orig.areas@, w, ridx);
            if seq_maps_vpn(rem_post, w) {
                let j = seq_index_for(rem_post, w);
                assert(rem_post[j].holds_vpn(w));
                assert(rem_post[j] == orig.areas@[j]);
                lemma_areas_wf_pair(orig.areas@, j, ridx);
            }
        }
    }
    assert forall|w: int| #[trigger] seq_maps_vpn(kept_post, w) implies seq_perm_at(kept_post, w)
        == orig.vpn_perm(w) by {
        let i = seq_index_for(kept_post, w);
        assert(kept_post[i].holds_vpn(w));
        lemma_index_for_is(kept_post, w, i);
        if i < kept_pre.len() {
            lemma_index_for_is(kept_pre, w, i);
            assert(seq_maps_vpn(kept_pre, w));
        } else {
            assert(kept_post[i] == ga);
            lemma_index_for_is(orig.areas@, w, ridx);
        }
    }
}

/// Appending an area extends the mapped set by exactly that area's pages.
pub proof fn lemma_maps_vpn_push(areas: Seq<Area>, a: Area, v: int)
    ensures
        seq_maps_vpn(areas.push(a), v) == (seq_maps_vpn(areas, v) || a.holds_vpn(v)),
{
    let post = areas.push(a);
    if seq_maps_vpn(post, v) {
        let i = seq_index_for(post, v);
        if i < areas.len() {
            assert(areas[i].holds_vpn(v));
        }
    }
    if seq_maps_vpn(areas, v) {
        let i = seq_index_for(areas, v);
        assert(post[i].holds_vpn(v));
    }
    if a.holds_vpn(v) {
        assert(post[areas.len() as int].holds_vpn(v));
    }
}

/// A task's address space.
pub struct AddressSpace {
    pub areas: Vec<Area>,
    pub allocator: FrameAllocator,
}

impl AddressSpace {
    pub open spec fn wf(self) -> bool {
        &&& areas_wf(self.areas@)
        &&& self.allocator.wf()
        &&& frames_within(self.areas@, self.allocator.end as int)
    }

    pub open spec fn vpn_mapped(self, vpn: int) -> bool {
        seq_maps_vpn(self.areas@, vpn)
    }

    pub open spec fn vpn_perm(self, vpn: int) -> MapPermission {
        seq_perm_at(self.areas@, vpn)
    }

    /// No page of `[s, e)` is mapped.
    pub open spec fn range_free(self, s: int, e: int) -> bool {
        forall|v: int| s <= v < e ==> !(#[trigger] self.vpn_mapped(v))
    }

    /// Every page of `[s, e)` is mapped.
    pub open spec fn range_mapped(self, s: int, e: int) -> bool {
        forall|v: int| s <= v < e ==> #[trigger] self.vpn_mapped(v)
    }

    /// An empty address space drawing frames from `[frame_start, frame_end)`.
    pub fn new(frame_start: usize, frame_end: usize) -> (s: AddressSpace)
        requires
            frame_start <= frame_end,
            frame_end <= usize::MAX / PAGE_SIZE,
        ensures
            s.wf(),
            s.areas@ == Seq::<Area>::empty(),
            forall|v: int| !(#[trigger] s.vpn_mapped(v)),
            s.allocator.next == frame_start,
            s.allocator.end == frame_end,
            s.allocator.available() == frame_end - frame_start,
    {
        let s = AddressSpace {
            areas: Vec::new(),
            allocator: FrameAllocator::new(frame_start, frame_end),
        };
        s
    }

    /// Index of the area holding `vpn`, if any.
    pub fn find_area(&self, vpn: usize) -> (r: Option<usize>)
        requires
            self.wf(),
        ensures
            match r {
                Some(i) => i < self.areas@.len() && self.areas@[i as int].holds_vpn(
                    vpn as int,
                ) && self.vpn_mapped(vpn as int),
                None => !self.vpn_mapped(vpn as int),
            },
    {
        let n = self.areas.len();
        let mut i: usize = 0;
        while i < n
            invariant
                n == self.areas@.len(),
                i <= n,
                self.wf(),
                forall|j: int| 0 <= j < i ==> !(#[trigger] self.areas@[j]).holds_vpn(vpn as int),
            decreases n - i,
        {
            let a = &self.areas[i];
            if a.start_vpn <= vpn && vpn < a.end_vpn {
                return Some(i);
            }
            i = i + 1;
        }
        None
    }

    /// Whether the page `vpn` is currently mapped.
    pub fn is_mapped(&self, vpn: usize) -> (r: bool)
        requires
            self.wf(),
        ensures
            r == self.vpn_mapped(vpn as int),
    {
        self.find_area(vpn).is_some()
    }

    /// Map `[start_vpn, end_vpn)` with permission `perm`, one fresh frame per
    /// page. Fails — mutating nothing — if any page of the range is already
    /// mapped or the allocator cannot supply enough frames; a mapping is
    /// never partially applied.
    pub fn mmap(&mut self, start_vpn: usize, end_vpn: usize, perm: MapPermission) -> (r: bool)
        requires
            old(self).wf(),
            start_vpn <= end_vpn,
            perm.wf(),
        ensures
            final(self).wf(),
            r == (old(self).range_free(start_vpn as int, end_vpn as int)
                && end_vpn - start_vpn <= old(self).allocator.available()),
            !r ==> *final(self) == *old(self),
            r ==> {
                &&& final(self).areas@.len() == old(self).areas@.len() + 1
                &&& forall|i: int|
                    0 <= i < old(self).areas@.len()
                        ==> final(self).areas@[i] == old(self).areas@[i]
                &&& final(self).areas@.last().start_vpn == start_vpn
                &&& final(self).areas@.last().end_vpn == end_vpn
                &&& final(self).areas@.last().perm == perm
                &&& final(self).allocator.end == old(self).allocator.end
                &&& final(self).allocator.available() == old(self).allocator.available() - (
                end_vpn - start_vpn)
            },
            r ==> forall|v: int|
                start_vpn <= v < end_vpn ==> #[trigger] final(self).vpn_mapped(v),
            r ==> forall|v: int|
                start_vpn <= v < end_vpn ==> #[trigger] final(self).vpn_perm(v) == perm,
            r ==> forall|v: int|
                !(start_vpn <= v < end_vpn)
                    ==> #[trigger] final(self).vpn_mapped(v) == old(self).vpn_mapped(v),
            r ==> forall|v: int|
                !(start_vpn <= v < end_vpn) && old(self).vpn_mapped(v)
                    ==> #[trigger] final(self).vpn_perm(v) == old(self).vpn_perm(v),
    {
        let pages = end_vpn - start_vpn;
        // Phase 1: the whole range must be free.
        let mut v = start_vpn;
        while v < end_vpn
            invariant
                start_vpn <= v <= end_vpn,
                *self == *old(self),
                self.wf(),
                forall|w: int| start_vpn <= w < v ==> !(#[trigger] self.vpn_mapped(w)),
            decreases end_vpn - v,
        {
            if self.is_mapped(v) {
                return false;
            }
            v = v + 1;
        }
        // Phase 2: enough frames must be available.
        let headroom = self.allocator.end - self.allocator.next;
        if pages > headroom {
            let extra = pages - headroom;
            if extra > self.allocator.recycled.len() {
                return false;
            }
        }
        assert(pages <= self.allocator.available());
        // Phase 3: allocate one frame per page, then insert the area.
        let ghost orig = *self;
        let mut got: Vec<usize> = Vec::new();
        while got.len() < pages
            invariant
                got@.len() <= pages,
                self.areas@ == orig.areas@,
                self.allocator.wf(),
                self.allocator.end == orig.allocator.end,
                self.allocator.available() == orig.allocator.available() - got@.len(),
                forall|k: int| 0 <= k < got@.len() ==> (#[trigger] got@[k]) < self.allocator.end,
                pages <= orig.allocator.available(),
            decreases pages - got.len(),
        {
            let f = self.allocator.allocate().unwrap();
            got.push(f);
        }
        let area = Area { start_vpn, end_vpn, perm, frames: got };
        assert(area.wf());
        proof {
            // The new area overlaps no existing one: its range was free.
            assert forall|i: int| 0 <= i < self.areas@.len() implies (#[trigger] self.areas@[
                i
            ]).vpn_disjoint(area) by {
                let a = self.areas@[i];
                if !a.vpn_disjoint(area) {
                    let w = if start_vpn as int >= a.start_vpn as int {
                        start_vpn as int
                    } else {
                        a.start_vpn as int
                    };
                    assert(a.holds_vpn(w));
                    lemma_index_for_is(self.areas@, w, i);
                    assert(old(self).vpn_mapped(w));
                }
            }
        }
        self.areas.push(area);
        proof {
            let pre = old(self).areas@;
            let post = self.areas@;
            let n = pre.len() as int;
            assert(post == pre.push(area));
            assert forall|i: int|
                0 <= i < post.len() && 0 <= post.len() - 1 && i != post.len()
                    - 1 implies (#[trigger] post[i]).vpn_disjoint(post[post.len() - 1]) by {
                assert(post[i] == pre[i]);
            }
            assert(areas_wf(post));
            assert forall|v: int| start_vpn <= v < end_vpn implies #[trigger] self.vpn_mapped(v)
                && self.vpn_perm(v) == perm by {
                assert(post[n].holds_vpn(v));
                lemma_index_for_is(post, v, n);
            }
            assert forall|v: int| !(start_vpn <= v < end_vpn) implies #[trigger] self.vpn_mapped(
                v,
            ) == old(self).vpn_mapped(v) by {
                if old(self).vpn_mapped(v) {
                    let i = seq_index_for(pre, v);
                    assert(pre[i].holds_vpn(v));
                    assert(post[i].holds_vpn(v));
                }
                if self.vpn_mapped(v) {
                    let i = seq_index_for(post, v);
                    assert(post[i].holds_vpn(v));
                    assert(i != n);
                    assert(pre[i].holds_vpn(v));
                }
            }
            assert forall|v: int|
                !(start_vpn <= v < end_vpn) && old(self).vpn_mapped(
                    v,
                ) implies #[trigger] self.vpn_perm(v) == old(self).vpn_perm(v) by {
                let i = seq_index_for(pre, v);
                assert(pre[i].holds_vpn(v));
                lemma_index_for_is(pre, v, i);
                assert(post[i].holds_vpn(v));
                lemma_index_for_is(post, v, i);
            }
        }
        true
    }

    /// Unmap every page of `[start_vpn, end_vpn)` and release its frame. The
    /// range may span several areas and may cover an area only partly, in
    /// which case the remainder of that area stays mapped. Fails — mutating
    /// nothing — if any page of the range is currently unmapped.
    pub fn munmap(&mut self, start_vpn: usize, end_vpn: usize) -> (r: bool)
        requires
            old(self).wf(),
            start_vpn <= end_vpn,
        ensures
            final(self).wf(),
            r == old(self).range_mapped(start_vpn as int, end_vpn as int),
            !r ==> *final(self) == *old(self),
            r ==> final(self).allocator.end == old(self).allocator.end,
            r ==> forall|v: int|
                #[trigger] final(self).vpn_mapped(v) == (old(self).vpn_mapped(v) && !(
                start_vpn <= v < end_vpn)),
            r ==> forall|v: int|
                #[trigger] final(self).vpn_mapped(v) ==> final(self).vpn_perm(v) == old(
                    self,
                ).vpn_perm(v),
    {
        // Phase 1: every page of the range must be mapped.
        let mut v = start_vpn;
        while v < end_vpn
            invariant
                start_vpn <= v <= end_vpn,
                *self == *old(self),
                self.wf(),
                forall|w: int| start_vpn <= w < v ==> #[trigger] self.vpn_mapped(w),
            decreases end_vpn - v,
        {
            if !self.is_mapped(v) {
                return false;
            }
            v = v + 1;
        }
        assert(old(self).range_mapped(start_vpn as int, end_vpn as int));
        // Phase 2: rebuild the area list, splitting areas the range cuts and
        // releasing the frames of every page it covers.
        let ghost orig = *self;
        proof {
            assert(self.areas@ =~= orig.areas@.subrange(0, self.areas@.len() as int));
        }
        let mut kept: Vec<Area> = Vec::new();
        while self.areas.len() > 0
            invariant
                start_vpn <= end_vpn,
                orig.wf(),
                self.allocator.wf(),
                self.allocator.end == orig.allocator.end,
                self.areas@.len() <= orig.areas@.len(),
                self.areas@ == orig.areas@.subrange(0, self.areas@.len() as int),
                areas_wf(kept@),
                areas_cross_disjoint(kept@, self.areas@),
                frames_within(kept@, orig.allocator.end as int),
                forall|w: int|
                    #[trigger] seq_maps_vpn(kept@, w) == (orig.vpn_mapped(w) && !seq_maps_vpn(
                        self.areas@,
                        w,
                    ) && !(start_vpn <= w < end_vpn)),
                forall|w: int|
                    #[trigger] seq_maps_vpn(kept@, w) ==> seq_perm_at(kept@, w)
                        == orig.vpn_perm(w),
            decreases self.areas.len(),
        {
            let ghost rem_pre = self.areas@;
            let ghost ridx = rem_pre.len() - 1;
            let a = self.areas.pop().unwrap();
            let ghost ga = a;
            proof {
                assert(rem_pre[ridx] == orig.areas@[ridx]);
                assert(ga == orig.areas@[ridx]);
                lemma_areas_wf_at(orig.areas@, ridx);
                assert(ga.wf());
                assert(self.areas@ =~= orig.areas@.subrange(0, self.areas@.len() as int)) by {
                    assert forall|t: int| 0 <= t < self.areas@.len() implies self.areas@[t]
                        == orig.areas@[t] by {
                        assert(self.areas@[t] == rem_pre[t]);
                    }
                }
                assert(rem_pre =~= self.areas@.push(ga));
                assert forall|j: int| 0 <= j < self.areas@.len() implies (#[trigger] self.areas@[
                    j
                ]).vpn_disjoint(ga) by {
                    lemma_areas_wf_pair(orig.areas@, j, ridx);
                    assert(self.areas@[j] == orig.areas@[j]);
                }
            }
            if a.end_vpn <= start_vpn || end_vpn <= a.start_vpn || a.start_vpn == a.end_vpn {
                // Untouched by the range (or empty): keep it whole.
                let ghost kept_pre = kept@;
                kept.push(a);
                proof {
                    lemma_keep_whole(
                        kept_pre,
                        kept@,
                        rem_pre,
                        self.areas@,
                        orig,
                        ga,
                        ridx,
                        start_vpn as int,
                        end_vpn as int,
                    );
                }
            } else {
                // The range cuts this area: keep what lies outside
                // `[start_vpn, end_vpn)`, release the frames inside it.
                let lo = if start_vpn > a.start_vpn {
                    start_vpn
                } else {
                    a.start_vpn
                };
                let hi = if end_vpn < a.end_vpn {
                    end_vpn
                } else {
                    a.end_vpn
                };
                assert(a.start_vpn <= lo && lo <= hi && hi <= a.end_vpn);
                let mut left_frames: Vec<usize> = Vec::new();
                let mut k: usize = 0;
                while k < lo - a.start_vpn
                    invariant
                        a.wf(),
                        a.start_vpn <= lo <= a.end_vpn,
                        k <= lo - a.start_vpn,
                        left_frames@ == a.frames@.subrange(0, k as int),
                    decreases lo - a.start_vpn - k,
                {
                    left_frames.push(a.frames[k]);
                    proof {
                        assert(left_frames@ =~= a.frames@.subrange(0, k + 1));
                    }
                    k = k + 1;
                }
                let mut right_frames: Vec<usize> = Vec::new();
                let mut k2: usize = hi - a.start_vpn;
                while k2 < a.frames.len()
                    invariant
                        a.wf(),
                        a.start_vpn <= hi <= a.end_vpn,
                        hi - a.start_vpn <= k2 <= a.frames@.len(),
                        right_frames@ == a.frames@.subrange(hi - a.start_vpn, k2 as int),
                    decreases a.frames@.len() - k2,
                {
                    right_frames.push(a.frames[k2]);
                    proof {
                        assert(right_frames@ =~= a.frames@.subrange(hi - a.start_vpn, k2 + 1));
                    }
                    k2 = k2 + 1;
                }
                let ghost rem_now = self.areas@;
                let ghost kept_now = kept@;
                let mut m: usize = lo - a.start_vpn;
                while m < hi - a.start_vpn
                    invariant
                        orig.wf(),
                        a.wf(),
                        ga == a,
                        0 <= ridx < orig.areas@.len(),
                        ga == orig.areas@[ridx],
                        a.start_vpn <= lo <= hi <= a.end_vpn,
                        lo - a.start_vpn <= m <= hi - a.start_vpn,
                        self.allocator.wf(),
                        self.allocator.end == orig.allocator.end,
                        self.areas@ == rem_now,
                        kept@ == kept_now,
                    decreases hi - a.start_vpn - m,
                {
                    proof {
                        assert(orig.areas@[ridx].frames@[m as int] < orig.allocator.end);
                    }
                    self.allocator.dealloc(a.frames[m]);
                    m = m + 1;
                }
                let ghost kept_pre = kept@;
                let ghost left_part = Area {
                    start_vpn: a.start_vpn,
                    end_vpn: lo,
                    perm: a.perm,
                    frames: left_frames,
                };
                let ghost right_part = Area {
                    start_vpn: hi,
                    end_vpn: a.end_vpn,
                    perm: a.perm,
                    frames: right_frames,
                };
                let pushed_left = a.start_vpn < lo;
                let pushed_right = hi < a.end_vpn;
                if pushed_left {
                    let part = Area {
                        start_vpn: a.start_vpn,
                        end_vpn: lo,
                        perm: a.perm,
                        frames: left_frames,
                    };
                    kept.push(part);
                }
                if pushed_right {
                    let part = Area {
                        start_vpn: hi,
                        end_vpn: a.end_vpn,
                        perm: a.perm,
                        frames: right_frames,
                    };
                    kept.push(part);
                }
                proof {
                    let parts: Seq<Area> = if pushed_left && pushed_right {
                        kept_pre.push(left_part).push(right_part)
                    } else if pushed_left {
                        kept_pre.push(left_part)
                    } else if pushed_right {
                        kept_pre.push(right_part)
                    } else {
                        kept_pre
                    };
                    assert(kept@ == parts);
                    assert(left_part.wf());
                    assert(right_part.wf());
                    // Pairwise disjointness of the new kept list.
                    assert forall|i: int, j: int|
                        0 <= i < kept@.len() && 0 <= j < kept@.len() && i != j implies (
                        #[trigger] kept@[i]).vpn_disjoint(#[trigger] kept@[j]) by {
                        let n0 = kept_pre.len() as int;
                        if i < n0 && j < n0 {
                            lemma_areas_wf_pair(kept_pre, i, j);
                        } else if i < n0 {
                            lemma_cross_pair(kept_pre, rem_pre, i, ridx);
                            lemma_part_disjoint(kept_pre[i], ga, left_part);
                            lemma_part_disjoint(kept_pre[i], ga, right_part);
                        } else if j < n0 {
                            lemma_cross_pair(kept_pre, rem_pre, j, ridx);
                            lemma_part_disjoint(kept_pre[j], ga, left_part);
                            lemma_part_disjoint(kept_pre[j], ga, right_part);
                        }
                    }
                    assert forall|i: int| 0 <= i < kept@.len() implies (#[trigger] kept@[
                        i
                    ]).wf() by {
                        if i < kept_pre.len() {
                            lemma_areas_wf_at(kept_pre, i);
                        }
                    }
                    assert(areas_wf(kept@));
                    // Disjoint from every remaining area.
                    assert forall|i: int, j: int|
                        0 <= i < kept@.len() && 0 <= j < self.areas@.len() implies (
                        #[trigger] kept@[i]).vpn_disjoint(#[trigger] self.areas@[j]) by {
                        let n0 = kept_pre.len() as int;
                        if i < n0 {
                            lemma_cross_pair(kept_pre, rem_pre, i, j);
                            assert(rem_pre[j] == self.areas@[j]);
                        } else {
                            lemma_areas_wf_pair(orig.areas@, j, ridx);
                            assert(self.areas@[j] == orig.areas@[j]);
                            lemma_part_disjoint(self.areas@[j], ga, left_part);
                            lemma_part_disjoint(self.areas@[j], ga, right_part);
                        }
                    }
                    assert(areas_cross_disjoint(kept@, self.areas@));
                    // Frame numbers stay in range.
                    assert forall|i: int, kk: int|
                        0 <= i < kept@.len() && 0 <= kk < kept@[i].frames@.len() implies (
                        #[trigger] kept@[i].frames@[kk]) < orig.allocator.end as int by {
                        if i < kept_pre.len() {
                            assert(kept_pre[i].frames@[kk] < orig.allocator.end as int);
                        } else {
                            assert(kept@[i] == left_part || kept@[i] == right_part);
                            if kept@[i] == left_part {
                                assert(left_part.frames@[kk] == ga.frames@[kk]);
                            } else {
                                assert(right_part.frames@[kk] == ga.frames@[kk + hi
                                    - a.start_vpn]);
                            }
                            assert(orig.areas@[ridx].frames@.len() == ga.frames@.len());
                        }
                    }
                    assert(frames_within(kept@, orig.allocator.end as int));
                    // The pages the parts hold are exactly ga's pages outside
                    // the range being unmapped.
                    assert forall|w: int| #[trigger] seq_maps_vpn(kept@, w) == (orig.vpn_mapped(w)
                        && !seq_maps_vpn(self.areas@, w) && !(start_vpn <= w < end_vpn)) by {
                        if pushed_left {
                            lemma_maps_vpn_push(kept_pre, left_part, w);
                        }
                        if pushed_right {
                            let base = if pushed_left {
                                kept_pre.push(left_part)
                            } else {
                                kept_pre
                            };
                            lemma_maps_vpn_push(base, right_part, w);
                        }
                        lemma_maps_vpn_push(self.areas@, ga, w);
                        assert(left_part.holds_vpn(w) || right_part.holds_vpn(w) <==> (
                        ga.holds_vpn(w) && !(start_vpn <= w < end_vpn)));
                        if ga.holds_vpn(w) {
                            lemma_index_for_is(orig.areas@, w, ridx);
                            if seq_maps_vpn(self.areas@, w) {
                                let j = seq_index_for(self.areas@, w);
                                assert(self.areas@[j].holds_vpn(w));
                                assert(self.areas@[j] == orig.areas@[j]);
                                lemma_areas_wf_pair(orig.areas@, j, ridx);
                            }
                        }
                    }
                    // Permissions of kept pages are unchanged.
                    assert forall|w: int| #[trigger] seq_maps_vpn(kept@, w) implies seq_perm_at(
                        kept@,
                        w,
                    ) == orig.vpn_perm(w) by {
                        let i = seq_index_for(kept@, w);
                        assert(kept@[i].holds_vpn(w));
                        lemma_index_for_is(kept@, w, i);
                        if i < kept_pre.len() {
                            lemma_index_for_is(kept_pre, w, i);
                            assert(seq_maps_vpn(kept_pre, w));
                        } else {
                            assert(kept@[i] == left_part || kept@[i] == right_part);
                            assert(ga.holds_vpn(w));
                            lemma_index_for_is(orig.areas@, w, ridx);
                        }
                    }
                }
            }
        }
        proof {
            assert(self.areas@.len() == 0);
            assert forall|w: int| !seq_maps_vpn(self.areas@, w) by {
                if seq_maps_vpn(self.areas@, w) {
                    let j = seq_index_for(self.areas@, w);
                }
            }
        }
        self.areas = kept;
        true
    }

    /// The page-table translation of the byte address `va`, provided its page
    /// carries all the permission bits in `need`: the byte address inside the
    /// backing physical frame. A single aligned scalar never straddles a page
    /// boundary, so one translation per scalar suffices; an unmapped page, or
    /// one without the needed access, is a reportable failure, never a crash.
    pub open spec fn spec_translate(self, va: int, need: u8) -> Option<int> {
        let vpn = va / (PAGE_SIZE as int);
        if seq_maps_vpn(self.areas@, vpn) && seq_perm_at(self.areas@, vpn).bits & need == need {
            Some(seq_frame_at(self.areas@, vpn) * (PAGE_SIZE as int) + va % (PAGE_SIZE as int))
        } else {
            None
        }
    }

    /// Resolve `va` for an access needing the permission bits `need`.
    pub fn translate(&self, va: usize, need: u8) -> (r: Option<usize>)
        requires
            self.wf(),
        ensures
            match r {
                Some(pa) => self.spec_translate(va as int, need) == Some(pa as int),
                None => self.spec_translate(va as int, need).is_none(),
            },
    {
        let vpn = va / PAGE_SIZE;
        match self.find_area(vpn) {
            None => None,
            Some(i) => {
                proof {
                    lemma_index_for_is(self.areas@, vpn as int, i as int);
                }
                let a = &self.areas[i];
                if a.perm.bits & need == need {
                    let f = a.frames[vpn - a.start_vpn];
                    proof {
                        assert(f < self.allocator.end);
                        lemma_frame_offset_fits(f as int, self.allocator.end as int, (va % PAGE_SIZE) as int);
                    }
                    Some(f * PAGE_SIZE + va % PAGE_SIZE)
                } else {
                    None
                }
            },
        }
    }
}

/// A frame number below `usize::MAX / PAGE_SIZE` leaves room for any in-page
/// offset: `f * PAGE_SIZE + off` fits in a machine word.
pub proof fn lemma_frame_offset_fits(f: int, bound: int, off: int)
    requires
        0 <= f < bound,
        bound <= usize::MAX as int / PAGE_SIZE as int,
        0 <= off < PAGE_SIZE as int,
    ensures
        0 <= f * (PAGE_SIZE as int) + off <= usize::MAX as int,
{
    let ps = PAGE_SIZE as int;
    let q = usize::MAX as int / ps;
    assert(usize::MAX as int == ps * q + usize::MAX as int % ps) by {
        vstd::arithmetic::div_mod::lemma_fundamental_div_mod(usize::MAX as int, ps);
    }
    assert(f * ps + off <= usize::MAX as int) by (nonlinear_arith)
        requires
            0 <= f,
            f <= q - 1,
            0 <= off < ps,
            usize::MAX as int >= ps * q,
            ps > 0,
    ;
    assert(f * ps >= 0) by (nonlinear_arith)
        requires
            0 <= f,
            ps > 0,
    ;
}

} // verus!
