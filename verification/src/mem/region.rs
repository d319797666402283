//! Physical address ranges and coalesced sets of them.
//!
//! A [`MemoryRegions`] value keeps its ranges sorted by address and strictly
//! apart: no two of them overlap or touch. Such a sequence is determined by the
//! set of addresses it covers, so the contracts below speak of that set.

use vstd::prelude::*;

verus! {

/// A half-open range `[start, end)` of physical addresses.
#[derive(Clone, Copy, Debug, PartialEq, Eq, Structural)]
pub struct MemoryRegion {
    pub start: u64,
    pub end: u64,
}

impl MemoryRegion {
    /// Whether `addr` lies in the region.
    pub open spec fn holds(self, addr: int) -> bool {
        self.start <= addr < self.end
    }

    /// The addresses of the region, as a set.
    pub open spec fn addrs(self) -> Set<int> {
        Set::new(|a: int| self.holds(a))
    }

    /// Whether the region spans `other` from its first to its last address.
    pub open spec fn encloses(self, other: MemoryRegion) -> bool {
        self.start <= other.start && other.end <= self.end
    }

    /// Whether the two regions share an address.
    pub open spec fn intersects(self, other: MemoryRegion) -> bool {
        self.start < other.end && other.start < self.end
    }

    /// Whether the two regions share an address or lie end to end.
    pub open spec fn touches(self, other: MemoryRegion) -> bool {
        self.start <= other.end && other.start <= self.end
    }

    /// Number of bytes in the region.
    pub fn size(&self) -> (n: u64)
        requires
            self.start <= self.end,
        ensures
            n == self.end - self.start,
    {
        self.end - self.start
    }

    /// Tells whether the two regions have at least one address in common.
    pub fn overlaps(&self, other: &MemoryRegion) -> (b: bool)
        ensures
            b == self.intersects(*other),
    {
        self.start < other.end && other.start < self.end
    }

    /// Tells whether `other` lies wholly inside this region.
    pub fn contains(&self, other: &MemoryRegion) -> (b: bool)
        ensures
            b == self.encloses(*other),
    {
        self.start <= other.start && self.end >= other.end
    }
}

/// Whether some region of `s` holds `addr`.
pub open spec fn seq_holds(s: Seq<MemoryRegion>, addr: int) -> bool {
    exists|i: int| 0 <= i < s.len() && #[trigger] s[i].holds(addr)
}

/// Whether some region of `s` spans `region`.
pub open spec fn seq_encloses(s: Seq<MemoryRegion>, region: MemoryRegion) -> bool {
    exists|i: int| 0 <= i < s.len() && (#[trigger] s[i]).encloses(region)
}

/// Whether `region` starts where a region of `s` starts.
pub open spec fn starts_a_region(s: Seq<MemoryRegion>, region: MemoryRegion) -> bool {
    exists|i: int| 0 <= i < s.len() && (#[trigger] s[i]).start == region.start
}

/// The set of addresses that the regions of `s` hold.
pub open spec fn covered(s: Seq<MemoryRegion>) -> Set<int> {
    Set::new(|a: int| seq_holds(s, a))
}

/// The regions are non-empty, in ascending order, and no two of them overlap
/// or lie end to end.
pub open spec fn coalesced(s: Seq<MemoryRegion>) -> bool {
    &&& forall|i: int| 0 <= i < s.len() ==> (#[trigger] s[i]).start < s[i].end
    &&& forall|i: int, j: int|
        0 <= i < j < s.len() ==> (#[trigger] s[i]).end < (#[trigger] s[j]).start
}

/// Sum of the sizes of the regions of `s`.
pub open spec fn total_size(s: Seq<MemoryRegion>) -> int
    decreases s.len(),
{
    if s.len() == 0 {
        0
    } else {
        total_size(s.drop_last()) + (s.last().end - s.last().start)
    }
}

/// Index of the first region of `s` that is at least `size` bytes long, or
/// `s.len()` when there is none.
pub open spec fn first_fit(s: Seq<MemoryRegion>, size: int) -> int
    decreases s.len(),
{
    if s.len() == 0 {
        0
    } else if s[0].end - s[0].start >= size {
        0
    } else {
        1 + first_fit(s.subrange(1, s.len() as int), size)
    }
}

/// What one pass of [`MemoryRegions::add`] keeps true of address `a`: the
/// regions written so far, with the range still pending, cover what the
/// regions read so far and the new region cover.
spec fn add_covers(
    out: Seq<MemoryRegion>,
    pending: bool,
    lo: u64,
    hi: u64,
    seen: Seq<MemoryRegion>,
    region: MemoryRegion,
    a: int,
) -> bool {
    (seq_holds(out, a) || (pending && lo <= a < hi)) <==> (seq_holds(seen, a) || region.holds(a))
}

/// What one pass of [`MemoryRegions::cut`] keeps true of address `a`.
spec fn cut_covers(
    out: Seq<MemoryRegion>,
    seen: Seq<MemoryRegion>,
    region: MemoryRegion,
    a: int,
) -> bool {
    seq_holds(out, a) <==> (seq_holds(seen, a) && !region.holds(a))
}

/// A set of physical addresses, kept as sorted ranges that never overlap or
/// touch.
#[derive(Debug)]
pub struct MemoryRegions {
    regions: Vec<MemoryRegion>,
}

impl View for MemoryRegions {
    type V = Seq<MemoryRegion>;

    closed spec fn view(&self) -> Seq<MemoryRegion> {
        self.regions@
    }
}

impl MemoryRegions {
    /// The representation invariant: the ranges are coalesced.
    pub open spec fn wf(&self) -> bool {
        coalesced(self@)
    }

    /// The addresses in the set.
    pub open spec fn covered(&self) -> Set<int> {
        covered(self@)
    }

    /// Number of bytes in the set.
    pub open spec fn total(&self) -> int {
        total_size(self@)
    }

    /// Whether one range of the set spans `region`.
    pub open spec fn encloses(&self, region: MemoryRegion) -> bool {
        seq_encloses(self@, region)
    }

    /// The empty set.
    pub fn new() -> (s: MemoryRegions)
        ensures
            s@ == Seq::<MemoryRegion>::empty(),
            s.wf(),
    {
        MemoryRegions { regions: Vec::new() }
    }

    /// Number of ranges.
    pub fn len(&self) -> (n: usize)
        ensures
            n == self@.len(),
    {
        self.regions.len()
    }

    /// Whether the set holds no address.
    pub fn is_empty(&self) -> (b: bool)
        ensures
            b == (self@.len() == 0),
    {
        self.regions.len() == 0
    }

    /// The `i`-th range in ascending address order.
    pub fn get(&self, i: usize) -> (r: MemoryRegion)
        requires
            i < self@.len(),
        ensures
            r == self@[i as int],
    {
        self.regions[i]
    }

    /// The ranges in ascending address order.
    pub fn regions(&self) -> (v: &Vec<MemoryRegion>)
        ensures
            v@ == self@,
    {
        &self.regions
    }

    /// Adds the addresses of `region` to the set. Ranges that the new one
    /// overlaps or touches are merged with it into one; a region without
    /// addresses changes nothing.
    pub fn add(&mut self, region: MemoryRegion)
        requires
            old(self).wf(),
        ensures
            final(self).wf(),
            final(self).covered() == old(self).covered().union(region.addrs()),
            final(self)@.len() <= old(self)@.len() + 1,
    {
        if region.start >= region.end {
            assert(self.covered().union(region.addrs()) =~= self.covered());
            return ;
        }
        let ghost before = self@;
        let n = self.regions.len();
        let mut out: Vec<MemoryRegion> = Vec::new();
        let mut lo: u64 = region.start;
        let mut hi: u64 = region.end;
        let mut pending = true;
        let mut i: usize = 0;
        assert forall|a: int| #[trigger]
            add_covers(out@, pending, lo, hi, before.take(0), region, a) by {}
        while i < n
            invariant
                0 <= i <= n,
                n == before.len(),
                self@ == before,
                coalesced(before),
                coalesced(out@),
                lo < hi,
                lo <= region.start,
                region.end <= hi,
                out@.len() + (if pending { 1int } else { 0int }) <= i + 1,
                pending ==> forall|k: int| 0 <= k < out@.len() ==> (#[trigger] out@[k]).end < lo,
                forall|k: int, j: int|
                    0 <= k < out@.len() && i <= j < n ==> (#[trigger] out@[k]).end < (
                    #[trigger] before[j]).start,
                forall|a: int| #[trigger]
                    add_covers(out@, pending, lo, hi, before.take(i as int), region, a),
            decreases n - i,
        {
            let r = self.regions[i];
            let ghost out0 = out@;
            let ghost lo0 = lo;
            let ghost hi0 = hi;
            let ghost pending0 = pending;
            assert(r == before[i as int]);
            assert(r.start < r.end);
            if !pending || r.end < lo {
                out.push(r);
                assert forall|a: int| #[trigger]
                    add_covers(out@, pending, lo, hi, before.take(i + 1), region, a) by {
                    assert(add_covers(out0, pending0, lo0, hi0, before.take(i as int), region, a));
                    lemma_holds_push(out0, r, a);
                    lemma_holds_take(before, i as int, a);
                }
            } else if r.start > hi {
                let merged = MemoryRegion { start: lo, end: hi };
                out.push(merged);
                out.push(r);
                pending = false;
                assert forall|a: int| #[trigger]
                    add_covers(out@, pending, lo, hi, before.take(i + 1), region, a) by {
                    assert(add_covers(out0, pending0, lo0, hi0, before.take(i as int), region, a));
                    lemma_holds_push(out0, merged, a);
                    lemma_holds_push(out0.push(merged), r, a);
                    lemma_holds_take(before, i as int, a);
                }
            } else {
                if r.start < lo {
                    lo = r.start;
                }
                if r.end > hi {
                    hi = r.end;
                }
                assert forall|a: int| #[trigger]
                    add_covers(out@, pending, lo, hi, before.take(i + 1), region, a) by {
                    assert(add_covers(out0, pending0, lo0, hi0, before.take(i as int), region, a));
                    lemma_holds_take(before, i as int, a);
                }
            }
            i += 1;
        }
        let ghost out1 = out@;
        if pending {
            out.push(MemoryRegion { start: lo, end: hi });
        }
        self.regions = out;
        assert(before.take(n as int) =~= before);
        assert forall|a: int|
            covered(self@).contains(a) == covered(before).union(region.addrs()).contains(a) by {
            assert(add_covers(out1, pending, lo, hi, before, region, a));
            if pending {
                lemma_holds_push(out1, MemoryRegion { start: lo, end: hi }, a);
            }
        }
        assert(covered(self@) =~= covered(before).union(region.addrs()));
    }

    /// Index of the range that spans `region`, if there is one.
    pub fn find_containing(&self, region: MemoryRegion) -> (found: Option<usize>)
        ensures
            found is Some <==> self.encloses(region),
            found matches Some(k) ==> k < self@.len() && self@[k as int].encloses(region)
                && forall|j: int| 0 <= j < k ==> !(#[trigger] self@[j]).encloses(region),
    {
        let mut i: usize = 0;
        while i < self.regions.len()
            invariant
                0 <= i <= self@.len(),
                forall|j: int| 0 <= j < i ==> !(#[trigger] self@[j]).encloses(region),
            decreases self@.len() - i,
        {
            if self.regions[i].contains(&region) {
                return Some(i);
            }
            i += 1;
        }
        None
    }

    /// Tells whether one range of the set spans `region`.
    pub fn contains(&self, region: MemoryRegion) -> (b: bool)
        ensures
            b == self.encloses(region),
    {
        self.find_containing(region).is_some()
    }

    /// Takes the addresses of `region` out of the set, provided that one range
    /// spans it; what is left of that range on either side stays. Without such
    /// a range the set is left as it was and the call fails.
    pub fn cut(&mut self, region: MemoryRegion) -> (res: Result<(), ()>)
        requires
            old(self).wf(),
        ensures
            final(self).wf(),
            res is Ok <==> old(self).encloses(region),
            res is Err ==> final(self)@ == old(self)@,
            res is Ok ==> final(self).covered() == old(self).covered().difference(region.addrs()),
            res is Ok && region.start <= region.end ==> final(self).total() == old(self).total() - (
            region.end - region.start),
            final(self)@.len() <= old(self)@.len() + 1,
            starts_a_region(old(self)@, region) ==> final(self)@.len() <= old(self)@.len(),
    {
        let found = self.find_containing(region);
        let k = match found {
            Some(k) => k,
            None => { return Err(()); },
        };
        if region.start >= region.end {
            assert(self.covered().difference(region.addrs()) =~= self.covered());
            return Ok(());
        }
        let ghost before = self@;
        let n = self.regions.len();
        let mut out: Vec<MemoryRegion> = Vec::new();
        let mut i: usize = 0;
        assert forall|a: int| #[trigger] cut_covers(out@, before.take(0), region, a) by {}
        while i < n
            invariant
                0 <= i <= n,
                0 <= k < n,
                n == before.len(),
                self@ == before,
                coalesced(before),
                coalesced(out@),
                before[k as int].encloses(region),
                region.start < region.end,
                forall|m: int, j: int|
                    0 <= m < out@.len() && i <= j < n ==> (#[trigger] out@[m]).end < (
                    #[trigger] before[j]).start,
                forall|a: int| #[trigger] cut_covers(out@, before.take(i as int), region, a),
                out@.len() <= i + (if i > k { 1int } else { 0int }),
                i > k && before[k as int].start == region.start ==> out@.len() <= i,
                total_size(out@) == total_size(before.take(i as int)) - (if i > k {
                    region.end - region.start
                } else {
                    0
                }),
            decreases n - i,
        {
            let r = self.regions[i];
            let ghost out0 = out@;
            assert(r == before[i as int]);
            assert(r.start < r.end);
            proof {
                lemma_total_take(before, i as int);
            }
            if i == k {
                let lower = MemoryRegion { start: r.start, end: region.start };
                let upper = MemoryRegion { start: region.end, end: r.end };
                if lower.size() > 0 {
                    out.push(lower);
                    proof {
                        lemma_total_push(out0, lower);
                    }
                }
                let ghost out1 = out@;
                if upper.size() > 0 {
                    out.push(upper);
                    proof {
                        lemma_total_push(out1, upper);
                    }
                }
                assert forall|a: int| #[trigger]
                    cut_covers(out@, before.take(i + 1), region, a) by {
                    assert(cut_covers(out0, before.take(i as int), region, a));
                    lemma_holds_take(before, i as int, a);
                    lemma_holds_push(out0, lower, a);
                    lemma_holds_push(out1, upper, a);
                    if seq_holds(before.take(i as int), a) {
                        let j = choose|j: int|
                            0 <= j < before.take(i as int).len() && #[trigger] before.take(
                                i as int,
                            )[j].holds(a);
                        assert(before[j].holds(a));
                        assert(before[j].end < before[k as int].start);
                    }
                }
            } else {
                out.push(r);
                proof {
                    lemma_total_push(out0, r);
                    if i < k {
                        assert(before[i as int].end < before[k as int].start);
                    } else {
                        assert(before[k as int].end < before[i as int].start);
                    }
                }
                assert forall|a: int| #[trigger]
                    cut_covers(out@, before.take(i + 1), region, a) by {
                    assert(cut_covers(out0, before.take(i as int), region, a));
                    lemma_holds_take(before, i as int, a);
                    lemma_holds_push(out0, r, a);
                }
            }
            i += 1;
        }
        self.regions = out;
        assert(before.take(n as int) =~= before);
        proof {
            if starts_a_region(before, region) {
                let j = choose|j: int|
                    0 <= j < before.len() && (#[trigger] before[j]).start == region.start;
                if j < k {
                    assert(before[j].end < before[k as int].start);
                } else if j > k {
                    assert(before[k as int].end < before[j].start);
                }
            }
        }
        assert forall|a: int|
            covered(self@).contains(a) == covered(before).difference(region.addrs()).contains(
                a,
            ) by {
            assert(cut_covers(self@, before, region, a));
        }
        assert(covered(self@) =~= covered(before).difference(region.addrs()));
        Ok(())
    }

    /// The first range, in ascending address order, that is at least `size`
    /// bytes long.
    pub fn find_with_page_size(&self, size: u64) -> (found: Option<MemoryRegion>)
        requires
            self.wf(),
        ensures
            found is Some <==> first_fit(self@, size as int) < self@.len(),
            found matches Some(r) ==> r == self@[first_fit(self@, size as int)],
    {
        proof {
            lemma_first_fit(self@, size as int);
        }
        let mut i: usize = 0;
        while i < self.regions.len()
            invariant
                0 <= i <= self@.len(),
                self.wf(),
                i <= first_fit(self@, size as int) <= self@.len(),
                first_fit(self@, size as int) < self@.len() ==> self@[first_fit(
                    self@,
                    size as int,
                )].end - self@[first_fit(self@, size as int)].start >= size,
                forall|j: int|
                    0 <= j < first_fit(self@, size as int) ==> (#[trigger] self@[j]).end
                        - self@[j].start < size,
            decreases self@.len() - i,
        {
            let r = self.regions[i];
            if r.size() >= size {
                return Some(r);
            }
            i += 1;
        }
        None
    }
}

/// A sequence with one more region holds what the sequence held and what
/// the region holds.
pub proof fn lemma_holds_push(s: Seq<MemoryRegion>, r: MemoryRegion, a: int)
    ensures
        seq_holds(s.push(r), a) <==> (seq_holds(s, a) || r.holds(a)),
{
    let t = s.push(r);
    if seq_holds(s, a) {
        let i = choose|i: int| 0 <= i < s.len() && #[trigger] s[i].holds(a);
        assert(t[i].holds(a));
    }
    if r.holds(a) {
        assert(t[s.len() as int].holds(a));
    }
    if seq_holds(t, a) {
        let i = choose|i: int| 0 <= i < t.len() && #[trigger] t[i].holds(a);
        if i < s.len() {
            assert(s[i].holds(a));
        }
    }
}

/// The first `i + 1` regions hold what the first `i` hold and what region
/// `i` holds.
pub proof fn lemma_holds_take(s: Seq<MemoryRegion>, i: int, a: int)
    requires
        0 <= i < s.len(),
    ensures
        seq_holds(s.take(i + 1), a) <==> (seq_holds(s.take(i), a) || s[i].holds(a)),
{
    assert(s.take(i + 1) =~= s.take(i).push(s[i]));
    lemma_holds_push(s.take(i), s[i], a);
}

/// One more region adds its size to the total.
pub proof fn lemma_total_push(s: Seq<MemoryRegion>, r: MemoryRegion)
    ensures
        total_size(s.push(r)) == total_size(s) + (r.end - r.start),
{
    assert(s.push(r).drop_last() =~= s);
}

/// The total of the first `i + 1` regions is that of the first `i` and the
/// size of region `i`.
pub proof fn lemma_total_take(s: Seq<MemoryRegion>, i: int)
    requires
        0 <= i < s.len(),
    ensures
        total_size(s.take(i + 1)) == total_size(s.take(i)) + (s[i].end - s[i].start),
{
    assert(s.take(i + 1) =~= s.take(i).push(s[i]));
    lemma_total_push(s.take(i), s[i]);
}

/// Every region of a coalesced sequence is at most as long as the whole.
pub proof fn lemma_total_bounds_each(s: Seq<MemoryRegion>, k: int)
    requires
        coalesced(s),
        0 <= k < s.len(),
    ensures
        s[k].end - s[k].start <= total_size(s),
        0 <= total_size(s),
    decreases s.len(),
{
    lemma_total_nonneg(s.drop_last());
    if k < s.len() - 1 {
        lemma_total_bounds_each(s.drop_last(), k);
    }
}

/// The total size of a coalesced sequence is not negative.
pub proof fn lemma_total_nonneg(s: Seq<MemoryRegion>)
    requires
        coalesced(s),
    ensures
        0 <= total_size(s),
    decreases s.len(),
{
    if s.len() > 0 {
        lemma_total_nonneg(s.drop_last());
    }
}

/// `first_fit` returns the least index of a region that is long enough.
pub proof fn lemma_first_fit(s: Seq<MemoryRegion>, size: int)
    ensures
        0 <= first_fit(s, size) <= s.len(),
        first_fit(s, size) < s.len() ==> s[first_fit(s, size)].end - s[first_fit(
            s,
            size,
        )].start >= size,
        forall|j: int| 0 <= j < first_fit(s, size) ==> (#[trigger] s[j]).end - s[j].start < size,
    decreases s.len(),
{
    if s.len() > 0 && s[0].end - s[0].start < size {
        let t = s.subrange(1, s.len() as int);
        lemma_first_fit(t, size);
        assert forall|j: int| 0 <= j < first_fit(s, size) implies (#[trigger] s[j]).end
            - s[j].start < size by {
            if j > 0 {
                assert(s[j] == t[j - 1]);
            }
        }
    }
}

/// A coalesced sequence is determined by the addresses it covers.
pub proof fn lemma_coalesced_unique(s: Seq<MemoryRegion>, t: Seq<MemoryRegion>)
    requires
        coalesced(s),
        coalesced(t),
        covered(s) == covered(t),
    ensures
        s == t,
    decreases s.len(),
{
    assert forall|a: int| seq_holds(s, a) == seq_holds(t, a) by {
        assert(covered(s).contains(a) == seq_holds(s, a));
        assert(covered(t).contains(a) == seq_holds(t, a));
    }
    if s.len() == 0 {
        if t.len() > 0 {
            assert(t[0].holds(t[0].start as int));
            assert(seq_holds(t, t[0].start as int));
        }
        assert(s =~= t);
    } else if t.len() == 0 {
        assert(s[0].holds(s[0].start as int));
        assert(seq_holds(s, s[0].start as int));
    } else {
        lemma_first_start(s, t);
        lemma_first_start(t, s);
        lemma_first_end(s, t);
        lemma_first_end(t, s);
        assert(s[0] == t[0]);
        let s1 = s.subrange(1, s.len() as int);
        let t1 = t.subrange(1, t.len() as int);
        assert forall|a: int| seq_holds(s1, a) == seq_holds(t1, a) by {
            lemma_holds_tail(s, a);
            lemma_holds_tail(t, a);
        }
        assert(covered(s1) =~= covered(t1));
        lemma_coalesced_unique(s1, t1);
        assert(s =~= seq![s[0]] + s1);
        assert(t =~= seq![t[0]] + t1);
    }
}

/// Of two coalesced sequences that hold the same addresses, the second
/// starts no higher than the first.
proof fn lemma_first_start(s: Seq<MemoryRegion>, t: Seq<MemoryRegion>)
    requires
        coalesced(s),
        coalesced(t),
        s.len() > 0,
        t.len() > 0,
        forall|a: int| seq_holds(s, a) == seq_holds(t, a),
    ensures
        t[0].start <= s[0].start,
{
    let a = s[0].start as int;
    assert(s[0].holds(a));
    assert(seq_holds(t, a));
    let j = choose|j: int| 0 <= j < t.len() && #[trigger] t[j].holds(a);
    if j > 0 {
        assert(t[0].end < t[j].start);
    }
}

/// Of two coalesced sequences that hold the same addresses and start
/// together, the first region of the second ends no higher than that of the
/// first.
proof fn lemma_first_end(s: Seq<MemoryRegion>, t: Seq<MemoryRegion>)
    requires
        coalesced(s),
        coalesced(t),
        s.len() > 0,
        t.len() > 0,
        s[0].start == t[0].start,
        forall|a: int| seq_holds(s, a) == seq_holds(t, a),
    ensures
        t[0].end <= s[0].end,
{
    if s[0].end < t[0].end {
        let a = s[0].end as int;
        assert(t[0].holds(a));
        assert(seq_holds(s, a));
        let i = choose|i: int| 0 <= i < s.len() && #[trigger] s[i].holds(a);
        if i > 0 {
            assert(s[0].end < s[i].start);
        }
    }
}

/// Without its first region a coalesced sequence is coalesced, and holds
/// what it held outside that region.
proof fn lemma_holds_tail(s: Seq<MemoryRegion>, a: int)
    requires
        coalesced(s),
        s.len() > 0,
    ensures
        coalesced(s.subrange(1, s.len() as int)),
        seq_holds(s.subrange(1, s.len() as int), a) <==> (seq_holds(s, a) && !s[0].holds(a)),
{
    let t = s.subrange(1, s.len() as int);
    assert forall|i: int, j: int| 0 <= i < j < t.len() implies (#[trigger] t[i]).end < (
    #[trigger] t[j]).start by {
        assert(s[i + 1].end < s[j + 1].start);
    }
    assert forall|i: int| 0 <= i < t.len() implies (#[trigger] t[i]).start < t[i].end by {
        assert(s[i + 1].start < s[i + 1].end);
    }
    if seq_holds(t, a) {
        let i = choose|i: int| 0 <= i < t.len() && #[trigger] t[i].holds(a);
        assert(s[i + 1].holds(a));
        assert(s[0].end < s[i + 1].start);
    }
    if seq_holds(s, a) && !s[0].holds(a) {
        let i = choose|i: int| 0 <= i < s.len() && #[trigger] s[i].holds(a);
        assert(t[i - 1].holds(a));
    }
}

/// The order in which two regions are added does not matter: both orders
/// leave the same ranges.
pub proof fn law_add_commutes(
    base: Seq<MemoryRegion>,
    first: MemoryRegion,
    second: MemoryRegion,
    one_way: Seq<MemoryRegion>,
    other_way: Seq<MemoryRegion>,
)
    requires
        coalesced(one_way),
        coalesced(other_way),
        covered(one_way) == covered(base).union(first.addrs()).union(second.addrs()),
        covered(other_way) == covered(base).union(second.addrs()).union(first.addrs()),
    ensures
        one_way == other_way,
{
    assert(covered(one_way) =~= covered(other_way));
    lemma_coalesced_unique(one_way, other_way);
}

/// Two regions that lie end to end, added to the empty set in either order,
/// leave exactly one range: the one that spans both.
pub proof fn law_adjacent_regions_merge(
    first: MemoryRegion,
    second: MemoryRegion,
    result: Seq<MemoryRegion>,
)
    requires
        first.start < first.end,
        first.end == second.start,
        second.start < second.end,
        coalesced(result),
        covered(result) == covered(Seq::empty()).union(first.addrs()).union(second.addrs())
            || covered(result) == covered(Seq::empty()).union(second.addrs()).union(
            first.addrs(),
        ),
    ensures
        result == seq![MemoryRegion { start: first.start, end: second.end }],
{
    let whole = MemoryRegion { start: first.start, end: second.end };
    let expected = seq![whole];
    assert forall|a: int| covered(expected).contains(a) == covered(result).contains(a) by {
        lemma_holds_push(Seq::empty(), whole, a);
        assert(Seq::<MemoryRegion>::empty().push(whole) =~= expected);
        assert(!seq_holds(Seq::<MemoryRegion>::empty(), a));
    }
    assert(covered(expected) =~= covered(result));
    lemma_coalesced_unique(result, expected);
}

/// Cutting a range out of the middle of a single region leaves exactly the
/// part below it and the part above it.
pub proof fn law_cut_splits(whole: MemoryRegion, hole: MemoryRegion, result: Seq<MemoryRegion>)
    requires
        whole.start < hole.start,
        hole.start < hole.end,
        hole.end < whole.end,
        coalesced(result),
        covered(result) == covered(seq![whole]).difference(hole.addrs()),
    ensures
        result == seq![
            MemoryRegion { start: whole.start, end: hole.start },
            MemoryRegion { start: hole.end, end: whole.end },
        ],
{
    let lower = MemoryRegion { start: whole.start, end: hole.start };
    let upper = MemoryRegion { start: hole.end, end: whole.end };
    let expected = seq![lower, upper];
    assert forall|a: int| covered(expected).contains(a) == covered(result).contains(a) by {
        lemma_holds_push(Seq::empty(), whole, a);
        assert(Seq::<MemoryRegion>::empty().push(whole) =~= seq![whole]);
        lemma_holds_push(Seq::empty(), lower, a);
        lemma_holds_push(Seq::<MemoryRegion>::empty().push(lower), upper, a);
        assert(Seq::<MemoryRegion>::empty().push(lower).push(upper) =~= expected);
        assert(!seq_holds(Seq::<MemoryRegion>::empty(), a));
    }
    assert(covered(expected) =~= covered(result));
    lemma_coalesced_unique(result, expected);
}

/// Cutting a region out of a set and adding it again gives back the ranges
/// that were there before.
pub proof fn law_cut_then_add_restores(
    before: Seq<MemoryRegion>,
    region: MemoryRegion,
    between: Seq<MemoryRegion>,
    after: Seq<MemoryRegion>,
)
    requires
        coalesced(before),
        coalesced(after),
        seq_encloses(before, region),
        covered(between) == covered(before).difference(region.addrs()),
        covered(after) == covered(between).union(region.addrs()),
    ensures
        after == before,
{
    let i = choose|i: int| 0 <= i < before.len() && (#[trigger] before[i]).encloses(region);
    assert forall|a: int| covered(after).contains(a) == covered(before).contains(a) by {
        if region.holds(a) {
            assert(before[i].holds(a));
        }
    }
    assert(covered(after) =~= covered(before));
    lemma_coalesced_unique(after, before);
}

/// A run of addresses that a coalesced sequence holds without a gap lies in
/// one of its regions.
pub proof fn lemma_interval_in_one_region(s: Seq<MemoryRegion>, r: MemoryRegion)
    requires
        coalesced(s),
        r.start < r.end,
        forall|a: int| #[trigger] r.holds(a) ==> seq_holds(s, a),
    ensures
        seq_encloses(s, r),
{
    let first = r.start as int;
    assert(r.holds(first));
    let i = choose|i: int| 0 <= i < s.len() && #[trigger] s[i].holds(first);
    if s[i].end < r.end {
        let e = s[i].end as int;
        assert(r.holds(e));
        let j = choose|j: int| 0 <= j < s.len() && #[trigger] s[j].holds(e);
        if j > i {
            assert(s[i].end < s[j].start);
        } else if j < i {
            assert(s[j].end < s[i].start);
        }
    }
    assert(s[i].encloses(r));
}

} // verus!
