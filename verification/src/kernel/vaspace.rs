//! Which parts of a cell's address range are spoken for, and by what.

use vstd::prelude::*;
use crate::kernel::frames::FRAME_SIZE;

verus! {

/// What a region of a cell's address range holds.
#[derive(Copy, Clone, PartialEq, Eq, Debug, Structural)]
pub enum RegionKind {
    Image,
    Interp,
    Stack,
    Anon,
    File,
    Queue,
    Channel,
    Grant,
    Fixed,
    DeviceBar,
}

/// A region of a cell's address range.
#[derive(Copy, Clone, PartialEq, Eq, Debug, Structural)]
pub struct Region {
    pub base: u64,
    pub len: u64,
    pub kind: RegionKind,
}

impl Region {
    /// One past the last address.
    pub open spec fn limit(&self) -> int {
        self.base + self.len
    }

    /// The region is not empty and ends inside the address space.
    pub open spec fn wf(&self) -> bool {
        &&& self.len > 0
        &&& self.base + self.len <= u64::MAX
    }

    /// Whether the region meets `[base, base + len)`.
    pub open spec fn meets(&self, base: int, len: int) -> bool {
        &&& base < self.limit()
        &&& self.base < base + len
    }

    /// One past the last address.
    pub fn end(&self) -> (e: u64)
        requires
            self.wf(),
        ensures
            e == self.limit(),
    {
        self.base + self.len
    }
}

/// Why a region could not be reserved.
#[derive(Copy, Clone, PartialEq, Eq, Debug, Structural)]
pub enum VaError {
    /// The length is zero or the range leaves the address space.
    BadRange,
    /// The range does not end below the ceiling.
    OutOfRange,
    /// The range is taken, or no hole of the wanted length is left.
    NoSpace,
    /// Every record is in use.
    NoRecord,
}

/// The regions of one cell's address range, at most `records` of them.
pub struct VaSpace {
    regions: Vec<Region>,
    records: usize,
}

/// Regions that are well formed and do not meet.
pub open spec fn disjoint(regions: Seq<Region>) -> bool {
    &&& forall|i: int| 0 <= i < regions.len() ==> #[trigger] regions[i].wf()
    &&& forall|i: int, j: int|
        0 <= i < regions.len() && 0 <= j < regions.len() && i != j ==> !#[trigger] regions[i].meets(
            #[trigger] regions[j].base as int,
            regions[j].len as int,
        )
}

/// Whether `[base, base + len)` meets none of the regions.
pub open spec fn is_hole(regions: Seq<Region>, base: int, len: int) -> bool {
    forall|i: int| 0 <= i < regions.len() ==> !#[trigger] regions[i].meets(base, len)
}

/// Whether a reservation of `len` bytes could stand at `base` in `[lo, hi)`.
pub open spec fn fits(regions: Seq<Region>, base: int, len: int, lo: int, hi: int) -> bool {
    &&& base % (FRAME_SIZE as int) == 0
    &&& lo <= base
    &&& base + len <= hi
    &&& is_hole(regions, base, len)
}

impl VaSpace {
    /// The regions on record.
    pub closed spec fn on_record(&self) -> Seq<Region> {
        self.regions@
    }

    /// How many regions can be on record.
    pub closed spec fn record_limit(&self) -> usize {
        self.records
    }

    pub open spec fn wf(&self) -> bool {
        &&& disjoint(self.on_record())
        &&& self.on_record().len() <= self.record_limit()
    }

    /// An empty layout with room for `records` regions.
    pub fn new(records: usize) -> (v: VaSpace)
        ensures
            v.wf(),
            v.on_record() == Seq::<Region>::empty(),
            v.record_limit() == records,
    {
        VaSpace { regions: Vec::new(), records }
    }

    /// Forget every region.
    pub fn clear(&mut self)
        ensures
            final(self).wf(),
            final(self).on_record() == Seq::<Region>::empty(),
            final(self).record_limit() == old(self).record_limit(),
    {
        self.regions = Vec::new();
    }

    /// How many regions are on record.
    pub fn len(&self) -> (n: usize)
        ensures
            n == self.on_record().len(),
    {
        self.regions.len()
    }

    /// The region at a position of the record.
    pub fn region(&self, i: usize) -> (r: Region)
        requires
            i < self.on_record().len(),
        ensures
            r == self.on_record()[i as int],
    {
        self.regions[i]
    }

    /// The first region on record that meets `[base, base + len)`.
    fn first_meeting(&self, base: u64, len: u64) -> (at: Option<usize>)
        requires
            self.wf(),
            base + len <= u64::MAX,
        ensures
            match at {
                Some(i) => i < self.on_record().len() && self.on_record()[i as int].meets(
                    base as int,
                    len as int,
                ),
                None => is_hole(self.on_record(), base as int, len as int),
            },
    {
        let mut i: usize = 0;
        while i < self.regions.len()
            invariant
                self.wf(),
                base + len <= u64::MAX,
                i <= self.regions.len(),
                forall|j: int|
                    0 <= j < i ==> !#[trigger] self.regions@[j].meets(base as int, len as int),
            decreases self.regions.len() - i,
        {
            let r: Region = self.regions[i];
            assert(self.on_record()[i as int].wf());
            if base < r.end() && r.base < base + len {
                return Some(i);
            }
            i = i + 1;
        }
        None
    }

    /// Reserve the lowest page-aligned hole of `len` bytes in `[lo, hi)`.
    pub fn reserve_in(&mut self, lo: u64, hi: u64, len: u64, kind: RegionKind) -> (r: Result<
        u64,
        VaError,
    >)
        requires
            old(self).wf(),
            hi <= u64::MAX - FRAME_SIZE,
        ensures
            final(self).wf(),
            final(self).record_limit() == old(self).record_limit(),
            match r {
                Ok(base) => {
                    &&& len > 0
                    &&& old(self).on_record().len() < old(self).record_limit()
                    &&& fits(old(self).on_record(), base as int, len as int, lo as int, hi as int)
                    &&& forall|b: int|
                        lo <= b < base ==> !#[trigger] fits(
                            old(self).on_record(),
                            b,
                            len as int,
                            lo as int,
                            hi as int,
                        )
                    &&& final(self).on_record() == old(self).on_record().push(
                        Region { base, len, kind },
                    )
                },
                Err(e) => {
                    &&& final(self).on_record() == old(self).on_record()
                    &&& e == (if len == 0 {
                        VaError::BadRange
                    } else if old(self).on_record().len() >= old(self).record_limit() {
                        VaError::NoRecord
                    } else {
                        VaError::NoSpace
                    })
                    &&& e == VaError::NoSpace ==> forall|b: int|
                        !#[trigger] fits(
                            old(self).on_record(),
                            b,
                            len as int,
                            lo as int,
                            hi as int,
                        )
                },
            },
    {
        if len == 0 {
            return Err(VaError::BadRange);
        }
        if self.regions.len() >= self.records {
            return Err(VaError::NoRecord);
        }
        if lo > hi {
            return Err(VaError::NoSpace);
        }
        let mut at: u64 = round_up(lo);
        while at <= hi && len <= hi - at
            invariant
                *self == *old(self),
                self.wf(),
                len > 0,
                lo <= at,
                hi <= u64::MAX - FRAME_SIZE,
                at % FRAME_SIZE == 0,
                self.on_record().len() < self.record_limit(),
                forall|b: int|
                    lo <= b < at ==> !#[trigger] fits(
                        self.on_record(),
                        b,
                        len as int,
                        lo as int,
                        hi as int,
                    ),
            decreases u64::MAX - at,
        {
            let hit = self.first_meeting(at, len);
            match hit {
                None => {
                    let region = Region { base: at, len, kind };
                    proof {
                        lemma_push_disjoint(self.on_record(), region);
                    }
                    self.regions.push(region);
                    return Ok(at);
                },
                Some(i) => {
                    let r: Region = self.regions[i];
                    assert(self.on_record()[i as int].wf());
                    let past: u64 = r.end();
                    if past > hi {
                        proof {
                            assert forall|b: int| !#[trigger] fits(
                                self.on_record(),
                                b,
                                len as int,
                                lo as int,
                                hi as int,
                            ) by {
                                if b >= at && b + len <= hi {
                                    assert(self.on_record()[i as int].meets(b, len as int));
                                }
                            }
                        }
                        return Err(VaError::NoSpace);
                    }
                    let next: u64 = round_up(past);
                    proof {
                        assert forall|b: int| lo <= b < next implies !#[trigger] fits(
                            self.on_record(),
                            b,
                            len as int,
                            lo as int,
                            hi as int,
                        ) by {
                            if b >= at {
                                if b < past {
                                    assert(self.on_record()[i as int].meets(b, len as int));
                                }
                            }
                        }
                    }
                    at = next;
                },
            }
        }
        proof {
            assert forall|b: int| !#[trigger] fits(
                self.on_record(),
                b,
                len as int,
                lo as int,
                hi as int,
            ) by {}
        }
        Err(VaError::NoSpace)
    }

    /// Reserve exactly `[base, base + len)`, below a ceiling.
    pub fn reserve_fixed(&mut self, base: u64, len: u64, top: u64, kind: RegionKind) -> (r: Result<
        (),
        VaError,
    >)
        requires
            old(self).wf(),
        ensures
            final(self).wf(),
            final(self).record_limit() == old(self).record_limit(),
            r is Ok ==> final(self).on_record() == old(self).on_record().push(
                Region { base, len, kind },
            ),
            r is Err ==> final(self).on_record() == old(self).on_record(),
            r == (if len == 0 || base + len > u64::MAX {
                Err::<(), VaError>(VaError::BadRange)
            } else if base + len > top {
                Err(VaError::OutOfRange)
            } else if old(self).on_record().len() >= old(self).record_limit() {
                Err(VaError::NoRecord)
            } else if !is_hole(old(self).on_record(), base as int, len as int) {
                Err(VaError::NoSpace)
            } else {
                Ok(())
            }),
    {
        if len == 0 || base.checked_add(len).is_none() {
            return Err(VaError::BadRange);
        }
        if base + len > top {
            return Err(VaError::OutOfRange);
        }
        if self.regions.len() >= self.records {
            return Err(VaError::NoRecord);
        }
        let hit = self.first_meeting(base, len);
        if let Some(i) = hit {
            assert(self.on_record()[i as int].meets(base as int, len as int));
            return Err(VaError::NoSpace);
        }
        let region = Region { base, len, kind };
        proof {
            lemma_push_disjoint(self.on_record(), region);
        }
        self.regions.push(region);
        Ok(())
    }

    /// The region that holds `va`.
    pub fn find(&self, va: u64) -> (r: Option<Region>)
        requires
            self.wf(),
        ensures
            match r {
                Some(x) => self.on_record().contains(x) && x.base <= va < x.limit(),
                None => forall|i: int|
                    0 <= i < self.on_record().len() ==> !(#[trigger] self.on_record()[i].base <= va
                        < self.on_record()[i].limit()),
            },
    {
        let mut i: usize = 0;
        while i < self.regions.len()
            invariant
                self.wf(),
                i <= self.regions.len(),
                forall|j: int|
                    0 <= j < i ==> !(#[trigger] self.regions@[j].base <= va
                        < self.regions@[j].limit()),
            decreases self.regions.len() - i,
        {
            let r: Region = self.regions[i];
            assert(self.on_record()[i as int].wf());
            if r.base <= va && va < r.end() {
                assert(self.on_record()[i as int] == r);
                return Some(r);
            }
            i = i + 1;
        }
        None
    }

    /// Forget the region that starts at `base`. False when there is none.
    pub fn release_at(&mut self, base: u64) -> (found: bool)
        requires
            old(self).wf(),
        ensures
            final(self).wf(),
            final(self).record_limit() == old(self).record_limit(),
            released(old(self).on_record(), final(self).on_record(), base, found),
    {
        let mut i: usize = 0;
        while i < self.regions.len()
            invariant
                *self == *old(self),
                self.wf(),
                i <= self.regions.len(),
                forall|j: int| 0 <= j < i ==> #[trigger] self.regions@[j].base != base,
            decreases self.regions.len() - i,
        {
            if self.regions[i].base == base {
                self.regions.remove(i);
                proof {
                    lemma_remove_disjoint(old(self).on_record(), i as int);
                    assert(old(self).on_record()[i as int].base == base);
                }
                return true;
            }
            i = i + 1;
        }
        false
    }
}

/// The region that starts at `base` left the record, if there was one.
pub open spec fn released(
    before: Seq<Region>,
    after: Seq<Region>,
    base: u64,
    found: bool,
) -> bool {
    if found {
        exists|i: int|
            0 <= i < before.len() && #[trigger] before[i].base == base && after == before.remove(i)
    } else {
        &&& after == before
        &&& forall|i: int| 0 <= i < before.len() ==> #[trigger] before[i].base != base
    }
}

/// `va` rounded up to a page boundary.
fn round_up(va: u64) -> (r: u64)
    requires
        va <= u64::MAX - FRAME_SIZE,
    ensures
        r % FRAME_SIZE == 0,
        va <= r < va + FRAME_SIZE,
        forall|b: int| va <= b < r ==> #[trigger] (b % (FRAME_SIZE as int)) != 0,
{
    let rest: u64 = va % FRAME_SIZE;
    if rest == 0 {
        va
    } else {
        va + (FRAME_SIZE - rest)
    }
}

proof fn lemma_push_disjoint(regions: Seq<Region>, r: Region)
    requires
        disjoint(regions),
        r.wf(),
        is_hole(regions, r.base as int, r.len as int),
    ensures
        disjoint(regions.push(r)),
{
    let after = regions.push(r);
    assert forall|i: int| 0 <= i < after.len() implies #[trigger] after[i].wf() by {
        if i < regions.len() {
            assert(regions[i].wf());
        }
    }
    assert forall|i: int, j: int|
        0 <= i < after.len() && 0 <= j < after.len() && i != j implies !#[trigger] after[i].meets(
        #[trigger] after[j].base as int,
        after[j].len as int,
    ) by {
        if i < regions.len() && j < regions.len() {
            assert(!regions[i].meets(regions[j].base as int, regions[j].len as int));
        } else if i < regions.len() {
            assert(!regions[i].meets(r.base as int, r.len as int));
        } else {
            assert(!regions[j].meets(r.base as int, r.len as int));
        }
    }
}

proof fn lemma_remove_disjoint(regions: Seq<Region>, at: int)
    requires
        disjoint(regions),
        0 <= at < regions.len(),
    ensures
        disjoint(regions.remove(at)),
{
    let after = regions.remove(at);
    assert forall|i: int| 0 <= i < after.len() implies #[trigger] after[i].wf() by {
        let k = if i < at { i } else { i + 1 };
        assert(regions[k].wf());
    }
    assert forall|i: int, j: int|
        0 <= i < after.len() && 0 <= j < after.len() && i != j implies !#[trigger] after[i].meets(
        #[trigger] after[j].base as int,
        after[j].len as int,
    ) by {
        let k = if i < at { i } else { i + 1 };
        let l = if j < at { j } else { j + 1 };
        assert(!regions[k].meets(regions[l].base as int, regions[l].len as int));
    }
}

/// A region that was reserved and released again is not on record, and what was
/// on record stays.
pub proof fn law_reserve_then_release(before: Seq<Region>, r: Region, after: Seq<Region>)
    requires
        disjoint(before),
        r.wf(),
        is_hole(before, r.base as int, r.len as int),
        released(before.push(r), after, r.base, true),
    ensures
        after == before,
{
    let mid = before.push(r);
    let i = choose|i: int|
        0 <= i < mid.len() && #[trigger] mid[i].base == r.base && after == mid.remove(i);
    if i < before.len() {
        assert(before[i].wf());
        assert(before[i].meets(r.base as int, r.len as int));
    }
    assert(mid.remove(before.len() as int) =~= before);
}

} // verus!
