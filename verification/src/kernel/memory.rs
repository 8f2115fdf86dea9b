//! The memory a cell holds: anonymous and file mappings, typed grants, and the
//! frames they are charged for.

use vstd::prelude::*;
use crate::kernel::admission::{Admission, Reservation};
use crate::kernel::aspace::{page_base, page_count, page_floor, pages_in, AddressSpace, MapPerm, Page};
use crate::kernel::capability::{caps_ok, issued, CapSlot, CapTable, Object, ObjectTable, MAX_CAPS};
use crate::kernel::frames::{user_share, FramePool, FRAME_SIZE, NODE_ANY};
use crate::kernel::machine::{Machine, FILEMMAP_BASE, GRANT_BASE, MMAP_BASE, USER_CHANNEL_VA, USER_QUEUE_VA};
use crate::kernel::pages::{absent_pages, all_protected, apart, commit_pages, committed, count_absent, drawn, from_pmem, fresh_near, lemma_nth_page, map_fresh, mapped_fresh, near, nth_page, owned_pages, pages_fit, protect_pages, returned, unmap_pages, unmapped, Backing};
use crate::kernel::uaccess::{may_write, writable};
use crate::kernel::vaspace::{disjoint, fits, is_hole, law_reserve_then_release, released, Region, RegionKind, VaSpace};

verus! {

/// Cells that the kernel can hold.
pub const MAX_CELLS: usize = 16;

/// Typed grants that one cell can hold.
pub const MAX_GRANTS_PER_CELL: usize = 64;

/// CPU reservations that one cell can hold.
pub const MAX_RES_PER_CELL: usize = 8;

/// Frames that one cell may be charged for at once.
pub const MAX_FRAMES_PER_CELL: u64 = 98304;

/// What a refused call returns.
pub const REFUSED: u64 = u64::MAX;

/// A typed memory grant of a cell.
#[derive(Copy, Clone, PartialEq, Eq, Debug, Structural)]
pub struct GrantSlot {
    pub in_use: bool,
    pub base: u64,
    pub len: u64,
    /// The kind of memory that was asked for.
    pub kind: u8,
    /// The memory node that its frames should come from.
    pub node: u8,
    /// A sealed grant is immutable.
    pub sealed: bool,
    pub cap_id: u32,
}

/// A slot that holds no grant.
pub open spec fn no_grant() -> GrantSlot {
    GrantSlot { in_use: false, base: 0, len: 0, kind: 0, node: NODE_ANY, sealed: false, cap_id: 0 }
}

impl GrantSlot {
    pub fn empty() -> (s: GrantSlot)
        ensures
            s == no_grant(),
    {
        GrantSlot { in_use: false, base: 0, len: 0, kind: 0, node: NODE_ANY, sealed: false, cap_id: 0 }
    }

    /// A grant covers whole pages of the grant range.
    pub open spec fn wf(&self, m: &Machine) -> bool {
        self.in_use ==> {
            &&& self.base % FRAME_SIZE == 0
            &&& self.len % FRAME_SIZE == 0
            &&& self.len > 0
            &&& GRANT_BASE <= self.base
            &&& self.base + self.len <= m.user_va_max
        }
    }
}

/// A CPU reservation of a cell: its share in the cell's ledger and in the
/// system's.
#[derive(Copy, Clone, PartialEq, Eq, Debug, Structural)]
pub struct ResSlot {
    pub in_use: bool,
    pub res: Reservation,
    pub sys_res: Reservation,
    pub cap_id: u32,
}

impl ResSlot {
    pub fn empty() -> (s: ResSlot)
        ensures
            s == no_res(),
    {
        ResSlot {
            in_use: false,
            res: Reservation { ppm: 0 },
            sys_res: Reservation { ppm: 0 },
            cap_id: 0,
        }
    }
}

/// What one cell holds.
pub struct CellMemory {
    pub aspace: AddressSpace,
    pub va: VaSpace,
    pub grants: Vec<GrantSlot>,
    pub res: Vec<ResSlot>,
    pub admission: Admission,
    /// Frames the cell is charged for.
    pub charged: u64,
    pub caps: CapTable,
    /// The cell has capability tables.
    pub tables: bool,
    /// The memory node the cell places its memory on.
    pub node: u8,
    pub present: bool,
}

/// What one cell holds, mathematically.
pub struct CellView {
    pub pages: Map<u64, Page>,
    pub regions: Seq<Region>,
    pub records: usize,
    pub grants: Seq<GrantSlot>,
    pub res: Seq<ResSlot>,
    pub admission: Admission,
    pub charged: u64,
    pub caps: Seq<CapSlot>,
    pub cap_limit: u32,
    pub tables: bool,
    pub node: u8,
    pub present: bool,
}

impl View for CellMemory {
    type V = CellView;

    open spec fn view(&self) -> CellView {
        CellView {
            pages: self.aspace@,
            regions: self.va.on_record(),
            records: self.va.record_limit(),
            grants: self.grants@,
            res: self.res@,
            admission: self.admission,
            charged: self.charged,
            caps: self.caps@,
            cap_limit: self.caps.cap_limit(),
            tables: self.tables,
            node: self.node,
            present: self.present,
        }
    }
}

impl CellMemory {
    /// A cell that holds nothing, with room for as many capabilities and records of
    /// its layout.
    pub fn empty(caps: u32, records: usize) -> (c: CellMemory)
        requires
            caps <= MAX_CAPS,
        ensures
            c@ == empty_view(caps, records),
    {
        let mut grants: Vec<GrantSlot> = Vec::new();
        while grants.len() < MAX_GRANTS_PER_CELL
            invariant
                grants@.len() <= MAX_GRANTS_PER_CELL,
                grants@ == Seq::new(grants@.len(), |i: int| no_grant()),
            decreases MAX_GRANTS_PER_CELL - grants@.len(),
        {
            grants.push(GrantSlot::empty());
            assert(grants@ =~= Seq::new(grants@.len(), |i: int| no_grant()));
        }
        let mut res: Vec<ResSlot> = Vec::new();
        while res.len() < MAX_RES_PER_CELL
            invariant
                res@.len() <= MAX_RES_PER_CELL,
                res@ == Seq::new(res@.len(), |i: int| no_res()),
            decreases MAX_RES_PER_CELL - res@.len(),
        {
            res.push(ResSlot::empty());
            assert(res@ =~= Seq::new(res@.len(), |i: int| no_res()));
        }
        CellMemory {
            aspace: AddressSpace::new(),
            va: VaSpace::new(records),
            grants,
            res,
            admission: Admission::new(),
            charged: 0,
            caps: CapTable::new(caps),
            tables: false,
            node: NODE_ANY,
            present: false,
        }
    }
}

/// A slot that holds no reservation.
pub open spec fn no_res() -> ResSlot {
    ResSlot {
        in_use: false,
        res: Reservation { ppm: 0 },
        sys_res: Reservation { ppm: 0 },
        cap_id: 0,
    }
}

/// What a cell holds that holds nothing.
pub open spec fn empty_view(caps: u32, records: usize) -> CellView {
    CellView {
        pages: Map::empty(),
        regions: Seq::empty(),
        records,
        grants: Seq::new(MAX_GRANTS_PER_CELL as nat, |i: int| no_grant()),
        res: Seq::new(MAX_RES_PER_CELL as nat, |i: int| no_res()),
        admission: Admission { committed: 0 },
        charged: 0,
        caps: Seq::empty(),
        cap_limit: caps,
        tables: false,
        node: NODE_ANY,
        present: false,
    }
}

/// A grant stands in a layout.
pub open spec fn on_record_as(regions: Seq<Region>, g: GrantSlot) -> bool {
    exists|k: int| #[trigger] is_record_of(regions, k, g)
}

/// The region at `k` is a grant's.
pub open spec fn is_record_of(regions: Seq<Region>, k: int, g: GrantSlot) -> bool {
    &&& 0 <= k < regions.len()
    &&& regions[k] == (Region { base: g.base, len: g.len, kind: RegionKind::Grant })
}

/// No two grants of a cell overlap.
pub proof fn law_grants_do_not_overlap(m: &Machine, c: CellView, i: int, j: int)
    requires
        c.wf(m),
        0 <= i < c.grants.len(),
        0 <= j < c.grants.len(),
        i != j,
        c.grants[i].in_use,
        c.grants[j].in_use,
    ensures
        c.grants[i].base + c.grants[i].len <= c.grants[j].base || c.grants[j].base
            + c.grants[j].len <= c.grants[i].base,
{
    let k = choose|k: int| is_record_of(c.regions, k, c.grants[i]);
    let l = choose|l: int| is_record_of(c.regions, l, c.grants[j]);
    if i < j {
        assert(c.grants[i].base != c.grants[j].base);
    } else {
        assert(c.grants[j].base != c.grants[i].base);
    }
    assert(!c.regions[k].meets(c.regions[l].base as int, c.regions[l].len as int));
}

/// A grant stays on record when a region is added.
proof fn lemma_record_grows(regions: Seq<Region>, r: Region, g: GrantSlot)
    requires
        on_record_as(regions, g),
    ensures
        on_record_as(regions.push(r), g),
{
    let k = choose|k: int| is_record_of(regions, k, g);
    assert(is_record_of(regions.push(r), k, g));
}

/// A grant stays on record when a region with another base is taken off.
proof fn lemma_record_shrinks(
    before: Seq<Region>,
    after: Seq<Region>,
    base: u64,
    found: bool,
    g: GrantSlot,
)
    requires
        on_record_as(before, g),
        released(before, after, base, found),
        g.base != base,
    ensures
        on_record_as(after, g),
{
    let k = choose|k: int| is_record_of(before, k, g);
    if found {
        let i = choose|i: int|
            0 <= i < before.len() && #[trigger] before[i].base == base && after == before.remove(i);
        if k < i {
            assert(is_record_of(after, k, g));
        } else {
            assert(is_record_of(after, k - 1, g));
        }
    } else {
        assert(is_record_of(after, k, g));
    }
}

/// A grant on record does not start in a hole.
proof fn lemma_not_in_hole(regions: Seq<Region>, base: int, len: int, g: GrantSlot)
    requires
        disjoint(regions),
        on_record_as(regions, g),
        is_hole(regions, base, len),
        len > 0,
    ensures
        g.base != base,
{
    let k = choose|k: int| is_record_of(regions, k, g);
    assert(regions[k].wf());
    assert(!regions[k].meets(base, len));
}

impl CellView {
    /// The tables have their sizes, the layout does not overlap itself and ends below the
    /// ceiling, the grants lie in the grant range and are regions of the layout, and no more
    /// is charged than allowed.
    pub open spec fn wf(&self, m: &Machine) -> bool {
        &&& disjoint(self.regions)
        &&& forall|i: int|
            0 <= i < self.regions.len() ==> (#[trigger] self.regions[i]).limit() <= m.user_va_max
        &&& self.regions.len() <= self.records
        &&& self.grants.len() == MAX_GRANTS_PER_CELL
        &&& forall|i: int| 0 <= i < self.grants.len() ==> #[trigger] self.grants[i].wf(m)
        &&& self.res.len() == MAX_RES_PER_CELL
        &&& self.admission.wf()
        &&& self.charged <= MAX_FRAMES_PER_CELL
        &&& caps_ok(self.caps, self.cap_limit)
        &&& self.named_once()
        &&& self.grants_on_record()
    }

    /// Every grant is a region of the layout, and no two grants are the same one.
    pub open spec fn grants_on_record(&self) -> bool {
        &&& forall|i: int|
            0 <= i < self.grants.len() && (#[trigger] self.grants[i]).in_use ==> on_record_as(
                self.regions,
                self.grants[i],
            )
        &&& forall|i: int, j: int|
            0 <= i < j < self.grants.len() && (#[trigger] self.grants[i]).in_use && (
            #[trigger] self.grants[j]).in_use ==> self.grants[i].base != self.grants[j].base
    }

    /// Every grant and every reservation goes by a handle that was given out, and no two
    /// grants and no two reservations by the same one.
    pub open spec fn named_once(&self) -> bool {
        &&& forall|i: int|
            0 <= i < self.grants.len() && (#[trigger] self.grants[i]).in_use ==> issued(
                self.caps,
                self.grants[i].cap_id,
            )
        &&& forall|i: int, j: int|
            0 <= i < j < self.grants.len() && (#[trigger] self.grants[i]).in_use && (
            #[trigger] self.grants[j]).in_use ==> self.grants[i].cap_id != self.grants[j].cap_id
        &&& forall|i: int|
            0 <= i < self.res.len() && (#[trigger] self.res[i]).in_use ==> issued(
                self.caps,
                self.res[i].cap_id,
            )
        &&& forall|i: int, j: int|
            0 <= i < j < self.res.len() && (#[trigger] self.res[i]).in_use && (
            #[trigger] self.res[j]).in_use ==> self.res[i].cap_id != self.res[j].cap_id
    }
}

/// The grants stay on record when a region is added.
pub proof fn lemma_grants_kept(before: CellView, after: CellView, r: Region)
    requires
        before.grants_on_record(),
        after.grants == before.grants,
        after.regions == before.regions.push(r),
    ensures
        after.grants_on_record(),
{
    assert forall|i: int|
        0 <= i < after.grants.len() && (#[trigger] after.grants[i]).in_use implies on_record_as(
        after.regions,
        after.grants[i],
    ) by {
        lemma_record_grows(before.regions, r, before.grants[i]);
    }
}

/// A grant that is given where nothing stands is on record with the others.
pub proof fn lemma_grant_given(before: CellView, after: CellView, slot: int, g: GrantSlot)
    requires
        before.grants_on_record(),
        disjoint(before.regions),
        0 <= slot < before.grants.len(),
        g.len > 0,
        is_hole(before.regions, g.base as int, g.len as int),
        after.grants == before.grants.update(slot, g),
        after.regions == before.regions.push(
            Region { base: g.base, len: g.len, kind: RegionKind::Grant },
        ),
    ensures
        after.grants_on_record(),
{
    let r = Region { base: g.base, len: g.len, kind: RegionKind::Grant };
    assert(is_record_of(after.regions, before.regions.len() as int, g));
    assert forall|i: int|
        0 <= i < after.grants.len() && (#[trigger] after.grants[i]).in_use implies on_record_as(
        after.regions,
        after.grants[i],
    ) && (i != slot ==> after.grants[i].base != g.base) by {
        if i != slot {
            assert(before.grants[i].in_use);
            lemma_record_grows(before.regions, r, before.grants[i]);
            lemma_not_in_hole(before.regions, g.base as int, g.len as int, before.grants[i]);
        }
    }
    assert forall|i: int, j: int|
        0 <= i < j < after.grants.len() && (#[trigger] after.grants[i]).in_use && (
        #[trigger] after.grants[j]).in_use implies after.grants[i].base != after.grants[j].base by {
        if i != slot && j != slot {
            assert(before.grants[i].in_use && before.grants[j].in_use);
        }
    }
}

/// The grants that stay are on record once a region that is none of theirs is taken off.
pub proof fn lemma_grants_stay(before: CellView, after: CellView, base: u64, found: bool)
    requires
        before.grants_on_record(),
        after.grants.len() == before.grants.len(),
        forall|i: int|
            0 <= i < after.grants.len() && (#[trigger] after.grants[i]).in_use ==> after.grants[i]
                == before.grants[i] && after.grants[i].base != base,
        released(before.regions, after.regions, base, found),
    ensures
        after.grants_on_record(),
{
    assert forall|i: int|
        0 <= i < after.grants.len() && (#[trigger] after.grants[i]).in_use implies on_record_as(
        after.regions,
        after.grants[i],
    ) by {
        lemma_record_shrinks(before.regions, after.regions, base, found, before.grants[i]);
    }
}

/// What all cells hold, and what they draw on.
pub struct Memory {
    pub cells: Vec<CellMemory>,
    pub ddr: FramePool,
    pub pmem: FramePool,
    pub objects: ObjectTable,
    /// The system's ledger of CPU reservations.
    pub system: Admission,
    /// Kinds of memory whose substitution was reported.
    pub noticed: Vec<bool>,
}

impl Memory {
    /// The memory of a machine that has just started: these frames, no objects, and
    /// cells that hold nothing.
    pub fn new(ddr: FramePool, pmem: FramePool, objects: u32, caps: u32, records: usize) -> (mem: Memory)
        requires
            apart(&ddr, &pmem),
            caps <= MAX_CAPS,
        ensures
            forall|m: &Machine| mem.wf(m),
            mem.ddr == ddr,
            mem.pmem == pmem,
            mem.objects@ == Seq::<Object>::empty(),
            mem.objects.object_limit() == objects,
            mem.system.committed == 0,
            mem.noticed@ == Seq::new(6, |i: int| false),
            forall|i: int|
                0 <= i < MAX_CELLS ==> (#[trigger] mem.cells@[i])@ == empty_view(caps, records),
    {
        let mut cells: Vec<CellMemory> = Vec::new();
        while cells.len() < MAX_CELLS
            invariant
                caps <= MAX_CAPS,
                cells@.len() <= MAX_CELLS,
                forall|i: int|
                    0 <= i < cells@.len() ==> (#[trigger] cells@[i])@ == empty_view(caps, records),
            decreases MAX_CELLS - cells@.len(),
        {
            cells.push(CellMemory::empty(caps, records));
        }
        let noticed: Vec<bool> = vec![false, false, false, false, false, false];
        assert(noticed@ =~= Seq::new(6, |i: int| false));
        Memory {
            cells,
            ddr,
            pmem,
            objects: ObjectTable::new(objects),
            system: Admission::new(),
            noticed,
        }
    }

    /// What cell `i` holds.
    pub open spec fn cell(&self, i: int) -> CellView {
        self.cells@[i]@
    }

    /// Every cell has room for as many capabilities.
    pub open spec fn limits_equal(&self) -> bool {
        forall|i: int|
            0 <= i < MAX_CELLS ==> (#[trigger] self.cells@[i])@.cap_limit == self.cells@[0]@.cap_limit
    }

    pub open spec fn wf(&self, m: &Machine) -> bool {
        &&& self.cells@.len() == MAX_CELLS
        &&& forall|i: int| 0 <= i < MAX_CELLS ==> (#[trigger] self.cells@[i])@.wf(m)
        &&& self.limits_equal()
        &&& apart(&self.ddr, &self.pmem)
        &&& self.objects.wf()
        &&& self.system.wf()
        &&& self.noticed@.len() == 6
    }
}

/// Nothing outside cell `cur` and the pools moved.
pub open spec fn rest_same(before: &Memory, after: &Memory, cur: int) -> bool {
    &&& after.cells@.len() == before.cells@.len()
    &&& forall|i: int|
        0 <= i < before.cells@.len() && i != cur ==> (#[trigger] after.cells@[i])@
            == before.cells@[i]@
    &&& after.objects@ == before.objects@
    &&& after.objects.object_limit() == before.objects.object_limit()
    &&& after.system == before.system
    &&& after.noticed@ == before.noticed@
}

/// The pools did not move.
pub open spec fn pools_same(before: &Memory, after: &Memory) -> bool {
    &&& after.ddr.same_frames(&before.ddr)
    &&& after.ddr.taken() == before.ddr.taken()
    &&& after.ddr.to_clear() == before.ddr.to_clear()
    &&& after.pmem.same_frames(&before.pmem)
    &&& after.pmem.taken() == before.pmem.taken()
    &&& after.pmem.to_clear() == before.pmem.to_clear()
}

/// Nothing moved.
pub open spec fn unchanged(before: &Memory, after: &Memory, cur: int) -> bool {
    &&& rest_same(before, after, cur)
    &&& pools_same(before, after)
    &&& after.cell(cur) == before.cell(cur)
}

/// The start of the first page of `[va, va + len)`.
pub open spec fn span_base(va: u64) -> u64 {
    page_floor(va as int) as u64
}

/// Pages that `[va, va + len)` touches.
pub open spec fn span_pages(va: u64, len: u64) -> int {
    pages_in(va + len - page_floor(va as int))
}

/// Whether `[va, va + len)` may hold mappings of a cell.
pub open spec fn span_ok(m: &Machine, va: u64, len: u64) -> bool {
    &&& va + len <= u64::MAX
    &&& may_write(m, span_base(va), (va + len - page_floor(va as int)) as u64)
}

/// Whether a cell that is charged `charged` can be charged `pages` more.
pub open spec fn affordable(charged: u64, ddr: &FramePool, pages: int) -> bool {
    &&& charged + pages <= MAX_FRAMES_PER_CELL
    &&& pages <= user_share(ddr.free_count())
}

/// What is left of a charge when `pages` go back.
pub open spec fn uncharged(charged: u64, pages: int) -> u64 {
    if charged >= pages {
        (charged - pages) as u64
    } else {
        0
    }
}

/// Check a span and give its first page and its number of pages.
fn span(m: &Machine, va: u64, len: u64) -> (s: Option<(u64, u64)>)
    requires
        m.wf(),
        len > 0,
    ensures
        s is Some <==> span_ok(m, va, len),
        s matches Some((base, pages)) ==> {
            &&& base == span_base(va)
            &&& pages == span_pages(va, len)
            &&& pages > 0
            &&& pages_fit(base, pages as int)
        },
{
    let base: u64 = page_base(va);
    match va.checked_add(len) {
        None => None,
        Some(end) => {
            if !writable(m, base, end - base) {
                return None;
            }
            Some((base, page_count(end - base)))
        },
    }
}

/// Frames that cell `idx` is charged for.
pub fn cell_frames_charged(mem: &Memory, idx: usize) -> (n: u64)
    requires
        idx < mem.cells@.len(),
    ensures
        n == mem.cell(idx as int).charged,
{
    mem.cells[idx].charged
}

/// Charge `pages` to a cell, if its budget and the pool allow it.
fn charge_frames(mem: &mut Memory, cur: usize, pages: u64) -> (ok: bool)
    requires
        cur < old(mem).cells@.len(),
        old(mem).cell(cur as int).charged <= MAX_FRAMES_PER_CELL,
    ensures
        ok == affordable(old(mem).cell(cur as int).charged, &old(mem).ddr, pages as int),
        rest_same(old(mem), final(mem), cur as int),
        final(mem).ddr == old(mem).ddr,
        final(mem).pmem == old(mem).pmem,
        final(mem).cell(cur as int) == (CellView {
            charged: if ok {
                (old(mem).cell(cur as int).charged + pages) as u64
            } else {
                old(mem).cell(cur as int).charged
            },
            ..old(mem).cell(cur as int)
        }),
{
    let held: u64 = mem.cells[cur].charged;
    match held.checked_add(pages) {
        None => false,
        Some(want) => {
            if want > MAX_FRAMES_PER_CELL || pages > mem.ddr.user_available() as u64 {
                return false;
            }
            mem.cells[cur].charged = want;
            true
        },
    }
}

/// Take `pages` off a cell's charge.
fn uncharge_frames(mem: &mut Memory, cur: usize, pages: u64)
    requires
        cur < old(mem).cells@.len(),
    ensures
        rest_same(old(mem), final(mem), cur as int),
        final(mem).ddr == old(mem).ddr,
        final(mem).pmem == old(mem).pmem,
        final(mem).cell(cur as int) == (CellView {
            charged: uncharged(old(mem).cell(cur as int).charged, pages as int),
            ..old(mem).cell(cur as int)
        }),
{
    let held: u64 = mem.cells[cur].charged;
    mem.cells[cur].charged = held.saturating_sub(pages);
}

/// Take one frame, to be cleared, for cell `cur`, of its own node while it has some, and
/// charge it.
pub fn alloc_user_frame(m: &Machine, mem: &mut Memory, cur: usize) -> (pa: Option<u64>)
    requires
        m.wf(),
        old(mem).wf(m),
        cur < MAX_CELLS,
    ensures
        final(mem).wf(m),
        rest_same(old(mem), final(mem), cur as int),
        pa is Some <==> affordable(old(mem).cell(cur as int).charged, &old(mem).ddr, 1),
        pa is None ==> unchanged(old(mem), final(mem), cur as int),
        pa matches Some(f) ==> {
            let i = old(mem).ddr.position(f);
            &&& old(mem).ddr.has(f)
            &&& f == old(mem).ddr.frame(i)
            &&& !old(mem).ddr.taken()[i]
            &&& final(mem).ddr.same_frames(&old(mem).ddr)
            &&& final(mem).ddr.taken() == old(mem).ddr.taken().update(i, true)
            &&& final(mem).ddr.to_clear() == old(mem).ddr.to_clear().push(f)
            &&& ({
                let node = old(mem).cell(cur as int).node;
                node != NODE_ANY && old(mem).ddr.free_on(node) ==> old(mem).ddr.homes()[i] == node
            })
            &&& final(mem).pmem == old(mem).pmem
            &&& final(mem).cell(cur as int) == (CellView {
                charged: (old(mem).cell(cur as int).charged + 1) as u64,
                ..old(mem).cell(cur as int)
            })
        },
{
    assert(mem.cells@[cur as int]@.wf(m));
    if !charge_frames(mem, cur, 1) {
        proof {
            assert forall|i: int| 0 <= i < MAX_CELLS implies (#[trigger] mem.cells@[i])@.wf(m) by {
                assert(old(mem).cells@[i]@.wf(m));
            }
        }
        return None;
    }
    let node: u8 = mem.cells[cur].node;
    let pa = mem.ddr.take_frame_on(node);
    proof {
        assert forall|i: int| 0 <= i < MAX_CELLS implies (#[trigger] mem.cells@[i])@.wf(m) by {
            assert(old(mem).cells@[i]@.wf(m));
        }
        assert forall|x: u64| !(#[trigger] mem.ddr.has(x) && mem.pmem.has(x)) by {
            assert(!(old(mem).ddr.has(x) && old(mem).pmem.has(x)));
        }
    }
    pa
}

/// Return a frame of cell `cur` and uncharge it. A frame that is not of the main
/// pool is left alone.
pub fn free_user_frame(m: &Machine, mem: &mut Memory, cur: usize, pa: u64)
    requires
        m.wf(),
        old(mem).wf(m),
        cur < MAX_CELLS,
    ensures
        final(mem).wf(m),
        rest_same(old(mem), final(mem), cur as int),
        !old(mem).ddr.has(pa) ==> unchanged(old(mem), final(mem), cur as int),
        old(mem).ddr.has(pa) ==> {
            &&& final(mem).ddr.same_frames(&old(mem).ddr)
            &&& final(mem).ddr.taken() == old(mem).ddr.taken().update(
                old(mem).ddr.position(pa),
                false,
            )
            &&& final(mem).ddr.to_clear() == old(mem).ddr.to_clear()
            &&& final(mem).pmem == old(mem).pmem
            &&& final(mem).cell(cur as int) == (CellView {
                charged: uncharged(old(mem).cell(cur as int).charged, 1),
                ..old(mem).cell(cur as int)
            })
        },
{
    if mem.ddr.free_if_pool(pa) {
        uncharge_frames(mem, cur, 1);
    }
    proof {
        assert forall|i: int| 0 <= i < MAX_CELLS implies (#[trigger] mem.cells@[i])@.wf(m) by {
            assert(old(mem).cells@[i]@.wf(m));
        }
        assert forall|x: u64| !(#[trigger] mem.ddr.has(x) && mem.pmem.has(x)) by {
            assert(!(old(mem).ddr.has(x) && old(mem).pmem.has(x)));
        }
    }
}

/// Map fresh frames, of the cell's own node while it has some, for the pages of
/// `[va, va + len)`. False, with nothing done,
/// when the range is not the cell's to map or the frames cannot be charged.
///
/// The charge checks that the pool covers the request, so the pages cannot run
/// out half way.
pub fn map_anon_at(m: &Machine, mem: &mut Memory, cur: usize, va: u64, len: u64, perm: MapPerm) -> (
    ok: bool)
    requires
        m.wf(),
        old(mem).wf(m),
        cur < MAX_CELLS,
    ensures
        final(mem).wf(m),
        ok == (len == 0 || (span_ok(m, va, len) && affordable(
            old(mem).cell(cur as int).charged,
            &old(mem).ddr,
            span_pages(va, len),
        ))),
        rest_same(old(mem), final(mem), cur as int),
        !ok || len == 0 ==> unchanged(old(mem), final(mem), cur as int),
        ok && len > 0 ==> {
            &&& final(mem).pmem == old(mem).pmem
            &&& mapped_fresh(
                old(mem).cell(cur as int).pages,
                final(mem).cell(cur as int).pages,
                &old(mem).ddr,
                &final(mem).ddr,
                span_base(va),
                span_pages(va, len),
                perm,
            )
            &&& fresh_near(
                final(mem).cell(cur as int).pages,
                &old(mem).ddr,
                &final(mem).ddr,
                span_base(va),
                span_pages(va, len),
                old(mem).cell(cur as int).node,
            )
            &&& final(mem).cell(cur as int) == (CellView {
                pages: final(mem).cell(cur as int).pages,
                charged: (old(mem).cell(cur as int).charged + span_pages(va, len)) as u64,
                ..old(mem).cell(cur as int)
            })
        },
{
    if len == 0 {
        return true;
    }
    assert(mem.cells@[cur as int]@.wf(m));
    match span(m, va, len) {
        None => false,
        Some((base, pages)) => {
            let ok = charge_frames(mem, cur, pages);
            if ok {
                let node: u8 = mem.cells[cur].node;
                map_fresh(&mut mem.cells[cur].aspace, &mut mem.ddr, base, pages, perm, node);
            }
            proof {
                assert forall|i: int| 0 <= i < MAX_CELLS implies (#[trigger] mem.cells@[i])@.wf(m) by {
                    assert(old(mem).cells@[i]@.wf(m));
                }
                assert forall|x: u64| !(#[trigger] mem.ddr.has(x) && mem.pmem.has(x)) by {
                    assert(!(old(mem).ddr.has(x) && old(mem).pmem.has(x)));
                }
            }
            ok
        },
    }
}

/// Unmap the pages of `[va, va + len)` and return their frames. Returns how many
/// went back. A range that is not the cell's unmaps nothing.
pub fn unmap_range(m: &Machine, mem: &mut Memory, cur: usize, va: u64, len: u64) -> (freed: u64)
    requires
        m.wf(),
        old(mem).wf(m),
        cur < MAX_CELLS,
    ensures
        final(mem).wf(m),
        rest_same(old(mem), final(mem), cur as int),
        len == 0 || !span_ok(m, va, len) ==> freed == 0 && unchanged(
            old(mem),
            final(mem),
            cur as int,
        ),
        len > 0 && span_ok(m, va, len) ==> unmap_outcome(
            old(mem).cell(cur as int),
            &old(mem).ddr,
            &old(mem).pmem,
            final(mem).cell(cur as int),
            &final(mem).ddr,
            &final(mem).pmem,
            span_base(va),
            span_pages(va, len),
            freed,
        ),
{
    if len == 0 {
        return 0;
    }
    match span(m, va, len) {
        None => 0,
        Some((base, pages)) => {
            let freed: u64 = unmap_pages(
                &mut mem.cells[cur].aspace,
                &mut mem.ddr,
                &mut mem.pmem,
                base,
                pages,
            );
            uncharge_frames(mem, cur, freed);
            proof {
                assert forall|i: int| 0 <= i < MAX_CELLS implies (#[trigger] mem.cells@[i])@.wf(m) by {
                    assert(old(mem).cells@[i]@.wf(m));
                }
            }
            freed
        },
    }
}

/// The pages from `base` on that sit on a frame of the pools are gone from the cell,
/// their frames are back in their pools, and the cell is no longer charged for them. A
/// page on any other frame stays.
pub open spec fn unmap_outcome(
    c0: CellView,
    ddr0: &FramePool,
    pmem0: &FramePool,
    c1: CellView,
    ddr1: &FramePool,
    pmem1: &FramePool,
    base: u64,
    pages: int,
    freed: u64,
) -> bool {
    &&& unmapped(c0.pages, c1.pages, ddr0, pmem0, base, pages)
    &&& returned(c0.pages, ddr0, ddr1, base, pages)
    &&& returned(c0.pages, pmem0, pmem1, base, pages)
    &&& freed == owned_pages(c0.pages, base, pages as nat, ddr0, pmem0)
    &&& c1 == (CellView {
        pages: c1.pages,
        charged: uncharged(c0.charged, freed as int),
        ..c0
    })
}

/// The pages from `base` on of the cell are backed with frames, and the cell is
/// charged for the fresh ones.
pub open spec fn commit_outcome(
    c0: CellView,
    ddr0: &FramePool,
    pmem0: &FramePool,
    c1: CellView,
    ddr1: &FramePool,
    pmem1: &FramePool,
    base: u64,
    pages: int,
    perm: MapPerm,
    backing: Backing,
    node: u8,
) -> bool {
    let fresh = absent_pages(c0.pages, base, pages as nat);
    let persistent = from_pmem(backing, pmem0.free_count(), fresh);
    &&& committed(c0.pages, c1.pages, ddr0, pmem0, base, pages, perm, backing)
    &&& drawn(c0.pages, c1.pages, ddr0, ddr1, base, pages)
    &&& drawn(c0.pages, c1.pages, pmem0, pmem1, base, pages)
    &&& near(c0.pages, c1.pages, ddr0, ddr1, base, pages, node)
    &&& pmem1.free_count() == pmem0.free_count() - persistent
    &&& ddr1.free_count() == ddr0.free_count() - (fresh - persistent)
    &&& c1 == (CellView {
        pages: c1.pages,
        charged: (c0.charged + fresh) as u64,
        ..c0
    })
}

/// Back the pages of `[va, va + len)` with frames of main memory, on the cell's
/// own node while it has some.
pub fn commit_range(m: &Machine, mem: &mut Memory, cur: usize, va: u64, len: u64, perm: MapPerm) -> (
    ok: bool)
    requires
        m.wf(),
        old(mem).wf(m),
        cur < MAX_CELLS,
    ensures
        final(mem).wf(m),
        ok == (len == 0 || (span_ok(m, va, len) && affordable(
            old(mem).cell(cur as int).charged,
            &old(mem).ddr,
            absent_pages(
                old(mem).cell(cur as int).pages,
                span_base(va),
                span_pages(va, len) as nat,
            ) as int,
        ))),
        rest_same(old(mem), final(mem), cur as int),
        !ok || len == 0 ==> unchanged(old(mem), final(mem), cur as int),
        ok && len > 0 ==> commit_outcome(
            old(mem).cell(cur as int),
            &old(mem).ddr,
            &old(mem).pmem,
            final(mem).cell(cur as int),
            &final(mem).ddr,
            &final(mem).pmem,
            span_base(va),
            span_pages(va, len),
            perm,
            Backing::Ddr,
            old(mem).cell(cur as int).node,
        ),
{
    let node: u8 = mem.cells[cur].node;
    commit_range_from(m, mem, cur, va, len, perm, Backing::Ddr, node)
}

/// [`commit_range`] with an explicit backing store and memory node. A page that
/// has a frame keeps it. False, with nothing done, when the range is not the
/// cell's or the pages that have no frame yet cannot be charged.
pub fn commit_range_from(
    m: &Machine,
    mem: &mut Memory,
    cur: usize,
    va: u64,
    len: u64,
    perm: MapPerm,
    backing: Backing,
    node: u8,
) -> (ok: bool)
    requires
        m.wf(),
        old(mem).wf(m),
        cur < MAX_CELLS,
    ensures
        final(mem).wf(m),
        ok == (len == 0 || (span_ok(m, va, len) && affordable(
            old(mem).cell(cur as int).charged,
            &old(mem).ddr,
            absent_pages(
                old(mem).cell(cur as int).pages,
                span_base(va),
                span_pages(va, len) as nat,
            ) as int,
        ))),
        rest_same(old(mem), final(mem), cur as int),
        !ok || len == 0 ==> unchanged(old(mem), final(mem), cur as int),
        ok && len > 0 ==> commit_outcome(
            old(mem).cell(cur as int),
            &old(mem).ddr,
            &old(mem).pmem,
            final(mem).cell(cur as int),
            &final(mem).ddr,
            &final(mem).pmem,
            span_base(va),
            span_pages(va, len),
            perm,
            backing,
            node,
        ),
{
    if len == 0 {
        return true;
    }
    assert(mem.cells@[cur as int]@.wf(m));
    match span(m, va, len) {
        None => false,
        Some((base, pages)) => {
            let absent: u64 = count_absent(&mem.cells[cur].aspace, base, pages);
            let ok = charge_frames(mem, cur, absent);
            if ok {
                let _fresh: u64 = commit_pages(
                    &mut mem.cells[cur].aspace,
                    &mut mem.ddr,
                    &mut mem.pmem,
                    base,
                    pages,
                    perm,
                    backing,
                    node,
                );
            }
            proof {
                assert forall|i: int| 0 <= i < MAX_CELLS implies (#[trigger] mem.cells@[i])@.wf(m) by {
                    assert(old(mem).cells@[i]@.wf(m));
                }
            }
            ok
        },
    }
}

/// Change the permission of the pages of `[va, va + len)`, where they are mapped.
pub fn protect_range(m: &Machine, mem: &mut Memory, cur: usize, va: u64, len: u64, perm: MapPerm)
    requires
        m.wf(),
        old(mem).wf(m),
        cur < MAX_CELLS,
        va + len <= u64::MAX - FRAME_SIZE,
    ensures
        final(mem).wf(m),
        rest_same(old(mem), final(mem), cur as int),
        pools_same(old(mem), final(mem)),
        final(mem).cell(cur as int) == (CellView {
            pages: if len == 0 {
                old(mem).cell(cur as int).pages
            } else {
                all_protected(
                    old(mem).cell(cur as int).pages,
                    span_base(va),
                    span_pages(va, len) as nat,
                    perm,
                )
            },
            ..old(mem).cell(cur as int)
        }),
{
    if len == 0 {
        return ;
    }
    let base: u64 = page_base(va);
    let pages: u64 = page_count(va + len - base);
    protect_pages(&mut mem.cells[cur].aspace, base, pages, perm);
    proof {
        assert forall|i: int| 0 <= i < MAX_CELLS implies (#[trigger] mem.cells@[i])@.wf(m) by {
            assert(old(mem).cells@[i]@.wf(m));
        }
    }
}

/// A mapping of `bytes` bytes was placed in the lowest hole of `[lo, hi)`, with
/// fresh frames under all of it, of the cell's own node while it has some.
pub open spec fn placed(
    before: &Memory,
    after: &Memory,
    cur: int,
    base: u64,
    bytes: u64,
    lo: u64,
    hi: u64,
    kind: RegionKind,
    perm: MapPerm,
) -> bool {
    let pages = bytes as int / FRAME_SIZE as int;
    let regions = before.cell(cur).regions;
    &&& fits(regions, base as int, bytes as int, lo as int, hi as int)
    &&& forall|b: int|
        lo <= b < base ==> !#[trigger] fits(regions, b, bytes as int, lo as int, hi as int)
    &&& after.pmem == before.pmem
    &&& mapped_fresh(
        before.cell(cur).pages,
        after.cell(cur).pages,
        &before.ddr,
        &after.ddr,
        base,
        pages,
        perm,
    )
    &&& fresh_near(
        after.cell(cur).pages,
        &before.ddr,
        &after.ddr,
        base,
        pages,
        before.cell(cur).node,
    )
    &&& after.cell(cur) == (CellView {
        pages: after.cell(cur).pages,
        regions: regions.push(Region { base, len: bytes, kind }),
        charged: (before.cell(cur).charged + pages) as u64,
        ..before.cell(cur)
    })
}

/// `len` bytes in whole pages, or `None` when that is more than an address.
pub open spec fn whole_pages(len: u64) -> Option<u64> {
    if pages_in(len as int) * FRAME_SIZE <= u64::MAX {
        Some((pages_in(len as int) * FRAME_SIZE) as u64)
    } else {
        None
    }
}

/// Whether a mapping of `bytes` bytes can be placed in `[lo, hi)`.
pub open spec fn placeable(c: CellView, ddr: &FramePool, bytes: u64, lo: u64, hi: u64) -> bool {
    &&& c.regions.len() < c.records
    &&& exists|b: int| #[trigger] fits(c.regions, b, bytes as int, lo as int, hi as int)
    &&& affordable(c.charged, ddr, bytes as int / FRAME_SIZE as int)
}

/// `len` rounded up to whole pages.
fn page_up(len: u64) -> (b: Option<u64>)
    ensures
        b == whole_pages(len),
{
    let pages: u64 = page_count(len);
    if pages > u64::MAX / FRAME_SIZE {
        return None;
    }
    Some(pages * FRAME_SIZE)
}

/// Place a mapping of `bytes` bytes in `[lo, hi)`, charge it and map it. `None`,
/// with nothing done, when there is no hole for it or it cannot be charged.
fn place(
    m: &Machine,
    mem: &mut Memory,
    cur: usize,
    bytes: u64,
    lo: u64,
    hi: u64,
    kind: RegionKind,
    perm: MapPerm,
) -> (r: Option<u64>)
    requires
        m.wf(),
        old(mem).wf(m),
        cur < MAX_CELLS,
        bytes > 0,
        bytes % FRAME_SIZE == 0,
        0 < lo < hi <= m.user_va_max,
    ensures
        final(mem).wf(m),
        rest_same(old(mem), final(mem), cur as int),
        r is Some <==> placeable(old(mem).cell(cur as int), &old(mem).ddr, bytes, lo, hi),
        r is None ==> unchanged(old(mem), final(mem), cur as int),
        r matches Some(base) ==> placed(
            old(mem),
            final(mem),
            cur as int,
            base,
            bytes,
            lo,
            hi,
            kind,
            perm,
        ),
{
    assert(mem.cells@[cur as int]@.wf(m));
    let ghost regions = mem.cells@[cur as int]@.regions;
    match mem.cells[cur].va.reserve_in(lo, hi, bytes, kind) {
        Err(_) => {
            proof {
                assert forall|i: int| 0 <= i < MAX_CELLS implies (#[trigger] mem.cells@[i])@.wf(m) by {
                    assert(old(mem).cells@[i]@.wf(m));
                }
            }
            None
        },
        Ok(base) => {
            assert(fits(regions, base as int, bytes as int, lo as int, hi as int));
            let ghost with_region = regions.push(Region { base, len: bytes, kind });
            proof {
                lemma_grants_kept(
                    old(mem).cells@[cur as int]@,
                    mem.cells@[cur as int]@,
                    Region { base, len: bytes, kind },
                );
            }
            let pages: u64 = bytes / FRAME_SIZE;
            if !writable(m, base, bytes) || !charge_frames(mem, cur, pages) {
                mem.cells[cur].va.release_at(base);
                proof {
                    assert(with_region[regions.len() as int].base == base);
                    law_reserve_then_release(
                        regions,
                        Region { base, len: bytes, kind },
                        mem.cells@[cur as int]@.regions,
                    );
                    assert forall|i: int| 0 <= i < MAX_CELLS implies (#[trigger] mem.cells@[i])@.wf(
                        m,
                    ) by {
                        assert(old(mem).cells@[i]@.wf(m));
                    }
                }
                return None;
            }
            let node: u8 = mem.cells[cur].node;
            map_fresh(&mut mem.cells[cur].aspace, &mut mem.ddr, base, pages, perm, node);
            proof {
                assert forall|i: int| 0 <= i < MAX_CELLS implies (#[trigger] mem.cells@[i])@.wf(m) by {
                    assert(old(mem).cells@[i]@.wf(m));
                }
                assert forall|x: u64| !(#[trigger] mem.ddr.has(x) && mem.pmem.has(x)) by {
                    assert(!(old(mem).ddr.has(x) && old(mem).pmem.has(x)));
                }
            }
            Some(base)
        },
    }
}

/// What mapping `len` bytes of fresh memory does, and what it returns.
pub open spec fn mmap_done(m: &Machine, before: &Memory, after: &Memory, cur: int, len: u64, base: u64) -> bool {
    &&& rest_same(before, after, cur)
    &&& base != 0 <==> (len > 0 && whole_pages(len) is Some && placeable(
            before.cell(cur),
            &before.ddr,
            whole_pages(len)->0,
            MMAP_BASE,
            USER_QUEUE_VA,
        ))
    &&& base == 0 ==> unchanged(before, after, cur)
    &&& base != 0 ==> placed(
            before,
            after,
            cur,
            base,
            whole_pages(len)->0,
            MMAP_BASE,
            USER_QUEUE_VA,
            RegionKind::Anon,
            MapPerm::UserRw,
        )
}

/// Map `len` bytes of fresh memory where there is room. Returns the address, or 0
/// with nothing done.
pub fn mmap_anon(m: &Machine, mem: &mut Memory, cur: usize, len: u64) -> (base: u64)
    requires
        m.wf(),
        old(mem).wf(m),
        cur < MAX_CELLS,
    ensures
        final(mem).wf(m),
        mmap_done(m, old(mem), final(mem), cur as int, len, base),
{
    if len == 0 {
        return 0;
    }
    match page_up(len) {
        None => 0,
        Some(bytes) => {
            match place(
                m,
                mem,
                cur,
                bytes,
                MMAP_BASE,
                USER_QUEUE_VA,
                RegionKind::Anon,
                MapPerm::UserRw,
            ) {
                Some(base) => base,
                None => 0,
            }
        },
    }
}

/// One page of a file mapping to be filled: the frame, the position in the file
/// and how many bytes to read. The rest of the frame stays zero.
#[derive(Copy, Clone, PartialEq, Eq, Debug, Structural)]
pub struct PageRead {
    pub pa: u64,
    pub file_off: u64,
    pub want: u64,
}

/// The read that fills page `k` of a file mapping. A position past the end of the
/// number range wraps.
pub open spec fn page_read(pa: u64, offset: u64, len: u64, k: int) -> PageRead {
    let rest = len - k * FRAME_SIZE;
    PageRead {
        pa,
        file_off: ((offset + k * FRAME_SIZE) % 0x1_0000_0000_0000_0000) as u64,
        want: if rest < FRAME_SIZE {
            rest as u64
        } else {
            FRAME_SIZE
        },
    }
}

/// What mapping `len` bytes of a file does, and what it returns.
pub open spec fn mmap_file_done(m: &Machine, before: &Memory, after: &Memory, cur: int, served: bool, offset: u64, len: u64, r: (u64, Vec<PageRead>)) -> bool {
    &&& rest_same(before, after, cur)
    &&& r.0 != 0 <==> (len > 0 && served && whole_pages(len) is Some && placeable(
            before.cell(cur),
            &before.ddr,
            whole_pages(len)->0,
            FILEMMAP_BASE,
            USER_CHANNEL_VA,
        ))
    &&& r.0 == 0 ==> unchanged(before, after, cur) && r.1@.len() == 0
    &&& r.0 != 0 ==> {
            &&& placed(
                before,
                after,
                cur,
                r.0,
                whole_pages(len)->0,
                FILEMMAP_BASE,
                USER_CHANNEL_VA,
                RegionKind::File,
                MapPerm::UserRo,
            )
            &&& r.1@.len() == pages_in(len as int)
            &&& forall|k: int|
                0 <= k < r.1@.len() ==> #[trigger] r.1@[k] == page_read(
                    after.cell(cur).pages[nth_page(r.0, k)].pa,
                    offset,
                    len,
                    k,
                )
        }
}

/// Map `len` bytes of a file from `offset` on, read-only, where there is room.
/// Returns the address and the reads that fill the pages, in order, or 0 with
/// nothing done. `served` says whether there is a file service.
pub fn mmap_file(m: &Machine, mem: &mut Memory, cur: usize, served: bool, offset: u64, len: u64) -> (r: (
    u64,
    Vec<PageRead>,
))
    requires
        m.wf(),
        old(mem).wf(m),
        cur < MAX_CELLS,
    ensures
        final(mem).wf(m),
        mmap_file_done(m, old(mem), final(mem), cur as int, served, offset, len, r),
{
    let mut reads: Vec<PageRead> = Vec::new();
    if len == 0 || !served {
        return (0, reads);
    }
    match page_up(len) {
        None => (0, reads),
        Some(bytes) => {
            match place(
                m,
                mem,
                cur,
                bytes,
                FILEMMAP_BASE,
                USER_CHANNEL_VA,
                RegionKind::File,
                MapPerm::UserRo,
            ) {
                None => (0, reads),
                Some(base) => {
                    let pages: u64 = bytes / FRAME_SIZE;
                    let mut k: u64 = 0;
                    let ghost map = mem.cell(cur as int).pages;
                    proof {
                        lemma_nth_page(base, pages as int);
                    }
                    while k < pages
                        invariant
                            k <= pages,
                            cur < mem.cells@.len(),
                            map == mem.cell(cur as int).pages,
                            pages_fit(base, pages as int),
                            pages == pages_in(len as int),
                            forall|j: int|
                                0 <= j < pages ==> #[trigger] map.dom().contains(nth_page(base, j)),
                            reads@.len() == k,
                            forall|j: int|
                                0 <= j < k ==> #[trigger] reads@[j] == page_read(
                                    map[nth_page(base, j)].pa,
                                    offset,
                                    len,
                                    j,
                                ),
                        decreases pages - k,
                    {
                        proof {
                            lemma_nth_page(base, pages as int);
                            assert(map.dom().contains(nth_page(base, k as int)));
                        }
                        let pa: u64 = match mem.cells[cur].aspace.lookup(base + k * FRAME_SIZE) {
                            Some(p) => p.pa,
                            None => 0,
                        };
                        let rest: u64 = len - k * FRAME_SIZE;
                        reads.push(
                            PageRead {
                                pa,
                                file_off: offset.wrapping_add(k * FRAME_SIZE),
                                want: if rest < FRAME_SIZE { rest } else { FRAME_SIZE },
                            },
                        );
                        k = k + 1;
                    }
                    (base, reads)
                },
            }
        },
    }
}

} // verus!
