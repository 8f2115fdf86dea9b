//! Typed memory grants: reserve, commit, decommit, seal, share and unmap.

use vstd::prelude::*;
use crate::kernel::aspace::{in_pages, page_at, page_base, page_floor, AddressSpace, MapPerm, Page};
use crate::kernel::capability::{checked, has_room, held, minted, replaced, revoked, spent, CapError, CapSlot, Capability, Object, ObjectKind, BUDGET_UNLIMITED, DELEGATE, MAP, READ, REVOKE, WRITE};
use crate::kernel::frames::{FramePool, FRAME_SIZE};
use crate::kernel::machine::{Machine, GRANT_BASE, MMAP_BASE, USER_QUEUE_VA};
use crate::kernel::memory::{affordable, commit_outcome, commit_range_from, is_record_of, lemma_grant_given, lemma_grants_kept, lemma_grants_stay, no_grant, on_record_as, placed, pools_same, protect_range, rest_same, span_base, span_ok, span_pages, unchanged, unmap_outcome, unmap_range, whole_pages, CellView, GrantSlot, Memory, MAX_CELLS, MAX_GRANTS_PER_CELL, REFUSED};
use crate::kernel::pages::{absent_pages, all_protected, count_absent, law_unmap_undoes_map, mapped_fresh, nth_page, owned_pages, share_ro_into, shared_into, Backing};
use crate::kernel::uaccess::{may_write, writable};
use crate::kernel::vaspace::{disjoint, fits, law_reserve_then_release, released, Region, RegionKind};

verus! {

/// Which grant of a cell is meant.
#[derive(Copy, Clone, PartialEq, Eq, Debug, Structural)]
pub enum Wanted {
    /// A slot that is free.
    Free,
    /// The grant that a capability names.
    Named(u32),
    /// The grant that covers `[0, 1)` of the pair.
    Covering(u64, u64),
    /// The grant that starts at an address.
    At(u64),
}

/// Whether a slot is the one that is meant.
pub open spec fn hits(s: GrantSlot, w: Wanted) -> bool {
    match w {
        Wanted::Free => !s.in_use,
        Wanted::Named(cap_id) => s.in_use && s.cap_id == cap_id,
        Wanted::Covering(base, end) => s.in_use && base >= s.base && end <= s.base + s.len,
        Wanted::At(base) => s.in_use && s.base == base,
    }
}

/// The first slot from `from` on that is meant.
pub open spec fn slot_from(grants: Seq<GrantSlot>, w: Wanted, from: int) -> Option<int>
    decreases grants.len() - from,
{
    if from < 0 || from >= grants.len() {
        None
    } else if hits(grants[from], w) {
        Some(from)
    } else {
        slot_from(grants, w, from + 1)
    }
}

/// The first slot that is meant.
pub open spec fn slot_of(grants: Seq<GrantSlot>, w: Wanted) -> Option<int> {
    slot_from(grants, w, 0)
}

/// What [`slot_of`] finds is in the table and is meant.
pub proof fn lemma_slot_of(grants: Seq<GrantSlot>, w: Wanted, from: int)
    requires
        0 <= from,
    ensures
        slot_from(grants, w, from) matches Some(i) ==> from <= i < grants.len() && hits(grants[i], w),
        slot_from(grants, w, from) is None ==> forall|i: int|
            from <= i < grants.len() ==> !hits(#[trigger] grants[i], w),
    decreases grants.len() - from,
{
    if from < grants.len() && !hits(grants[from], w) {
        lemma_slot_of(grants, w, from + 1);
    }
}

/// The first slot that is meant.
fn find_slot(grants: &Vec<GrantSlot>, w: Wanted) -> (at: Option<usize>)
    requires
        forall|i: int|
            0 <= i < grants@.len() ==> #[trigger] grants@[i].in_use ==> grants@[i].base
                + grants@[i].len <= u64::MAX,
    ensures
        match at {
            Some(i) => slot_of(grants@, w) == Some(i as int) && i < grants@.len() && hits(
                grants@[i as int],
                w,
            ),
            None => slot_of(grants@, w) is None,
        },
{
    let mut i: usize = 0;
    while i < grants.len()
        invariant
            i <= grants@.len(),
            slot_of(grants@, w) == slot_from(grants@, w, i as int),
            forall|j: int|
                0 <= j < grants@.len() ==> #[trigger] grants@[j].in_use ==> grants@[j].base
                    + grants@[j].len <= u64::MAX,
        decreases grants@.len() - i,
    {
        let s: GrantSlot = grants[i];
        assert(grants@[i as int].in_use ==> s.base + s.len <= u64::MAX);
        let hit: bool = match w {
            Wanted::Free => !s.in_use,
            Wanted::Named(cap_id) => s.in_use && s.cap_id == cap_id,
            Wanted::Covering(base, end) => s.in_use && base >= s.base && end <= s.base + s.len,
            Wanted::At(base) => s.in_use && s.base == base,
        };
        if hit {
            return Some(i);
        }
        i = i + 1;
    }
    None
}

/// What a grant request is answered with.
#[derive(Copy, Clone, PartialEq, Eq, Debug, Structural)]
pub struct GrantInfo {
    pub base: u64,
    pub cap_id: u64,
}

/// What a share request is answered with.
#[derive(Copy, Clone, PartialEq, Eq, Debug, Structural)]
pub struct ShareInfo {
    pub peer_va: u64,
    pub peer_cap_id: u64,
}

/// Whether a reply of `size` bytes can be written at `va`.
pub open spec fn reply_ok(m: &Machine, va: u64, size: u64) -> bool {
    va % 8 == 0 && may_write(m, va, size)
}

/// Whether a reply of `size` bytes can be written at `va`.
pub fn user_out(m: &Machine, va: u64, size: u64) -> (ok: bool)
    ensures
        ok == reply_ok(m, va, size),
{
    va % 8 == 0 && writable(m, va, size)
}

/// Every right a cell gets on a grant of its own.
pub open spec fn grant_rights() -> u32 {
    READ | WRITE | MAP | DELEGATE | REVOKE
}

/// Whether a grant request makes sense: some memory, of a kind that has backing
/// here, with room for the reply, by a cell that has capability tables.
pub open spec fn grant_sensible(
    m: &Machine,
    c: CellView,
    out_va: u64,
    len: u64,
    kind: u64,
) -> bool {
    &&& len > 0
    &&& kind <= 5
    &&& kind != 4
    &&& reply_ok(m, out_va, 16)
    &&& whole_pages(len) is Some
    &&& c.tables
}

/// The memory node that a grant's frames should come from: the one asked for if
/// the machine has it, and else the cell's own.
pub open spec fn grant_node(m: &Machine, c: CellView, node_hint: u64) -> u8 {
    if node_hint < m.nodes_known {
        node_hint as u8
    } else {
        c.node
    }
}

/// Whether the cell has everything that a grant of `bytes` bytes takes: an object, a
/// handle, a slot, and room in the grant range.
pub open spec fn grant_room(m: &Machine, mem: &Memory, cur: int, bytes: u64) -> bool {
    let c = mem.cell(cur);
    &&& mem.objects@.len() < mem.objects.object_limit()
    &&& has_room(c.caps, c.cap_limit)
    &&& slot_of(c.grants, Wanted::Free) is Some
    &&& c.regions.len() < c.records
    &&& exists|b: int|
        #[trigger] fits(c.regions, b, bytes as int, GRANT_BASE as int, m.user_va_max as int)
}

/// What a sensible grant request does. Without room for all that it takes it is
/// refused, and nothing moves.
pub open spec fn grant_created(
    m: &Machine,
    before: &Memory,
    after: &Memory,
    cur: int,
    len: u64,
    kind: u64,
    node_hint: u64,
    code: u64,
    info: Option<GrantInfo>,
) -> bool {
    let c0 = before.cell(cur);
    let c1 = after.cell(cur);
    let bytes = whole_pages(len)->0;
    let object = before.objects@.len();
    if !grant_room(m, before, cur, bytes) {
        &&& code == REFUSED
        &&& info is None
        &&& unchanged(before, after, cur)
    } else {
        let cap = Capability {
            object: object as u32,
            rights: grant_rights(),
            budget: BUDGET_UNLIMITED,
            epoch: 0,
        };
        let slot = slot_of(c0.grants, Wanted::Free);
        &&& after.objects@ == before.objects@.push(
            Object { kind: ObjectKind::MemoryGrant, epoch: 0 },
        )
        &&& after.objects.object_limit() == before.objects.object_limit()
        &&& after.system == before.system
        &&& after.noticed@ == before.noticed@
        &&& after.cells@.len() == before.cells@.len()
        &&& forall|i: int|
            0 <= i < before.cells@.len() && i != cur ==> (#[trigger] after.cells@[i])@
                == before.cells@[i]@
        &&& pools_same(before, after)
        &&& code == 0
        &&& info matches Some(g) && {
            &&& g.cap_id <= u32::MAX
            &&& minted(c0.caps, c1.caps, g.cap_id as u32, cap)
            &&& fits(
                c0.regions,
                g.base as int,
                bytes as int,
                GRANT_BASE as int,
                m.user_va_max as int,
            )
            &&& forall|b: int|
                GRANT_BASE <= b < g.base ==> !#[trigger] fits(
                    c0.regions,
                    b,
                    bytes as int,
                    GRANT_BASE as int,
                    m.user_va_max as int,
                )
            &&& c1 == (CellView {
                caps: c1.caps,
                regions: c0.regions.push(
                    Region { base: g.base, len: bytes, kind: RegionKind::Grant },
                ),
                grants: c0.grants.update(
                    slot->0,
                    GrantSlot {
                        in_use: true,
                        base: g.base,
                        len: bytes,
                        kind: kind as u8,
                        node: grant_node(m, c0, node_hint),
                        sealed: false,
                        cap_id: g.cap_id as u32,
                    },
                ),
                ..c0
            })
        }
    }
}

/// What a grant request does, and what it returns.
pub open spec fn create_done(m: &Machine, before: &Memory, after: &Memory, cur: int, out_va: u64, len: u64, kind: u64, node_hint: u64, r: (u64, Option<GrantInfo>)) -> bool {
    &&& !grant_sensible(m, before.cell(cur), out_va, len, kind) ==> r.0 == REFUSED
            && r.1 is None && unchanged(before, after, cur)
    &&& grant_sensible(m, before.cell(cur), out_va, len, kind) ==> grant_created(
            m,
            before,
            after,
            cur,
            len,
            kind,
            node_hint,
            r.0,
            r.1,
        )
}

/// Reserve `len` bytes of typed memory and mint a capability on it. No frame is
/// taken yet. Returns 0 and where the grant is, or the refusal.
pub fn grant_create(
    m: &Machine,
    mem: &mut Memory,
    cur: usize,
    out_va: u64,
    len: u64,
    kind: u64,
    node_hint: u64,
) -> (r: (u64, Option<GrantInfo>))
    requires
        m.wf(),
        old(mem).wf(m),
        cur < MAX_CELLS,
    ensures
        final(mem).wf(m),
        create_done(m, old(mem), final(mem), cur as int, out_va, len, kind, node_hint, r),
{
    if len == 0 || kind > 5 || kind == 4 {
        return (REFUSED, None);
    }
    if !user_out(m, out_va, 16) {
        return (REFUSED, None);
    }
    if len > u64::MAX - FRAME_SIZE + 1 {
        return (REFUSED, None);
    }
    let bytes: u64 = page_base(len + (FRAME_SIZE - 1));
    if !mem.cells[cur].tables {
        return (REFUSED, None);
    }
    assert(mem.cells@[cur as int]@.wf(m));
    let ghost c0 = mem.cells@[cur as int]@;
    if !mem.objects.has_space() || !mem.cells[cur].caps.has_space() {
        return (REFUSED, None);
    }
    proof {
        assert forall|i: int|
            0 <= i < c0.grants.len() && #[trigger] c0.grants[i].in_use implies c0.grants[i].base
            + c0.grants[i].len <= u64::MAX by {
            assert(c0.grants[i].wf(m));
        }
    }
    let slot: usize = match find_slot(&mem.cells[cur].grants, Wanted::Free) {
        Some(i) => i,
        None => {
            return (REFUSED, None);
        },
    };
    let base: u64 = match mem.cells[cur].va.reserve_in(
        GRANT_BASE,
        m.user_va_max,
        bytes,
        RegionKind::Grant,
    ) {
        Ok(b) => b,
        Err(_) => {
            proof {
                assert forall|i: int| 0 <= i < MAX_CELLS implies (#[trigger] mem.cells@[i])@.wf(m) by {
                    assert(old(mem).cells@[i]@.wf(m));
                }
            }
            return (REFUSED, None);
        },
    };
    assert(fits(
        c0.regions,
        base as int,
        bytes as int,
        GRANT_BASE as int,
        m.user_va_max as int,
    ));
    // There is room for both, so neither of the two is refused.
    let object: u32 = match mem.objects.create(ObjectKind::MemoryGrant) {
        Ok(o) => o,
        Err(_) => {
            assert(false);
            0
        },
    };
    let cap_id: u32 = match mem.cells[cur].caps.mint(
        &mem.objects,
        object,
        READ | WRITE | MAP | DELEGATE | REVOKE,
        BUDGET_UNLIMITED,
    ) {
        Ok(h) => h,
        Err(_) => {
            assert(false);
            0
        },
    };
    let node: u8 = if node_hint < m.nodes_known as u64 {
        node_hint as u8
    } else {
        mem.cells[cur].node
    };
    mem.cells[cur].grants[slot] = GrantSlot {
        in_use: true,
        base,
        len: bytes,
        kind: kind as u8,
        node,
        sealed: false,
        cap_id,
    };
    proof {
        let c1 = mem.cells@[cur as int]@;
        assert forall|i: int| 0 <= i < c1.grants.len() implies #[trigger] c1.grants[i].wf(m) by {
            assert(c0.grants[i].wf(m));
        }
        assert(c1.grants =~= c0.grants.update(slot as int, c1.grants[slot as int]));
        assert(c1.regions =~= c0.regions.push(
            Region { base, len: bytes, kind: RegionKind::Grant },
        ));
        lemma_grant_given(c0, c1, slot as int, c1.grants[slot as int]);
        assert forall|i: int| 0 <= i < MAX_CELLS implies (#[trigger] mem.cells@[i])@.wf(m) by {
            assert(old(mem).cells@[i]@.wf(m));
        }
    }
    (0, Some(GrantInfo { base, cap_id: cap_id as u64 }))
}


/// The grant that a capability of the cell gives power over: the capability is
/// good and carries MAP, and a grant of the cell goes by it.
pub open spec fn resolved(c: CellView, objects: Seq<Object>, cap_id: u32) -> Option<GrantSlot> {
    if !c.tables || checked(c.caps, objects, cap_id, MAP) is Err {
        None
    } else {
        match slot_of(c.grants, Wanted::Named(cap_id)) {
            None => None,
            Some(i) => Some(c.grants[i]),
        }
    }
}

/// The cell's capabilities once `cap_id` was checked for `right`.
pub open spec fn caps_after_check(
    c: CellView,
    objects: Seq<Object>,
    cap_id: u32,
    right: u32,
) -> Seq<CapSlot> {
    if c.tables && checked(c.caps, objects, cap_id, right) is Ok {
        replaced(c.caps, cap_id, spent(held(c.caps, cap_id)->0))
    } else {
        c.caps
    }
}

/// The cell once `cap_id` was checked for `right`.
pub open spec fn after_check(
    c: CellView,
    objects: Seq<Object>,
    cap_id: u32,
    right: u32,
) -> CellView {
    CellView { caps: caps_after_check(c, objects, cap_id, right), ..c }
}

/// Nothing moved but what checking `cap_id` for `right` spends.
pub open spec fn only_checked(
    before: &Memory,
    after: &Memory,
    cur: int,
    cap_id: u32,
    right: u32,
) -> bool {
    &&& rest_same(before, after, cur)
    &&& pools_same(before, after)
    &&& after.cell(cur) == after_check(before.cell(cur), before.objects@, cap_id, right)
}

/// Check a capability of the cell for a right. Spends one use of it.
fn check_right(m: &Machine, mem: &mut Memory, cur: usize, cap_id: u32, right: u32) -> (o: Option<u32>)
    requires
        m.wf(),
        old(mem).wf(m),
        cur < MAX_CELLS,
    ensures
        final(mem).wf(m),
        rest_same(old(mem), final(mem), cur as int),
        pools_same(old(mem), final(mem)),
        final(mem).ddr == old(mem).ddr,
        final(mem).pmem == old(mem).pmem,
        final(mem).cell(cur as int) == after_check(
            old(mem).cell(cur as int),
            old(mem).objects@,
            cap_id,
            right,
        ),
        o is Some <==> old(mem).cell(cur as int).tables && checked(
            old(mem).cell(cur as int).caps,
            old(mem).objects@,
            cap_id,
            right,
        ) is Ok,
        o matches Some(object) ==> checked(
            old(mem).cell(cur as int).caps,
            old(mem).objects@,
            cap_id,
            right,
        ) == Ok::<u32, CapError>(object) && object < old(mem).objects@.len(),
{
    if !mem.cells[cur].tables {
        return None;
    }
    assert(mem.cells@[cur as int]@.wf(m));
    let r = mem.cells[cur].caps.grant_check_low32(&mem.objects, cap_id, right);
    proof {
        assert forall|i: int| 0 <= i < MAX_CELLS implies (#[trigger] mem.cells@[i])@.wf(m) by {
            assert(old(mem).cells@[i]@.wf(m));
        }
    }
    match r {
        Ok(object) => Some(object),
        Err(_) => None,
    }
}

/// Resolve a capability to the grant it gives power over.
fn grant_resolve(m: &Machine, mem: &mut Memory, cur: usize, cap_id: u32) -> (r: Option<(
    usize,
    GrantSlot,
)>)
    requires
        m.wf(),
        old(mem).wf(m),
        cur < MAX_CELLS,
    ensures
        final(mem).wf(m),
        rest_same(old(mem), final(mem), cur as int),
        final(mem).ddr == old(mem).ddr,
        final(mem).pmem == old(mem).pmem,
        final(mem).cell(cur as int) == after_check(
            old(mem).cell(cur as int),
            old(mem).objects@,
            cap_id,
            MAP,
        ),
        match r {
            None => resolved(old(mem).cell(cur as int), old(mem).objects@, cap_id) is None,
            Some((i, slot)) => {
                &&& resolved(old(mem).cell(cur as int), old(mem).objects@, cap_id) == Some(slot)
                &&& i < MAX_GRANTS_PER_CELL
                &&& slot_of(old(mem).cell(cur as int).grants, Wanted::Named(cap_id)) == Some(
                    i as int,
                )
                &&& slot == old(mem).cell(cur as int).grants[i as int]
                &&& slot.in_use
                &&& slot.cap_id == cap_id
                &&& slot.wf(m)
            },
        },
{
    if check_right(m, mem, cur, cap_id, MAP).is_none() {
        return None;
    }
    let ghost c = mem.cells@[cur as int]@;
    proof {
        assert(c.wf(m));
        assert forall|i: int|
            0 <= i < c.grants.len() && #[trigger] c.grants[i].in_use implies c.grants[i].base
            + c.grants[i].len <= u64::MAX by {
            assert(c.grants[i].wf(m));
        }
    }
    match find_slot(&mem.cells[cur].grants, Wanted::Named(cap_id)) {
        None => None,
        Some(i) => {
            assert(c.grants[i as int].wf(m));
            Some((i, mem.cells[cur].grants[i]))
        },
    }
}

/// The backing store for a kind of memory.
pub open spec fn backing_of(kind: u8) -> Backing {
    if kind == 3 {
        Backing::Pmem
    } else {
        Backing::Ddr
    }
}

impl Backing {
    /// The backing store for a kind of memory: persistent memory has its own, and
    /// everything else is main memory.
    pub fn from_kind(kind: u8) -> (b: Backing)
        ensures
            b == backing_of(kind),
    {
        match kind {
            3 => Backing::Pmem,
            _ => Backing::Ddr,
        }
    }
}

/// Why a kind of memory is backed by main memory.
#[derive(Copy, Clone, PartialEq, Eq, Debug, Structural)]
pub enum Fallback {
    /// The machine has no persistent memory.
    NoNvdimm,
    /// The kind is only emulated.
    Emulated,
}

/// A substitution to be reported.
#[derive(Copy, Clone, PartialEq, Eq, Debug, Structural)]
pub struct Notice {
    pub kind: u8,
    pub why: Fallback,
}

/// Where the report of a kind is kept.
pub open spec fn notice_index(kind: u8) -> int {
    if kind < 5 {
        kind as int
    } else {
        5
    }
}

/// Report, once for each kind, that the kind is not backed by its own memory.
fn note_backing_fallback(noticed: &mut Vec<bool>, kind: u8, why: Fallback) -> (n: Option<Notice>)
    requires
        old(noticed)@.len() == 6,
    ensures
        final(noticed)@ == old(noticed)@.update(notice_index(kind), true),
        n == (if old(noticed)@[notice_index(kind)] {
            None::<Notice>
        } else {
            Some(Notice { kind, why })
        }),
{
    let k: usize = if kind < 5 { kind as usize } else { 5 };
    if noticed[k] {
        assert(noticed@ =~= old(noticed)@.update(notice_index(kind), true));
        return None;
    }
    noticed[k] = true;
    Some(Notice { kind, why })
}

/// The name of a kind of memory in a report.
pub fn kind_name(kind: u8) -> (s: &'static str)
    ensures
        s@ == (match kind {
            1u8 => "Hbm"@,
            2u8 => "Cxl"@,
            3u8 => "Pmem"@,
            5u8 => "Remote"@,
            _ => "Ddr"@,
        }),
{
    match kind {
        1 => "Hbm",
        2 => "Cxl",
        3 => "Pmem",
        5 => "Remote",
        _ => "Ddr",
    }
}

/// The substitution that committing a kind of memory would report.
pub open spec fn fallback_of(kind: u8, nvdimm: bool) -> Option<Fallback> {
    if kind == 3 && !nvdimm {
        Some(Fallback::NoNvdimm)
    } else if kind == 1 || kind == 2 || kind == 5 {
        Some(Fallback::Emulated)
    } else {
        None
    }
}

/// Whether `[offset, offset + len)` lies in the grant and the grant is not sealed.
pub open spec fn open_span(slot: GrantSlot, offset: u64, len: u64) -> bool {
    !slot.sealed && offset + len <= slot.len
}

/// Whether `[offset, offset + len)` lies in the grant and the grant is not sealed.
fn is_open_span(slot: &GrantSlot, offset: u64, len: u64) -> (yes: bool)
    ensures
        yes == open_span(*slot, offset, len),
{
    !slot.sealed && offset <= slot.len && len <= slot.len - offset
}

/// What committing `[offset, offset + len)` of a grant does once it is allowed:
/// the pages that have no frame get one if the cell can be charged for them, and the
/// call succeeds either way.
pub open spec fn grant_commit_outcome(
    m: &Machine,
    before: &Memory,
    after: &Memory,
    cur: int,
    cap_id: u32,
    slot: GrantSlot,
    offset: u64,
    len: u64,
) -> bool {
    let c0 = after_check(before.cell(cur), before.objects@, cap_id, MAP);
    let at = (slot.base + offset) as u64;
    if len > 0 && affordable(
        c0.charged,
        &before.ddr,
        absent_pages(c0.pages, span_base(at), span_pages(at, len) as nat) as int,
    ) {
        commit_outcome(
            c0,
            &before.ddr,
            &before.pmem,
            after.cell(cur),
            &after.ddr,
            &after.pmem,
            span_base(at),
            span_pages(at, len),
            MapPerm::UserRw,
            backing_of(slot.kind),
            slot.node,
        )
    } else {
        &&& after.cell(cur) == c0
        &&& pools_same(before, after)
    }
}

/// What committing a part of a grant does, and what it returns.
pub open spec fn commit_done(m: &Machine, before: &Memory, after: &Memory, cur: int, cap_id: u32, offset: u64, len: u64, nvdimm: bool, r: (u64, Option<Notice>)) -> bool {
    &&& after.cells@.len() == before.cells@.len()
    &&& forall|i: int|
            0 <= i < MAX_CELLS && i != cur ==> (#[trigger] after.cells@[i])@ == before.cells@[i]@
    &&& after.objects@ == before.objects@
    &&& after.system == before.system
    &&& match resolved(before.cell(cur), before.objects@, cap_id) {
            None => {
                &&& r.0 == REFUSED
                &&& r.1 is None
                &&& only_checked(before, after, cur, cap_id, MAP)
            },
            Some(slot) => if !open_span(slot, offset, len) {
                &&& r.0 == REFUSED
                &&& r.1 is None
                &&& only_checked(before, after, cur, cap_id, MAP)
            } else {
                &&& r.0 == 0
                &&& match fallback_of(slot.kind, nvdimm) {
                    None => r.1 is None && after.noticed@ == before.noticed@,
                    Some(why) => {
                        &&& after.noticed@ == before.noticed@.update(
                            notice_index(slot.kind),
                            true,
                        )
                        &&& r.1 == (if before.noticed@[notice_index(slot.kind)] {
                            None::<Notice>
                        } else {
                            Some(Notice { kind: slot.kind, why })
                        })
                    },
                }
                &&& grant_commit_outcome(
                    m,
                    before,
                    after,
                    cur,
                    cap_id,
                    slot,
                    offset,
                    len,
                )
            },
        }
}

/// Back `[offset, offset + len)` of a grant with frames. Refused for a capability
/// that does not resolve, on a sealed grant, and outside the grant. Returns the
/// code and a substitution to report. `nvdimm` says whether the machine has
/// persistent memory.
pub fn grant_commit(
    m: &Machine,
    mem: &mut Memory,
    cur: usize,
    cap_id: u32,
    offset: u64,
    len: u64,
    nvdimm: bool,
) -> (r: (u64, Option<Notice>))
    requires
        m.wf(),
        old(mem).wf(m),
        cur < MAX_CELLS,
    ensures
        final(mem).wf(m),
        commit_done(m, old(mem), final(mem), cur as int, cap_id, offset, len, nvdimm, r),
{
    match grant_resolve(m, mem, cur, cap_id) {
        None => (REFUSED, None),
        Some((_i, slot)) => {
            if !is_open_span(&slot, offset, len) {
                return (REFUSED, None);
            }
            let backing = Backing::from_kind(slot.kind);
            let notice: Option<Notice> = if backing == Backing::Pmem && !nvdimm {
                note_backing_fallback(&mut mem.noticed, slot.kind, Fallback::NoNvdimm)
            } else if slot.kind == 1 || slot.kind == 2 || slot.kind == 5 {
                note_backing_fallback(&mut mem.noticed, slot.kind, Fallback::Emulated)
            } else {
                None
            };
            let at: u64 = slot.base + offset;
            assert(span_ok(m, at, len) || len == 0);
            let _backed = commit_range_from(
                m,
                mem,
                cur,
                at,
                len,
                MapPerm::UserRw,
                backing,
                slot.node,
            );
            (0, notice)
        },
    }
}


/// What decommitting a part of a grant does, and what it returns.
pub open spec fn decommit_done(m: &Machine, before: &Memory, after: &Memory, cur: int, cap_id: u32, offset: u64, len: u64, code: u64) -> bool {
    &&& rest_same(before, after, cur)
    &&& match resolved(before.cell(cur), before.objects@, cap_id) {
            None => code == REFUSED && only_checked(
                before,
                after,
                cur,
                cap_id,
                MAP,
            ),
            Some(slot) => if !open_span(slot, offset, len) {
                code == REFUSED && only_checked(before, after, cur, cap_id, MAP)
            } else if len == 0 {
                code == 0 && only_checked(before, after, cur, cap_id, MAP)
            } else {
                let c0 = after_check(before.cell(cur), before.objects@, cap_id, MAP);
                let at = (slot.base + offset) as u64;
                &&& code == 0
                &&& unmap_outcome(
                    c0,
                    &before.ddr,
                    &before.pmem,
                    after.cell(cur),
                    &after.ddr,
                    &after.pmem,
                    span_base(at),
                    span_pages(at, len),
                    owned_pages(
                        c0.pages,
                        span_base(at),
                        span_pages(at, len) as nat,
                        &before.ddr,
                        &before.pmem,
                    ) as u64,
                )
            },
        }
}

/// Return the frames under `[offset, offset + len)` of a grant. Refused as
/// [`grant_commit`] is.
pub fn grant_decommit(m: &Machine, mem: &mut Memory, cur: usize, cap_id: u32, offset: u64, len: u64) -> (
    code: u64)
    requires
        m.wf(),
        old(mem).wf(m),
        cur < MAX_CELLS,
    ensures
        final(mem).wf(m),
        decommit_done(m, old(mem), final(mem), cur as int, cap_id, offset, len, code),
{
    match grant_resolve(m, mem, cur, cap_id) {
        None => REFUSED,
        Some((_i, slot)) => {
            if !is_open_span(&slot, offset, len) {
                return REFUSED;
            }
            let at: u64 = slot.base + offset;
            assert(span_ok(m, at, len) || len == 0);
            let _freed = unmap_range(m, mem, cur, at, len);
            0
        },
    }
}

/// What sealing a grant does, and what it returns.
pub open spec fn seal_done(m: &Machine, before: &Memory, after: &Memory, cur: int, cap_id: u32, code: u64) -> bool {
    &&& rest_same(before, after, cur)
    &&& pools_same(before, after)
    &&& match resolved(before.cell(cur), before.objects@, cap_id) {
            None => code == REFUSED && only_checked(
                before,
                after,
                cur,
                cap_id,
                MAP,
            ),
            Some(slot) => {
                let c0 = after_check(before.cell(cur), before.objects@, cap_id, MAP);
                &&& code == 0
                &&& after.cell(cur) == sealed_cell(c0, cap_id, slot)
            },
        }
}

/// Seal a grant: its pages become read-only, and it can no longer be committed or
/// decommitted.
pub fn grant_seal(m: &Machine, mem: &mut Memory, cur: usize, cap_id: u32) -> (code: u64)
    requires
        m.wf(),
        old(mem).wf(m),
        cur < MAX_CELLS,
    ensures
        final(mem).wf(m),
        seal_done(m, old(mem), final(mem), cur as int, cap_id, code),
{
    match grant_resolve(m, mem, cur, cap_id) {
        None => REFUSED,
        Some((i, slot)) => {
            let ghost c0 = mem.cells@[cur as int]@;
            protect_range(m, mem, cur, slot.base, slot.len, MapPerm::UserRo);
            let mut now: GrantSlot = mem.cells[cur].grants[i];
            now.sealed = true;
            mem.cells[cur].grants[i] = now;
            proof {
                let c1 = mem.cells@[cur as int]@;
                assert(c0.wf(m));
                assert forall|j: int| 0 <= j < c1.grants.len() implies #[trigger] c1.grants[j].wf(m) by {
                    assert(c0.grants[j].wf(m));
                }
                assert(c1.grants_on_record()) by {
                    assert forall|j: int|
                        0 <= j < c1.grants.len() && (#[trigger] c1.grants[j]).in_use
                        implies on_record_as(c1.regions, c1.grants[j]) by {
                        assert(on_record_as(c0.regions, c0.grants[j]));
                        let k = choose|k: int| is_record_of(c0.regions, k, c0.grants[j]);
                        assert(is_record_of(c1.regions, k, c1.grants[j]));
                    }
                    assert forall|a: int, b: int|
                        0 <= a < b < c1.grants.len() && (#[trigger] c1.grants[a]).in_use && (
                        #[trigger] c1.grants[b]).in_use implies c1.grants[a].base
                        != c1.grants[b].base by {
                        assert(c0.grants[a].in_use && c0.grants[b].in_use);
                    }
                }
                assert forall|j: int| 0 <= j < MAX_CELLS implies (#[trigger] mem.cells@[j])@.wf(m) by {
                    assert(old(mem).cells@[j]@.wf(m));
                }
                assert(c1.grants =~= c0.grants.update(i as int, GrantSlot { sealed: true, ..slot }));
            }
            0
        },
    }
}

/// The cell once the grant that goes by `cap_id` is sealed.
pub open spec fn sealed_cell(c: CellView, cap_id: u32, slot: GrantSlot) -> CellView {
    CellView {
        pages: all_protected(
            c.pages,
            span_base(slot.base),
            span_pages(slot.base, slot.len) as nat,
            MapPerm::UserRo,
        ),
        grants: c.grants.update(
            slot_of(c.grants, Wanted::Named(cap_id))->0,
            GrantSlot { sealed: true, ..slot },
        ),
        ..c
    }
}

/// Forget the grant that starts at `va`, if there is one.
pub open spec fn without_grant_at(grants: Seq<GrantSlot>, va: u64) -> Seq<GrantSlot> {
    match slot_of(grants, Wanted::At(va)) {
        Some(i) => grants.update(i, no_grant()),
        None => grants,
    }
}

/// Whether a region that is not a grant may be unmapped by its cell: anonymous or
/// file memory that covers the whole range.
pub open spec fn own_region(regions: Seq<Region>, base: u64, end: u64) -> Option<Region> {
    if exists|i: int| is_own(regions, i, base, end) {
        Some(regions[choose|i: int| is_own(regions, i, base, end)])
    } else {
        None
    }
}

/// Whether region `i` is memory of the cell's own that covers `[base, end)`.
pub open spec fn is_own(regions: Seq<Region>, i: int, base: u64, end: u64) -> bool {
    &&& 0 <= i < regions.len()
    &&& regions[i].base <= base < regions[i].limit()
    &&& end <= regions[i].limit()
    &&& regions[i].kind == RegionKind::Anon || regions[i].kind == RegionKind::File
}


/// The pages of `[base, end)` are gone and their frames are back; the cell's
/// grants and regions aside, nothing else of the cell moved.
pub open spec fn gave_back(
    m: &Machine,
    c0: CellView,
    before: &Memory,
    after: &Memory,
    cur: int,
    base: u64,
    end: u64,
) -> bool {
    let len = (end - base) as u64;
    let pages = span_pages(base, len);
    let c1 = CellView {
        grants: c0.grants,
        regions: c0.regions,
        ..after.cell(cur)
    };
    if len > 0 && span_ok(m, base, len) {
        unmap_outcome(
            c0,
            &before.ddr,
            &before.pmem,
            c1,
            &after.ddr,
            &after.pmem,
            base,
            pages,
            owned_pages(c0.pages, base, pages as nat, &before.ddr, &before.pmem) as u64,
        )
    } else {
        &&& c1 == c0
        &&& pools_same(before, after)
    }
}

/// The region that starts at `base` is off the record, if there was one.
pub open spec fn region_gone(before: Seq<Region>, after: Seq<Region>, base: u64) -> bool {
    released(before, after, base, true) || released(before, after, base, false)
}

/// Whether the pages of `[base, end)` are all the pages of a grant.
pub open spec fn whole_grant(slot: GrantSlot, base: u64, end: u64) -> bool {
    base == slot.base && span_pages(base, (end - base) as u64) * FRAME_SIZE == slot.len
}

/// What unmapping `[va, va + len)` does.
///
/// A cell can unmap only what it owns: a grant through a good capability that
/// carries MAP, and else anonymous or file memory of its own. A grant that is unmapped
/// in part stays a grant, and keeps its place in the layout.
pub open spec fn munmap_outcome(
    m: &Machine,
    before: &Memory,
    after: &Memory,
    cur: int,
    va: u64,
    len: u64,
    code: u64,
) -> bool {
    let c = before.cell(cur);
    let c1 = after.cell(cur);
    let base = span_base(va);
    let end = (va + len) as u64;
    if len == 0 || va + len > u64::MAX {
        code == REFUSED && unchanged(before, after, cur)
    } else if base >= GRANT_BASE {
        match slot_of(c.grants, Wanted::Covering(base, end)) {
            None => code == REFUSED && unchanged(before, after, cur),
            Some(i) => {
                let slot = c.grants[i];
                let c0 = after_check(c, before.objects@, slot.cap_id, MAP);
                if resolved(c, before.objects@, slot.cap_id) is None {
                    code == REFUSED && only_checked(before, after, cur, slot.cap_id, MAP)
                } else {
                    &&& code == 0
                    &&& rest_same(before, after, cur)
                    &&& gave_back(m, c0, before, after, cur, base, end)
                    &&& if whole_grant(slot, base, end) {
                        &&& c1.grants == without_grant_at(c.grants, base)
                        &&& region_gone(c.regions, c1.regions, base)
                    } else {
                        &&& c1.grants == c.grants
                        &&& c1.regions == c.regions
                    }
                }
            },
        }
    } else {
        match own_region(c.regions, base, end) {
            None => code == REFUSED && unchanged(before, after, cur),
            Some(r) => {
                &&& code == 0
                &&& rest_same(before, after, cur)
                &&& gave_back(m, c, before, after, cur, base, end)
                &&& c1.grants == c.grants
                &&& if base == r.base && end == r.limit() {
                    region_gone(c.regions, c1.regions, base)
                } else {
                    c1.regions == c.regions
                }
            },
        }
    }
}

/// In a layout that does not overlap itself, only one region holds an address.
proof fn lemma_own_region_unique(regions: Seq<Region>, i: int, j: int, va: u64)
    requires
        disjoint(regions),
        0 <= i < regions.len(),
        0 <= j < regions.len(),
        regions[i].base <= va < regions[i].limit(),
        regions[j].base <= va < regions[j].limit(),
    ensures
        i == j,
{
    if i != j {
        assert(!regions[i].meets(regions[j].base as int, regions[j].len as int));
    }
}

/// Unmap `[va, va + len)` and return its frames, if the cell owns them.
pub fn sys_munmap(m: &Machine, mem: &mut Memory, cur: usize, va: u64, len: u64) -> (code: u64)
    requires
        m.wf(),
        old(mem).wf(m),
        cur < MAX_CELLS,
    ensures
        final(mem).wf(m),
        munmap_outcome(m, old(mem), final(mem), cur as int, va, len, code),
{
    if len == 0 {
        return REFUSED;
    }
    let base: u64 = page_base(va);
    let end: u64 = match va.checked_add(len) {
        None => {
            return REFUSED;
        },
        Some(e) => e,
    };
    let ghost c = mem.cells@[cur as int]@;
    proof {
        assert(c.wf(m));
        assert forall|i: int|
            0 <= i < c.grants.len() && #[trigger] c.grants[i].in_use implies c.grants[i].base
            + c.grants[i].len <= u64::MAX by {
            assert(c.grants[i].wf(m));
        }
        assert(page_floor(base as int) == base);
    }
    if base >= GRANT_BASE {
        let at: usize = match find_slot(&mem.cells[cur].grants, Wanted::Covering(base, end)) {
            None => {
                return REFUSED;
            },
            Some(i) => i,
        };
        let slot: GrantSlot = mem.cells[cur].grants[at];
        let found = grant_resolve(m, mem, cur, slot.cap_id);
        if found.is_none() {
            return REFUSED;
        }
        let _freed = unmap_range(m, mem, cur, base, end - base);
        let span: u64 = end - base;
        let pages: u64 = span / FRAME_SIZE + if span % FRAME_SIZE == 0 { 0 } else { 1 };
        if base == slot.base && pages == slot.len / FRAME_SIZE {
            let ghost c2 = mem.cells@[cur as int]@;
            proof {
                assert(c2.grants == c.grants);
            }
            if let Some(i) = find_slot(&mem.cells[cur].grants, Wanted::At(base)) {
                mem.cells[cur].grants[i] = GrantSlot::empty();
            }
            let ghost grants3 = mem.cells@[cur as int]@.grants;
            proof {
                assert(grants3 =~= without_grant_at(c.grants, base));
            }
            let gone: bool = mem.cells[cur].va.release_at(base);
            proof {
                assert(c2.wf(m));
                let c3 = mem.cells@[cur as int]@;
                assert forall|j: int|
                    0 <= j < c3.grants.len() && (#[trigger] c3.grants[j]).in_use implies c3.grants[j]
                    == c2.grants[j] && c3.grants[j].base != base by {
                    lemma_slot_of(c.grants, Wanted::At(base), 0);
                    let i = slot_of(c.grants, Wanted::At(base));
                    assert(c3.grants[j] == c.grants[j]);
                    if c.grants[j].base == base {
                        assert(hits(c.grants[j], Wanted::At(base)));
                        assert(c.grants[i->0].in_use && c.grants[i->0].base == base);
                    }
                }
                lemma_grants_stay(c2, c3, base, gone);
                assert forall|j: int| 0 <= j < c3.grants.len() implies #[trigger] c3.grants[j].wf(m) by {
                    assert(c.grants[j].wf(m));
                }
                assert forall|j: int| 0 <= j < MAX_CELLS implies (#[trigger] mem.cells@[j])@.wf(m) by {
                    assert(old(mem).cells@[j]@.wf(m));
                }
            }
        }
        return 0;
    }
    let region: Region = match mem.cells[cur].va.find(base) {
        None => {
            proof {
                assert forall|i: int| !is_own(c.regions, i, base, end) by {
                    if 0 <= i < c.regions.len() {
                        assert(!(c.regions[i].base <= base < c.regions[i].limit()));
                    }
                }
            }
            return REFUSED;
        },
        Some(r) => r,
    };
    let ghost at = choose|i: int| 0 <= i < c.regions.len() && c.regions[i] == region;
    assert(c.regions.contains(region));
    assert(c.regions[at].wf());
    let owned: bool = (region.kind == RegionKind::Anon || region.kind == RegionKind::File) && end
        <= region.end();
    if !owned {
        proof {
            assert forall|i: int| !is_own(c.regions, i, base, end) by {
                if is_own(c.regions, i, base, end) {
                    lemma_own_region_unique(c.regions, i, at, base);
                }
            }
        }
        return REFUSED;
    }
    proof {
        assert(is_own(c.regions, at, base, end));
        let k = choose|i: int| is_own(c.regions, i, base, end);
        lemma_own_region_unique(c.regions, k, at, base);
    }
    let _freed = unmap_range(m, mem, cur, base, end - base);
    if base == region.base && end == region.end() {
        let ghost c2 = mem.cells@[cur as int]@;
        assert(c2.wf(m));
        let gone: bool = mem.cells[cur].va.release_at(base);
        proof {
            let c3 = mem.cells@[cur as int]@;
            assert forall|j: int|
                0 <= j < c3.grants.len() && (#[trigger] c3.grants[j]).in_use implies c3.grants[j]
                == c2.grants[j] && c3.grants[j].base != base by {
                assert(c2.grants[j].wf(m));
            }
            lemma_grants_stay(c2, c3, base, gone);
            assert forall|j: int| 0 <= j < MAX_CELLS implies (#[trigger] mem.cells@[j])@.wf(m) by {
                assert(old(mem).cells@[j]@.wf(m));
            }
        }
    }
    0
}


/// The cell that a cell shares with.
pub open spec fn peer_of(cur: int) -> int {
    if cur % 2 == 0 {
        cur + 1
    } else {
        cur - 1
    }
}

/// The cell that a cell shares with.
pub fn peer_index(cur: usize) -> (p: usize)
    requires
        cur < MAX_CELLS,
    ensures
        p == peer_of(cur as int),
        p < MAX_CELLS,
        p != cur,
        p == cur ^ 1,
{
    assert(cur % 2 == 0 ==> cur ^ 1 == cur + 1) by (bit_vector)
        requires
            cur < 16,
    ;
    assert(cur % 2 == 1 ==> cur ^ 1 == cur - 1) by (bit_vector)
        requires
            cur < 16,
    ;
    if cur % 2 == 0 {
        cur + 1
    } else {
        cur - 1
    }
}

/// Whether a share request can be looked at: room for the reply, capability
/// tables on this side, and a peer that is there and has its own.
pub open spec fn share_sensible(m: &Machine, mem: &Memory, cur: int, out_va: u64) -> bool {
    let peer = mem.cell(peer_of(cur));
    &&& reply_ok(m, out_va, 16)
    &&& mem.cell(cur).tables
    &&& peer.present
    &&& peer.tables
}

/// The grant that may be shared: the capability is good and carries DELEGATE, a
/// grant of the cell goes by it, and the grant is sealed.
pub open spec fn shareable(c: CellView, objects: Seq<Object>, cap_id: u32) -> Option<GrantSlot> {
    if !c.tables || checked(c.caps, objects, cap_id, DELEGATE) is Err {
        None
    } else {
        match slot_of(c.grants, Wanted::Named(cap_id)) {
            None => None,
            Some(i) => if c.grants[i].sealed {
                Some(c.grants[i])
            } else {
                None
            },
        }
    }
}

/// Whether the peer has everything that sharing `slot` takes, and whether there is
/// anything to share.
pub open spec fn share_room(m: &Machine, mem: &Memory, cur: int, slot: GrantSlot) -> bool {
    let p = mem.cell(peer_of(cur));
    let pages = (slot.len as int / FRAME_SIZE as int) as nat;
    &&& absent_pages(mem.cell(cur).pages, slot.base, pages) < pages
    &&& has_room(p.caps, p.cap_limit)
    &&& p.regions.len() < p.records
    &&& exists|b: int|
        #[trigger] fits(p.regions, b, slot.len as int, GRANT_BASE as int, m.user_va_max as int)
}

/// The grant's frames are mapped read-only into the peer at `base`, the peer has
/// a capability to read the same object, and a slot to go with it while there is
/// one free.
pub open spec fn shared_at(
    m: &Machine,
    before: &Memory,
    after: &Memory,
    cur: int,
    cap_id: u32,
    slot: GrantSlot,
    info: ShareInfo,
) -> bool {
    let c = before.cell(cur);
    let base = info.peer_va;
    let p0 = before.cell(peer_of(cur));
    let p1 = after.cell(peer_of(cur));
    let object = checked(c.caps, before.objects@, cap_id, DELEGATE)->Ok_0;
    let pages = (slot.len as int / FRAME_SIZE as int) as nat;
    let mapped = CellView {
        pages: shared_into(c.pages, p0.pages, slot.base, pages, base),
        regions: p0.regions.push(Region { base, len: slot.len, kind: RegionKind::Grant }),
        ..p0
    };
    let cap = Capability {
        object,
        rights: READ,
        budget: BUDGET_UNLIMITED,
        epoch: before.objects@[object as int].epoch,
    };
    &&& fits(p0.regions, base as int, slot.len as int, GRANT_BASE as int, m.user_va_max as int)
    &&& forall|b: int|
        GRANT_BASE <= b < base ==> !#[trigger] fits(
            p0.regions,
            b,
            slot.len as int,
            GRANT_BASE as int,
            m.user_va_max as int,
        )
    &&& info.peer_cap_id <= u32::MAX
    &&& minted(p0.caps, p1.caps, info.peer_cap_id as u32, cap)
    &&& p1 == (CellView {
        caps: p1.caps,
        grants: match slot_of(p0.grants, Wanted::Free) {
            None => p0.grants,
            Some(i) => p0.grants.update(
                i,
                GrantSlot {
                    in_use: true,
                    base,
                    len: slot.len,
                    kind: slot.kind,
                    node: slot.node,
                    sealed: true,
                    cap_id: info.peer_cap_id as u32,
                },
            ),
        },
        ..mapped
    })
}

/// Nothing moved but this cell and its peer.
pub open spec fn pair_only(before: &Memory, after: &Memory, cur: int) -> bool {
    &&& after.cells@.len() == before.cells@.len()
    &&& forall|i: int|
        0 <= i < before.cells@.len() && i != cur && i != peer_of(cur) ==> (
        #[trigger] after.cells@[i])@ == before.cells@[i]@
    &&& after.objects@ == before.objects@
    &&& after.system == before.system
    &&& after.noticed@ == before.noticed@
    &&& pools_same(before, after)
}

/// What sharing a grant does, and what it returns. A refusal leaves both cells as they
/// were; only a share that is done spends a use of the capability.
pub open spec fn share_done(m: &Machine, before: &Memory, after: &Memory, cur: int, cap_id: u32, out_va: u64, r: (u64, Option<ShareInfo>)) -> bool {
    let slot = shareable(before.cell(cur), before.objects@, cap_id);
    &&& pair_only(before, after, cur)
    &&& if share_sensible(m, before, cur, out_va) && slot is Some && share_room(
        m,
        before,
        cur,
        slot->0,
    ) {
        &&& r.0 == 0
        &&& after.cell(cur) == after_check(before.cell(cur), before.objects@, cap_id, DELEGATE)
        &&& r.1 matches Some(info) && shared_at(m, before, after, cur, cap_id, slot->0, info)
    } else {
        &&& r.0 == REFUSED
        &&& r.1 is None
        &&& after.cell(cur) == before.cell(cur)
        &&& after.cell(peer_of(cur)) == before.cell(peer_of(cur))
    }
}

/// Share a sealed grant with the peer cell, read-only and without a copy.
pub fn grant_share(m: &Machine, mem: &mut Memory, cur: usize, cap_id: u32, out_va: u64) -> (r: (
    u64,
    Option<ShareInfo>,
))
    requires
        m.wf(),
        old(mem).wf(m),
        cur < MAX_CELLS,
    ensures
        final(mem).wf(m),
        share_done(m, old(mem), final(mem), cur as int, cap_id, out_va, r),
{
    let peer: usize = peer_index(cur);
    if !user_out(m, out_va, 16) {
        return (REFUSED, None);
    }
    if !mem.cells[cur].tables || !mem.cells[peer].present || !mem.cells[peer].tables {
        return (REFUSED, None);
    }
    let ghost c = mem.cells@[cur as int]@;
    let ghost p0 = mem.cells@[peer as int]@;
    proof {
        assert(c.wf(m));
        assert(p0.wf(m));
        assert forall|i: int|
            0 <= i < c.grants.len() && #[trigger] c.grants[i].in_use implies c.grants[i].base
            + c.grants[i].len <= u64::MAX by {
            assert(c.grants[i].wf(m));
        }
        assert forall|i: int|
            0 <= i < p0.grants.len() && #[trigger] p0.grants[i].in_use implies p0.grants[i].base
            + p0.grants[i].len <= u64::MAX by {
            assert(p0.grants[i].wf(m));
        }
    }
    if mem.cells[cur].caps.test_low32(&mem.objects, cap_id, DELEGATE).is_err() {
        return (REFUSED, None);
    }
    let slot: GrantSlot = match find_slot(&mem.cells[cur].grants, Wanted::Named(cap_id)) {
        None => {
            return (REFUSED, None);
        },
        Some(i) => {
            assert(c.grants[i as int].wf(m));
            mem.cells[cur].grants[i]
        },
    };
    if !slot.sealed {
        return (REFUSED, None);
    }
    let pages: u64 = slot.len / FRAME_SIZE;
    if count_absent(&mem.cells[cur].aspace, slot.base, pages) == pages {
        return (REFUSED, None);
    }
    if !mem.cells[peer].caps.has_space() {
        return (REFUSED, None);
    }
    let base: u64 = match mem.cells[peer].va.reserve_in(
        GRANT_BASE,
        m.user_va_max,
        slot.len,
        RegionKind::Grant,
    ) {
        Err(_) => {
            proof {
                assert forall|j: int| 0 <= j < MAX_CELLS implies (#[trigger] mem.cells@[j])@.wf(m) by {
                    assert(old(mem).cells@[j]@.wf(m));
                }
            }
            return (REFUSED, None);
        },
        Ok(b) => b,
    };
    proof {
        assert(fits(
            p0.regions,
            base as int,
            slot.len as int,
            GRANT_BASE as int,
            m.user_va_max as int,
        ));
    }
    // The two address spaces are borrowed one at a time: the peer's is taken out
    // of the table while the client's is read.
    let mut peer_space = AddressSpace::new();
    std::mem::swap(&mut peer_space, &mut mem.cells[peer].aspace);
    let _shared: u64 = share_ro_into(
        &mem.cells[cur].aspace,
        &mut peer_space,
        slot.base,
        pages,
        base,
    );
    mem.cells[peer].aspace = peer_space;
    proof {
        lemma_grants_kept(
            p0,
            mem.cells@[peer as int]@,
            Region { base, len: slot.len, kind: RegionKind::Grant },
        );
        assert forall|j: int| 0 <= j < MAX_CELLS implies (#[trigger] mem.cells@[j])@.wf(m) by {
            assert(old(mem).cells@[j]@.wf(m));
        }
    }
    // The capability was tested and the peer has room, so neither is refused.
    let object: u32 = match check_right(m, mem, cur, cap_id, DELEGATE) {
        None => {
            assert(false);
            0
        },
        Some(o) => o,
    };
    let ghost p2 = mem.cells@[peer as int]@;
    assert(p2.wf(m));
    let peer_cap: u32 = match mem.cells[peer].caps.mint(&mem.objects, object, READ, BUDGET_UNLIMITED) {
        Err(_) => {
            assert(false);
            0
        },
        Ok(h) => h,
    };
    if let Some(i) = find_slot(&mem.cells[peer].grants, Wanted::Free) {
        mem.cells[peer].grants[i] = GrantSlot {
            in_use: true,
            base,
            len: slot.len,
            kind: slot.kind,
            node: slot.node,
            sealed: true,
            cap_id: peer_cap,
        };
    }
    let info = ShareInfo { peer_va: base, peer_cap_id: peer_cap as u64 };
    proof {
        let p1 = mem.cells@[peer as int]@;
        assert forall|j: int| 0 <= j < p1.grants.len() implies #[trigger] p1.grants[j].wf(m) by {
            assert(p0.grants[j].wf(m));
        }
        if let Some(i) = slot_of(p0.grants, Wanted::Free) {
            lemma_grant_given(p0, p1, i, p1.grants[i]);
        }
        assert forall|j: int| 0 <= j < MAX_CELLS implies (#[trigger] mem.cells@[j])@.wf(m) by {
            assert(old(mem).cells@[j]@.wf(m));
        }
        assert(shared_at(m, old(mem), mem, cur as int, cap_id, slot, info));
    }
    (0, Some(info))
}

/// A slot that keeps its place in the table and its name is found where it was.
proof fn lemma_slot_stays(grants: Seq<GrantSlot>, cap_id: u32, i: int, now: GrantSlot, from: int)
    requires
        0 <= from,
        slot_from(grants, Wanted::Named(cap_id), from) == Some(i),
        now.in_use,
        now.cap_id == cap_id,
    ensures
        slot_from(grants.update(i, now), Wanted::Named(cap_id), from) == Some(i),
    decreases grants.len() - from,
{
    lemma_slot_of(grants, Wanted::Named(cap_id), from);
    if !hits(grants[from], Wanted::Named(cap_id)) {
        lemma_slot_stays(grants, cap_id, i, now, from + 1);
    }
}

/// A sealed grant can no longer be committed or decommitted: whatever a
/// capability resolves to after sealing through it is sealed, and no part of a
/// sealed grant is open.
pub proof fn law_sealed_is_immutable(
    c: CellView,
    objects: Seq<Object>,
    cap_id: u32,
    offset: u64,
    len: u64,
)
    requires
        resolved(c, objects, cap_id) is Some,
    ensures
        ({
            let slot = resolved(c, objects, cap_id)->0;
            let after = sealed_cell(after_check(c, objects, cap_id, MAP), cap_id, slot);
            resolved(after, objects, cap_id) matches Some(s) ==> s.sealed && !open_span(
                s,
                offset,
                len,
            )
        }),
{
    lemma_slot_of(c.grants, Wanted::Named(cap_id), 0);
    let slot = resolved(c, objects, cap_id)->0;
    let i = slot_of(c.grants, Wanted::Named(cap_id))->0;
    lemma_slot_stays(c.grants, cap_id, i, GrantSlot { sealed: true, ..slot }, 0);
}

/// Only a sealed grant can be shared.
pub proof fn law_only_sealed_is_shared(c: CellView, objects: Seq<Object>, cap_id: u32)
    ensures
        shareable(c, objects, cap_id) matches Some(slot) ==> slot.sealed,
{
}

/// The peer of a share cannot commit, decommit, seal or unmap what was shared
/// with it: the capability it got is for reading only and resolves to nothing.
pub proof fn law_shared_grant_is_not_the_peers(
    peer: CellView,
    objects: Seq<Object>,
    peer_cap: u32,
    object: u32,
    epoch: u64,
)
    requires
        held(peer.caps, peer_cap) == Some(
            Capability { object, rights: READ, budget: BUDGET_UNLIMITED, epoch },
        ),
    ensures
        resolved(peer, objects, peer_cap) is None,
{
    assert(READ & MAP != MAP) by (bit_vector);
}

/// Revoking the object of a shared grant takes the peer's copy too.
pub proof fn law_revoke_reaches_the_peer(
    peer: CellView,
    objects: Seq<Object>,
    peer_cap: u32,
    right: u32,
)
    requires
        checked(peer.caps, objects, peer_cap, right) is Ok,
        objects[(checked(peer.caps, objects, peer_cap, right)->Ok_0) as int].epoch < u64::MAX,
    ensures
        checked(
            peer.caps,
            revoked(objects, checked(peer.caps, objects, peer_cap, right)->Ok_0),
            peer_cap,
            right,
        ) == Err::<u32, CapError>(CapError::Revoked),
{
}

/// The pages under a mapping that was just placed are all the cell's.
proof fn lemma_fresh_owned(
    before: Map<u64, Page>,
    after: Map<u64, Page>,
    ddr0: &FramePool,
    ddr1: &FramePool,
    pmem: &FramePool,
    base: u64,
    n: int,
    k: nat,
    perm: MapPerm,
)
    requires
        mapped_fresh(before, after, ddr0, ddr1, base, n, perm),
        k <= n,
    ensures
        owned_pages(after, base, k, ddr1, pmem) == k,
    decreases k,
{
    if k > 0 {
        lemma_fresh_owned(before, after, ddr0, ddr1, pmem, base, n, (k - 1) as nat, perm);
        assert(after.dom().contains(nth_page(base, k - 1)));
    }
}

/// Unmapping the whole of an anonymous mapping undoes it: the frames are back in
/// the pool, the cell is charged what it was charged before, the region is off
/// the record, and every page outside the mapping is as it was.
pub proof fn law_munmap_undoes_mmap(
    m: &Machine,
    before: &Memory,
    during: &Memory,
    after: &Memory,
    cur: int,
    base: u64,
    bytes: u64,
    code: u64,
)
    requires
        m.wf(),
        before.wf(m),
        during.wf(m),
        0 <= cur < MAX_CELLS,
        bytes > 0,
        bytes % FRAME_SIZE == 0,
        placed(
            before,
            during,
            cur,
            base,
            bytes,
            MMAP_BASE,
            USER_QUEUE_VA,
            RegionKind::Anon,
            MapPerm::UserRw,
        ),
        munmap_outcome(m, during, after, cur, base, bytes, code),
    ensures
        code == 0,
        after.ddr.taken() == before.ddr.taken(),
        after.cell(cur).charged == before.cell(cur).charged,
        after.cell(cur).regions == before.cell(cur).regions,
        after.cell(cur).grants == before.cell(cur).grants,
        forall|k: int|
            0 <= k < bytes as int / FRAME_SIZE as int ==> #[trigger] page_at(
                after.cell(cur).pages,
                nth_page(base, k),
            ) is None,
        forall|va: u64|
            !in_pages(va, base, bytes as int / FRAME_SIZE as int) ==> #[trigger] page_at(
                after.cell(cur).pages,
                va,
            ) == page_at(before.cell(cur).pages, va),
{
    let pages = bytes as int / FRAME_SIZE as int;
    let c0 = before.cell(cur);
    let c1 = during.cell(cur);
    let end = (base + bytes) as u64;
    let region = Region { base, len: bytes, kind: RegionKind::Anon };
    assert(before.cells@[cur]@.wf(m));
    assert(during.cells@[cur]@.wf(m));
    let at = c0.regions.len() as int;
    assert(c1.regions[at] == region);
    assert(is_own(c1.regions, at, base, end));
    let k = choose|i: int| is_own(c1.regions, i, base, end);
    lemma_own_region_unique(c1.regions, k, at, base);
    assert(page_floor(base as int) == base);
    assert(span_pages(base, bytes) == pages);
    lemma_fresh_owned(
        c0.pages,
        c1.pages,
        &before.ddr,
        &during.ddr,
        &during.pmem,
        base,
        pages,
        pages as nat,
        MapPerm::UserRw,
    );
    law_unmap_undoes_map(
        c0.pages,
        c1.pages,
        &before.ddr,
        &during.ddr,
        &after.ddr,
        base,
        pages,
        MapPerm::UserRw,
    );
    if released(c1.regions, after.cell(cur).regions, base, false) {
        assert(c1.regions[at].base != base);
    }
    law_reserve_then_release(c0.regions, region, after.cell(cur).regions);
    assert forall|va: u64| !in_pages(va, base, pages) implies #[trigger] page_at(
        after.cell(cur).pages,
        va,
    ) == page_at(c0.pages, va) by {
        assert(page_at(c1.pages, va) == page_at(c0.pages, va));
    }
    assert forall|k: int| 0 <= k < pages implies #[trigger] page_at(
        after.cell(cur).pages,
        nth_page(base, k),
    ) is None by {
        assert(c1.pages.dom().contains(nth_page(base, k)));
    }
}

/// A grant that is unmapped in part stays under its capability, where it was.
pub proof fn law_part_unmapped_grant_stays(
    m: &Machine,
    before: &Memory,
    after: &Memory,
    cur: int,
    va: u64,
    len: u64,
    i: int,
)
    requires
        munmap_outcome(m, before, after, cur, va, len, 0),
        span_base(va) >= GRANT_BASE,
        slot_of(before.cell(cur).grants, Wanted::Covering(span_base(va), (va + len) as u64)) == Some(
            i,
        ),
        !whole_grant(before.cell(cur).grants[i], span_base(va), (va + len) as u64),
    ensures
        after.cell(cur).grants == before.cell(cur).grants,
        after.cell(cur).regions == before.cell(cur).regions,
{
}

/// A refused grant request or share leaves every cell as it was.
pub proof fn law_refusal_takes_nothing(
    m: &Machine,
    before: &Memory,
    after: &Memory,
    cur: int,
    i: int,
)
    requires
        0 <= cur < MAX_CELLS,
        0 <= i < MAX_CELLS,
        before.cells@.len() == MAX_CELLS,
        ({
            ||| exists|out_va: u64, len: u64, kind: u64, node_hint: u64|
                #[trigger] create_done(
                    m,
                    before,
                    after,
                    cur,
                    out_va,
                    len,
                    kind,
                    node_hint,
                    (REFUSED, None::<GrantInfo>),
                )
            ||| exists|cap_id: u32, out_va: u64|
                #[trigger] share_done(
                    m,
                    before,
                    after,
                    cur,
                    cap_id,
                    out_va,
                    (REFUSED, None::<ShareInfo>),
                )
        }),
    ensures
        after.cell(i) == before.cell(i),
        after.objects@ == before.objects@,
        pools_same(before, after),
{
}

} // verus!
