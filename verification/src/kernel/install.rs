//! Putting cells into the table, wiring them up and taking them out.

use vstd::prelude::*;
use crate::kernel::admission::{Admission, Reservation};
use crate::kernel::aspace::AddressSpace;
use crate::kernel::capability::{checked, copied, count_live, emptied, has_room, law_emptied_table_holds_nothing, minted, resolve, CapError, CapSlot, CapTable, Capability, Object, ObjectKind, BUDGET_UNLIMITED};
use crate::kernel::cells::{empty_cell, empty_chan, empty_vcore, entity, entity_of, next_home_node, only_vcores, owned_caps, same_counts, CellTable, ChanEnd, Personality, RunCell, Vcore, MAX_VCORES, NO_CPU};
use crate::kernel::frames::NODE_ANY;
use crate::kernel::machine::{Machine, USER_CHANNEL_VA, USER_QUEUE_VA};
use crate::kernel::memory::{lemma_grants_kept, no_grant, pools_same, rest_same, CellView, GrantSlot, Memory, ResSlot, MAX_CELLS, MAX_GRANTS_PER_CELL, MAX_RES_PER_CELL};
use crate::kernel::vaspace::{is_hole, Region, RegionKind, VaSpace};

verus! {

/// Regions that one cell's layout can record.
pub const LAYOUT_RECORDS: usize = 64;

/// The layout with a region recorded, where it can be: what lies above the addresses that
/// a cell may be handed is not.
pub open spec fn recorded(
    m: &Machine,
    regions: Seq<Region>,
    records: usize,
    base: u64,
    len: u64,
    kind: RegionKind,
) -> Seq<Region> {
    if len == 0 || base + len > m.user_va_max || regions.len() >= records || !is_hole(
        regions,
        base as int,
        len as int,
    ) {
        regions
    } else {
        regions.push(Region { base, len, kind })
    }
}

/// Record a region in a cell's layout, where it can be.
fn record_region(m: &Machine, mem: &mut Memory, idx: usize, base: u64, len: u64, kind: RegionKind)
    requires
        old(mem).wf(m),
        idx < MAX_CELLS,
    ensures
        final(mem).wf(m),
        rest_same(old(mem), final(mem), idx as int),
        final(mem).ddr == old(mem).ddr,
        final(mem).pmem == old(mem).pmem,
        final(mem).cell(idx as int) == (CellView {
            regions: recorded(
                m,
                old(mem).cell(idx as int).regions,
                old(mem).cell(idx as int).records,
                base,
                len,
                kind,
            ),
            ..old(mem).cell(idx as int)
        }),
{
    assert(mem.cells@[idx as int]@.wf(m));
    let _done = mem.cells[idx].va.reserve_fixed(base, len, m.user_va_max, kind);
    proof {
        if mem.cells@[idx as int]@.regions != old(mem).cells@[idx as int]@.regions {
            lemma_grants_kept(
                old(mem).cells@[idx as int]@,
                mem.cells@[idx as int]@,
                Region { base, len, kind },
            );
        }
        assert forall|j: int| 0 <= j < MAX_CELLS implies (#[trigger] mem.cells@[j])@.wf(m) by {
            assert(old(mem).cells@[j]@.wf(m));
        }
    }
}

/// A cell holds no grant.
pub open spec fn grants_nothing(c: CellView) -> bool {
    forall|i: int| 0 <= i < c.grants.len() ==> !(#[trigger] c.grants[i]).in_use
}

/// Start every cell's layout afresh, before any cell was given a grant.
pub fn init_layouts(m: &Machine, mem: &mut Memory)
    requires
        old(mem).wf(m),
        forall|i: int| 0 <= i < MAX_CELLS ==> grants_nothing((#[trigger] old(mem).cells@[i])@),
    ensures
        final(mem).wf(m),
        pools_same(old(mem), final(mem)),
        final(mem).objects@ == old(mem).objects@,
        final(mem).system == old(mem).system,
        final(mem).noticed@ == old(mem).noticed@,
        forall|i: int|
            0 <= i < MAX_CELLS ==> (#[trigger] final(mem).cells@[i])@ == (CellView {
                regions: Seq::empty(),
                records: LAYOUT_RECORDS,
                ..old(mem).cells@[i]@
            }),
{
    let mut i: usize = 0;
    while i < MAX_CELLS
        invariant
            mem.wf(m),
            forall|j: int| 0 <= j < MAX_CELLS ==> grants_nothing((#[trigger] old(mem).cells@[j])@),
            i <= MAX_CELLS,
            mem.cells@.len() == old(mem).cells@.len(),
            mem.ddr == old(mem).ddr,
            mem.pmem == old(mem).pmem,
            mem.objects == old(mem).objects,
            mem.system == old(mem).system,
            mem.noticed == old(mem).noticed,
            forall|j: int|
                0 <= j < i ==> (#[trigger] mem.cells@[j])@ == (CellView {
                    regions: Seq::empty(),
                    records: LAYOUT_RECORDS,
                    ..old(mem).cells@[j]@
                }),
            forall|j: int| i <= j < MAX_CELLS ==> (#[trigger] mem.cells@[j])@ == old(mem).cells@[j]@,
        decreases MAX_CELLS - i,
    {
        assert(mem.cells@[i as int]@.wf(m));
        assert(grants_nothing(old(mem).cells@[i as int]@));
        mem.cells[i].va = VaSpace::new(LAYOUT_RECORDS);
        i = i + 1;
    }
}

/// What the kernel keeps in a region that a cell may not map over, if the region
/// is the kernel's.
pub open spec fn kernel_owned(kind: RegionKind) -> Option<Seq<char>> {
    match kind {
        RegionKind::Image => None,
        RegionKind::Interp => None,
        RegionKind::Stack => None,
        RegionKind::Anon => None,
        RegionKind::File => None,
        RegionKind::Queue => Some("the cell's queue-pair region"@),
        RegionKind::Channel => Some("the cell's cross-cell channel region"@),
        RegionKind::Grant => Some("a typed memory grant of the cell"@),
        RegionKind::Fixed => Some("a kernel-placed fixed mapping"@),
        RegionKind::DeviceBar => Some("a device BAR window"@),
    }
}

/// Whether region `i` meets `[base, base + len)` and is the kernel's. A range
/// past the end of the address space ends there.
pub open spec fn kernel_meets(regions: Seq<Region>, i: int, base: u64, len: u64) -> bool {
    let end = if base + len > u64::MAX {
        u64::MAX as int
    } else {
        base + len
    };
    &&& 0 <= i < regions.len()
    &&& base < regions[i].limit()
    &&& regions[i].base < end
    &&& kernel_owned(regions[i].kind) is Some
}

/// Whether region `i` is the first on record that [`kernel_meets`].
pub open spec fn first_kernel_meets(regions: Seq<Region>, i: int, base: u64, len: u64) -> bool {
    &&& kernel_meets(regions, i, base, len)
    &&& forall|j: int| 0 <= j < i ==> !#[trigger] kernel_meets(regions, j, base, len)
}

/// Whether `[base, base + len)` meets a region that the kernel owns, and which:
/// the first on record.
pub fn kernel_owned_overlap(m: &Machine, mem: &Memory, idx: usize, base: u64, len: u64) -> (r: Option<
    &'static str,
>)
    requires
        mem.wf(m),
        idx < MAX_CELLS,
    ensures
        match r {
            None => forall|i: int|
                !#[trigger] kernel_meets(mem.cell(idx as int).regions, i, base, len),
            Some(what) => exists|i: int|
                #[trigger] first_kernel_meets(mem.cell(idx as int).regions, i, base, len)
                    && kernel_owned(mem.cell(idx as int).regions[i].kind) == Some(what@),
        },
{
    let end: u64 = base.saturating_add(len);
    let ghost regions = mem.cells@[idx as int]@.regions;
    assert(mem.cells@[idx as int]@.wf(m));
    let n: usize = mem.cells[idx].va.len();
    let mut i: usize = 0;
    while i < n
        invariant
            mem.wf(m),
            idx < MAX_CELLS,
            regions == mem.cells@[idx as int]@.regions,
            n == regions.len(),
            i <= n,
            end == (if base + len > u64::MAX {
                u64::MAX as int
            } else {
                base + len
            }),
            forall|j: int| 0 <= j < i ==> !#[trigger] kernel_meets(regions, j, base, len),
        decreases n - i,
    {
        let r: Region = mem.cells[idx].va.region(i);
        proof {
            assert(mem.cells@[idx as int]@.wf(m));
            assert(regions[i as int].wf());
        }
        if base < r.end() && r.base < end {
            let what: Option<&'static str> = match r.kind {
                RegionKind::Image => None,
                RegionKind::Interp => None,
                RegionKind::Stack => None,
                RegionKind::Anon => None,
                RegionKind::File => None,
                RegionKind::Queue => Some("the cell's queue-pair region"),
                RegionKind::Channel => Some("the cell's cross-cell channel region"),
                RegionKind::Grant => Some("a typed memory grant of the cell"),
                RegionKind::Fixed => Some("a kernel-placed fixed mapping"),
                RegionKind::DeviceBar => Some("a device BAR window"),
            };
            if let Some(name) = what {
                assert(first_kernel_meets(mem.cell(idx as int).regions, i as int, base, len));
                return Some(name);
            }
        }
        i = i + 1;
    }
    None
}


/// Every cell has its channel ends.
pub open spec fn chans_sized(m: &Machine, t: &CellTable) -> bool {
    forall|i: int| 0 <= i < t.chans@.len() ==> (#[trigger] t.chans@[i])@.len() == m.channels
}

/// The four vcores of cell `idx` are these, and every other vcore is as it was.
pub open spec fn vcores_set(
    before: Seq<Vcore>,
    after: Seq<Vcore>,
    idx: int,
    v0: Vcore,
    v1: Vcore,
    v2: Vcore,
    v3: Vcore,
) -> bool {
    after == before.update(entity(idx, 0), v0).update(entity(idx, 1), v1).update(
        entity(idx, 2),
        v2,
    ).update(entity(idx, 3), v3)
}

fn set_vcores(t: &mut CellTable, idx: usize, v0: Vcore, v1: Vcore, v2: Vcore, v3: Vcore)
    requires
        old(t).wf(),
        idx < MAX_CELLS,
    ensures
        final(t).wf(),
        only_vcores(old(t), final(t)),
        vcores_set(old(t).vcores@, final(t).vcores@, idx as int, v0, v1, v2, v3),
{
    let e: usize = entity_of(idx, 0);
    t.vcores[e] = v0;
    t.vcores[e + 1] = v1;
    t.vcores[e + 2] = v2;
    t.vcores[e + 3] = v3;
}

/// No channel of cell `idx` is wired, and every other cell's are as they were.
pub open spec fn chans_cleared(m: &Machine, before: &CellTable, after: &CellTable, idx: int) -> bool {
    &&& after.chans@.len() == before.chans@.len()
    &&& after.chans@[idx]@ == Seq::new(m.channels as nat, |i: int| empty_chan())
    &&& forall|i: int|
        0 <= i < before.chans@.len() && i != idx ==> #[trigger] after.chans@[i] == before.chans@[i]
}

fn clear_chans(m: &Machine, t: &mut CellTable, idx: usize)
    requires
        old(t).wf(),
        chans_sized(m, old(t)),
        idx < MAX_CELLS,
    ensures
        final(t).wf(),
        chans_sized(m, final(t)),
        chans_cleared(m, old(t), final(t), idx as int),
        final(t).cells == old(t).cells,
        final(t).vcores == old(t).vcores,
        final(t).cpus == old(t).cpus,
        same_counts(old(t), final(t)),
{
    let mut ends: Vec<ChanEnd> = Vec::new();
    while ends.len() < m.channels
        invariant
            ends.len() <= m.channels,
            ends@ == Seq::new(ends.len() as nat, |i: int| empty_chan()),
        decreases m.channels - ends.len(),
    {
        ends.push(ChanEnd { va: 0, cap_id: 0, role: 0 });
        assert(ends@ =~= Seq::new(ends.len() as nat, |i: int| empty_chan()));
    }
    t.chans[idx] = ends;
}

/// The layout that a fresh cell starts with: its queue pairs and its channels.
pub open spec fn fresh_layout(m: &Machine, records: usize) -> Seq<Region> {
    recorded(
        m,
        recorded(m, Seq::empty(), records, USER_QUEUE_VA, m.queue_region, RegionKind::Queue),
        records,
        USER_CHANNEL_VA,
        (m.channels * m.queue_region) as u64,
        RegionKind::Channel,
    )
}

/// Give a cell the layout of a fresh one.
fn start_layout(m: &Machine, mem: &mut Memory, idx: usize)
    requires
        m.wf(),
        old(mem).wf(m),
        idx < MAX_CELLS,
        grants_nothing(old(mem).cell(idx as int)),
    ensures
        final(mem).wf(m),
        rest_same(old(mem), final(mem), idx as int),
        final(mem).ddr == old(mem).ddr,
        final(mem).pmem == old(mem).pmem,
        final(mem).cell(idx as int) == (CellView {
            regions: fresh_layout(m, old(mem).cell(idx as int).records),
            ..old(mem).cell(idx as int)
        }),
{
    assert(mem.cells@[idx as int]@.wf(m));
    mem.cells[idx].va.clear();
    proof {
        assert forall|j: int| 0 <= j < MAX_CELLS implies (#[trigger] mem.cells@[j])@.wf(m) by {
            assert(old(mem).cells@[j]@.wf(m));
        }
        assert(m.channels * m.queue_region <= u64::MAX);
    }
    record_region(m, mem, idx, USER_QUEUE_VA, m.queue_region, RegionKind::Queue);
    record_region(
        m,
        mem,
        idx,
        USER_CHANNEL_VA,
        m.channels as u64 * m.queue_region,
        RegionKind::Channel,
    );
}

/// However a cell came into its slot, no address range that meets its queue window or its
/// channel window is free of what the kernel owns, whether anything is mapped there or not.
pub proof fn law_kernel_windows_are_kept(m: &Machine, records: usize, base: u64, len: u64)
    requires
        m.wf(),
        records >= 2,
        base + len <= u64::MAX,
        len > 0,
        (base < USER_QUEUE_VA + m.queue_region && USER_QUEUE_VA < base + len) || (base
            < USER_CHANNEL_VA + m.channels * m.queue_region && USER_CHANNEL_VA < base + len),
    ensures
        exists|i: int| #[trigger] kernel_meets(fresh_layout(m, records), i, base, len),
{
    let all = m.channels * m.queue_region;
    assert(m.queue_region <= all) by (nonlinear_arith)
        requires
            all == m.channels * m.queue_region,
            m.channels >= 1,
            m.queue_region > 0,
    ;
    let none = Seq::<Region>::empty();
    let one = recorded(m, none, records, USER_QUEUE_VA, m.queue_region, RegionKind::Queue);
    assert(is_hole(none, USER_QUEUE_VA as int, m.queue_region as int));
    assert(one =~= seq![
        Region { base: USER_QUEUE_VA, len: m.queue_region, kind: RegionKind::Queue },
    ]);
    assert(is_hole(one, USER_CHANNEL_VA as int, all));
    let layout = fresh_layout(m, records);
    assert(layout == one.push(
        Region { base: USER_CHANNEL_VA, len: all as u64, kind: RegionKind::Channel },
    ));
    if base < USER_QUEUE_VA + m.queue_region && USER_QUEUE_VA < base + len {
        assert(kernel_meets(layout, 0, base, len));
    } else {
        assert(kernel_meets(layout, 1, base, len));
    }
}

/// No grants at all.
pub open spec fn no_grants() -> Seq<GrantSlot> {
    Seq::new(MAX_GRANTS_PER_CELL as nat, |i: int| no_grant())
}

fn empty_grants() -> (g: Vec<GrantSlot>)
    ensures
        g@ == no_grants(),
{
    let mut g: Vec<GrantSlot> = Vec::new();
    while g.len() < MAX_GRANTS_PER_CELL
        invariant
            g.len() <= MAX_GRANTS_PER_CELL,
            g@ == Seq::new(g.len() as nat, |i: int| no_grant()),
        decreases MAX_GRANTS_PER_CELL - g.len(),
    {
        g.push(GrantSlot::empty());
        assert(g@ =~= Seq::new(g.len() as nat, |i: int| no_grant()));
    }
    g
}

/// Put a native cell with one vcore into a slot.
///
/// Its home is the next memory node in turn. It starts with nothing charged, no
/// grants, and its queue and channel regions on record.
pub fn install(
    m: &Machine,
    t: &mut CellTable,
    mem: &mut Memory,
    idx: usize,
    aspace: u64,
    space: AddressSpace,
    caps: u64,
    objects: u64,
    qp: u64,
    frame: u64,
)
    requires
        m.wf(),
        old(t).wf(),
        chans_sized(m, old(t)),
        old(mem).wf(m),
        idx < MAX_CELLS,
        forall|j: int| 0 <= j < MAX_CELLS && j != idx ==> caps != #[trigger] owned_caps(j),
    ensures
        final(t).wf(),
        chans_sized(m, final(t)),
        final(mem).wf(m),
        ({
            let node = if m.nodes_known < 2 {
                NODE_ANY
            } else {
                (old(t).next_node % m.nodes_known) as u8
            };
            &&& final(t).cells@ == old(t).cells@.update(
                idx as int,
                RunCell {
                    aspace,
                    caps,
                    objects,
                    nvcores: 1,
                    present: true,
                    personality: Personality::Native,
                    node,
                },
            )
            &&& vcores_set(
                old(t).vcores@,
                final(t).vcores@,
                idx as int,
                Vcore { qp, frame, ..empty_vcore() },
                empty_vcore(),
                empty_vcore(),
                empty_vcore(),
            )
            &&& chans_cleared(m, old(t), final(t), idx as int)
            &&& final(t).cpus == old(t).cpus
            &&& rest_same(old(mem), final(mem), idx as int)
            &&& pools_same(old(mem), final(mem))
            &&& final(mem).cell(idx as int) == (CellView {
                pages: space@,
                regions: fresh_layout(m, old(mem).cell(idx as int).records),
                grants: no_grants(),
                charged: 0,
                tables: caps != 0 && objects != 0,
                node,
                present: true,
                ..old(mem).cell(idx as int)
            })
        }),
{
    let node: u8 = next_home_node(t, m.nodes_known);
    t.cells[idx] = RunCell {
        aspace,
        caps,
        objects,
        nvcores: 1,
        present: true,
        personality: Personality::Native,
        node,
    };
    set_vcores(
        t,
        idx,
        Vcore { qp, frame, outcome: None, qp_va: 0, qp_cap: 0, cpu: NO_CPU },
        Vcore::empty(),
        Vcore::empty(),
        Vcore::empty(),
    );
    clear_chans(m, t, idx);
    assert(mem.cells@[idx as int]@.wf(m));
    mem.cells[idx].aspace = space;
    mem.cells[idx].grants = empty_grants();
    mem.cells[idx].charged = 0;
    mem.cells[idx].tables = caps != 0 && objects != 0;
    mem.cells[idx].node = node;
    mem.cells[idx].present = true;
    proof {
        assert forall|j: int| 0 <= j < MAX_CELLS implies (#[trigger] mem.cells@[j])@.wf(m) by {
            assert(old(mem).cells@[j]@.wf(m));
        }
    }
    start_layout(m, mem, idx);
}

/// Add a vcore to a cell. Returns its number.
pub fn install_vcore(t: &mut CellTable, idx: usize, frame: u64, qp: u64) -> (v: usize)
    requires
        old(t).wf(),
        idx < MAX_CELLS,
        old(t).cells@[idx as int].present,
        old(t).cells@[idx as int].nvcores < MAX_VCORES,
    ensures
        final(t).wf(),
        v == old(t).cells@[idx as int].nvcores,
        final(t).cells@ == old(t).cells@.update(
            idx as int,
            RunCell { nvcores: (v + 1) as usize, ..old(t).cells@[idx as int] },
        ),
        final(t).vcores@ == old(t).vcores@.update(
            entity(idx as int, v as int),
            Vcore {
                frame,
                qp,
                outcome: None,
                cpu: NO_CPU,
                ..old(t).vcore(idx as int, v as int)
            },
        ),
        final(t).is_live(idx as int, v as int),
        final(t).chans == old(t).chans,
        final(t).cpus == old(t).cpus,
        same_counts(old(t), final(t)),
{
    let v: usize = t.cells[idx].nvcores;
    let e: usize = entity_of(idx, v);
    let was: Vcore = t.vcores[e];
    t.vcores[e] = Vcore {
        qp,
        frame,
        outcome: None,
        qp_va: was.qp_va,
        qp_cap: was.qp_cap,
        cpu: NO_CPU,
    };
    t.cells[idx].nvcores = v + 1;
    v
}

/// The table of capabilities that a slot has of its own.
pub fn owned_table(idx: usize) -> (table: u64)
    requires
        idx < MAX_CELLS,
    ensures
        table == owned_caps(idx as int),
{
    idx as u64 + 1
}

/// Put a child of a native cell into a slot.
///
/// The child's table of capabilities is its own and starts empty: it holds nothing that
/// it was not given. It keeps its parent's owners and its parent's home.
pub fn install_spawned(
    m: &Machine,
    t: &mut CellTable,
    mem: &mut Memory,
    idx: usize,
    aspace: u64,
    space: AddressSpace,
    qp: u64,
    frame: u64,
    parent: usize,
    qp_va: u64,
    qp_cap_id: u32,
)
    requires
        m.wf(),
        old(t).wf(),
        chans_sized(m, old(t)),
        old(mem).wf(m),
        idx < MAX_CELLS,
        parent < MAX_CELLS,
        idx != parent,
    ensures
        final(t).wf(),
        chans_sized(m, final(t)),
        final(mem).wf(m),
        final(t).cells@[idx as int].caps != final(t).cells@[parent as int].caps,
        final(mem).cell(parent as int) == old(mem).cell(parent as int),
        ({
            let p = old(t).cells@[parent as int];
            let owner = |v: int| old(t).vcore(parent as int, v).cpu;
            &&& final(t).cells@ == old(t).cells@.update(
                idx as int,
                RunCell {
                    aspace,
                    caps: owned_caps(idx as int),
                    objects: p.objects,
                    nvcores: 1,
                    present: true,
                    personality: Personality::Native,
                    node: p.node,
                },
            )
            &&& vcores_set(
                old(t).vcores@,
                final(t).vcores@,
                idx as int,
                Vcore { qp, frame, outcome: None, qp_va, qp_cap: qp_cap_id, cpu: owner(0) },
                Vcore { cpu: owner(1), ..empty_vcore() },
                Vcore { cpu: owner(2), ..empty_vcore() },
                Vcore { cpu: owner(3), ..empty_vcore() },
            )
            &&& chans_cleared(m, old(t), final(t), idx as int)
            &&& final(t).cpus == old(t).cpus
            &&& same_counts(old(t), final(t))
            &&& rest_same(old(mem), final(mem), idx as int)
            &&& pools_same(old(mem), final(mem))
            &&& final(mem).cell(idx as int) == (CellView {
                pages: space@,
                regions: fresh_layout(m, old(mem).cell(idx as int).records),
                grants: no_grants(),
                charged: 0,
                caps: emptied(old(mem).cell(idx as int).caps),
                tables: p.objects != 0,
                node: p.node,
                present: true,
                ..old(mem).cell(idx as int)
            })
        }),
{
    let p: RunCell = t.cells[parent];
    let o0: usize = t.vcores[entity_of(parent, 0)].cpu;
    let o1: usize = t.vcores[entity_of(parent, 1)].cpu;
    let o2: usize = t.vcores[entity_of(parent, 2)].cpu;
    let o3: usize = t.vcores[entity_of(parent, 3)].cpu;
    t.cells[idx] = RunCell {
        aspace,
        caps: owned_table(idx),
        objects: p.objects,
        nvcores: 1,
        present: true,
        personality: Personality::Native,
        node: p.node,
    };
    set_vcores(
        t,
        idx,
        Vcore { qp, frame, outcome: None, qp_va, qp_cap: qp_cap_id, cpu: o0 },
        Vcore { qp: 0, frame: 0, outcome: None, qp_va: 0, qp_cap: 0, cpu: o1 },
        Vcore { qp: 0, frame: 0, outcome: None, qp_va: 0, qp_cap: 0, cpu: o2 },
        Vcore { qp: 0, frame: 0, outcome: None, qp_va: 0, qp_cap: 0, cpu: o3 },
    );
    clear_chans(m, t, idx);
    assert(mem.cells@[idx as int]@.wf(m));
    mem.cells[idx].aspace = space;
    mem.cells[idx].grants = empty_grants();
    mem.cells[idx].charged = 0;
    mem.cells[idx].caps.clear();
    mem.cells[idx].tables = p.objects != 0;
    mem.cells[idx].node = p.node;
    mem.cells[idx].present = true;
    proof {
        assert forall|j: int| 0 <= j < MAX_CELLS implies (#[trigger] mem.cells@[j])@.wf(m) by {
            assert(old(mem).cells@[j]@.wf(m));
        }
    }
    start_layout(m, mem, idx);
}

/// Put a fork of a cell into a slot: a Linux cell whose own table holds a copy of its
/// parent's capabilities, and keeps its parent's queue pairs, owners and home. It holds no
/// typed grant, and the kernel's windows are on record in it as in every cell.
pub fn install_forked(
    m: &Machine,
    t: &mut CellTable,
    mem: &mut Memory,
    idx: usize,
    aspace: u64,
    space: AddressSpace,
    frame: u64,
    parent: usize,
)
    requires
        m.wf(),
        old(t).wf(),
        chans_sized(m, old(t)),
        old(mem).wf(m),
        idx < MAX_CELLS,
        parent < MAX_CELLS,
        idx != parent,
    ensures
        final(t).wf(),
        chans_sized(m, final(t)),
        final(mem).wf(m),
        final(t).cells@[idx as int].caps != final(t).cells@[parent as int].caps,
        final(mem).cell(parent as int) == old(mem).cell(parent as int),
        ({
            let p = old(t).cells@[parent as int];
            let pv = |v: int| old(t).vcore(parent as int, v);
            &&& final(t).cells@ == old(t).cells@.update(
                idx as int,
                RunCell {
                    aspace,
                    caps: owned_caps(idx as int),
                    objects: p.objects,
                    nvcores: 1,
                    present: true,
                    personality: Personality::Linux,
                    node: p.node,
                },
            )
            &&& vcores_set(
                old(t).vcores@,
                final(t).vcores@,
                idx as int,
                Vcore { qp: pv(0).qp, frame, cpu: pv(0).cpu, ..empty_vcore() },
                Vcore { qp: pv(1).qp, cpu: pv(1).cpu, ..empty_vcore() },
                Vcore { qp: pv(2).qp, cpu: pv(2).cpu, ..empty_vcore() },
                Vcore { qp: pv(3).qp, cpu: pv(3).cpu, ..empty_vcore() },
            )
            &&& chans_cleared(m, old(t), final(t), idx as int)
            &&& final(t).cpus == old(t).cpus
            &&& same_counts(old(t), final(t))
            &&& rest_same(old(mem), final(mem), idx as int)
            &&& pools_same(old(mem), final(mem))
            &&& final(mem).cell(idx as int) == (CellView {
                pages: space@,
                regions: fresh_layout(m, old(mem).cell(idx as int).records),
                grants: no_grants(),
                caps: copied(old(mem).cell(idx as int).caps, old(mem).cell(parent as int).caps),
                tables: p.objects != 0,
                node: p.node,
                present: true,
                ..old(mem).cell(idx as int)
            })
        }),
{
    let p: RunCell = t.cells[parent];
    let p0: Vcore = t.vcores[entity_of(parent, 0)];
    let p1: Vcore = t.vcores[entity_of(parent, 1)];
    let p2: Vcore = t.vcores[entity_of(parent, 2)];
    let p3: Vcore = t.vcores[entity_of(parent, 3)];
    t.cells[idx] = RunCell {
        aspace,
        caps: owned_table(idx),
        objects: p.objects,
        nvcores: 1,
        present: true,
        personality: Personality::Linux,
        node: p.node,
    };
    set_vcores(
        t,
        idx,
        Vcore { qp: p0.qp, frame, outcome: None, qp_va: 0, qp_cap: 0, cpu: p0.cpu },
        Vcore { qp: p1.qp, frame: 0, outcome: None, qp_va: 0, qp_cap: 0, cpu: p1.cpu },
        Vcore { qp: p2.qp, frame: 0, outcome: None, qp_va: 0, qp_cap: 0, cpu: p2.cpu },
        Vcore { qp: p3.qp, frame: 0, outcome: None, qp_va: 0, qp_cap: 0, cpu: p3.cpu },
    );
    clear_chans(m, t, idx);
    assert(mem.cells@[idx as int]@.wf(m));
    assert(mem.cells@[parent as int]@.wf(m));
    let mut copy = CapTable::new(0);
    std::mem::swap(&mut copy, &mut mem.cells[idx].caps);
    copy.copy_from(&mem.cells[parent].caps);
    mem.cells[idx].caps = copy;
    mem.cells[idx].aspace = space;
    mem.cells[idx].grants = empty_grants();
    mem.cells[idx].tables = p.objects != 0;
    mem.cells[idx].node = p.node;
    mem.cells[idx].present = true;
    proof {
        assert forall|j: int| 0 <= j < MAX_CELLS implies (#[trigger] mem.cells@[j])@.wf(m) by {
            assert(old(mem).cells@[j]@.wf(m));
        }
    }
    start_layout(m, mem, idx);
}

/// Take a cell out of its slot: nothing is charged to the slot any more and its
/// capabilities are gone.
pub fn free_cell(m: &Machine, t: &mut CellTable, mem: &mut Memory, idx: usize)
    requires
        m.wf(),
        old(t).wf(),
        chans_sized(m, old(t)),
        old(mem).wf(m),
        idx < MAX_CELLS,
    ensures
        final(t).wf(),
        chans_sized(m, final(t)),
        final(mem).wf(m),
        final(t).cells@ == old(t).cells@.update(idx as int, empty_cell()),
        vcores_set(
            old(t).vcores@,
            final(t).vcores@,
            idx as int,
            empty_vcore(),
            empty_vcore(),
            empty_vcore(),
            empty_vcore(),
        ),
        chans_cleared(m, old(t), final(t), idx as int),
        final(t).cpus == old(t).cpus,
        same_counts(old(t), final(t)),
        rest_same(old(mem), final(mem), idx as int),
        pools_same(old(mem), final(mem)),
        final(mem).cell(idx as int) == (CellView {
            charged: 0,
            caps: emptied(old(mem).cell(idx as int).caps),
            tables: false,
            node: NODE_ANY,
            present: false,
            ..old(mem).cell(idx as int)
        }),
{
    t.cells[idx] = RunCell::empty();
    set_vcores(t, idx, Vcore::empty(), Vcore::empty(), Vcore::empty(), Vcore::empty());
    clear_chans(m, t, idx);
    assert(mem.cells@[idx as int]@.wf(m));
    mem.cells[idx].charged = 0;
    mem.cells[idx].caps.clear();
    mem.cells[idx].tables = false;
    mem.cells[idx].node = NODE_ANY;
    mem.cells[idx].present = false;
    proof {
        assert forall|j: int| 0 <= j < MAX_CELLS implies (#[trigger] mem.cells@[j])@.wf(m) by {
            assert(old(mem).cells@[j]@.wf(m));
        }
    }
}

/// Say where the queue pair of a cell's first vcore is mapped.
pub fn set_queue_info(
    m: &Machine,
    t: &mut CellTable,
    mem: &mut Memory,
    idx: usize,
    qp_va: u64,
    cap_id: u32,
)
    requires
        m.wf(),
        old(t).wf(),
        old(mem).wf(m),
        idx < MAX_CELLS,
        old(t).cells@[idx as int].present,
    ensures
        final(t).wf(),
        final(mem).wf(m),
        queue_wired(m, old(t), final(t), old(mem), final(mem), idx as int, 0, qp_va, cap_id),
{
    set_vcore_queue_info(m, t, mem, idx, 0, qp_va, cap_id);
}

/// The queue pair of a vcore is known to be at `qp_va`, and its region is on
/// record where it can be.
pub open spec fn queue_wired(
    m: &Machine,
    t0: &CellTable,
    t1: &CellTable,
    mem0: &Memory,
    mem1: &Memory,
    idx: int,
    v: int,
    qp_va: u64,
    cap_id: u32,
) -> bool {
    let c = mem0.cell(idx);
    &&& only_vcores(t0, t1)
    &&& t1.vcores@ == t0.vcores@.update(
        entity(idx, v),
        Vcore { qp_va, qp_cap: cap_id, ..t0.vcore(idx, v) },
    )
    &&& rest_same(mem0, mem1, idx)
    &&& pools_same(mem0, mem1)
    &&& mem1.cell(idx) == (CellView {
        regions: recorded(m, c.regions, c.records, qp_va, m.queue_region, RegionKind::Queue),
        ..c
    })
}

/// Say where the queue pair of a vcore is mapped.
pub fn set_vcore_queue_info(
    m: &Machine,
    t: &mut CellTable,
    mem: &mut Memory,
    idx: usize,
    v: usize,
    qp_va: u64,
    cap_id: u32,
)
    requires
        m.wf(),
        old(t).wf(),
        old(mem).wf(m),
        idx < MAX_CELLS,
        v < MAX_VCORES,
        old(t).cells@[idx as int].present,
    ensures
        final(t).wf(),
        final(mem).wf(m),
        queue_wired(
            m,
            old(t),
            final(t),
            old(mem),
            final(mem),
            idx as int,
            v as int,
            qp_va,
            cap_id,
        ),
{
    let e: usize = entity_of(idx, v);
    let was: Vcore = t.vcores[e];
    t.vcores[e] = Vcore {
        qp: was.qp,
        frame: was.frame,
        outcome: was.outcome,
        qp_va,
        qp_cap: cap_id,
        cpu: was.cpu,
    };
    record_region(m, mem, idx, qp_va, m.queue_region, RegionKind::Queue);
}

/// Wire the first channel end of a cell.
pub fn set_channel_info(
    m: &Machine,
    t: &mut CellTable,
    mem: &mut Memory,
    idx: usize,
    chan_va: u64,
    cap_id: u32,
    role: u64,
)
    requires
        m.wf(),
        old(t).wf(),
        chans_sized(m, old(t)),
        old(mem).wf(m),
        idx < MAX_CELLS,
        old(t).cells@[idx as int].present,
    ensures
        final(t).wf(),
        chans_sized(m, final(t)),
        final(mem).wf(m),
        channel_wired(
            m,
            old(t),
            final(t),
            old(mem),
            final(mem),
            idx as int,
            0,
            ChanEnd { va: chan_va, cap_id, role },
        ),
{
    set_channel_slot(m, t, mem, idx, 0, chan_va, cap_id, role);
}

/// A channel end of a cell is wired, and its region is on record where it can be.
pub open spec fn channel_wired(
    m: &Machine,
    t0: &CellTable,
    t1: &CellTable,
    mem0: &Memory,
    mem1: &Memory,
    idx: int,
    slot: int,
    end: ChanEnd,
) -> bool {
    let c = mem0.cell(idx);
    &&& t1.cells == t0.cells
    &&& t1.vcores == t0.vcores
    &&& t1.cpus == t0.cpus
    &&& same_counts(t0, t1)
    &&& t1.chans@.len() == t0.chans@.len()
    &&& t1.chans@[idx]@ == t0.chans@[idx]@.update(slot, end)
    &&& forall|i: int|
        0 <= i < t0.chans@.len() && i != idx ==> #[trigger] t1.chans@[i] == t0.chans@[i]
    &&& rest_same(mem0, mem1, idx)
    &&& pools_same(mem0, mem1)
    &&& mem1.cell(idx) == (CellView {
        regions: recorded(m, c.regions, c.records, end.va, m.queue_region, RegionKind::Channel),
        ..c
    })
}

/// Wire a channel end of a cell.
pub fn set_channel_slot(
    m: &Machine,
    t: &mut CellTable,
    mem: &mut Memory,
    idx: usize,
    slot: usize,
    chan_va: u64,
    cap_id: u32,
    role: u64,
)
    requires
        m.wf(),
        old(t).wf(),
        chans_sized(m, old(t)),
        old(mem).wf(m),
        idx < MAX_CELLS,
        old(t).cells@[idx as int].present,
        slot < m.channels,
    ensures
        final(t).wf(),
        chans_sized(m, final(t)),
        final(mem).wf(m),
        channel_wired(
            m,
            old(t),
            final(t),
            old(mem),
            final(mem),
            idx as int,
            slot as int,
            ChanEnd { va: chan_va, cap_id, role },
        ),
{
    assert(t.chans@[idx as int]@.len() == m.channels);
    t.chans[idx][slot] = ChanEnd { va: chan_va, cap_id, role };
    record_region(m, mem, idx, chan_va, m.queue_region, RegionKind::Channel);
}

/// The address and the role of a channel end, or zeros where there is none.
pub fn cell_chan_slot(m: &Machine, t: &CellTable, idx: usize, slot: usize) -> (r: (u64, u64))
    requires
        t.wf(),
        chans_sized(m, t),
        idx < MAX_CELLS,
    ensures
        r == (if slot < m.channels {
            (t.chans@[idx as int]@[slot as int].va, t.chans@[idx as int]@[slot as int].role)
        } else {
            (0u64, 0u64)
        }),
{
    if slot >= m.channels {
        return (0, 0);
    }
    assert(t.chans@[idx as int]@.len() == m.channels);
    let c: ChanEnd = t.chans[idx][slot];
    (c.va, c.role)
}

/// How many channel ends a cell holds, counted from the first on without a gap.
pub open spec fn chan_run(ends: Seq<ChanEnd>, from: int) -> int
    decreases ends.len() - from,
{
    if from < 0 || from >= ends.len() || ends[from].va == 0 {
        0
    } else {
        1 + chan_run(ends, from + 1)
    }
}

/// How many channel ends a cell holds, counted from the first on without a gap.
pub fn cell_chan_count(t: &CellTable, idx: usize) -> (n: usize)
    requires
        t.wf(),
        idx < MAX_CELLS,
    ensures
        n == chan_run(t.chans@[idx as int]@, 0),
{
    let ends = &t.chans[idx];
    let mut i: usize = 0;
    while i < ends.len()
        invariant_except_break
            ends@ == t.chans@[idx as int]@,
            i <= ends@.len(),
            chan_run(ends@, 0) == i + chan_run(ends@, i as int),
        ensures
            i == chan_run(ends@, 0),
        decreases ends@.len() - i,
    {
        if ends[i].va == 0 {
            break;
        }
        i = i + 1;
    }
    i
}

/// Create an object of a kind and mint a capability on it for a cell. `None` when
/// there is no room for either; an object that was created stays.
pub fn mint_into(m: &Machine, mem: &mut Memory, idx: usize, kind: ObjectKind, rights: u32) -> (r: Option<
    u32,
>)
    requires
        m.wf(),
        old(mem).wf(m),
        idx < MAX_CELLS,
    ensures
        final(mem).wf(m),
        pools_same(old(mem), final(mem)),
        final(mem).system == old(mem).system,
        final(mem).noticed@ == old(mem).noticed@,
        forall|i: int|
            0 <= i < MAX_CELLS && i != idx ==> (#[trigger] final(mem).cells@[i])@ == old(
                mem,
            ).cells@[i]@,
        ({
            let c0 = old(mem).cell(idx as int);
            let c1 = final(mem).cell(idx as int);
            let object = old(mem).objects@.len();
            if object >= old(mem).objects.object_limit() {
                &&& r is None
                &&& c1 == c0
                &&& final(mem).objects@ == old(mem).objects@
            } else {
                &&& final(mem).objects@ == old(mem).objects@.push(Object { kind, epoch: 0 })
                &&& c1 == (CellView { caps: c1.caps, ..c0 })
                &&& match r {
                    Some(h) => minted(
                        c0.caps,
                        c1.caps,
                        h,
                        Capability {
                            object: object as u32,
                            rights,
                            budget: BUDGET_UNLIMITED,
                            epoch: 0,
                        },
                    ),
                    None => c1.caps == c0.caps && !has_room(
                        c0.caps,
                        c0.cap_limit,
                    ),
                }
            }
        }),
{
    assert(mem.cells@[idx as int]@.wf(m));
    let object: u32 = match mem.objects.create(kind) {
        Ok(o) => o,
        Err(_) => {
            proof {
                assert forall|j: int| 0 <= j < MAX_CELLS implies (#[trigger] mem.cells@[j])@.wf(m) by {
                    assert(old(mem).cells@[j]@.wf(m));
                }
            }
            return None;
        },
    };
    let r = mem.cells[idx].caps.mint(&mem.objects, object, rights, BUDGET_UNLIMITED);
    proof {
        assert forall|j: int| 0 <= j < MAX_CELLS implies (#[trigger] mem.cells@[j])@.wf(m) by {
            assert(old(mem).cells@[j]@.wf(m));
        }
    }
    match r {
        Ok(h) => Some(h),
        Err(_) => None,
    }
}

/// How many capabilities a cell holds.
pub fn current_caps_live(mem: &Memory, cur: usize) -> (n: usize)
    requires
        cur < mem.cells@.len(),
    ensures
        n == (if mem.cell(cur as int).tables {
            count_live(mem.cell(cur as int).caps)
        } else {
            0
        }),
{
    if !mem.cells[cur].tables {
        return 0;
    }
    mem.cells[cur].caps.live_count()
}


/// A reservation slot that holds nothing.
pub open spec fn no_reservation() -> ResSlot {
    ResSlot {
        in_use: false,
        res: Reservation { ppm: 0 },
        sys_res: Reservation { ppm: 0 },
        cap_id: 0,
    }
}

/// No reservations at all.
pub open spec fn no_reservations() -> Seq<ResSlot> {
    Seq::new(MAX_RES_PER_CELL as nat, |i: int| no_reservation())
}

fn empty_reservations() -> (r: Vec<ResSlot>)
    ensures
        r@ == no_reservations(),
{
    let mut r: Vec<ResSlot> = Vec::new();
    while r.len() < MAX_RES_PER_CELL
        invariant
            r.len() <= MAX_RES_PER_CELL,
            r@ == Seq::new(r.len() as nat, |i: int| no_reservation()),
        decreases MAX_RES_PER_CELL - r.len(),
    {
        r.push(ResSlot::empty());
        assert(r@ =~= Seq::new(r.len() as nat, |i: int| no_reservation()));
    }
    r
}

/// What a slot holds once every cell was taken out.
pub open spec fn reset_view(c: CellView) -> CellView {
    CellView {
        grants: no_grants(),
        res: no_reservations(),
        admission: Admission { committed: 0 },
        charged: 0,
        tables: false,
        node: NODE_ANY,
        present: false,
        ..c
    }
}

/// Take every cell out: no grants, no reservations, nothing charged, and nothing
/// admitted.
pub fn reset(m: &Machine, t: &mut CellTable, mem: &mut Memory)
    requires
        m.wf(),
        old(t).wf(),
        chans_sized(m, old(t)),
        old(mem).wf(m),
    ensures
        final(t).wf(),
        chans_sized(m, final(t)),
        final(mem).wf(m),
        forall|i: int| 0 <= i < MAX_CELLS ==> #[trigger] final(t).cells@[i] == empty_cell(),
        forall|e: int|
            0 <= e < MAX_CELLS * MAX_VCORES ==> #[trigger] final(t).vcores@[e] == empty_vcore(),
        forall|i: int|
            0 <= i < MAX_CELLS ==> (#[trigger] final(t).chans@[i])@ == Seq::new(
                m.channels as nat,
                |k: int| empty_chan(),
            ),
        final(t).cpus == old(t).cpus,
        same_counts(old(t), final(t)),
        pools_same(old(mem), final(mem)),
        final(mem).objects@ == old(mem).objects@,
        final(mem).noticed@ == old(mem).noticed@,
        final(mem).system == (Admission { committed: 0 }),
        forall|i: int|
            0 <= i < MAX_CELLS ==> (#[trigger] final(mem).cells@[i])@ == reset_view(
                old(mem).cells@[i]@,
            ),
{
    let mut i: usize = 0;
    while i < MAX_CELLS
        invariant
            i <= MAX_CELLS,
            t.wf(),
            chans_sized(m, t),
            mem.wf(m),
            forall|j: int| 0 <= j < i ==> #[trigger] t.cells@[j] == empty_cell(),
            forall|e: int| 0 <= e < entity(i as int, 0) ==> #[trigger] t.vcores@[e] == empty_vcore(),
            forall|j: int|
                0 <= j < i ==> (#[trigger] t.chans@[j])@ == Seq::new(
                    m.channels as nat,
                    |k: int| empty_chan(),
                ),
            t.cpus == old(t).cpus,
            same_counts(old(t), t),
            mem.cells@.len() == old(mem).cells@.len(),
            mem.ddr == old(mem).ddr,
            mem.pmem == old(mem).pmem,
            mem.objects == old(mem).objects,
            mem.noticed == old(mem).noticed,
            forall|j: int|
                0 <= j < i ==> (#[trigger] mem.cells@[j])@ == reset_view(old(mem).cells@[j]@),
            forall|j: int| i <= j < MAX_CELLS ==> (#[trigger] mem.cells@[j])@ == old(mem).cells@[j]@,
        decreases MAX_CELLS - i,
    {
        let ghost mid = t.vcores@;
        t.cells[i] = RunCell::empty();
        set_vcores(t, i, Vcore::empty(), Vcore::empty(), Vcore::empty(), Vcore::empty());
        clear_chans(m, t, i);
        assert(mem.cells@[i as int]@.wf(m));
        mem.cells[i].grants = empty_grants();
        mem.cells[i].res = empty_reservations();
        mem.cells[i].admission = Admission::new();
        mem.cells[i].charged = 0;
        mem.cells[i].tables = false;
        mem.cells[i].node = NODE_ANY;
        mem.cells[i].present = false;
        i = i + 1;
    }
    mem.system = Admission::new();
}

/// A cell whose table is as a spawned cell's starts has no authority: no handle of it
/// stands for an object, so that every call that needs a capability is refused.
pub proof fn law_spawned_cell_has_no_authority(
    c: CellView,
    before: Seq<CapSlot>,
    objects: Seq<Object>,
    handle: u32,
    right: u32,
)
    requires
        c.caps == emptied(before),
    ensures
        resolve(c.caps, objects, handle) == Err::<Capability, CapError>(CapError::BadHandle),
        checked(c.caps, objects, handle, right) is Err,
        count_live(c.caps) == 0,
{
    law_emptied_table_holds_nothing(before, handle);
    lemma_none_live(c.caps);
}

proof fn lemma_none_live(caps: Seq<CapSlot>)
    requires
        forall|i: int| 0 <= i < caps.len() ==> (#[trigger] caps[i]).cap is None,
    ensures
        count_live(caps) == 0,
    decreases caps.len(),
{
    if caps.len() > 0 {
        lemma_none_live(caps.drop_last());
    }
}

/// Setting the vcores of a cell sets its own four, each to its own, and those of no other
/// cell.
pub proof fn law_vcores_are_set_in_their_cell(
    before: Seq<Vcore>,
    after: Seq<Vcore>,
    idx: int,
    v0: Vcore,
    v1: Vcore,
    v2: Vcore,
    v3: Vcore,
    e: int,
)
    requires
        before.len() == MAX_CELLS * MAX_VCORES,
        0 <= idx < MAX_CELLS,
        vcores_set(before, after, idx, v0, v1, v2, v3),
        0 <= e < before.len(),
    ensures
        after.len() == before.len(),
        after[4 * idx] == v0,
        after[4 * idx + 1] == v1,
        after[4 * idx + 2] == v2,
        after[4 * idx + 3] == v3,
        e / 4 != idx ==> after[e] == before[e],
{
}

/// What goes on record never hides what is there: the regions of before stay, in order,
/// and the one that is added, if it is, has the kind and the place that were given, lies in
/// user memory and meets none of them.
pub proof fn law_record_adds_without_overlap(
    m: &Machine,
    regions: Seq<Region>,
    records: usize,
    base: u64,
    len: u64,
    kind: RegionKind,
    i: int,
)
    requires
        0 <= i < regions.len(),
    ensures
        ({
            let now = recorded(m, regions, records, base, len, kind);
            &&& now[i] == regions[i]
            &&& now.len() == regions.len() || now.len() == regions.len() + 1
            &&& now.len() == regions.len() + 1 ==> {
                &&& regions.len() < records
                &&& len > 0
                &&& base + len <= m.user_va_max
                &&& now.last() == (Region { base, len, kind })
                &&& regions[i].base + regions[i].len <= base || base + len <= regions[i].base
            }
            &&& now.len() == regions.len() ==> len == 0 || base + len > m.user_va_max || regions.len()
                >= records || exists|j: int|
                0 <= j < regions.len() && (#[trigger] regions[j]).base < base + len && base
                    < regions[j].base + regions[j].len
        }),
{
    let now = recorded(m, regions, records, base, len, kind);
    if now.len() == regions.len() + 1 {
        assert(!regions[i].meets(base as int, len as int));
    } else if len > 0 && base + len <= m.user_va_max && regions.len() < records {
        let j = choose|j: int| 0 <= j < regions.len() && regions[j].meets(base as int, len as int);
        assert(regions[j].base < base + len && base < regions[j].base + regions[j].len);
    }
}

/// What a cell may not map over is what the kernel placed: its queues, its channels, its
/// grants, fixed mappings and device windows, and none of the cell's own memory.
pub proof fn law_kernel_owns_what_it_placed(kind: RegionKind)
    ensures
        kernel_owned(kind) is Some <==> kind == RegionKind::Queue || kind == RegionKind::Channel || kind
            == RegionKind::Grant || kind == RegionKind::Fixed || kind == RegionKind::DeviceBar,
{
}

/// The count of channel ends is how far they go without a gap: every end before it has an
/// address, and the one there, where there is one, has none.
pub proof fn law_ends_are_counted_to_the_gap(ends: Seq<ChanEnd>, from: int)
    requires
        0 <= from <= ends.len(),
    ensures
        0 <= chan_run(ends, from) <= ends.len() - from,
        forall|k: int| from <= k < from + chan_run(ends, from) ==> (#[trigger] ends[k]).va != 0,
        from + chan_run(ends, from) < ends.len() ==> ends[from + chan_run(ends, from)].va == 0,
    decreases ends.len() - from,
{
    if from < ends.len() && ends[from].va != 0 {
        law_ends_are_counted_to_the_gap(ends, from + 1);
    }
}

/// Wiring an end sets that end of that cell: it holds the address, the capability and the
/// role from then on, every other end of every cell holds what it did, and the memory of
/// every other cell is as it was.
pub proof fn law_wiring_sets_one_end(
    m: &Machine,
    t0: &CellTable,
    t1: &CellTable,
    mem0: &Memory,
    mem1: &Memory,
    idx: int,
    slot: int,
    end: ChanEnd,
    other: int,
    k: int,
)
    requires
        t0.wf(),
        chans_sized(m, t0),
        0 <= idx < MAX_CELLS,
        0 <= slot < m.channels,
        channel_wired(m, t0, t1, mem0, mem1, idx, slot, end),
        0 <= other < MAX_CELLS,
        0 <= k < m.channels,
    ensures
        t1.chans@[idx]@[slot].va == end.va,
        t1.chans@[idx]@[slot].cap_id == end.cap_id,
        t1.chans@[idx]@[slot].role == end.role,
        other != idx || k != slot ==> t1.chans@[other]@[k] == t0.chans@[other]@[k],
        t1.cells@ == t0.cells@,
        t1.vcores@ == t0.vcores@,
        mem1.cell(idx).pages == mem0.cell(idx).pages,
        mem1.cell(idx).caps == mem0.cell(idx).caps,
        mem0.cells@.len() == MAX_CELLS && other != idx ==> mem1.cell(other) == mem0.cell(other),
{
    assert(t0.chans@[idx]@.len() == m.channels);
    if mem0.cells@.len() == MAX_CELLS && other != idx {
        assert(mem1.cells@[other]@ == mem0.cells@[other]@);
    }
}

/// Taking every cell out leaves nothing of theirs: no grant, no reservation, nothing
/// committed, nothing charged and no tables; and clearing the channels of a cell unwires each
/// of its ends and no other cell's.
pub proof fn law_reset_leaves_nothing(m: &Machine, c: CellView, t0: &CellTable, t1: &CellTable, idx: int, k: int, i: int)
    requires
        0 <= k < MAX_GRANTS_PER_CELL,
    ensures
        !reset_view(c).grants[k].in_use,
        0 <= i < MAX_RES_PER_CELL ==> !reset_view(c).res[i].in_use && reset_view(c).res[i].res.ppm == 0,
        reset_view(c).admission.committed == 0,
        reset_view(c).charged == 0,
        !reset_view(c).tables,
        !reset_view(c).present,
        chans_cleared(m, t0, t1, idx) && 0 <= i < m.channels ==> t1.chans@[idx]@[i].va == 0,
        chans_cleared(m, t0, t1, idx) && 0 <= i < t0.chans@.len() && i != idx ==> t1.chans@[i] == t0.chans@[i],
{
}

/// What is named of the kernel's regions in the way is the first of them: it meets the range,
/// and none before it in the record does.
pub proof fn law_first_in_the_way_is_named(regions: Seq<Region>, i: int, base: u64, len: u64, j: int)
    requires
        first_kernel_meets(regions, i, base, len),
        base + len <= u64::MAX,
        0 <= j < i,
    ensures
        regions[i].base < base + len,
        base < regions[i].base + regions[i].len,
        kernel_owned(regions[i].kind) is Some,
        regions[j].base >= base + len || base >= regions[j].base + regions[j].len || kernel_owned(
            regions[j].kind,
        ) is None,
{
    assert(!kernel_meets(regions, j, base, len));
}

} // verus!
