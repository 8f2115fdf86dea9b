//! The table of cells, their vcores, and which CPU is inside which of them.

use vstd::prelude::*;
use crate::kernel::frames::NODE_ANY;
use crate::kernel::memory::MAX_CELLS;

verus! {

/// CPUs that the kernel can run on.
pub const MAX_CPUS: usize = 64;

/// Vcores that one cell can hold.
pub const MAX_VCORES: usize = 4;

/// No CPU.
pub const NO_CPU: usize = usize::MAX;

/// How a vcore ended.
#[derive(Copy, Clone, PartialEq, Eq, Debug, Structural)]
pub enum Outcome {
    Exited(u64),
    /// It faulted at this address.
    Faulted(u64),
}

/// Whose system calls a cell makes.
#[derive(Copy, Clone, PartialEq, Eq, Debug, Structural)]
pub enum Personality {
    Native,
    Linux,
}

/// One end of a channel between cells.
#[derive(Copy, Clone, PartialEq, Eq, Debug, Structural)]
pub struct ChanEnd {
    pub va: u64,
    pub cap_id: u32,
    pub role: u64,
}

/// A cell. The address space, the capability tables and the objects are named by
/// where the kernel keeps them; zero is none.
#[derive(Copy, Clone, PartialEq, Eq, Debug, Structural)]
pub struct RunCell {
    pub aspace: u64,
    pub caps: u64,
    pub objects: u64,
    pub nvcores: usize,
    pub present: bool,
    pub personality: Personality,
    /// The memory node the cell places its memory on.
    pub node: u8,
}

/// A vcore: its queue pair, its saved registers, how it ended, where its queue
/// pair is mapped and under which capability, and the CPU that owns it.
#[derive(Copy, Clone, PartialEq, Eq, Debug, Structural)]
pub struct Vcore {
    pub qp: u64,
    pub frame: u64,
    pub outcome: Option<Outcome>,
    pub qp_va: u64,
    pub qp_cap: u32,
    pub cpu: usize,
}

/// What one CPU is doing.
#[derive(Copy, Clone, PartialEq, Eq, Debug, Structural)]
pub struct CpuContext {
    /// The cell whose address space is active.
    pub cell: usize,
    /// The vcore that runs.
    pub vcore: usize,
    /// The cell and the vcore that ended last.
    pub exited: usize,
    pub exited_vcore: usize,
    /// The cell that the run was started with.
    pub top: usize,
    /// The vcore the CPU is inside, by entity, or [`NO_CPU`].
    pub inside: usize,
}

/// An empty slot of the table.
pub open spec fn empty_cell() -> RunCell {
    RunCell {
        aspace: 0,
        caps: 0,
        objects: 0,
        nvcores: 0,
        present: false,
        personality: Personality::Native,
        node: NODE_ANY,
    }
}

/// A vcore that is not there.
pub open spec fn empty_vcore() -> Vcore {
    Vcore { qp: 0, frame: 0, outcome: None, qp_va: 0, qp_cap: 0, cpu: NO_CPU }
}

/// A channel end that is not wired.
pub open spec fn empty_chan() -> ChanEnd {
    ChanEnd { va: 0, cap_id: 0, role: 0 }
}

impl RunCell {
    pub fn empty() -> (c: RunCell)
        ensures
            c == empty_cell(),
    {
        RunCell {
            aspace: 0,
            caps: 0,
            objects: 0,
            nvcores: 0,
            present: false,
            personality: Personality::Native,
            node: NODE_ANY,
        }
    }
}

impl Vcore {
    pub fn empty() -> (v: Vcore)
        ensures
            v == empty_vcore(),
    {
        Vcore { qp: 0, frame: 0, outcome: None, qp_va: 0, qp_cap: 0, cpu: NO_CPU }
    }
}

/// The entity number of a vcore of a cell.
pub open spec fn entity(idx: int, v: int) -> int {
    idx * MAX_VCORES + v
}

/// The entity number of a vcore of a cell.
pub fn entity_of(idx: usize, v: usize) -> (e: usize)
    requires
        idx < MAX_CELLS,
        v < MAX_VCORES,
    ensures
        e == entity(idx as int, v as int),
        e < MAX_CELLS * MAX_VCORES,
{
    idx * MAX_VCORES + v
}

/// The cell and the vcore of an entity number, if there is such an entity.
pub fn entity_pair(e: usize) -> (p: Option<(usize, usize)>)
    ensures
        match p {
            Some((idx, v)) => idx < MAX_CELLS && v < MAX_VCORES && entity(idx as int, v as int) == e,
            None => e >= MAX_CELLS * MAX_VCORES,
        },
{
    if e >= MAX_CELLS * MAX_VCORES {
        return None;
    }
    Some((e / MAX_VCORES, e % MAX_VCORES))
}

/// Different vcores are different entities.
pub proof fn law_entities_are_distinct(i: int, v: int, j: int, w: int)
    requires
        0 <= v < MAX_VCORES,
        0 <= w < MAX_VCORES,
        entity(i, v) == entity(j, w),
    ensures
        i == j,
        v == w,
{
}

/// The table of cells.
pub struct CellTable {
    pub cells: Vec<RunCell>,
    /// Every vcore, by entity number.
    pub vcores: Vec<Vcore>,
    /// The channel ends of each cell.
    pub chans: Vec<Vec<ChanEnd>>,
    pub cpus: Vec<CpuContext>,
    /// Homes handed out so far.
    pub next_node: usize,
    /// Register files loaded for cells so far.
    pub fp_swaps: u64,
    /// Attempts to enter a vcore that another CPU was inside.
    pub double_entry: u32,
    /// Cells passed over because another CPU owned them.
    pub affinity_skips: u64,
}

/// The table of capabilities that a slot has of its own, by number. A table that
/// someone else keeps goes by its address.
pub open spec fn owned_caps(idx: int) -> u64 {
    (idx + 1) as u64
}

impl CellTable {
    /// A table without cells, each slot with room for as many channel ends, and every
    /// CPU outside all of them.
    pub fn new(channels: usize) -> (t: CellTable)
        ensures
            t.wf(),
            t.exclusive(),
            forall|i: int| 0 <= i < MAX_CELLS ==> #[trigger] t.cells@[i] == empty_cell(),
            forall|e: int|
                0 <= e < MAX_CELLS * MAX_VCORES ==> #[trigger] t.vcores@[e] == empty_vcore(),
            forall|i: int|
                0 <= i < MAX_CELLS ==> (#[trigger] t.chans@[i])@ == Seq::new(
                    channels as nat,
                    |k: int| empty_chan(),
                ),
            forall|c: int| 0 <= c < MAX_CPUS ==> (#[trigger] t.cpus@[c]).inside == NO_CPU,
            t.next_node == 0,
            t.fp_swaps == 0,
            t.double_entry == 0,
            t.affinity_skips == 0,
    {
        let mut cells: Vec<RunCell> = Vec::new();
        let mut chans: Vec<Vec<ChanEnd>> = Vec::new();
        while cells.len() < MAX_CELLS
            invariant
                cells@.len() <= MAX_CELLS,
                chans@.len() == cells@.len(),
                forall|i: int| 0 <= i < cells@.len() ==> #[trigger] cells@[i] == empty_cell(),
                forall|i: int|
                    0 <= i < chans@.len() ==> (#[trigger] chans@[i])@ == Seq::new(
                        channels as nat,
                        |k: int| empty_chan(),
                    ),
            decreases MAX_CELLS - cells@.len(),
        {
            cells.push(RunCell::empty());
            let ends: Vec<ChanEnd> = vec![ChanEnd { va: 0, cap_id: 0, role: 0 }; channels];
            assert(ends@ =~= Seq::new(channels as nat, |k: int| empty_chan()));
            chans.push(ends);
        }
        let mut vcores: Vec<Vcore> = Vec::new();
        while vcores.len() < 64
            invariant
                vcores@.len() <= 64,
                forall|e: int| 0 <= e < vcores@.len() ==> #[trigger] vcores@[e] == empty_vcore(),
            decreases 64 - vcores@.len(),
        {
            vcores.push(Vcore::empty());
        }
        let mut cpus: Vec<CpuContext> = Vec::new();
        while cpus.len() < MAX_CPUS
            invariant
                cpus@.len() <= MAX_CPUS,
                forall|c: int|
                    0 <= c < cpus@.len() ==> #[trigger] cpus@[c] == (CpuContext {
                        cell: 0,
                        vcore: 0,
                        exited: 0,
                        exited_vcore: 0,
                        top: 0,
                        inside: NO_CPU,
                    }),
            decreases MAX_CPUS - cpus@.len(),
        {
            cpus.push(
                CpuContext { cell: 0, vcore: 0, exited: 0, exited_vcore: 0, top: 0, inside: NO_CPU },
            );
        }
        CellTable {
            cells,
            vcores,
            chans,
            cpus,
            next_node: 0,
            fp_swaps: 0,
            double_entry: 0,
            affinity_skips: 0,
        }
    }

    /// No cell has the table of capabilities that another slot has of its own.
    pub open spec fn tables_apart(&self) -> bool {
        forall|i: int, j: int|
            #![trigger self.cells@[i], owned_caps(j)]
            0 <= i < MAX_CELLS && 0 <= j < MAX_CELLS && i != j ==> self.cells@[i].caps != owned_caps(
                j,
            )
    }

    pub open spec fn wf(&self) -> bool {
        &&& self.cells@.len() == MAX_CELLS
        &&& self.vcores@.len() == MAX_CELLS * MAX_VCORES
        &&& self.chans@.len() == MAX_CELLS
        &&& self.cpus@.len() == MAX_CPUS
        &&& forall|i: int|
            0 <= i < MAX_CELLS ==> (#[trigger] self.cells@[i]).nvcores <= MAX_VCORES
        &&& self.tables_apart()
        &&& forall|c: int|
            0 <= c < MAX_CPUS ==> {
                let x = #[trigger] self.cpus@[c];
                &&& x.cell < MAX_CELLS
                &&& x.vcore < MAX_VCORES
                &&& x.exited < MAX_CELLS
                &&& x.exited_vcore < MAX_VCORES
                &&& x.top < MAX_CELLS
            }
    }

    /// No two CPUs are inside the same vcore.
    pub open spec fn exclusive(&self) -> bool {
        forall|a: int, b: int|
            0 <= a < self.cpus@.len() && 0 <= b < self.cpus@.len() && a != b && (
            #[trigger] self.cpus@[a]).inside != NO_CPU ==> self.cpus@[a].inside != (
            #[trigger] self.cpus@[b]).inside
    }

    /// The vcore of a cell.
    pub open spec fn vcore(&self, idx: int, v: int) -> Vcore {
        self.vcores@[entity(idx, v)]
    }

    /// Whether a vcore exists and has not ended.
    pub open spec fn is_live(&self, idx: int, v: int) -> bool {
        v < self.cells@[idx].nvcores && self.vcore(idx, v).outcome is None
    }
}

/// Everything but the cells is as it was.
pub open spec fn only_cells(before: &CellTable, after: &CellTable) -> bool {
    &&& after.vcores == before.vcores
    &&& after.chans == before.chans
    &&& after.cpus == before.cpus
    &&& same_counts(before, after)
}

/// Everything but the vcores is as it was.
pub open spec fn only_vcores(before: &CellTable, after: &CellTable) -> bool {
    &&& after.cells == before.cells
    &&& after.chans == before.chans
    &&& after.cpus == before.cpus
    &&& same_counts(before, after)
}

/// Everything but what the CPUs are doing is as it was.
pub open spec fn only_cpus(before: &CellTable, after: &CellTable) -> bool {
    &&& after.cells == before.cells
    &&& after.vcores == before.vcores
    &&& after.chans == before.chans
    &&& same_counts(before, after)
}

/// The counters are as they were.
pub open spec fn same_counts(before: &CellTable, after: &CellTable) -> bool {
    &&& after.next_node == before.next_node
    &&& after.fp_swaps == before.fp_swaps
    &&& after.double_entry == before.double_entry
    &&& after.affinity_skips == before.affinity_skips
}

/// The memory node of a cell.
pub fn cell_node(t: &CellTable, idx: usize) -> (n: u8)
    requires
        t.wf(),
    ensures
        n == (if idx < MAX_CELLS {
            t.cells@[idx as int].node
        } else {
            NODE_ANY
        }),
{
    if idx >= MAX_CELLS {
        return NODE_ANY;
    }
    t.cells[idx].node
}

/// The node that a cell is at home on, when so many cells came before it.
pub open spec fn home_of(before: usize, nodes: usize) -> u8 {
    if nodes < 2 {
        NODE_ANY
    } else {
        (before % nodes) as u8
    }
}

/// The next cell's home: the nodes in turn, or none where there are fewer than
/// two.
pub fn next_home_node(t: &mut CellTable, nodes: usize) -> (n: u8)
    requires
        nodes <= 255,
    ensures
        n == home_of(old(t).next_node, nodes),
        n == (if nodes < 2 {
            NODE_ANY
        } else {
            (old(t).next_node % nodes) as u8
        }),
        final(t).next_node == (if nodes < 2 {
            old(t).next_node
        } else if old(t).next_node == usize::MAX {
            0
        } else {
            (old(t).next_node + 1) as usize
        }),
        final(t).cells == old(t).cells,
        final(t).vcores == old(t).vcores,
        final(t).chans == old(t).chans,
        final(t).cpus == old(t).cpus,
        final(t).fp_swaps == old(t).fp_swaps,
        final(t).double_entry == old(t).double_entry,
        final(t).affinity_skips == old(t).affinity_skips,
{
    if nodes < 2 {
        return NODE_ANY;
    }
    let n: usize = t.next_node;
    t.next_node = n.wrapping_add(1);
    (n % nodes) as u8
}

/// The vcore that a CPU runs.
pub fn current_vcore(t: &CellTable, cpu: usize) -> (v: usize)
    requires
        t.wf(),
        cpu < MAX_CPUS,
    ensures
        v == t.cpus@[cpu as int].vcore,
{
    t.cpus[cpu].vcore
}

/// Say which vcore a CPU runs.
pub fn set_current_vcore(t: &mut CellTable, cpu: usize, v: usize)
    requires
        old(t).wf(),
        cpu < MAX_CPUS,
        v < MAX_VCORES,
    ensures
        final(t).wf(),
        only_cpus(old(t), final(t)),
        final(t).cpus@ == old(t).cpus@.update(
            cpu as int,
            CpuContext { vcore: v, ..old(t).cpus@[cpu as int] },
        ),
{
    t.cpus[cpu].vcore = v;
}

/// The cell that a CPU runs.
pub fn current_cell(t: &CellTable, cpu: usize) -> (c: usize)
    requires
        t.wf(),
        cpu < MAX_CPUS,
    ensures
        c == t.cpus@[cpu as int].cell,
{
    t.cpus[cpu].cell
}

/// The cell that a CPU runs.
pub fn current_index(t: &CellTable, cpu: usize) -> (c: usize)
    requires
        t.wf(),
        cpu < MAX_CPUS,
    ensures
        c == t.cpus@[cpu as int].cell,
{
    current_cell(t, cpu)
}

/// The cell that a CPU's run was started with.
pub fn top_cell(t: &CellTable, cpu: usize) -> (c: usize)
    requires
        t.wf(),
        cpu < MAX_CPUS,
    ensures
        c == t.cpus@[cpu as int].top,
{
    t.cpus[cpu].top
}

/// Whose system calls a cell makes.
pub fn cell_personality(t: &CellTable, idx: usize) -> (p: Personality)
    requires
        t.wf(),
        idx < MAX_CELLS,
    ensures
        p == t.cells@[idx as int].personality,
{
    t.cells[idx].personality
}

/// Whether a cell makes native system calls.
pub fn cell_is_native(t: &CellTable, idx: usize) -> (yes: bool)
    requires
        t.wf(),
        idx < MAX_CELLS,
    ensures
        yes == (t.cells@[idx as int].personality == Personality::Native),
{
    t.cells[idx].personality == Personality::Native
}

/// Set whose system calls a cell makes.
pub fn set_personality(t: &mut CellTable, idx: usize, p: Personality)
    requires
        old(t).wf(),
        idx < MAX_CELLS,
        old(t).cells@[idx as int].present,
    ensures
        final(t).wf(),
        only_cells(old(t), final(t)),
        final(t).cells@ == old(t).cells@.update(
            idx as int,
            RunCell { personality: p, ..old(t).cells@[idx as int] },
        ),
{
    t.cells[idx].personality = p;
}

/// Whether there is a cell in a slot.
pub fn cell_present(t: &CellTable, idx: usize) -> (yes: bool)
    requires
        t.wf(),
        idx < MAX_CELLS,
    ensures
        yes == t.cells@[idx as int].present,
{
    t.cells[idx].present
}

/// How many vcores a cell holds.
pub fn cell_vcores(t: &CellTable, idx: usize) -> (n: usize)
    requires
        t.wf(),
        idx < MAX_CELLS,
    ensures
        n == t.cells@[idx as int].nvcores,
{
    t.cells[idx].nvcores
}

/// Where a cell's address space is kept.
pub fn cell_aspace(t: &CellTable, idx: usize) -> (a: u64)
    requires
        t.wf(),
        idx < MAX_CELLS,
    ensures
        a == t.cells@[idx as int].aspace,
{
    t.cells[idx].aspace
}

/// Give a cell another address space.
pub fn set_cell_aspace(t: &mut CellTable, idx: usize, aspace: u64)
    requires
        old(t).wf(),
        idx < MAX_CELLS,
    ensures
        final(t).wf(),
        only_cells(old(t), final(t)),
        final(t).cells@ == old(t).cells@.update(
            idx as int,
            RunCell { aspace, ..old(t).cells@[idx as int] },
        ),
{
    t.cells[idx].aspace = aspace;
}

/// Where a cell's capabilities are kept.
pub fn cell_caps(t: &CellTable, idx: usize) -> (a: u64)
    requires
        t.wf(),
        idx < MAX_CELLS,
    ensures
        a == t.cells@[idx as int].caps,
{
    t.cells[idx].caps
}

/// Where a cell's objects are kept.
pub fn cell_objects(t: &CellTable, idx: usize) -> (a: u64)
    requires
        t.wf(),
        idx < MAX_CELLS,
    ensures
        a == t.cells@[idx as int].objects,
{
    t.cells[idx].objects
}

/// The saved registers of a cell's first vcore.
pub fn cell_frame(t: &CellTable, idx: usize) -> (f: u64)
    requires
        t.wf(),
        idx < MAX_CELLS,
    ensures
        f == t.vcore(idx as int, 0).frame,
{
    vcore_frame(t, idx, 0)
}

/// The saved registers of a vcore.
pub fn vcore_frame(t: &CellTable, idx: usize, v: usize) -> (f: u64)
    requires
        t.wf(),
        idx < MAX_CELLS,
        v < MAX_VCORES,
    ensures
        f == t.vcore(idx as int, v as int).frame,
{
    t.vcores[entity_of(idx, v)].frame
}

/// Set the saved registers of a cell's first vcore.
pub fn set_cell_frame(t: &mut CellTable, idx: usize, frame: u64)
    requires
        old(t).wf(),
        idx < MAX_CELLS,
    ensures
        final(t).wf(),
        only_vcores(old(t), final(t)),
        final(t).vcores@ == old(t).vcores@.update(
            entity(idx as int, 0),
            Vcore { frame, ..old(t).vcore(idx as int, 0) },
        ),
{
    let e: usize = entity_of(idx, 0);
    t.vcores[e].frame = frame;
}

/// Whether a vcore exists and has not ended.
pub fn vcore_live(t: &CellTable, idx: usize, v: usize) -> (yes: bool)
    requires
        t.wf(),
        idx < MAX_CELLS,
    ensures
        yes == t.is_live(idx as int, v as int),
{
    v < t.cells[idx].nvcores && t.vcores[entity_of(idx, v)].outcome.is_none()
}

/// How many of the first `n` vcores of a cell have not ended.
pub open spec fn live_among(t: &CellTable, idx: int, n: nat) -> nat
    decreases n,
{
    if n == 0 {
        0
    } else {
        live_among(t, idx, (n - 1) as nat) + if t.vcore(idx, n - 1).outcome is None {
            1nat
        } else {
            0nat
        }
    }
}

/// How many vcores of a cell have not ended.
pub fn live_vcores(t: &CellTable, idx: usize) -> (n: usize)
    requires
        t.wf(),
        idx < MAX_CELLS,
    ensures
        n == live_among(t, idx as int, t.cells@[idx as int].nvcores as nat),
{
    let total: usize = t.cells[idx].nvcores;
    let mut n: usize = 0;
    let mut v: usize = 0;
    while v < total
        invariant
            t.wf(),
            idx < MAX_CELLS,
            total == t.cells@[idx as int].nvcores,
            v <= total,
            n <= v,
            n == live_among(t, idx as int, v as nat),
        decreases total - v,
    {
        assert(t.cells@[idx as int].nvcores <= MAX_VCORES);
        if t.vcores[entity_of(idx, v)].outcome.is_none() {
            n = n + 1;
        }
        v = v + 1;
    }
    n
}

/// Record how a vcore ended, without ending its cell.
pub fn retire_vcore(t: &mut CellTable, idx: usize, v: usize, outcome: Outcome)
    requires
        old(t).wf(),
        idx < MAX_CELLS,
        v < MAX_VCORES,
    ensures
        final(t).wf(),
        only_vcores(old(t), final(t)),
        final(t).vcores@ == old(t).vcores@.update(
            entity(idx as int, v as int),
            Vcore { outcome: Some(outcome), ..old(t).vcore(idx as int, v as int) },
        ),
        !final(t).is_live(idx as int, v as int),
{
    let e: usize = entity_of(idx, v);
    t.vcores[e].outcome = Some(outcome);
}

/// Whether a CPU may enter a vcore: it is live, and nobody or this CPU owns it.
pub fn vcore_on_this_cpu(t: &CellTable, idx: usize, v: usize, cpu: usize) -> (yes: bool)
    requires
        t.wf(),
        idx < MAX_CELLS,
    ensures
        yes == (t.is_live(idx as int, v as int) && may_own(t.vcore(idx as int, v as int).cpu, cpu)),
{
    if !vcore_live(t, idx, v) {
        return false;
    }
    assert(t.cells@[idx as int].nvcores <= MAX_VCORES);
    let owner: usize = t.vcores[entity_of(idx, v)].cpu;
    owner == NO_CPU || owner == cpu
}

/// Whether something owned by `owner` is open to `cpu`.
pub open spec fn may_own(owner: usize, cpu: usize) -> bool {
    owner == NO_CPU || owner == cpu
}

/// Whether a CPU may schedule a cell. A refusal is counted.
pub fn cell_on_this_cpu(t: &mut CellTable, idx: usize, cpu: usize) -> (mine: bool)
    requires
        old(t).wf(),
        idx < MAX_CELLS,
    ensures
        final(t).wf(),
        mine == may_own(old(t).vcore(idx as int, 0).cpu, cpu),
        final(t).affinity_skips == (if mine {
            old(t).affinity_skips
        } else if old(t).affinity_skips == u64::MAX {
            0
        } else {
            (old(t).affinity_skips + 1) as u64
        }),
        final(t).cells == old(t).cells,
        final(t).vcores == old(t).vcores,
        final(t).chans == old(t).chans,
        final(t).cpus == old(t).cpus,
        final(t).next_node == old(t).next_node,
        final(t).fp_swaps == old(t).fp_swaps,
        final(t).double_entry == old(t).double_entry,
{
    let owner: usize = t.vcores[entity_of(idx, 0)].cpu;
    let mine: bool = owner == NO_CPU || owner == cpu;
    if !mine {
        t.affinity_skips = t.affinity_skips.wrapping_add(1);
    }
    mine
}

/// Cells passed over because another CPU owned them.
pub fn affinity_skips(t: &CellTable) -> (n: u64)
    ensures
        n == t.affinity_skips,
{
    t.affinity_skips
}

/// Attempts to enter a vcore that another CPU was inside.
pub fn double_entries(t: &CellTable) -> (n: u32)
    ensures
        n == t.double_entry,
{
    t.double_entry
}

/// Register files loaded for cells so far.
pub fn fp_swaps(t: &CellTable) -> (n: u64)
    ensures
        n == t.fp_swaps,
{
    t.fp_swaps
}

/// The CPU that owns a cell's first vcore.
pub fn cell_cpu(t: &CellTable, idx: usize) -> (c: usize)
    requires
        t.wf(),
        idx < MAX_CELLS,
    ensures
        c == t.vcore(idx as int, 0).cpu,
{
    t.vcores[entity_of(idx, 0)].cpu
}

/// The CPU that owns a vcore.
pub fn vcore_cpu(t: &CellTable, idx: usize, v: usize) -> (c: usize)
    requires
        t.wf(),
        idx < MAX_CELLS,
        v < MAX_VCORES,
    ensures
        c == t.vcore(idx as int, v as int).cpu,
{
    t.vcores[entity_of(idx, v)].cpu
}

/// Give a vcore to a CPU.
pub fn claim_vcore(t: &mut CellTable, idx: usize, v: usize, cpu: usize)
    requires
        old(t).wf(),
        idx < MAX_CELLS,
        v < MAX_VCORES,
    ensures
        final(t).wf(),
        only_vcores(old(t), final(t)),
        final(t).vcores@ == old(t).vcores@.update(
            entity(idx as int, v as int),
            Vcore { cpu, ..old(t).vcore(idx as int, v as int) },
        ),
{
    let e: usize = entity_of(idx, v);
    t.vcores[e].cpu = cpu;
}

/// Give every vcore of a cell to a CPU.
pub fn claim_cell(t: &mut CellTable, idx: usize, cpu: usize)
    requires
        old(t).wf(),
        idx < MAX_CELLS,
    ensures
        final(t).wf(),
        only_vcores(old(t), final(t)),
        final(t).vcores@.len() == old(t).vcores@.len(),
        forall|e: int|
            0 <= e < old(t).vcores@.len() ==> #[trigger] final(t).vcores@[e] == (if entity(
                idx as int,
                0,
            ) <= e < entity(idx as int, old(t).cells@[idx as int].nvcores as int) {
                Vcore { cpu, ..old(t).vcores@[e] }
            } else {
                old(t).vcores@[e]
            }),
{
    let n: usize = t.cells[idx].nvcores;
    let mut v: usize = 0;
    while v < n
        invariant
            t.wf(),
            idx < MAX_CELLS,
            n == t.cells@[idx as int].nvcores,
            v <= n,
            only_vcores(old(t), t),
            t.vcores@.len() == old(t).vcores@.len(),
            forall|e: int|
                0 <= e < old(t).vcores@.len() ==> #[trigger] t.vcores@[e] == (if entity(
                    idx as int,
                    0,
                ) <= e < entity(idx as int, v as int) {
                    Vcore { cpu, ..old(t).vcores@[e] }
                } else {
                    old(t).vcores@[e]
                }),
        decreases n - v,
    {
        assert(t.cells@[idx as int].nvcores <= MAX_VCORES);
        let e: usize = entity_of(idx, v);
        t.vcores[e].cpu = cpu;
        v = v + 1;
    }
}

/// How many of the first `n` slots hold a cell.
pub open spec fn count_present(cells: Seq<RunCell>, n: nat) -> nat
    decreases n,
{
    if n == 0 {
        0
    } else {
        count_present(cells, (n - 1) as nat) + if cells[n - 1].present {
            1nat
        } else {
            0nat
        }
    }
}

/// How many cells there are.
pub fn cell_count(t: &CellTable) -> (n: usize)
    requires
        t.wf(),
    ensures
        n == count_present(t.cells@, MAX_CELLS as nat),
{
    let mut n: usize = 0;
    let mut i: usize = 0;
    while i < MAX_CELLS
        invariant
            t.wf(),
            i <= MAX_CELLS,
            n <= i,
            n == count_present(t.cells@, i as nat),
        decreases MAX_CELLS - i,
    {
        if t.cells[i].present {
            n = n + 1;
        }
        i = i + 1;
    }
    n
}


/// The register area that a cell's first vcore is saved to.
pub fn save_native_fp(idx: usize) -> (area: usize)
    requires
        idx < MAX_CELLS,
    ensures
        area == entity(idx as int, 0),
{
    save_native_fp_vcore(idx, 0)
}

/// The register area that a vcore is saved to: one for each vcore.
pub fn save_native_fp_vcore(idx: usize, v: usize) -> (area: usize)
    requires
        idx < MAX_CELLS,
        v < MAX_VCORES,
    ensures
        area == entity(idx as int, v as int),
{
    entity_of(idx, v)
}

/// The register area that a cell's first vcore is loaded from. The load is
/// counted.
pub fn restore_native_fp(t: &mut CellTable, idx: usize) -> (area: usize)
    requires
        idx < MAX_CELLS,
    ensures
        area == entity(idx as int, 0),
        fp_loaded(old(t), final(t)),
{
    restore_native_fp_vcore(t, idx, 0)
}

/// The register area that a vcore is loaded from. The load is counted.
pub fn restore_native_fp_vcore(t: &mut CellTable, idx: usize, v: usize) -> (area: usize)
    requires
        idx < MAX_CELLS,
        v < MAX_VCORES,
    ensures
        area == entity(idx as int, v as int),
        fp_loaded(old(t), final(t)),
{
    t.fp_swaps = t.fp_swaps.wrapping_add(1);
    entity_of(idx, v)
}

/// The next value of a counter that wraps.
pub open spec fn counted(n: u64) -> u64 {
    if n == u64::MAX {
        0
    } else {
        (n + 1) as u64
    }
}

/// One register file was loaded and nothing else moved.
pub open spec fn fp_loaded(before: &CellTable, after: &CellTable) -> bool {
    &&& after.fp_swaps == counted(before.fp_swaps)
    &&& after.cells == before.cells
    &&& after.vcores == before.vcores
    &&& after.chans == before.chans
    &&& after.cpus == before.cpus
    &&& after.next_node == before.next_node
    &&& after.double_entry == before.double_entry
    &&& after.affinity_skips == before.affinity_skips
}

/// What a switch asks of the hardware: save this register area, activate this
/// address space, load this register area, resume these registers.
#[derive(Copy, Clone, PartialEq, Eq, Debug, Structural)]
pub struct SwitchPlan {
    pub save: usize,
    pub aspace: u64,
    pub load: usize,
    pub frame: u64,
}

/// Make a cell the one that a CPU runs, and name the address space to activate.
pub fn switch_to_cell(t: &mut CellTable, cpu: usize, idx: usize) -> (aspace: u64)
    requires
        old(t).wf(),
        cpu < MAX_CPUS,
        idx < MAX_CELLS,
    ensures
        final(t).wf(),
        aspace == old(t).cells@[idx as int].aspace,
        only_cpus(old(t), final(t)),
        final(t).cpus@ == old(t).cpus@.update(
            cpu as int,
            CpuContext { cell: idx, ..old(t).cpus@[cpu as int] },
        ),
{
    t.cpus[cpu].cell = idx;
    t.cells[idx].aspace
}

/// Switch a CPU from one cell to the first vcore of another.
pub fn switch_native_cell(t: &mut CellTable, cpu: usize, from: usize, to: usize) -> (p: SwitchPlan)
    requires
        old(t).wf(),
        cpu < MAX_CPUS,
        from < MAX_CELLS,
        to < MAX_CELLS,
    ensures
        final(t).wf(),
        switched(old(t), final(t), cpu as int, from as int, to as int, 0, p),
{
    switch_native_cell_vcore(t, cpu, from, to, 0)
}

/// What switching a CPU from a cell to a vcore of another does.
pub open spec fn switched(
    before: &CellTable,
    after: &CellTable,
    cpu: int,
    from: int,
    to: int,
    to_v: int,
    p: SwitchPlan,
) -> bool {
    &&& p.save == entity(from, before.cpus@[cpu].vcore as int)
    &&& p.aspace == before.cells@[to].aspace
    &&& p.load == entity(to, to_v)
    &&& p.frame == before.vcore(to, to_v).frame
    &&& after.cpus@ == before.cpus@.update(
        cpu,
        CpuContext { cell: to as usize, vcore: to_v as usize, ..before.cpus@[cpu] },
    )
    &&& after.cells == before.cells
    &&& after.vcores == before.vcores
    &&& after.chans == before.chans
    &&& after.fp_swaps == counted(before.fp_swaps)
    &&& after.next_node == before.next_node
    &&& after.double_entry == before.double_entry
    &&& after.affinity_skips == before.affinity_skips
}

/// Switch a CPU from one cell to a vcore of another: the registers of the vcore
/// that ran are saved before those of the next are loaded.
pub fn switch_native_cell_vcore(
    t: &mut CellTable,
    cpu: usize,
    from: usize,
    to: usize,
    to_v: usize,
) -> (p: SwitchPlan)
    requires
        old(t).wf(),
        cpu < MAX_CPUS,
        from < MAX_CELLS,
        to < MAX_CELLS,
        to_v < MAX_VCORES,
    ensures
        final(t).wf(),
        switched(old(t), final(t), cpu as int, from as int, to as int, to_v as int, p),
{
    let running: usize = current_vcore(t, cpu);
    assert(t.cpus@[cpu as int].vcore < MAX_VCORES);
    let save: usize = save_native_fp_vcore(from, running);
    let aspace: u64 = switch_to_cell(t, cpu, to);
    let load: usize = restore_native_fp_vcore(t, to, to_v);
    set_current_vcore(t, cpu, to_v);
    let frame: u64 = vcore_frame(t, to, to_v);
    proof {
        assert(t.cpus@ =~= old(t).cpus@.update(
            cpu as int,
            CpuContext { cell: to, vcore: to_v, ..old(t).cpus@[cpu as int] },
        ));
    }
    SwitchPlan { save, aspace, load, frame }
}

/// Whether another CPU is inside a vcore.
pub open spec fn inside_elsewhere(t: &CellTable, e: int, me: int) -> bool {
    exists|c: int| 0 <= c < MAX_CPUS && c != me && #[trigger] t.cpus@[c].inside == e
}

/// An attempt to enter that failed is counted; no other counter of the table but
/// that of register files moved.
pub open spec fn entry_counted(before: &CellTable, after: &CellTable, entered: bool) -> bool {
    &&& after.next_node == before.next_node
    &&& after.affinity_skips == before.affinity_skips
    &&& after.double_entry == (if entered {
        before.double_entry
    } else if before.double_entry == u32::MAX {
        0
    } else {
        (before.double_entry + 1) as u32
    })
}

/// Note that a CPU is inside a vcore. `Err`, with the attempt counted, when
/// another CPU is inside it already: the kernel must stop there.
pub fn enter_vcore(t: &mut CellTable, cpu: usize, idx: usize, v: usize) -> (r: Result<(), usize>)
    requires
        old(t).wf(),
        cpu < MAX_CPUS,
        idx < MAX_CELLS,
        v < MAX_VCORES,
    ensures
        final(t).wf(),
        final(t).cells == old(t).cells,
        final(t).vcores == old(t).vcores,
        final(t).chans == old(t).chans,
        final(t).fp_swaps == old(t).fp_swaps,
        entry_counted(old(t), final(t), r is Ok),
        match r {
            Ok(()) => {
                &&& !inside_elsewhere(old(t), entity(idx as int, v as int), cpu as int)
                &&& final(t).cpus@ == old(t).cpus@.update(
                    cpu as int,
                    CpuContext {
                        inside: entity(idx as int, v as int) as usize,
                        ..old(t).cpus@[cpu as int]
                    },
                )
            },
            Err(other) => {
                &&& other < MAX_CPUS
                &&& other != cpu
                &&& old(t).cpus@[other as int].inside == entity(idx as int, v as int)
                &&& final(t).cpus == old(t).cpus
            },
        },
{
    let e: usize = entity_of(idx, v);
    let mut c: usize = 0;
    while c < MAX_CPUS
        invariant
            *t == *old(t),
            t.wf(),
            cpu < MAX_CPUS,
            c <= MAX_CPUS,
            e == entity(idx as int, v as int),
            forall|k: int| 0 <= k < c && k != cpu ==> #[trigger] t.cpus@[k].inside != e,
        decreases MAX_CPUS - c,
    {
        if c != cpu && t.cpus[c].inside == e {
            t.double_entry = t.double_entry.wrapping_add(1);
            return Err(c);
        }
        c = c + 1;
    }
    t.cpus[cpu].inside = e;
    Ok(())
}

/// Two CPUs are never inside the same vcore: entering keeps it so.
pub proof fn law_entry_is_exclusive(before: &CellTable, after: &CellTable, cpu: int, e: usize)
    requires
        before.wf(),
        before.exclusive(),
        0 <= cpu < MAX_CPUS,
        !inside_elsewhere(before, e as int, cpu),
        after.cpus@ == before.cpus@.update(
            cpu,
            CpuContext { inside: e, ..before.cpus@[cpu] },
        ),
    ensures
        after.exclusive(),
{
    assert forall|a: int, b: int|
        0 <= a < after.cpus@.len() && 0 <= b < after.cpus@.len() && a != b && (
        #[trigger] after.cpus@[a]).inside != NO_CPU implies after.cpus@[a].inside != (
    #[trigger] after.cpus@[b]).inside by {
        if a == cpu {
            assert(before.cpus@[b].inside != e);
        } else if b == cpu {
            assert(before.cpus@[a].inside != e);
        } else {
            assert(before.cpus@[a].inside != before.cpus@[b].inside);
        }
    }
}

/// Switch a CPU from one vcore of a cell to another of the same cell. `Err` as
/// [`enter_vcore`].
pub fn switch_native_vcore(t: &mut CellTable, cpu: usize, cell: usize, from: usize, to: usize) -> (r:
    Result<SwitchPlan, usize>)
    requires
        old(t).wf(),
        cpu < MAX_CPUS,
        cell < MAX_CELLS,
        from < MAX_VCORES,
        from != to,
        to < old(t).cells@[cell as int].nvcores,
    ensures
        final(t).wf(),
        final(t).cells == old(t).cells,
        final(t).vcores == old(t).vcores,
        final(t).chans == old(t).chans,
        final(t).fp_swaps == counted(old(t).fp_swaps),
        entry_counted(old(t), final(t), r is Ok),
        match r {
            Ok(p) => {
                &&& !inside_elsewhere(old(t), entity(cell as int, to as int), cpu as int)
                &&& p.save == entity(cell as int, from as int)
                &&& p.load == entity(cell as int, to as int)
                &&& p.aspace == old(t).cells@[cell as int].aspace
                &&& p.frame == old(t).vcore(cell as int, to as int).frame
                &&& final(t).cpus@ == old(t).cpus@.update(
                    cpu as int,
                    CpuContext {
                        inside: entity(cell as int, to as int) as usize,
                        vcore: to,
                        ..old(t).cpus@[cpu as int]
                    },
                )
            },
            Err(other) => inside_elsewhere(old(t), entity(cell as int, to as int), cpu as int)
                && final(t).cpus == old(t).cpus,
        },
{
    assert(t.cells@[cell as int].nvcores <= MAX_VCORES);
    let save: usize = save_native_fp_vcore(cell, from);
    let load: usize = restore_native_fp_vcore(t, cell, to);
    match enter_vcore(t, cpu, cell, to) {
        Err(other) => {
            assert(old(t).cpus@[other as int].inside == entity(cell as int, to as int));
            Err(other)
        },
        Ok(()) => {
            set_current_vcore(t, cpu, to);
            let frame: u64 = vcore_frame(t, cell, to);
            let aspace: u64 = t.cells[cell].aspace;
            proof {
                assert(!inside_elsewhere(old(t), entity(cell as int, to as int), cpu as int)) by {
                    if inside_elsewhere(old(t), entity(cell as int, to as int), cpu as int) {
                        let c = choose|c: int|
                            0 <= c < MAX_CPUS && c != cpu && #[trigger] old(t).cpus@[c].inside
                                == entity(cell as int, to as int);
                        assert(t.cpus@[c].inside == entity(cell as int, to as int));
                    }
                }
                assert(t.cpus@ =~= old(t).cpus@.update(
                    cpu as int,
                    CpuContext {
                        inside: entity(cell as int, to as int) as usize,
                        vcore: to,
                        ..old(t).cpus@[cpu as int]
                    },
                ));
            }
            Ok(SwitchPlan { save, aspace, load, frame })
        },
    }
}

/// What starting a vcore asks of the hardware: activate this address space, load
/// this register area, enter with these registers.
#[derive(Copy, Clone, PartialEq, Eq, Debug, Structural)]
pub struct EntryPlan {
    pub aspace: u64,
    pub load: usize,
    pub frame: u64,
}

/// Start a vcore of a cell on a CPU. `Err` as [`enter_vcore`].
pub fn run_inner(t: &mut CellTable, cpu: usize, idx: usize, v: usize) -> (r: Result<EntryPlan, usize>)
    requires
        old(t).wf(),
        cpu < MAX_CPUS,
        idx < MAX_CELLS,
        old(t).cells@[idx as int].present,
        v < old(t).cells@[idx as int].nvcores,
    ensures
        final(t).wf(),
        final(t).cells == old(t).cells,
        final(t).vcores == old(t).vcores,
        final(t).chans == old(t).chans,
        entry_counted(old(t), final(t), r is Ok),
        match r {
            Ok(p) => {
                &&& !inside_elsewhere(old(t), entity(idx as int, v as int), cpu as int)
                &&& p.aspace == old(t).cells@[idx as int].aspace
                &&& p.load == entity(idx as int, v as int)
                &&& p.frame == old(t).vcore(idx as int, v as int).frame
                &&& final(t).fp_swaps == counted(old(t).fp_swaps)
                &&& final(t).cpus@ == old(t).cpus@.update(
                    cpu as int,
                    CpuContext {
                        cell: idx,
                        vcore: v,
                        top: idx,
                        inside: entity(idx as int, v as int) as usize,
                        ..old(t).cpus@[cpu as int]
                    },
                )
            },
            Err(other) => inside_elsewhere(old(t), entity(idx as int, v as int), cpu as int)
                && final(t).cpus == old(t).cpus && final(t).fp_swaps == old(t).fp_swaps,
        },
{
    assert(t.cells@[idx as int].nvcores <= MAX_VCORES);
    match enter_vcore(t, cpu, idx, v) {
        Err(other) => {
            assert(old(t).cpus@[other as int].inside == entity(idx as int, v as int));
            Err(other)
        },
        Ok(()) => {
            let inside: usize = t.cpus[cpu].inside;
            let c: CpuContext = t.cpus[cpu];
            t.cpus[cpu] = CpuContext {
                cell: idx,
                vcore: v,
                exited: c.exited,
                exited_vcore: c.exited_vcore,
                top: idx,
                inside,
            };
            let load: usize = restore_native_fp_vcore(t, idx, v);
            let frame: u64 = vcore_frame(t, idx, v);
            let aspace: u64 = t.cells[idx].aspace;
            proof {
                assert(t.cpus@ =~= old(t).cpus@.update(
                    cpu as int,
                    CpuContext {
                        cell: idx,
                        vcore: v,
                        top: idx,
                        inside: entity(idx as int, v as int) as usize,
                        ..old(t).cpus@[cpu as int]
                    },
                ));
            }
            Ok(EntryPlan { aspace, load, frame })
        },
    }
}

/// A CPU is back in the kernel: it is inside nothing, and the vcore that ended
/// last is reported with how it ended.
pub fn run_vcore(t: &mut CellTable, cpu: usize) -> (r: (usize, usize, Outcome))
    requires
        old(t).wf(),
        cpu < MAX_CPUS,
        old(t).vcore(
            old(t).cpus@[cpu as int].exited as int,
            old(t).cpus@[cpu as int].exited_vcore as int,
        ).outcome is Some,
    ensures
        final(t).wf(),
        only_cpus(old(t), final(t)),
        final(t).cpus@ == old(t).cpus@.update(
            cpu as int,
            CpuContext { inside: NO_CPU, ..old(t).cpus@[cpu as int] },
        ),
        r.0 == old(t).cpus@[cpu as int].exited,
        r.1 == old(t).cpus@[cpu as int].exited_vcore,
        Some(r.2) == old(t).vcore(r.0 as int, r.1 as int).outcome,
{
    t.cpus[cpu].inside = NO_CPU;
    let idx: usize = t.cpus[cpu].exited;
    let v: usize = t.cpus[cpu].exited_vcore;
    assert(t.cpus@[cpu as int].exited < MAX_CELLS);
    match t.vcores[entity_of(idx, v)].outcome {
        Some(o) => (idx, v, o),
        None => {
            assert(false);
            (idx, v, Outcome::Faulted(0))
        },
    }
}

/// [`run_vcore`], without the vcore.
pub fn run(t: &mut CellTable, cpu: usize) -> (r: (usize, Outcome))
    requires
        old(t).wf(),
        cpu < MAX_CPUS,
        old(t).vcore(
            old(t).cpus@[cpu as int].exited as int,
            old(t).cpus@[cpu as int].exited_vcore as int,
        ).outcome is Some,
    ensures
        final(t).wf(),
        only_cpus(old(t), final(t)),
        final(t).cpus@ == old(t).cpus@.update(
            cpu as int,
            CpuContext { inside: NO_CPU, ..old(t).cpus@[cpu as int] },
        ),
        r.0 == old(t).cpus@[cpu as int].exited,
        Some(r.1) == old(t).vcore(
            r.0 as int,
            old(t).cpus@[cpu as int].exited_vcore as int,
        ).outcome,
{
    let (idx, _v, o) = run_vcore(t, cpu);
    (idx, o)
}

/// The vcore that a CPU runs has ended: how, and that it was this one, is
/// recorded.
pub open spec fn finished(before: &CellTable, after: &CellTable, cpu: int, outcome: Outcome) -> bool {
    let x = before.cpus@[cpu];
    &&& after.cells == before.cells
    &&& after.chans == before.chans
    &&& same_counts(before, after)
    &&& after.vcores@ == before.vcores@.update(
        entity(x.cell as int, x.vcore as int),
        Vcore { outcome: Some(outcome), ..before.vcore(x.cell as int, x.vcore as int) },
    )
    &&& after.cpus@ == before.cpus@.update(
        cpu,
        CpuContext { exited: x.cell, exited_vcore: x.vcore, ..x },
    )
}

/// End the vcore that a CPU runs.
pub fn finish(t: &mut CellTable, cpu: usize, outcome: Outcome)
    requires
        old(t).wf(),
        cpu < MAX_CPUS,
    ensures
        final(t).wf(),
        finished(old(t), final(t), cpu as int, outcome),
{
    assert(t.cpus@[cpu as int].cell < MAX_CELLS);
    let cur: usize = current_cell(t, cpu);
    let v: usize = current_vcore(t, cpu);
    retire_vcore(t, cur, v, outcome);
    let c: CpuContext = t.cpus[cpu];
    t.cpus[cpu] = CpuContext {
        cell: c.cell,
        vcore: c.vcore,
        exited: cur,
        exited_vcore: v,
        top: c.top,
        inside: c.inside,
    };
}

/// End a run in which every cell waits for another, with the given code.
pub fn deadlock_finish(t: &mut CellTable, cpu: usize, code: u64)
    requires
        old(t).wf(),
        cpu < MAX_CPUS,
    ensures
        final(t).wf(),
        finished(old(t), final(t), cpu as int, Outcome::Exited(code)),
{
    finish(t, cpu, Outcome::Exited(code));
}

/// A run reports the outcome that the last vcore to end was finished with.
pub proof fn law_run_reports_the_finish(
    before: &CellTable,
    after: &CellTable,
    cpu: int,
    outcome: Outcome,
)
    requires
        before.wf(),
        0 <= cpu < MAX_CPUS,
        finished(before, after, cpu, outcome),
    ensures
        after.cpus@[cpu].exited == before.cpus@[cpu].cell,
        after.cpus@[cpu].exited_vcore == before.cpus@[cpu].vcore,
        after.vcore(
            after.cpus@[cpu].exited as int,
            after.cpus@[cpu].exited_vcore as int,
        ).outcome == Some(outcome),
{
    assert(before.cpus@[cpu].cell < MAX_CELLS);
}

/// A switch saves what ran and loads what runs next: the registers go to the area of the
/// vcore that the CPU ran, and come from that of the vcore it will run, in that vcore's
/// own address space. From then on the CPU runs that vcore; no other CPU, cell or vcore
/// changes.
pub proof fn law_switch_saves_what_ran(
    before: &CellTable,
    after: &CellTable,
    cpu: int,
    from: int,
    to: int,
    to_v: int,
    p: SwitchPlan,
    other: int,
)
    requires
        before.wf(),
        0 <= cpu < MAX_CPUS,
        0 <= from < MAX_CELLS,
        0 <= to < MAX_CELLS,
        0 <= to_v < MAX_VCORES,
        switched(before, after, cpu, from, to, to_v, p),
        0 <= other < MAX_CPUS,
    ensures
        p.save == 4 * from + before.cpus@[cpu].vcore,
        p.load == 4 * to + to_v,
        p.aspace == before.cells@[to].aspace,
        p.frame == before.vcores@[4 * to + to_v].frame,
        after.cpus@[cpu].cell == to,
        after.cpus@[cpu].vcore == to_v,
        after.cpus@[cpu].top == before.cpus@[cpu].top,
        after.cpus@[cpu].inside == before.cpus@[cpu].inside,
        other != cpu ==> after.cpus@[other] == before.cpus@[other],
        after.cells@ == before.cells@,
        after.vcores@ == before.vcores@,
        after.chans == before.chans,
        after.next_node == before.next_node,
        after.double_entry == before.double_entry,
        after.affinity_skips == before.affinity_skips,
        before.fp_swaps < u64::MAX ==> after.fp_swaps == before.fp_swaps + 1,
        from == before.cpus@[cpu].cell && p.save == p.load ==> from == to && before.cpus@[cpu].vcore == to_v,
{
    assert(before.cpus@[cpu].vcore < MAX_VCORES);
}

/// Ending a vcore ends the one that the CPU runs and no other: it has the outcome from
/// then on, every other vcore has what it had, and no cell comes or goes.
pub proof fn law_finish_ends_its_own_vcore(
    before: &CellTable,
    after: &CellTable,
    cpu: int,
    outcome: Outcome,
    e: int,
    other: int,
)
    requires
        before.wf(),
        0 <= cpu < MAX_CPUS,
        finished(before, after, cpu, outcome),
        0 <= e < before.vcores@.len(),
        0 <= other < MAX_CPUS,
    ensures
        e == 4 * before.cpus@[cpu].cell + before.cpus@[cpu].vcore ==> after.vcores@[e].outcome == Some(outcome)
            && after.vcores@[e].frame == before.vcores@[e].frame && after.vcores@[e].cpu
            == before.vcores@[e].cpu,
        e != 4 * before.cpus@[cpu].cell + before.cpus@[cpu].vcore ==> after.vcores@[e] == before.vcores@[e],
        after.cells@ == before.cells@,
        other != cpu ==> after.cpus@[other] == before.cpus@[other],
        after.cpus@[cpu].cell == before.cpus@[cpu].cell,
        after.cpus@[cpu].vcore == before.cpus@[cpu].vcore,
        after.cpus@[cpu].inside == before.cpus@[cpu].inside,
{
    assert(before.cpus@[cpu].cell < MAX_CELLS);
}

/// The live vcores of a cell are those without an outcome: there is none left exactly
/// where each has one, and there are as many as vcores exactly where none has.
pub proof fn law_live_vcores_have_no_outcome(t: &CellTable, idx: int, n: nat)
    ensures
        live_among(t, idx, n) <= n,
        live_among(t, idx, n) == 0 <==> forall|v: int|
            0 <= v < n ==> (#[trigger] t.vcore(idx, v)).outcome is Some,
        live_among(t, idx, n) == n <==> forall|v: int|
            0 <= v < n ==> (#[trigger] t.vcore(idx, v)).outcome is None,
    decreases n,
{
    if n > 0 {
        law_live_vcores_have_no_outcome(t, idx, (n - 1) as nat);
        assert(t.vcore(idx, n - 1) == t.vcore(idx, n - 1));
    }
}

/// Ending a live vcore leaves one live vcore fewer in its cell.
pub proof fn law_finish_leaves_one_fewer(
    before: &CellTable,
    after: &CellTable,
    cpu: int,
    outcome: Outcome,
    n: nat,
)
    requires
        before.wf(),
        0 <= cpu < MAX_CPUS,
        finished(before, after, cpu, outcome),
        n <= MAX_VCORES,
    ensures
        ({
            let idx = before.cpus@[cpu].cell as int;
            let v = before.cpus@[cpu].vcore as int;
            live_among(before, idx, n) == live_among(after, idx, n) + (if v < n && before.vcore(
                idx,
                v,
            ).outcome is None {
                1nat
            } else {
                0nat
            })
        }),
    decreases n,
{
    assert(before.cpus@[cpu].cell < MAX_CELLS);
    if n > 0 {
        law_finish_leaves_one_fewer(before, after, cpu, outcome, (n - 1) as nat);
    }
}

/// The count of cells counts those that are present: none exactly where none is, and all
/// exactly where all are.
pub proof fn law_count_is_of_present_cells(cells: Seq<RunCell>, n: nat)
    ensures
        count_present(cells, n) <= n,
        count_present(cells, n) == 0 <==> forall|i: int| 0 <= i < n ==> !(#[trigger] cells[i]).present,
        count_present(cells, n) == n <==> forall|i: int| 0 <= i < n ==> (#[trigger] cells[i]).present,
    decreases n,
{
    if n > 0 {
        law_count_is_of_present_cells(cells, (n - 1) as nat);
        assert(cells[n - 1] == cells[n - 1]);
    }
}

/// A vcore may be run by the CPU that has it, or by any where none has, and is live until it
/// has an outcome; a vcore beyond those of its cell never is.
pub proof fn law_live_vcores_are_owned(t: &CellTable, idx: int, v: int, owner: usize, cpu: usize)
    requires
        cpu != NO_CPU,
    ensures
        may_own(usize::MAX, cpu),
        may_own(cpu, cpu),
        owner != cpu && owner != usize::MAX ==> !may_own(owner, cpu),
        t.is_live(idx, v) <==> v < t.cells@[idx].nvcores && t.vcores@[4 * idx + v].outcome is None,
{
}

/// A slot without a cell has no cell, no vcores, no address space, no tables and no node.
pub proof fn law_empty_slots_hold_nothing()
    ensures
        !empty_cell().present,
        empty_cell().nvcores == 0,
        empty_cell().aspace == 0,
        empty_cell().caps == 0,
        empty_cell().objects == 0,
        empty_vcore().qp == 0,
        empty_vcore().frame == 0,
        empty_vcore().outcome is None,
        empty_vcore().qp_va == 0,
        empty_vcore().qp_cap == 0,
        empty_vcore().cpu == usize::MAX,
        empty_chan().va == 0,
        empty_chan().cap_id == 0,
        empty_chan().role == 0,
{
}

/// An entry that is refused is counted, and one that is not is not; loading registers is
/// counted too.
pub proof fn law_refused_entries_are_counted(before: &CellTable, after: &CellTable, entered: bool)
    requires
        before.double_entry < u32::MAX,
        before.fp_swaps < u64::MAX,
    ensures
        entry_counted(before, after, entered) ==> after.double_entry == before.double_entry + (if entered {
            0int
        } else {
            1
        }),
        fp_loaded(before, after) ==> after.fp_swaps == before.fp_swaps + 1 && after.cells == before.cells
            && after.vcores == before.vcores && after.cpus == before.cpus && after.chans == before.chans,
{
}

/// Cells are spread over the nodes in turn: each node the machine has, one cell after the
/// other, and over again; on a machine with one node no cell is at home on any.
pub proof fn law_cells_are_spread_over_the_nodes(before: usize, nodes: usize)
    requires
        before < usize::MAX,
        nodes <= 255,
    ensures
        nodes < 2 ==> home_of(before, nodes) == 255,
        nodes >= 2 ==> home_of(before, nodes) < nodes,
        nodes >= 2 && before < nodes ==> home_of(before, nodes) == before,
        nodes >= 2 && home_of(before, nodes) + 1 < nodes ==> home_of((before + 1) as usize, nodes) == home_of(
            before,
            nodes,
        ) + 1,
        nodes >= 2 && home_of(before, nodes) + 1 == nodes ==> home_of((before + 1) as usize, nodes) == 0,
{
    if nodes >= 2 {
        let n = nodes as int;
        let b = before as int;
        vstd::arithmetic::div_mod::lemma_mod_bound(b, n);
        vstd::arithmetic::div_mod::lemma_fundamental_div_mod(b, n);
        let q = b / n;
        if before < nodes {
            vstd::arithmetic::div_mod::lemma_small_mod(before as nat, nodes as nat);
        }
        if b % n + 1 < n {
            assert(b + 1 == q * n + (b % n + 1)) by (nonlinear_arith)
                requires
                    b == n * q + b % n,
            ;
            vstd::arithmetic::div_mod::lemma_fundamental_div_mod_converse(b + 1, n, q, b % n + 1);
        } else {
            assert(b + 1 == (q + 1) * n + 0) by (nonlinear_arith)
                requires
                    b == n * q + b % n,
                    b % n + 1 == n,
            ;
            vstd::arithmetic::div_mod::lemma_fundamental_div_mod_converse(b + 1, n, q + 1, 0);
        }
    }
}

} // verus!
