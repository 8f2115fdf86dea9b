//! Work that one CPU hands to the others: a function, a cell to run, or the rows of a
//! matrix product. Everything that CPUs wait for has a deadline.

use vstd::prelude::*;
use crate::kernel::cells::{claim_cell, entity, only_vcores, CellTable, Vcore, MAX_CPUS};
use crate::kernel::drain;
use crate::kernel::memory::MAX_CELLS;
use crate::kernel::placement;
use crate::kernel::rounds::Wait;
use crate::kernel::smp;
use crate::kernel::smp::{Cpus, PerCpu};

verus! {

/// How long CPUs wait for each other.
pub const RV_TIMEOUT_NS: u64 = 10_000_000_000;

/// How long the first CPU waits for a cell that another runs.
pub const CELL_RUN_TIMEOUT_NS: u64 = 100_000_000_000;

/// Rows that a CPU takes at once of a matrix product.
pub const GEMM_BLOCK_ROWS: usize = 4;

/// No cell is handed out.
pub const NO_CELL: usize = usize::MAX;

/// A product of matrices: where the operands and the result are, their strides, and
/// how much of it to compute.
#[derive(Copy, Clone, PartialEq, Eq, Debug, Structural)]
pub struct GemmJob {
    pub a: usize,
    pub b: usize,
    pub c: usize,
    pub as_: usize,
    pub bs: usize,
    pub cs: usize,
    pub lo: usize,
    pub hi: usize,
    pub n: usize,
    pub k: usize,
}

/// What the CPUs hand to each other.
pub struct Board {
    /// A cell to run, or [`NO_CELL`].
    pub user_cell: usize,
    pub user_cell_preempt: bool,
    pub user_cell_code: u64,
    pub user_cell_done: usize,
    /// A function to run, by its address, or zero.
    pub fn_job: usize,
    pub fn_done: usize,
    pub job: Option<GemmJob>,
    pub jobs_done: usize,
    /// The next block of rows.
    pub next_block: usize,
    /// The round of the matrix product, and the last that each CPU has seen.
    pub job_gen: usize,
    pub job_seen: Vec<usize>,
    /// CPUs that have come to the start of the product, and how many are to come.
    pub gemm_arrive: usize,
    pub gemm_expect: usize,
    pub gemm_all_met: bool,
    pub blocks_done: Vec<usize>,
    /// Whether the first CPU and the other have come to their meeting.
    pub rv_primary: bool,
    pub rv_secondary: bool,
    /// Meetings that the other CPU missed.
    pub rv_timeout: usize,
}

impl Board {
    pub open spec fn wf(&self) -> bool {
        &&& self.job_seen@.len() == MAX_CPUS
        &&& self.blocks_done@.len() == MAX_CPUS
    }

    /// A board with nothing on it.
    pub fn new() -> (b: Board)
        ensures
            b.wf(),
            b == (Board {
                user_cell: NO_CELL,
                user_cell_preempt: false,
                user_cell_code: 0,
                user_cell_done: 0,
                fn_job: 0,
                fn_done: 0,
                job: None,
                jobs_done: 0,
                next_block: 0,
                job_gen: 0,
                job_seen: b.job_seen,
                gemm_arrive: 0,
                gemm_expect: 0,
                gemm_all_met: false,
                blocks_done: b.blocks_done,
                rv_primary: false,
                rv_secondary: false,
                rv_timeout: 0,
            }),
            forall|i: int| 0 <= i < MAX_CPUS ==> #[trigger] b.job_seen@[i] == 0,
            forall|i: int| 0 <= i < MAX_CPUS ==> #[trigger] b.blocks_done@[i] == 0,
    {
        Board {
            user_cell: NO_CELL,
            user_cell_preempt: false,
            user_cell_code: 0,
            user_cell_done: 0,
            fn_job: 0,
            fn_done: 0,
            job: None,
            jobs_done: 0,
            next_block: 0,
            job_gen: 0,
            job_seen: vec![0; MAX_CPUS],
            gemm_arrive: 0,
            gemm_expect: 0,
            gemm_all_met: false,
            blocks_done: vec![0; MAX_CPUS],
            rv_primary: false,
            rv_secondary: false,
            rv_timeout: 0,
        }
    }
}

/// The moment that lies `span` after `now`, on a clock that wraps.
pub open spec fn after(now: u64, span: u64) -> u64 {
    ((now + span) % 0x1_0000_0000_0000_0000) as u64
}

/// The moment that lies `span` after `now`, on a clock that wraps.
pub fn deadline_after(now: u64, span: u64) -> (t: u64)
    ensures
        t == after(now, span),
{
    now.wrapping_add(span)
}

/// What a CPU that has nothing to do finds to do.
#[derive(Copy, Clone, PartialEq, Eq, Debug, Structural)]
pub enum Work {
    /// A round of placement is open.
    Drain,
    /// Run a cell.
    Cell(usize),
    /// Run a function.
    Function(usize),
    /// Help with a product; nothing, if it has been withdrawn.
    Gemm(Option<GemmJob>),
    /// Nothing came before the deadline: park.
    Park,
    /// Look again.
    Spin,
}

/// What a look at the board finds, and takes off it.
pub open spec fn looked(
    before: &Board,
    after: &Board,
    round_open: bool,
    raw_cpu: usize,
    now: u64,
    deadline: u64,
    w: Work,
) -> bool {
    let me = drain::cpu_slot(raw_cpu);
    if round_open {
        w == Work::Drain && *after == *before
    } else if before.user_cell != NO_CELL {
        &&& w == Work::Cell(before.user_cell)
        &&& *after == (Board { user_cell: NO_CELL, ..*before })
    } else if before.fn_job != 0 {
        &&& w == Work::Function(before.fn_job)
        &&& *after == (Board { fn_job: 0, ..*before })
    } else if before.job_gen != 0 && before.job_seen@[me] != before.job_gen {
        &&& w == Work::Gemm(before.job)
        &&& after.job_seen@ == before.job_seen@.update(me, before.job_gen)
        &&& *after == (Board { job_seen: after.job_seen, ..*before })
    } else {
        &&& w == (if now >= deadline {
            Work::Park
        } else {
            Work::Spin
        })
        &&& *after == *before
    }
}

/// Find the next piece of work: an open round first, then a cell, a function, a
/// product that this CPU has not seen. A cell and a function are taken off the board.
pub fn look_for_work(b: &mut Board, round_open: bool, raw_cpu: usize, now: u64, deadline: u64) -> (w: Work)
    requires
        old(b).wf(),
    ensures
        final(b).wf(),
        looked(old(b), final(b), round_open, raw_cpu, now, deadline, w),
{
    if round_open {
        return Work::Drain;
    }
    let cell: usize = b.user_cell;
    if cell != NO_CELL {
        b.user_cell = NO_CELL;
        return Work::Cell(cell);
    }
    let f: usize = b.fn_job;
    if f != 0 {
        b.fn_job = 0;
        return Work::Function(f);
    }
    let me: usize = smp::cpu_index(raw_cpu);
    if b.job_gen != 0 && b.job_seen[me] != b.job_gen {
        b.job_seen[me] = b.job_gen;
        return Work::Gemm(b.job);
    }
    if now >= deadline {
        Work::Park
    } else {
        Work::Spin
    }
}

/// One of the two sides of a meeting.
#[derive(Copy, Clone, PartialEq, Eq, Debug, Structural)]
pub enum Side {
    Primary,
    Secondary,
}

/// Come to the meeting.
pub fn arrive(b: &mut Board, side: Side)
    ensures
        *final(b) == (match side {
            Side::Primary => Board { rv_primary: true, ..*old(b) },
            Side::Secondary => Board { rv_secondary: true, ..*old(b) },
        }),
{
    match side {
        Side::Primary => {
            b.rv_primary = true;
        },
        Side::Secondary => {
            b.rv_secondary = true;
        },
    }
}

/// Whether the other side has come.
pub open spec fn other_came(b: &Board, side: Side) -> bool {
    match side {
        Side::Primary => b.rv_secondary,
        Side::Secondary => b.rv_primary,
    }
}

/// The board after a look whether the other side has come.
pub open spec fn met_or_missed(b: Board, w: Wait) -> Board {
    if w == Wait::TimedOut {
        Board { rv_timeout: placement::next_usize(b.rv_timeout), ..b }
    } else {
        b
    }
}

/// Look whether the other side has come. A meeting that is given up is counted.
pub fn rendezvous(b: &mut Board, side: Side, now: u64, deadline: u64) -> (w: Wait)
    ensures
        w == waited(other_came(old(b), side), now, deadline),
        *final(b) == met_or_missed(*old(b), w),
{
    let came: bool = match side {
        Side::Primary => b.rv_secondary,
        Side::Secondary => b.rv_primary,
    };
    if came {
        Wait::Done
    } else if now >= deadline {
        b.rv_timeout = b.rv_timeout.wrapping_add(1);
        Wait::TimedOut
    } else {
        Wait::Again
    }
}

/// Whether a meeting of the last piece of work was given up.
pub fn rendezvous_timed_out(b: &Board) -> (yes: bool)
    ensures
        yes == (b.rv_timeout != 0),
{
    b.rv_timeout != 0
}

/// The board with no meeting begun.
pub open spec fn no_meeting(b: Board) -> Board {
    Board { rv_primary: false, rv_secondary: false, rv_timeout: 0, ..b }
}

/// Hand a function, by its address, to another CPU.
pub fn run_fn_with_secondary(b: &mut Board, theirs: usize)
    ensures
        *final(b) == (Board { fn_done: 0, fn_job: theirs, ..no_meeting(*old(b)) }),
{
    b.fn_done = 0;
    b.rv_primary = false;
    b.rv_secondary = false;
    b.rv_timeout = 0;
    b.fn_job = theirs;
}

/// The board after the other CPU is through with the function.
pub open spec fn fn_ended(b: Board) -> Board {
    Board { fn_done: placement::next_usize(b.fn_done), ..b }
}

/// The other CPU has run the function, or has given the meeting up.
pub fn fn_finished(b: &mut Board)
    ensures
        *final(b) == fn_ended(*old(b)),
{
    b.fn_done = b.fn_done.wrapping_add(1);
}

/// What a CPU that waits for something up to a deadline finds.
pub open spec fn waited(come: bool, now: u64, deadline: u64) -> Wait {
    if come {
        Wait::Done
    } else if now >= deadline {
        Wait::TimedOut
    } else {
        Wait::Again
    }
}

/// Look whether the other CPU is through with the function.
pub fn await_fn(b: &Board, now: u64, deadline: u64) -> (w: Wait)
    ensures
        w == waited(b.fn_done != 0, now, deadline),
{
    if b.fn_done != 0 {
        Wait::Done
    } else if now >= deadline {
        Wait::TimedOut
    } else {
        Wait::Again
    }
}

/// The board with a cell handed out.
pub open spec fn cell_offered(b: Board, cell: usize, preempt: bool) -> Board {
    Board {
        user_cell: cell,
        user_cell_preempt: preempt,
        user_cell_done: 0,
        user_cell_code: 0,
        ..no_meeting(b)
    }
}

/// Hand a cell to another CPU.
pub fn run_cell_on_secondary(b: &mut Board, cell: usize, preempt: bool)
    ensures
        *final(b) == cell_offered(*old(b), cell, preempt),
{
    b.user_cell_preempt = preempt;
    b.user_cell_done = 0;
    b.user_cell_code = 0;
    b.rv_primary = false;
    b.rv_secondary = false;
    b.rv_timeout = 0;
    b.user_cell = cell;
}

/// Hand the cell `other` to another CPU, to run `own` here at the same time: `own` is
/// this CPU's, so that no other takes it up. Returns whether this CPU's timer is to be
/// set up for preemption first, which is so when it is asked for and was not yet.
pub fn run_cells_on_both(
    b: &mut Board,
    t: &mut CellTable,
    ready: &mut PerCpu<bool>,
    own: usize,
    other: usize,
    preempt: bool,
    raw_cpu: usize,
) -> (arm: bool)
    requires
        old(t).wf(),
        own < MAX_CELLS,
        own != other,
    ensures
        final(t).wf(),
        *final(b) == cell_offered(*old(b), other, preempt),
        only_vcores(old(t), final(t)),
        final(t).vcores@.len() == old(t).vcores@.len(),
        forall|e: int|
            0 <= e < old(t).vcores@.len() ==> #[trigger] final(t).vcores@[e] == (if entity(
                own as int,
                0,
            ) <= e < entity(own as int, old(t).cells@[own as int].nvcores as int) {
                Vcore { cpu: drain::cpu_slot(raw_cpu) as usize, ..old(t).vcores@[e] }
            } else {
                old(t).vcores@[e]
            }),
        arm == (preempt && !old(ready).slots@[drain::cpu_slot(raw_cpu)]),
        final(ready).slots@ == (if preempt {
            old(ready).slots@.update(drain::cpu_slot(raw_cpu), true)
        } else {
            old(ready).slots@
        }),
{
    let arm: bool = if preempt { smp::enable_preemption_here(ready, raw_cpu) } else { false };
    run_cell_on_secondary(b, other, preempt);
    claim_cell(t, own, smp::cpu_index(raw_cpu));
    arm
}

/// The board after the other CPU is through with the cell.
pub open spec fn cell_ended(b: Board, code: Option<u64>) -> Board {
    Board {
        user_cell_code: match code {
            Some(c) => c,
            None => b.user_cell_code,
        },
        user_cell_done: placement::next_usize(b.user_cell_done),
        ..b
    }
}

/// The other CPU is through with the cell: with its code, if the two met.
pub fn cell_finished(b: &mut Board, code: Option<u64>)
    ensures
        *final(b) == cell_ended(*old(b), code),
{
    match code {
        Some(c) => {
            b.user_cell_code = c;
        },
        None => {},
    }
    b.user_cell_done = b.user_cell_done.wrapping_add(1);
}

/// Look whether the other CPU is through with the cell; its code, if it is.
pub fn await_cell(b: &Board, now: u64, deadline: u64) -> (r: (Wait, u64))
    ensures
        r == (if b.user_cell_done != 0 {
            (Wait::Done, b.user_cell_code)
        } else if now >= deadline {
            (Wait::TimedOut, 0)
        } else {
            (Wait::Again, 0)
        }),
{
    if b.user_cell_done != 0 {
        (Wait::Done, b.user_cell_code)
    } else if now >= deadline {
        (Wait::TimedOut, 0)
    } else {
        (Wait::Again, 0)
    }
}

/// How many blocks the rows from `lo` up to `hi` have.
pub open spec fn block_count(lo: usize, hi: usize) -> int {
    if lo < hi {
        (hi - lo + 3) / 4
    } else {
        0
    }
}

/// How many blocks a product has.
fn count_blocks(job: &GemmJob) -> (n: usize)
    ensures
        n == block_count(job.lo, job.hi),
{
    if job.hi <= job.lo {
        return 0;
    }
    let rows: usize = job.hi - job.lo;
    rows / GEMM_BLOCK_ROWS + (if rows % GEMM_BLOCK_ROWS != 0 { 1 } else { 0 })
}

/// Publish a product to every CPU that is online.
pub fn run_gemm_with_secondary(b: &mut Board, c: &Cpus, job: GemmJob)
    requires
        old(b).wf(),
        c.wf(),
    ensures
        final(b).wf(),
        forall|i: int| 0 <= i < MAX_CPUS ==> #[trigger] final(b).blocks_done@[i] == 0,
        *final(b) == (Board {
            jobs_done: 0,
            next_block: 0,
            blocks_done: final(b).blocks_done,
            rv_timeout: 0,
            gemm_arrive: 0,
            gemm_expect: smp::online_among(c.states@, MAX_CPUS as int) as usize,
            gemm_all_met: false,
            job: Some(job),
            job_gen: placement::next_usize(old(b).job_gen),
            ..*old(b)
        }),
{
    b.jobs_done = 0;
    b.next_block = 0;
    b.blocks_done = vec![0; MAX_CPUS];
    b.rv_timeout = 0;
    b.gemm_arrive = 0;
    b.gemm_expect = smp::online_count(c);
    b.gemm_all_met = false;
    b.job = Some(job);
    b.job_gen = b.job_gen.wrapping_add(1);
}

/// The board after one more CPU has come to the start of the product.
pub open spec fn one_came(b: Board) -> Board {
    Board { gemm_arrive: placement::next_usize(b.gemm_arrive), ..b }
}

/// Come to the start of the product.
pub fn gemm_arrive(b: &mut Board)
    ensures
        *final(b) == one_came(*old(b)),
{
    b.gemm_arrive = b.gemm_arrive.wrapping_add(1);
}

/// Look whether every CPU has come to the start of the product.
pub fn gemm_barrier(b: &Board, now: u64, deadline: u64) -> (w: Wait)
    ensures
        w == waited(b.gemm_arrive >= b.gemm_expect, now, deadline),
{
    if b.gemm_arrive >= b.gemm_expect {
        Wait::Done
    } else if now >= deadline {
        Wait::TimedOut
    } else {
        Wait::Again
    }
}

/// Note whether every CPU came.
pub fn gemm_met(b: &mut Board, met: bool)
    ensures
        *final(b) == (Board { gemm_all_met: met, ..*old(b) }),
{
    b.gemm_all_met = met;
}

/// Whether every CPU came to the last product.
pub fn gemm_all_met(b: &Board) -> (met: bool)
    ensures
        met == b.gemm_all_met,
{
    b.gemm_all_met
}

/// The rows of block `i` of those from `lo` up to `hi`.
pub open spec fn block_rows(lo: usize, hi: usize, i: int) -> (int, int) {
    (
        lo + 4 * i,
        if lo + 4 * i + 4 < hi {
            lo + 4 * i + 4
        } else {
            hi as int
        },
    )
}

/// Taking the next block of rows of a product, if there is one left.
pub open spec fn block_taken(
    before: Board,
    after: Board,
    job: &GemmJob,
    rows: Option<(usize, usize)>,
) -> bool {
    match rows {
        Some((lo, hi)) => {
            &&& before.next_block < block_count(job.lo, job.hi)
            &&& (lo as int, hi as int) == block_rows(job.lo, job.hi, before.next_block as int)
            &&& lo < hi
            &&& after == (Board { next_block: (before.next_block + 1) as usize, ..before })
        },
        None => before.next_block >= block_count(job.lo, job.hi) && after == before,
    }
}

/// Take the next block of rows of a product.
pub fn drain_blocks(b: &mut Board, job: &GemmJob) -> (rows: Option<(usize, usize)>)
    ensures
        block_taken(*old(b), *final(b), job, rows),
{
    let total: usize = count_blocks(job);
    let i: usize = b.next_block;
    if i >= total {
        return None;
    }
    b.next_block = i + 1;
    let lo: usize = job.lo + i * GEMM_BLOCK_ROWS;
    let hi: usize = if job.hi - lo > GEMM_BLOCK_ROWS { lo + GEMM_BLOCK_ROWS } else { job.hi };
    Some((lo, hi))
}

/// Where the rows of a product from `lo` on start, in the first tile and in the result.
#[derive(Copy, Clone, PartialEq, Eq, Debug, Structural)]
pub struct RowSpan {
    pub a: usize,
    pub c: usize,
    pub rows: usize,
}

/// The part of a product that its rows from `lo` up to `hi` are: where they start in the
/// first tile, whose numbers are bytes, and in the result, whose numbers are words.
/// None where there are no rows.
pub fn gemm_rows(job: &GemmJob, lo: usize, hi: usize) -> (s: Option<RowSpan>)
    requires
        lo < hi ==> job.a + lo * job.as_ <= usize::MAX && job.c + 4 * (lo * job.cs) <= usize::MAX,
    ensures
        match s {
            None => hi <= lo,
            Some(s) => {
                &&& lo < hi
                &&& s.a == job.a + lo * job.as_
                &&& s.c == job.c + 4 * (lo * job.cs)
                &&& s.rows == hi - lo
            },
        },
{
    if hi <= lo {
        return None;
    }
    proof {
        assert(0 <= lo * job.as_ && 0 <= lo * job.cs) by (nonlinear_arith)
            requires
                0 <= lo,
                0 <= job.as_,
                0 <= job.cs,
        ;
    }
    Some(RowSpan { a: job.a + lo * job.as_, c: job.c + 4 * (lo * job.cs), rows: hi - lo })
}

/// Blocks write apart: the rows of two blocks of a result lie at different places, as
/// long as its rows do not overlap.
pub proof fn law_blocks_write_apart(cs: int, lo: int, hi: int, other: int, col: int, col2: int)
    requires
        0 <= lo < hi <= other,
        0 <= col < cs,
        0 <= col2 < cs,
    ensures
        forall|row: int| lo <= row < hi ==> #[trigger] (row * cs) + col < other * cs + col2,
{
    assert forall|row: int| lo <= row < hi implies #[trigger] (row * cs) + col < other * cs + col2 by {
        assert(row * cs + cs <= other * cs) by (nonlinear_arith)
            requires
                row + 1 <= other,
                0 <= cs,
        ;
    }
}

/// Every row from `lo` up to `hi` lies in exactly one block, so that the blocks that the
/// CPUs take, each at most once, are disjoint and leave no row out; and no block holds a
/// row before `lo` or from `hi` on.
pub proof fn law_blocks_partition_the_rows(lo: usize, hi: usize, row: int)
    ensures
        lo <= row < hi <==> exists|i: int|
            0 <= i < block_count(lo, hi) && (#[trigger] block_rows(lo, hi, i)).0 <= row
                < block_rows(lo, hi, i).1,
        forall|i: int, j: int|
            0 <= i < block_count(lo, hi) && 0 <= j < block_count(lo, hi) && (#[trigger] block_rows(
                lo,
                hi,
                i,
            )).0 <= row < block_rows(lo, hi, i).1 && (#[trigger] block_rows(lo, hi, j)).0 <= row
                < block_rows(lo, hi, j).1 ==> i == j,
{
    if lo <= row < hi {
        let i = (row - lo) / 4;
        assert(block_rows(lo, hi, i).0 <= row < block_rows(lo, hi, i).1);
    }
}

/// A block more that a CPU has done.
pub open spec fn block_counted(before: Board, after: Board, raw_cpu: usize) -> bool {
    let me = drain::cpu_slot(raw_cpu);
    &&& after.blocks_done@ == before.blocks_done@.update(
        me,
        placement::next_usize(before.blocks_done@[me]),
    )
    &&& after == (Board { blocks_done: after.blocks_done, ..before })
}

/// Note that a CPU has done a block.
pub fn block_finished(b: &mut Board, raw_cpu: usize)
    requires
        old(b).wf(),
    ensures
        final(b).wf(),
        block_counted(*old(b), *final(b), raw_cpu),
{
    let me: usize = smp::cpu_index(raw_cpu);
    let n: usize = b.blocks_done[me];
    b.blocks_done[me] = n.wrapping_add(1);
}

/// Blocks that a CPU has done; the last CPU stands for those past the end.
pub fn blocks_done(b: &Board, cpu: usize) -> (n: usize)
    requires
        b.wf(),
    ensures
        n == b.blocks_done@[smp::clamped(cpu)],
{
    let at: usize = if cpu < MAX_CPUS { cpu } else { MAX_CPUS - 1 };
    b.blocks_done[at]
}

/// The sum of the first `n` counts.
pub open spec fn sum_counts(s: Seq<usize>, n: int) -> nat
    decreases n,
{
    if n <= 0 {
        0
    } else {
        sum_counts(s, n - 1) + s[n - 1] as nat
    }
}

/// The board after one more CPU is through with the product.
pub open spec fn job_ended(b: Board) -> Board {
    Board { jobs_done: placement::next_usize(b.jobs_done), ..b }
}

/// Note that a CPU is through with the product.
pub fn job_finished(b: &mut Board)
    ensures
        *final(b) == job_ended(*old(b)),
{
    b.jobs_done = b.jobs_done.wrapping_add(1);
}

/// Whether the CPUs have done all blocks of a product.
pub open spec fn all_blocks_done(b: &Board, job: &GemmJob) -> bool {
    sum_counts(b.blocks_done@, MAX_CPUS as int) >= block_count(job.lo, job.hi)
}

/// Look whether all blocks of a product are done; it is withdrawn when they are, and
/// at the deadline.
pub fn await_gemm(b: &mut Board, job: &GemmJob, now: u64, deadline: u64) -> (w: Wait)
    requires
        old(b).wf(),
    ensures
        final(b).wf(),
        w == waited(all_blocks_done(old(b), job), now, deadline),
        *final(b) == (if w == Wait::Again {
            *old(b)
        } else {
            Board { job: None, ..*old(b) }
        }),
{
    let total: usize = count_blocks(job);
    let mut done: usize = 0;
    let mut i: usize = 0;
    while i < MAX_CPUS
        invariant
            *b == *old(b),
            b.wf(),
            i <= MAX_CPUS,
            done == (if sum_counts(b.blocks_done@, i as int) > usize::MAX {
                usize::MAX as nat
            } else {
                sum_counts(b.blocks_done@, i as int)
            }),
        decreases MAX_CPUS - i,
    {
        done = done.saturating_add(b.blocks_done[i]);
        i = i + 1;
    }
    if done >= total {
        b.job = None;
        Wait::Done
    } else if now >= deadline {
        b.job = None;
        Wait::TimedOut
    } else {
        Wait::Again
    }
}

/// A wait ends with the other side or with the deadline: it is done exactly where the
/// other has come, has timed out exactly where it has not and the deadline is reached,
/// and else goes on. A deadline is its span after the time it was set at.
pub proof fn law_wait_ends_in_time(come: bool, now: u64, deadline: u64, span: u64)
    ensures
        waited(come, now, deadline) == Wait::Done <==> come,
        waited(come, now, deadline) == Wait::TimedOut <==> !come && now >= deadline,
        waited(come, now, deadline) == Wait::Again <==> !come && now < deadline,
        now + span <= u64::MAX ==> after(now, span) == now + span,
        now + span <= u64::MAX && span > 0 ==> waited(come, now, after(now, span)) != Wait::TimedOut,
{
}

/// What is offered is taken once: a CPU that looks for work finds an open round first,
/// then the cell that was offered, then the function, then a product that it has not
/// seen; whatever it takes it does not find again, and it parks only where there was
/// nothing until the deadline.
pub proof fn law_offered_work_is_taken_once(
    b: &Board,
    mid: &Board,
    next: &Board,
    raw_cpu: usize,
    now: u64,
    deadline: u64,
    w: Work,
    again: Work,
)
    requires
        b.wf(),
        looked(b, mid, false, raw_cpu, now, deadline, w),
        looked(mid, next, false, raw_cpu, now, deadline, again),
    ensures
        b.user_cell != NO_CELL ==> w == Work::Cell(b.user_cell) && !(again is Cell),
        b.user_cell == NO_CELL && b.fn_job != 0 ==> w == Work::Function(b.fn_job) && !(again is Function),
        w is Gemm ==> b.user_cell == NO_CELL && b.fn_job == 0 && w == Work::Gemm(b.job) && !(again is Gemm),
        ({
            let me = if raw_cpu < 64 {
                raw_cpu as int
            } else {
                0
            };
            w is Gemm <==> b.user_cell == NO_CELL && b.fn_job == 0 && b.job_gen != 0 && b.job_seen@[me]
                != b.job_gen
        }),
        w is Park ==> now >= deadline && b.user_cell == NO_CELL && b.fn_job == 0,
        w is Spin ==> now < deadline && b.user_cell == NO_CELL && b.fn_job == 0,
        !(w is Drain),
{
}

/// An open round comes before everything that is offered.
pub proof fn law_open_round_comes_first(b: &Board, next: &Board, raw_cpu: usize, now: u64, deadline: u64, w: Work)
    requires
        looked(b, next, true, raw_cpu, now, deadline, w),
    ensures
        w == Work::Drain,
        *next == *b,
{
}

/// A cell that is offered is the one that is found, with its way of running, and nothing
/// of an earlier meeting is left: no side has come, none was missed, and no cell has ended.
pub proof fn law_offer_starts_afresh(b: Board, cell: usize, preempt: bool, code: u64)
    ensures
        ({
            let o = cell_offered(b, cell, preempt);
            &&& o.user_cell == cell
            &&& o.user_cell_preempt == preempt
            &&& o.user_cell_done == 0
            &&& o.user_cell_code == 0
            &&& !o.rv_primary
            &&& !o.rv_secondary
            &&& o.rv_timeout == 0
            &&& !other_came(&o, Side::Primary)
            &&& !other_came(&o, Side::Secondary)
            &&& cell_ended(o, Some(code)).user_cell_code == code
            &&& cell_ended(o, Some(code)).user_cell_done == 1
            &&& cell_ended(o, None).user_cell_code == 0
            &&& cell_ended(o, None).user_cell_done == 1
        }),
{
}

/// Each side waits for the other one, not for itself.
pub proof fn law_sides_wait_for_each_other(b: &Board)
    ensures
        other_came(b, Side::Primary) == b.rv_secondary,
        other_came(b, Side::Secondary) == b.rv_primary,
{
}

/// Blocks of a product are taken one after the other: the first begins with the first
/// row, each begins where the one before it ended, none is longer than four rows, and the
/// last ends with the last row.
pub proof fn law_blocks_follow_each_other(
    b: Board,
    mid: Board,
    next: Board,
    job: &GemmJob,
    rows: (usize, usize),
    then: Option<(usize, usize)>,
)
    requires
        job.lo < job.hi,
        block_taken(b, mid, job, Some(rows)),
        block_taken(mid, next, job, then),
    ensures
        b.next_block == 0 ==> rows.0 == job.lo,
        rows.0 < rows.1 <= rows.0 + 4,
        then matches Some(r) ==> r.0 == rows.1 && r.1 <= job.hi && rows.1 == rows.0 + 4,
        then is None ==> rows.1 == job.hi,
{
}

/// The blocks that are done are counted for the CPU that did them, so a product is over
/// exactly where the CPUs together have done as many blocks as it has.
pub proof fn law_blocks_are_counted(b: Board, next: Board, raw_cpu: usize)
    requires
        b.wf(),
        block_counted(b, next, raw_cpu),
        b.blocks_done@[if raw_cpu < 64 {
            raw_cpu as int
        } else {
            0
        }] < usize::MAX,
    ensures
        sum_counts(next.blocks_done@, 64) == sum_counts(b.blocks_done@, 64) + 1,
{
    let me = drain::cpu_slot(raw_cpu);
    lemma_sum_update(b.blocks_done@, me, (b.blocks_done@[me] + 1) as usize, 64);
}

proof fn lemma_sum_update(s: Seq<usize>, i: int, v: usize, n: int)
    requires
        0 <= i < s.len(),
        0 <= n <= s.len(),
    ensures
        sum_counts(s.update(i, v), n) == sum_counts(s, n) + (if i < n {
            v - s[i]
        } else {
            0
        }),
    decreases n,
{
    if n > 0 {
        lemma_sum_update(s, i, v, n - 1);
    }
}

/// Those that come to a product are counted, and so are those that are done with it; it is
/// over where as many blocks are done as its rows make, four rows to a block.
pub proof fn law_product_is_over_with_its_blocks(b: Board, job: &GemmJob)
    requires
        b.gemm_arrive < usize::MAX,
        b.jobs_done < usize::MAX,
        b.fn_done < usize::MAX,
    ensures
        one_came(b).gemm_arrive == b.gemm_arrive + 1,
        job_ended(b).jobs_done == b.jobs_done + 1,
        fn_ended(b).fn_done == b.fn_done + 1,
        job.lo < job.hi ==> (all_blocks_done(&b, job) <==> 4 * sum_counts(b.blocks_done@, 64) >= job.hi - job.lo),
        job.lo >= job.hi ==> all_blocks_done(&b, job),
{
}

} // verus!
