//! How the CPUs work together step by step: the first hands work out, does its own part
//! and waits; the others look for work, meet the first and do theirs. A step takes the
//! time, and says what to do before the next one.

use vstd::prelude::*;
use crate::kernel::rounds::Wait;
use crate::kernel::work;
use crate::kernel::work::{Board, GemmJob, Side, Work, CELL_RUN_TIMEOUT_NS, RV_TIMEOUT_NS};

verus! {

/// What the first CPU has handed out.
#[derive(Copy, Clone, PartialEq, Eq, Debug, Structural)]
pub enum Errand {
    /// A function, while it runs one of its own.
    Function,
    /// A cell, while it runs one of its own.
    Both,
    /// A cell, while it only waits.
    Cell,
}

/// Where the first CPU is with an errand.
#[derive(Copy, Clone, PartialEq, Eq, Debug, Structural)]
pub enum ErrandAt {
    /// The errand is on the board.
    Given,
    /// At the meeting, up to a deadline.
    Meeting(u64),
    /// Its own part is done; whether the two met.
    OwnDone(bool),
    /// Waits for the other up to a deadline.
    Waiting(bool, u64),
    Over,
}

/// What the first CPU does next.
#[derive(Copy, Clone, PartialEq, Eq, Debug, Structural)]
pub enum ErrandAction {
    /// Take the time and step again.
    Look,
    /// Let the others on, and step again.
    Spin,
    /// Do its own part, and step again.
    RunOwn,
    /// Over: whether the two met, whether the other is done, and the code of its cell.
    Return(bool, bool, u64),
}

/// Whether the other is done with the errand.
pub open spec fn errand_done(b: &Board, e: Errand) -> bool {
    match e {
        Errand::Function => b.fn_done != 0,
        Errand::Both => b.user_cell_done != 0,
        Errand::Cell => b.user_cell_done != 0,
    }
}

/// How long the first CPU waits for the errand.
pub open spec fn errand_span(e: Errand) -> u64 {
    match e {
        Errand::Cell => CELL_RUN_TIMEOUT_NS,
        _ => RV_TIMEOUT_NS,
    }
}

/// What an errand comes to. A cell that is waited for alone counts as missed when it is
/// not done in time.
pub open spec fn errand_result(b: &Board, e: Errand, met: bool, done: bool) -> ErrandAction {
    if done {
        ErrandAction::Return(
            met,
            true,
            match e {
                Errand::Function => 0,
                _ => b.user_cell_code,
            },
        )
    } else {
        ErrandAction::Return(met && e != Errand::Cell, false, 0)
    }
}

/// Take the first CPU one step on with an errand.
pub fn errand_step(b: &mut Board, at: &mut ErrandAt, e: Errand, now: u64) -> (action: ErrandAction)
    requires
        *old(at) != ErrandAt::Over,
    ensures
        match *old(at) {
            ErrandAt::Given => {
                &&& action == ErrandAction::Look
                &&& *final(at) == ErrandAt::Meeting(work::after(now, RV_TIMEOUT_NS))
                &&& *final(b) == (Board { rv_primary: true, ..*old(b) })
            },
            ErrandAt::Meeting(deadline) => {
                let w = work::waited(old(b).rv_secondary, now, deadline);
                &&& *final(b) == work::met_or_missed(*old(b), w)
                &&& if w == Wait::Again {
                    action == ErrandAction::Spin && *final(at) == *old(at)
                } else {
                    &&& action == (if e == Errand::Cell {
                        ErrandAction::Look
                    } else {
                        ErrandAction::RunOwn
                    })
                    &&& *final(at) == ErrandAt::OwnDone(w == Wait::Done)
                }
            },
            ErrandAt::OwnDone(met) => {
                &&& action == ErrandAction::Look
                &&& *final(at) == ErrandAt::Waiting(met, work::after(now, errand_span(e)))
                &&& *final(b) == *old(b)
            },
            ErrandAt::Waiting(met, deadline) => {
                let w = work::waited(errand_done(old(b), e), now, deadline);
                &&& *final(b) == *old(b)
                &&& if w == Wait::Again {
                    action == ErrandAction::Spin && *final(at) == *old(at)
                } else {
                    &&& action == errand_result(old(b), e, met, w == Wait::Done)
                    &&& *final(at) == ErrandAt::Over
                }
            },
            ErrandAt::Over => false,
        },
{
    match *at {
        ErrandAt::Given => {
            work::arrive(b, Side::Primary);
            *at = ErrandAt::Meeting(work::deadline_after(now, RV_TIMEOUT_NS));
            ErrandAction::Look
        },
        ErrandAt::Meeting(deadline) => {
            let met: bool = match work::rendezvous(b, Side::Primary, now, deadline) {
                Wait::Again => {
                    return ErrandAction::Spin;
                },
                Wait::Done => true,
                Wait::TimedOut => false,
            };
            *at = ErrandAt::OwnDone(met);
            match e {
                Errand::Cell => ErrandAction::Look,
                _ => ErrandAction::RunOwn,
            }
        },
        ErrandAt::OwnDone(met) => {
            let span: u64 = match e {
                Errand::Cell => CELL_RUN_TIMEOUT_NS,
                _ => RV_TIMEOUT_NS,
            };
            *at = ErrandAt::Waiting(met, work::deadline_after(now, span));
            ErrandAction::Look
        },
        ErrandAt::Waiting(met, deadline) => {
            let (w, code): (Wait, u64) = match e {
                Errand::Function => (work::await_fn(b, now, deadline), 0),
                _ => work::await_cell(b, now, deadline),
            };
            match w {
                Wait::Again => ErrandAction::Spin,
                Wait::Done => {
                    *at = ErrandAt::Over;
                    ErrandAction::Return(met, true, code)
                },
                Wait::TimedOut => {
                    *at = ErrandAt::Over;
                    match e {
                        Errand::Cell => ErrandAction::Return(false, false, 0),
                        _ => ErrandAction::Return(met, false, 0),
                    }
                },
            }
        },
        ErrandAt::Over => ErrandAction::Look,
    }
}

/// Where a CPU is with a product.
#[derive(Copy, Clone, PartialEq, Eq, Debug, Structural)]
pub enum ProductAt {
    /// The product is on the board.
    Given,
    /// Waits for every CPU to come, up to a deadline.
    Gathering(u64),
    /// Takes blocks; whether all came, and whether it has one in hand.
    Blocks(bool, bool),
    /// Waits for the others' blocks up to a deadline.
    Waiting(bool, u64),
    Over,
}

/// What the first CPU does next about a product.
#[derive(Copy, Clone, PartialEq, Eq, Debug, Structural)]
pub enum ProductAction {
    Look,
    Spin,
    /// Compute these rows, and step again.
    Rows(usize, usize),
    /// Over: whether every CPU came, and whether every block is done.
    Return(bool, bool),
}

/// Counting a block that was in hand, and taking the next.
pub open spec fn next_rows(
    before: &Board,
    after: &Board,
    job: &GemmJob,
    raw_cpu: usize,
    in_hand: bool,
    rows: Option<(usize, usize)>,
) -> bool {
    if in_hand {
        exists|mid: Board|
            #[trigger] work::block_counted(*before, mid, raw_cpu) && work::block_taken(
                mid,
                *after,
                job,
                rows,
            )
    } else {
        work::block_taken(*before, *after, job, rows)
    }
}

/// Count the block in hand, if there is one, and take the next.
fn take_rows(b: &mut Board, job: &GemmJob, raw_cpu: usize, in_hand: bool) -> (rows: Option<(usize, usize)>)
    requires
        old(b).wf(),
    ensures
        final(b).wf(),
        next_rows(old(b), final(b), job, raw_cpu, in_hand, rows),
{
    if in_hand {
        work::block_finished(b, raw_cpu);
        assert(work::block_counted(*old(b), *b, raw_cpu));
    }
    work::drain_blocks(b, job)
}

/// Take the first CPU one step on with a product.
pub fn product_step(b: &mut Board, at: &mut ProductAt, job: &GemmJob, raw_cpu: usize, now: u64) -> (action: ProductAction)
    requires
        old(b).wf(),
        *old(at) != ProductAt::Over,
    ensures
        final(b).wf(),
        match *old(at) {
            ProductAt::Given => {
                &&& action == ProductAction::Look
                &&& *final(at) == ProductAt::Gathering(work::after(now, RV_TIMEOUT_NS))
                &&& *final(b) == work::one_came(*old(b))
            },
            ProductAt::Gathering(deadline) => {
                let w = work::waited(old(b).gemm_arrive >= old(b).gemm_expect, now, deadline);
                if w == Wait::Again {
                    &&& action == ProductAction::Spin
                    &&& *final(at) == *old(at)
                    &&& *final(b) == *old(b)
                } else {
                    &&& action == ProductAction::Look
                    &&& *final(at) == ProductAt::Blocks(w == Wait::Done, false)
                    &&& *final(b) == (Board { gemm_all_met: w == Wait::Done, ..*old(b) })
                }
            },
            ProductAt::Blocks(met, in_hand) => match action {
                ProductAction::Rows(lo, hi) => {
                    &&& next_rows(old(b), final(b), job, raw_cpu, in_hand, Some((lo, hi)))
                    &&& *final(at) == ProductAt::Blocks(met, true)
                },
                ProductAction::Look => {
                    &&& next_rows(old(b), final(b), job, raw_cpu, in_hand, None)
                    &&& *final(at) == ProductAt::Waiting(met, work::after(now, RV_TIMEOUT_NS))
                },
                _ => false,
            },
            ProductAt::Waiting(met, deadline) => {
                let w = work::waited(work::all_blocks_done(old(b), job), now, deadline);
                if w == Wait::Again {
                    &&& action == ProductAction::Spin
                    &&& *final(at) == *old(at)
                    &&& *final(b) == *old(b)
                } else {
                    &&& action == ProductAction::Return(met, w == Wait::Done)
                    &&& *final(at) == ProductAt::Over
                    &&& *final(b) == (Board { job: None, ..*old(b) })
                }
            },
            ProductAt::Over => false,
        },
{
    match *at {
        ProductAt::Given => {
            work::gemm_arrive(b);
            *at = ProductAt::Gathering(work::deadline_after(now, RV_TIMEOUT_NS));
            ProductAction::Look
        },
        ProductAt::Gathering(deadline) => {
            let met: bool = match work::gemm_barrier(b, now, deadline) {
                Wait::Again => {
                    return ProductAction::Spin;
                },
                Wait::Done => true,
                Wait::TimedOut => false,
            };
            work::gemm_met(b, met);
            *at = ProductAt::Blocks(met, false);
            ProductAction::Look
        },
        ProductAt::Blocks(met, in_hand) => match take_rows(b, job, raw_cpu, in_hand) {
            Some((lo, hi)) => {
                *at = ProductAt::Blocks(met, true);
                ProductAction::Rows(lo, hi)
            },
            None => {
                *at = ProductAt::Waiting(met, work::deadline_after(now, RV_TIMEOUT_NS));
                ProductAction::Look
            },
        },
        ProductAt::Waiting(met, deadline) => match work::await_gemm(b, job, now, deadline) {
            Wait::Again => ProductAction::Spin,
            Wait::Done => {
                *at = ProductAt::Over;
                ProductAction::Return(met, true)
            },
            Wait::TimedOut => {
                *at = ProductAt::Over;
                ProductAction::Return(met, false)
            },
        },
        ProductAt::Over => ProductAction::Look,
    }
}

/// What another CPU was handed that it has to meet the first for.
#[derive(Copy, Clone, PartialEq, Eq, Debug, Structural)]
pub enum Handed {
    Cell(usize),
    Function(usize),
}

/// Where another CPU is.
#[derive(Copy, Clone, PartialEq, Eq, Debug, Structural)]
pub enum HelperAt {
    /// Begins to look for work.
    Fresh,
    /// Looks for work up to a deadline.
    Idle(u64),
    /// Has been handed something.
    Called(Handed),
    /// At the meeting, up to a deadline.
    Meeting(Handed, u64),
    /// Has run what it was handed.
    Ran(Handed),
    /// Has seen a product.
    Joining(GemmJob),
    /// Waits for every CPU to come, up to a deadline.
    Gathering(GemmJob, u64),
    /// Takes blocks; whether it has one in hand.
    Blocks(GemmJob, bool),
    Parked,
}

/// What another CPU does next.
#[derive(Copy, Clone, PartialEq, Eq, Debug, Structural)]
pub enum HelperAction {
    Look,
    Spin,
    /// Work through the open round, and step again.
    Drain,
    /// Run a cell, in slices or to its end, and step again with its code.
    RunCell(usize, bool),
    /// Run a function, and step again.
    RunFunction(usize),
    /// Compute these rows of a product, and step again.
    Rows(GemmJob, usize, usize),
    Park,
}

/// The board after another CPU is through with what it was handed: with a code, where it
/// ran a cell.
pub open spec fn handed_ended(b: Board, h: Handed, code: Option<u64>) -> Board {
    match h {
        Handed::Cell(_) => work::cell_ended(b, code),
        Handed::Function(_) => work::fn_ended(b),
    }
}

/// Note that another CPU is through with what it was handed.
fn handed_finished(b: &mut Board, h: Handed, code: Option<u64>)
    ensures
        *final(b) == handed_ended(*old(b), h, code),
{
    match h {
        Handed::Cell(_) => work::cell_finished(b, code),
        Handed::Function(_) => work::fn_finished(b),
    }
}

/// Where the piece of work that was found leads to, and what to do about it.
pub open spec fn takes_up(w: Work, deadline: u64) -> (HelperAt, HelperAction) {
    match w {
        Work::Drain => (HelperAt::Fresh, HelperAction::Drain),
        Work::Cell(c) => (HelperAt::Called(Handed::Cell(c)), HelperAction::Look),
        Work::Function(f) => (HelperAt::Called(Handed::Function(f)), HelperAction::Look),
        Work::Gemm(Some(job)) => (HelperAt::Joining(job), HelperAction::Look),
        Work::Gemm(None) => (HelperAt::Fresh, HelperAction::Look),
        Work::Park => (HelperAt::Parked, HelperAction::Park),
        Work::Spin => (HelperAt::Idle(deadline), HelperAction::Spin),
    }
}

/// Take another CPU one step on. It looks for work until a deadline passes with none,
/// and then parks; after every piece of work it has the full time again. `code` is that
/// of the cell, where one was just run.
pub fn secondary_work_loop(
    b: &mut Board,
    at: &mut HelperAt,
    round_open: bool,
    raw_cpu: usize,
    now: u64,
    code: u64,
) -> (action: HelperAction)
    requires
        old(b).wf(),
        *old(at) != HelperAt::Parked,
    ensures
        final(b).wf(),
        match *old(at) {
            HelperAt::Fresh => {
                &&& action == HelperAction::Look
                &&& *final(at) == HelperAt::Idle(work::after(now, RV_TIMEOUT_NS))
                &&& *final(b) == *old(b)
            },
            HelperAt::Idle(deadline) => exists|w: Work|
                {
                    &&& #[trigger] work::looked(
                        old(b),
                        final(b),
                        round_open,
                        raw_cpu,
                        now,
                        deadline,
                        w,
                    )
                    &&& (*final(at), action) == takes_up(w, deadline)
                },
            HelperAt::Called(h) => {
                &&& action == HelperAction::Look
                &&& *final(at) == HelperAt::Meeting(h, work::after(now, RV_TIMEOUT_NS))
                &&& *final(b) == (Board { rv_secondary: true, ..*old(b) })
            },
            HelperAt::Meeting(h, deadline) => {
                let w = work::waited(old(b).rv_primary, now, deadline);
                let seen = work::met_or_missed(*old(b), w);
                match w {
                    Wait::Again => {
                        &&& action == HelperAction::Spin
                        &&& *final(at) == *old(at)
                        &&& *final(b) == seen
                    },
                    Wait::Done => {
                        &&& action == (match h {
                            Handed::Cell(c) => HelperAction::RunCell(c, old(b).user_cell_preempt),
                            Handed::Function(f) => HelperAction::RunFunction(f),
                        })
                        &&& *final(at) == HelperAt::Ran(h)
                        &&& *final(b) == seen
                    },
                    Wait::TimedOut => {
                        &&& action == HelperAction::Look
                        &&& *final(at) == HelperAt::Fresh
                        &&& *final(b) == handed_ended(seen, h, None)
                    },
                }
            },
            HelperAt::Ran(h) => {
                &&& action == HelperAction::Look
                &&& *final(at) == HelperAt::Fresh
                &&& *final(b) == handed_ended(*old(b), h, Some(code))
            },
            HelperAt::Joining(job) => {
                &&& action == HelperAction::Look
                &&& *final(at) == HelperAt::Gathering(job, work::after(now, RV_TIMEOUT_NS))
                &&& *final(b) == work::one_came(*old(b))
            },
            HelperAt::Gathering(job, deadline) => {
                let w = work::waited(old(b).gemm_arrive >= old(b).gemm_expect, now, deadline);
                match w {
                    Wait::Again => {
                        &&& action == HelperAction::Spin
                        &&& *final(at) == *old(at)
                        &&& *final(b) == *old(b)
                    },
                    Wait::Done => {
                        &&& action == HelperAction::Look
                        &&& *final(at) == HelperAt::Blocks(job, false)
                        &&& *final(b) == *old(b)
                    },
                    Wait::TimedOut => {
                        &&& action == HelperAction::Look
                        &&& *final(at) == HelperAt::Fresh
                        &&& *final(b) == work::job_ended(*old(b))
                    },
                }
            },
            HelperAt::Blocks(job, in_hand) => match action {
                HelperAction::Rows(j, lo, hi) => {
                    &&& j == job
                    &&& next_rows(old(b), final(b), &job, raw_cpu, in_hand, Some((lo, hi)))
                    &&& *final(at) == HelperAt::Blocks(job, true)
                },
                HelperAction::Look => {
                    &&& *final(at) == HelperAt::Fresh
                    &&& exists|last: Board|
                        #[trigger] next_rows(old(b), &last, &job, raw_cpu, in_hand, None)
                            && *final(b) == work::job_ended(last)
                },
                _ => false,
            },
            HelperAt::Parked => false,
        },
{
    match *at {
        HelperAt::Fresh => {
            *at = HelperAt::Idle(work::deadline_after(now, RV_TIMEOUT_NS));
            HelperAction::Look
        },
        HelperAt::Idle(deadline) => {
            let w: Work = work::look_for_work(b, round_open, raw_cpu, now, deadline);
            assert(work::looked(old(b), b, round_open, raw_cpu, now, deadline, w));
            match w {
                Work::Drain => {
                    *at = HelperAt::Fresh;
                    HelperAction::Drain
                },
                Work::Cell(c) => {
                    *at = HelperAt::Called(Handed::Cell(c));
                    HelperAction::Look
                },
                Work::Function(f) => {
                    *at = HelperAt::Called(Handed::Function(f));
                    HelperAction::Look
                },
                Work::Gemm(Some(job)) => {
                    *at = HelperAt::Joining(job);
                    HelperAction::Look
                },
                Work::Gemm(None) => {
                    *at = HelperAt::Fresh;
                    HelperAction::Look
                },
                Work::Park => {
                    *at = HelperAt::Parked;
                    HelperAction::Park
                },
                Work::Spin => HelperAction::Spin,
            }
        },
        HelperAt::Called(h) => {
            work::arrive(b, Side::Secondary);
            *at = HelperAt::Meeting(h, work::deadline_after(now, RV_TIMEOUT_NS));
            HelperAction::Look
        },
        HelperAt::Meeting(h, deadline) => match work::rendezvous(b, Side::Secondary, now, deadline) {
            Wait::Again => HelperAction::Spin,
            Wait::Done => {
                *at = HelperAt::Ran(h);
                match h {
                    Handed::Cell(c) => HelperAction::RunCell(c, b.user_cell_preempt),
                    Handed::Function(f) => HelperAction::RunFunction(f),
                }
            },
            Wait::TimedOut => {
                handed_finished(b, h, None);
                *at = HelperAt::Fresh;
                HelperAction::Look
            },
        },
        HelperAt::Ran(h) => {
            handed_finished(b, h, Some(code));
            *at = HelperAt::Fresh;
            HelperAction::Look
        },
        HelperAt::Joining(job) => {
            work::gemm_arrive(b);
            *at = HelperAt::Gathering(job, work::deadline_after(now, RV_TIMEOUT_NS));
            HelperAction::Look
        },
        HelperAt::Gathering(job, deadline) => match work::gemm_barrier(b, now, deadline) {
            Wait::Again => HelperAction::Spin,
            Wait::Done => {
                *at = HelperAt::Blocks(job, false);
                HelperAction::Look
            },
            Wait::TimedOut => {
                work::job_finished(b);
                *at = HelperAt::Fresh;
                HelperAction::Look
            },
        },
        HelperAt::Blocks(job, in_hand) => match take_rows(b, &job, raw_cpu, in_hand) {
            Some((lo, hi)) => {
                *at = HelperAt::Blocks(job, true);
                HelperAction::Rows(job, lo, hi)
            },
            None => {
                assert(next_rows(old(b), b, &job, raw_cpu, in_hand, None));
                work::job_finished(b);
                *at = HelperAt::Fresh;
                HelperAction::Look
            },
        },
        HelperAt::Parked => HelperAction::Park,
    }
}

/// The code with which a cell ended on another CPU is what the first CPU is given, whether
/// it ran a cell of its own meanwhile or only waited.
pub proof fn law_code_comes_back(b: Board, cell: usize, code: u64, met: bool)
    requires
        b.user_cell_done < usize::MAX,
    ensures
        ({
            let after = handed_ended(b, Handed::Cell(cell), Some(code));
            &&& errand_done(&after, Errand::Cell)
            &&& errand_done(&after, Errand::Both)
            &&& errand_result(&after, Errand::Cell, met, true) == ErrandAction::Return(
                met,
                true,
                code,
            )
            &&& errand_result(&after, Errand::Both, met, true) == ErrandAction::Return(
                met,
                true,
                code,
            )
        }),
{
}

/// Nothing that a CPU was handed is run unless the two met, and whatever was handed out
/// is reported back, run or not: the first CPU waits for the end of something that comes.
pub proof fn law_what_is_missed_is_reported(b: Board, h: Handed, deadline: u64, now: u64)
    requires
        !b.rv_primary,
        now >= deadline,
        b.user_cell_done == 0,
        b.fn_done == 0,
    ensures
        ({
            let w = work::waited(b.rv_primary, now, deadline);
            let after = handed_ended(work::met_or_missed(b, w), h, None);
            &&& w == Wait::TimedOut
            &&& after.rv_timeout == crate::kernel::placement::next_usize(b.rv_timeout)
            &&& after.user_cell_code == b.user_cell_code
            &&& match h {
                Handed::Cell(_) => errand_done(&after, Errand::Cell) && errand_done(
                    &after,
                    Errand::Both,
                ),
                Handed::Function(_) => errand_done(&after, Errand::Function),
            }
        }),
{
}

/// The first CPU is told what came of an errand: whether the two met, whether the other
/// ended in time, and the code of its cell where it ran one; 0 where it ran a function or
/// did not end. Waiting only for a cell that did not end counts as not having met.
pub proof fn law_errand_tells_how_it_went(b: &Board, e: Errand, met: bool)
    ensures
        errand_result(b, Errand::Function, met, true) == ErrandAction::Return(met, true, 0),
        errand_result(b, Errand::Both, met, true) == ErrandAction::Return(met, true, b.user_cell_code),
        errand_result(b, Errand::Cell, met, true) == ErrandAction::Return(met, true, b.user_cell_code),
        errand_result(b, Errand::Function, met, false) == ErrandAction::Return(met, false, 0),
        errand_result(b, Errand::Both, met, false) == ErrandAction::Return(met, false, 0),
        errand_result(b, Errand::Cell, met, false) == ErrandAction::Return(false, false, 0),
        errand_done(b, Errand::Function) <==> b.fn_done != 0,
        errand_done(b, Errand::Both) <==> b.user_cell_done != 0,
        errand_done(b, Errand::Cell) <==> b.user_cell_done != 0,
        errand_span(Errand::Cell) == 100_000_000_000,
        errand_span(Errand::Function) == 10_000_000_000,
        errand_span(Errand::Both) == 10_000_000_000,
{
}

/// A helper does what it found: it drains a round that is open, goes to meet the caller
/// for a cell or a function, joins a product that is there, parks where it is told to, and
/// else looks on until its deadline.
pub proof fn law_helper_does_what_it_found(cell: usize, f: usize, job: GemmJob, deadline: u64)
    ensures
        takes_up(Work::Drain, deadline) == (HelperAt::Fresh, HelperAction::Drain),
        takes_up(Work::Cell(cell), deadline).0 == HelperAt::Called(Handed::Cell(cell)),
        takes_up(Work::Function(f), deadline).0 == HelperAt::Called(Handed::Function(f)),
        takes_up(Work::Gemm(Some(job)), deadline).0 == HelperAt::Joining(job),
        takes_up(Work::Gemm(None), deadline).0 == HelperAt::Fresh,
        takes_up(Work::Park, deadline) == (HelperAt::Parked, HelperAction::Park),
        takes_up(Work::Spin, deadline) == (HelperAt::Idle(deadline), HelperAction::Spin),
{
}

/// A CPU that has done a block counts it before it takes the next one; the first time round
/// there is none to count. The rows it takes are the next block's.
pub proof fn law_done_blocks_are_counted_first(
    before: &Board,
    after: &Board,
    job: &GemmJob,
    raw_cpu: usize,
    in_hand: bool,
    rows: Option<(usize, usize)>,
)
    requires
        before.wf(),
        next_rows(before, after, job, raw_cpu, in_hand, rows),
        before.blocks_done@[if raw_cpu < 64 {
            raw_cpu as int
        } else {
            0
        }] < usize::MAX,
    ensures
        after.blocks_done@[if raw_cpu < 64 {
            raw_cpu as int
        } else {
            0
        }] == before.blocks_done@[if raw_cpu < 64 {
            raw_cpu as int
        } else {
            0
        }] + (if in_hand {
            1int
        } else {
            0
        }),
        rows matches Some(r) ==> r.0 == job.lo + 4 * before.next_block && r.1 <= job.hi && after.next_block
            == before.next_block + 1,
        rows is None ==> after.next_block == before.next_block && job.lo + 4 * before.next_block >= job.hi,
{
}

} // verus!
