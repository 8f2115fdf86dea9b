//! CPU reservations of cells: admitted against the cell's ledger and the
//! system's, and held by capability.

use vstd::prelude::*;
use crate::kernel::admission::{law_share_is_in_millionths, sensible, share_ppm, Admission, AdmitError, Reservation, FULL_PPM};
use crate::kernel::capability::{checked, has_room, held, issued, law_handles_are_given_out_once, minted, resolve, slot_no, Capability, Object, ObjectKind, BUDGET_UNLIMITED, READ};
use crate::kernel::grants::{after_check, only_checked, reply_ok, user_out};
use crate::kernel::machine::Machine;
use crate::kernel::uaccess::may_write;
use crate::kernel::memory::{pools_same, unchanged, CellView, Memory, ResSlot, MAX_CELLS, REFUSED};

verus! {

/// The parameters make no sense, or there is no room to record the reservation.
pub const BAD_PARAMS: u64 = 1;

/// The CPU would be overcommitted.
pub const OVERCOMMIT: u64 = 2;

/// Less memory is free than the request asks to be left.
pub const MEMORY_FLOOR: u64 = 3;

/// What an admitted request is answered with.
#[derive(Copy, Clone, PartialEq, Eq, Debug, Structural)]
pub struct ReserveInfo {
    pub handle: u64,
    pub committed_ppm: u64,
}

/// The first reservation slot from `from` on that is free.
pub open spec fn free_from(res: Seq<ResSlot>, from: int) -> Option<int>
    decreases res.len() - from,
{
    if from < 0 || from >= res.len() {
        None
    } else if !res[from].in_use {
        Some(from)
    } else {
        free_from(res, from + 1)
    }
}

/// The first reservation from `from` on that goes by a capability.
pub open spec fn held_from(res: Seq<ResSlot>, cap_id: u32, from: int) -> Option<int>
    decreases res.len() - from,
{
    if from < 0 || from >= res.len() {
        None
    } else if res[from].in_use && res[from].cap_id == cap_id {
        Some(from)
    } else {
        held_from(res, cap_id, from + 1)
    }
}

fn find_free(res: &Vec<ResSlot>) -> (at: Option<usize>)
    ensures
        match at {
            Some(i) => i < res@.len() && free_from(res@, 0) == Some(i as int),
            None => free_from(res@, 0) is None,
        },
{
    let mut i: usize = 0;
    while i < res.len()
        invariant
            i <= res@.len(),
            free_from(res@, 0) == free_from(res@, i as int),
        decreases res@.len() - i,
    {
        if !res[i].in_use {
            return Some(i);
        }
        i = i + 1;
    }
    None
}

fn find_held(res: &Vec<ResSlot>, cap_id: u32) -> (at: Option<usize>)
    ensures
        match at {
            Some(i) => i < res@.len() && held_from(res@, cap_id, 0) == Some(i as int) && res@[i as int].in_use
                && res@[i as int].cap_id == cap_id,
            None => held_from(res@, cap_id, 0) is None,
        },
{
    let mut i: usize = 0;
    while i < res.len()
        invariant
            i <= res@.len(),
            held_from(res@, cap_id, 0) == held_from(res@, cap_id, i as int),
        decreases res@.len() - i,
    {
        if res[i].in_use && res[i].cap_id == cap_id {
            return Some(i);
        }
        i = i + 1;
    }
    None
}

/// Why a request is refused before anything is tried, in the order of the checks.
pub open spec fn early_refusal(
    m: &Machine,
    mem: &Memory,
    cur: int,
    out_va: u64,
    floor_pages: u64,
) -> Option<u64> {
    let c = mem.cell(cur);
    if !c.tables || !reply_ok(m, out_va, 16) {
        Some(BAD_PARAMS)
    } else if floor_pages > mem.ddr.free_count() {
        Some(MEMORY_FLOOR)
    } else if free_from(c.res, 0) is None {
        Some(BAD_PARAMS)
    } else {
        None
    }
}

/// What the two ledgers make of a request.
pub open spec fn ledger_refusal(
    system: Admission,
    own: Admission,
    budget: u64,
    period: u64,
    deadline: u64,
) -> Option<u64> {
    if !sensible(budget, period, deadline) {
        Some(BAD_PARAMS)
    } else if system.committed + share_ppm(budget, period) > FULL_PPM || own.committed + share_ppm(
        budget,
        period,
    ) > FULL_PPM {
        Some(OVERCOMMIT)
    } else {
        None
    }
}

/// What a request does that both ledgers can take. Without an object or a handle left
/// for it, it is refused and nothing moves.
pub open spec fn admitted_outcome(
    before: &Memory,
    after: &Memory,
    cur: int,
    budget: u64,
    period: u64,
    code: u64,
    info: Option<ReserveInfo>,
) -> bool {
    let c0 = before.cell(cur);
    let c1 = after.cell(cur);
    let ppm = share_ppm(budget, period) as u64;
    let object = before.objects@.len();
    &&& pools_same(before, after)
    &&& after.cells@.len() == before.cells@.len()
    &&& forall|i: int|
        0 <= i < before.cells@.len() && i != cur ==> (#[trigger] after.cells@[i])@
            == before.cells@[i]@
    &&& after.noticed@ == before.noticed@
    &&& after.objects.object_limit() == before.objects.object_limit()
    &&& if object >= before.objects.object_limit() || !has_room(c0.caps, c0.cap_limit) {
        &&& code == BAD_PARAMS
        &&& info is None
        &&& c1 == c0
        &&& after.system == before.system
        &&& after.objects@ == before.objects@
    } else {
        let cap = Capability {
            object: object as u32,
            rights: READ,
            budget: BUDGET_UNLIMITED,
            epoch: 0,
        };
        &&& code == 0
        &&& after.objects@ == before.objects@.push(
            Object { kind: ObjectKind::Reservation, epoch: 0 },
        )
        &&& after.system.committed == before.system.committed + ppm
        &&& info matches Some(r) && {
            &&& r.handle <= u32::MAX
            &&& minted(c0.caps, c1.caps, r.handle as u32, cap)
            &&& r.committed_ppm == c0.admission.committed + ppm
            &&& c1 == (CellView {
                caps: c1.caps,
                admission: Admission { committed: (c0.admission.committed + ppm) as u64 },
                res: c0.res.update(
                    free_from(c0.res, 0)->0,
                    ResSlot {
                        in_use: true,
                        res: Reservation { ppm },
                        sys_res: Reservation { ppm },
                        cap_id: r.handle as u32,
                    },
                ),
                ..c0
            })
        }
    }
}

/// What asking for a reservation does, and what it returns.
pub open spec fn admit_done(m: &Machine, before: &Memory, after: &Memory, cur: int, out_va: u64, budget: u64, period: u64, deadline: u64, floor_pages: u64, r: (u64, Option<ReserveInfo>)) -> bool {
    &&& match early_refusal(m, before, cur, out_va, floor_pages) {
            Some(why) => r.0 == why && r.1 is None && unchanged(before, after, cur),
            None => match ledger_refusal(
                before.system,
                before.cell(cur).admission,
                budget,
                period,
                deadline,
            ) {
                Some(why) => r.0 == why && r.1 is None && unchanged(
                    before,
                    after,
                    cur,
                ),
                None => admitted_outcome(
                    before,
                    after,
                    cur,
                    budget,
                    period,
                    r.0,
                    r.1,
                ),
            },
        }
}

/// Admit `budget` in every `period` for a cell, with `floor_pages` frames left
/// free. Returns 0 and the handle, or why not.
pub fn reserve_admit(
    m: &Machine,
    mem: &mut Memory,
    cur: usize,
    out_va: u64,
    budget: u64,
    period: u64,
    deadline: u64,
    floor_pages: u64,
) -> (r: (u64, Option<ReserveInfo>))
    requires
        m.wf(),
        old(mem).wf(m),
        cur < MAX_CELLS,
    ensures
        final(mem).wf(m),
        admit_done(m, old(mem), final(mem), cur as int, out_va, budget, period, deadline, floor_pages, r),
{
    if !mem.cells[cur].tables {
        return (BAD_PARAMS, None);
    }
    if !user_out(m, out_va, 16) {
        return (BAD_PARAMS, None);
    }
    if floor_pages > mem.ddr.free_frames() as u64 {
        return (MEMORY_FLOOR, None);
    }
    let slot: usize = match find_free(&mem.cells[cur].res) {
        None => {
            return (BAD_PARAMS, None);
        },
        Some(i) => i,
    };
    assert(mem.cells@[cur as int]@.wf(m));
    let ghost c0 = mem.cells@[cur as int]@;
    let sys_res: Reservation = match mem.system.try_admit(budget, period, deadline) {
        Ok(r) => r,
        Err(AdmitError::BadParams) => {
            return (BAD_PARAMS, None);
        },
        Err(AdmitError::Overcommit) => {
            return (OVERCOMMIT, None);
        },
    };
    let res: Reservation = match mem.cells[cur].admission.try_admit(budget, period, deadline) {
        Ok(r) => r,
        Err(e) => {
            mem.system.release(&sys_res);
            proof {
                assert forall|j: int| 0 <= j < MAX_CELLS implies (#[trigger] mem.cells@[j])@.wf(m) by {
                    assert(old(mem).cells@[j]@.wf(m));
                }
            }
            return (
                match e {
                    AdmitError::BadParams => BAD_PARAMS,
                    AdmitError::Overcommit => OVERCOMMIT,
                },
                None,
            );
        },
    };
    if !mem.objects.has_space() || !mem.cells[cur].caps.has_space() {
        mem.cells[cur].admission.release(&res);
        mem.system.release(&sys_res);
        proof {
            assert forall|j: int| 0 <= j < MAX_CELLS implies (#[trigger] mem.cells@[j])@.wf(m) by {
                assert(old(mem).cells@[j]@.wf(m));
            }
        }
        return (BAD_PARAMS, None);
    }
    // There is room for both, so neither of the two is refused.
    let object: u32 = match mem.objects.create(ObjectKind::Reservation) {
        Ok(o) => o,
        Err(_) => {
            assert(false);
            0
        },
    };
    let cap_id: u32 = match mem.cells[cur].caps.mint(&mem.objects, object, READ, BUDGET_UNLIMITED) {
        Ok(h) => h,
        Err(_) => {
            assert(false);
            0
        },
    };
    mem.cells[cur].res[slot] = ResSlot { in_use: true, res, sys_res, cap_id };
    let committed: u64 = mem.cells[cur].admission.committed_ppm();
    proof {
        assert forall|j: int| 0 <= j < MAX_CELLS implies (#[trigger] mem.cells@[j])@.wf(m) by {
            assert(old(mem).cells@[j]@.wf(m));
        }
        let c1 = mem.cells@[cur as int]@;
        assert(c1.res =~= c0.res.update(slot as int, c1.res[slot as int]));
    }
    (0, Some(ReserveInfo { handle: cap_id as u64, committed_ppm: committed }))
}

/// The ledger with a reservation taken off.
pub open spec fn less(a: Admission, r: Reservation) -> Admission {
    Admission {
        committed: if a.committed >= r.ppm {
            (a.committed - r.ppm) as u64
        } else {
            0
        },
    }
}

/// What giving a reservation back does, and what it returns.
pub open spec fn release_done(m: &Machine, before: &Memory, after: &Memory, cur: int, cap_id: u32, code: u64) -> bool {
    &&& ({
            let c = before.cell(cur);
            let c0 = after_check(c, before.objects@, cap_id, READ);
            if !c.tables || checked(c.caps, before.objects@, cap_id, READ) is Err || held_from(
                c.res,
                cap_id,
                0,
            ) is None {
                code == REFUSED && only_checked(before, after, cur, cap_id, READ)
            } else {
                let i = held_from(c.res, cap_id, 0)->0;
                &&& code == 0
                &&& pools_same(before, after)
                &&& after.cells@.len() == before.cells@.len()
                &&& forall|j: int|
                    0 <= j < MAX_CELLS && j != cur ==> (#[trigger] after.cells@[j])@ == before.cells@[j]@
                &&& after.objects@ == before.objects@
                &&& after.noticed@ == before.noticed@
                &&& after.system == less(before.system, c.res[i].sys_res)
                &&& after.cell(cur) == (CellView {
                    res: c.res.update(i, ResSlot { in_use: false, ..c.res[i] }),
                    admission: less(c.admission, c.res[i].res),
                    ..c0
                })
            }
        })
}

/// Give a reservation back to both ledgers. Refused for a capability that is not
/// good or that no reservation of the cell goes by.
pub fn reserve_release(m: &Machine, mem: &mut Memory, cur: usize, cap_id: u32) -> (code: u64)
    requires
        m.wf(),
        old(mem).wf(m),
        cur < MAX_CELLS,
    ensures
        final(mem).wf(m),
        release_done(m, old(mem), final(mem), cur as int, cap_id, code),
{
    if !mem.cells[cur].tables {
        return REFUSED;
    }
    assert(mem.cells@[cur as int]@.wf(m));
    let ghost c = mem.cells@[cur as int]@;
    let r = mem.cells[cur].caps.grant_check_low32(&mem.objects, cap_id, READ);
    proof {
        assert forall|j: int| 0 <= j < MAX_CELLS implies (#[trigger] mem.cells@[j])@.wf(m) by {
            assert(old(mem).cells@[j]@.wf(m));
        }
    }
    if r.is_err() {
        return REFUSED;
    }
    let i: usize = match find_held(&mem.cells[cur].res, cap_id) {
        None => {
            return REFUSED;
        },
        Some(i) => i,
    };
    let slot: ResSlot = mem.cells[cur].res[i];
    mem.cells[cur].res[i] = ResSlot {
        in_use: false,
        res: slot.res,
        sys_res: slot.sys_res,
        cap_id: slot.cap_id,
    };
    mem.cells[cur].admission.release(&slot.res);
    mem.system.release(&slot.sys_res);
    proof {
        assert forall|j: int| 0 <= j < MAX_CELLS implies (#[trigger] mem.cells@[j])@.wf(m) by {
            assert(old(mem).cells@[j]@.wf(m));
        }
        let c1 = mem.cells@[cur as int]@;
        assert(c1.res =~= c.res.update(i as int, c1.res[i as int]));
    }
    0
}

/// Releasing what a request was admitted leaves both ledgers as they were.
pub proof fn law_release_restores_both_ledgers(
    before: &Memory,
    during: &Memory,
    cur: int,
    budget: u64,
    period: u64,
    deadline: u64,
    info: Option<ReserveInfo>,
)
    requires
        free_from(before.cell(cur).res, 0) is Some,
        ledger_refusal(before.system, before.cell(cur).admission, budget, period, deadline) is None,
        admitted_outcome(before, during, cur, budget, period, 0, info),
    ensures
        ({
            let slot = during.cell(cur).res[free_from(before.cell(cur).res, 0)->0];
            &&& less(during.system, slot.sys_res).committed == before.system.committed
            &&& less(during.cell(cur).admission, slot.res).committed == before.cell(
                cur,
            ).admission.committed
        }),
{
    lemma_free_from(before.cell(cur).res, 0);
    assert(budget * FULL_PPM / (period as int) >= 0) by (nonlinear_arith)
        requires
            0 < budget <= period,
    ;
}

proof fn lemma_free_from(res: Seq<ResSlot>, from: int)
    requires
        0 <= from,
    ensures
        free_from(res, from) matches Some(i) ==> from <= i < res.len(),
    decreases res.len() - from,
{
    if from < res.len() && res[from].in_use {
        lemma_free_from(res, from + 1);
    }
}

/// A request that both ledgers refuse leaves both as they were: nothing is
/// admitted in part.
pub proof fn law_refused_admission_takes_nothing(
    before: &Memory,
    after: &Memory,
    cur: int,
    budget: u64,
    period: u64,
    code: u64,
    info: Option<ReserveInfo>,
)
    requires
        admitted_outcome(before, after, cur, budget, period, code, info),
        code != 0,
    ensures
        after.system == before.system,
        after.cell(cur) == before.cell(cur),
{
}

/// What [`held_from`] finds is in use and goes by the capability, and where it finds
/// nothing there is no such slot.
proof fn lemma_held_from(res: Seq<ResSlot>, cap_id: u32, from: int)
    requires
        0 <= from,
    ensures
        held_from(res, cap_id, from) matches Some(i) ==> from <= i < res.len() && res[i].in_use
            && res[i].cap_id == cap_id,
        held_from(res, cap_id, from) is None ==> forall|i: int|
            from <= i < res.len() && (#[trigger] res[i]).in_use ==> res[i].cap_id != cap_id,
    decreases res.len() - from,
{
    if from < res.len() && !(res[from].in_use && res[from].cap_id == cap_id) {
        lemma_held_from(res, cap_id, from + 1);
    }
}

/// A handle that was given out and that no reservation of the cell goes by any more.
pub open spec fn retired(c: CellView, handle: u32) -> bool {
    issued(c.caps, handle) && held_from(c.res, handle, 0) is None
}

/// A handle whose reservation was given back is retired.
pub proof fn law_release_retires_the_handle(
    m: &Machine,
    before: &Memory,
    after: &Memory,
    cur: int,
    handle: u32,
)
    requires
        0 <= cur < MAX_CELLS,
        before.wf(m),
        release_done(m, before, after, cur, handle, 0),
    ensures
        retired(after.cell(cur), handle),
{
    let c = before.cells@[cur]@;
    assert(c.wf(m));
    lemma_held_from(c.res, handle, 0);
    lemma_held_from(after.cell(cur).res, handle, 0);
    if held_from(after.cell(cur).res, handle, 0) is Some {
        let i = held_from(c.res, handle, 0)->0;
        let j = held_from(after.cell(cur).res, handle, 0)->0;
        assert(i != j);
        assert(c.res[j].in_use && c.res[i].in_use);
    }
}

/// A retired handle stays so: no later admission gives it out again.
pub proof fn law_retired_stays_retired(
    m: &Machine,
    before: &Memory,
    after: &Memory,
    cur: int,
    handle: u32,
    out_va: u64,
    budget: u64,
    period: u64,
    deadline: u64,
    floor_pages: u64,
    r: (u64, Option<ReserveInfo>),
)
    requires
        0 <= cur < MAX_CELLS,
        before.wf(m),
        retired(before.cell(cur), handle),
        admit_done(m, before, after, cur, out_va, budget, period, deadline, floor_pages, r),
    ensures
        retired(after.cell(cur), handle),
{
    let c = before.cells@[cur]@;
    assert(c.wf(m));
    lemma_held_from(c.res, handle, 0);
    lemma_held_from(after.cell(cur).res, handle, 0);
    lemma_free_from(c.res, 0);
    if held_from(after.cell(cur).res, handle, 0) is Some {
        let j = held_from(after.cell(cur).res, handle, 0)->0;
        assert(after.cell(cur).res[j].in_use);
        if Some(j) != free_from(c.res, 0) {
            assert(c.res[j].in_use);
        }
    }
}

/// A retired handle releases nothing: giving a reservation back twice is refused the
/// second time, and leaves both ledgers as they are.
pub proof fn law_second_release_is_refused(
    m: &Machine,
    before: &Memory,
    after: &Memory,
    cur: int,
    handle: u32,
    code: u64,
)
    requires
        retired(before.cell(cur), handle),
        release_done(m, before, after, cur, handle, code),
    ensures
        code == REFUSED,
        after.system == before.system,
        after.cell(cur).admission == before.cell(cur).admission,
        after.cell(cur).res == before.cell(cur).res,
{
}

/// What is admitted fits twice: the machine's ledger and the cell's own each grow by the
/// same share of `budget` in `period`, and neither passes the whole. The call gives a
/// fresh handle, for reading only, under which the cell keeps that share, and tells what
/// the cell has committed now.
pub proof fn law_admission_is_booked_twice(
    m: &Machine,
    before: &Memory,
    after: &Memory,
    cur: int,
    out_va: u64,
    budget: u64,
    period: u64,
    deadline: u64,
    floor_pages: u64,
    r: (u64, Option<ReserveInfo>),
)
    requires
        m.wf(),
        before.wf(m),
        0 <= cur < MAX_CELLS,
        admit_done(m, before, after, cur, out_va, budget, period, deadline, floor_pages, r),
    ensures
        r.0 == 0 <==> r.1 is Some,
        r.0 == 0 ==> {
            let ppm = after.system.committed - before.system.committed;
            let handle = (r.1->0).handle as u32;
            let cap = resolve(after.cell(cur).caps, after.objects@, handle);
            &&& 1 <= budget && budget <= period && budget <= deadline
            &&& floor_pages <= before.ddr.free_count()
            &&& ppm * period <= budget * 1_000_000 < (ppm + 1) * period
            &&& after.cell(cur).admission.committed == before.cell(cur).admission.committed + ppm
            &&& after.system.committed <= 1_000_000
            &&& after.cell(cur).admission.committed <= 1_000_000
            &&& (r.1->0).committed_ppm == after.cell(cur).admission.committed
            &&& cap is Ok
            &&& (cap->Ok_0).rights == 1
            &&& resolve(before.cell(cur).caps, before.objects@, handle) is Err
            &&& exists|i: int|
                0 <= i < before.cell(cur).res.len() && !(#[trigger] before.cell(cur).res[i]).in_use
                    && after.cell(cur).res == before.cell(cur).res.update(i, after.cell(cur).res[i])
                    && after.cell(cur).res[i].in_use && after.cell(cur).res[i].cap_id == handle
                    && after.cell(cur).res[i].res.ppm == ppm && after.cell(cur).res[i].sys_res.ppm == ppm
        },
        r.0 != 0 ==> after.system == before.system && after.cell(cur) == before.cell(cur),
{
    let c = before.cells@[cur]@;
    assert(c.wf(m));
    if r.0 == 0 {
        law_share_is_in_millionths(budget, period, deadline);
        lemma_free_from(c.res, 0);
        let i = free_from(c.res, 0)->0;
        lemma_free_is_free(c.res, 0);
        assert(!before.cell(cur).res[i].in_use);
        let handle = (r.1->0).handle as u32;
        law_handles_are_given_out_once(
            c.caps,
            after.cell(cur).caps,
            c.cap_limit,
            handle,
            Capability {
                object: before.objects@.len() as u32,
                rights: READ,
                budget: BUDGET_UNLIMITED,
                epoch: 0,
            },
            handle,
        );
        if held(c.caps, handle) is Some {
            assert(c.caps[slot_no(handle)].generation < c.caps[slot_no(handle)].next);
        }
    }
}

proof fn lemma_free_is_free(res: Seq<ResSlot>, from: int)
    requires
        0 <= from,
    ensures
        free_from(res, from) matches Some(i) ==> from <= i < res.len() && !res[i].in_use,
    decreases res.len() - from,
{
    if from < res.len() && res[from].in_use {
        lemma_free_is_free(res, from + 1);
    }
}

/// Why a reservation is refused: parameters that make no sense are told 1, a share that
/// either ledger has no room for 2, and a floor of more pages than are free 3.
pub proof fn law_refused_admission_says_why(
    m: &Machine,
    before: &Memory,
    after: &Memory,
    cur: int,
    out_va: u64,
    budget: u64,
    period: u64,
    deadline: u64,
    floor_pages: u64,
    r: (u64, Option<ReserveInfo>),
)
    requires
        m.wf(),
        before.wf(m),
        0 <= cur < MAX_CELLS,
        admit_done(m, before, after, cur, out_va, budget, period, deadline, floor_pages, r),
    ensures
        r.0 == 0 || r.0 == 1 || r.0 == 2 || r.0 == 3,
        before.cell(cur).tables && out_va % 8 == 0 && may_write(m, out_va, 16) ==> {
            &&& r.0 == 3 <==> floor_pages > before.ddr.free_count()
            &&& floor_pages <= before.ddr.free_count() && (budget == 0 || budget > period || budget > deadline)
                ==> r.0 == 1
            &&& r.0 == 2 ==> before.system.committed + budget * 1_000_000 / (period as int) > 1_000_000
                || before.cell(cur).admission.committed + budget * 1_000_000 / (period as int) > 1_000_000
            &&& 0 < budget <= period && budget <= deadline && (before.system.committed + budget * 1_000_000 / (
            period as int) > 1_000_000 || before.cell(cur).admission.committed + budget * 1_000_000 / (
            period as int) > 1_000_000) ==> r.0 != 0
        },
        !(before.cell(cur).tables && out_va % 8 == 0 && may_write(m, out_va, 16)) ==> r.0 == 1,
{
}

/// A release that is done gives back the share that goes by the handle, in both ledgers,
/// and frees that reservation and no other; one that is refused gives back nothing.
pub proof fn law_release_gives_back_its_share(
    m: &Machine,
    before: &Memory,
    after: &Memory,
    cur: int,
    cap_id: u32,
    code: u64,
    i: int,
)
    requires
        m.wf(),
        before.wf(m),
        0 <= cur < MAX_CELLS,
        release_done(m, before, after, cur, cap_id, code),
        0 <= i < before.cell(cur).res.len(),
        before.cell(cur).res[i].in_use,
        before.cell(cur).res[i].cap_id == cap_id,
        before.cell(cur).res[i].res.ppm <= before.cell(cur).admission.committed,
        before.cell(cur).res[i].sys_res.ppm <= before.system.committed,
    ensures
        code == 0 || code == u64::MAX,
        code == 0 <==> before.cell(cur).tables && checked(
            before.cell(cur).caps,
            before.objects@,
            cap_id,
            READ,
        ) is Ok,
        code == 0 ==> {
            &&& after.system.committed + before.cell(cur).res[i].sys_res.ppm == before.system.committed
            &&& after.cell(cur).admission.committed + before.cell(cur).res[i].res.ppm == before.cell(
                cur,
            ).admission.committed
            &&& !after.cell(cur).res[i].in_use
            &&& forall|j: int|
                0 <= j < before.cell(cur).res.len() && j != i ==> #[trigger] after.cell(cur).res[j]
                    == before.cell(cur).res[j]
        },
        code != 0 ==> after.system == before.system && after.cell(cur).admission == before.cell(
            cur,
        ).admission && after.cell(cur).res == before.cell(cur).res,
{
    let c = before.cells@[cur]@;
    assert(c.wf(m));
    lemma_held_from(c.res, cap_id, 0);
    let k = held_from(c.res, cap_id, 0)->0;
    assert(c.res[k].in_use && c.res[i].in_use);
    assert(k == i);
}

/// An admission that nothing speaks against is granted: where the cell has tables and the reply
/// can be written, the floor is free, the request makes sense, both ledgers have room for the
/// share, and there is a slot, an object and a handle left.
pub proof fn law_admission_is_owed(
    m: &Machine,
    before: &Memory,
    after: &Memory,
    cur: int,
    out_va: u64,
    budget: u64,
    period: u64,
    deadline: u64,
    floor_pages: u64,
    r: (u64, Option<ReserveInfo>),
    i: int,
)
    requires
        m.wf(),
        before.wf(m),
        0 <= cur < MAX_CELLS,
        admit_done(m, before, after, cur, out_va, budget, period, deadline, floor_pages, r),
        before.cell(cur).tables,
        out_va % 8 == 0,
        may_write(m, out_va, 16),
        floor_pages <= before.ddr.free_count(),
        0 < budget <= period,
        budget <= deadline,
        before.system.committed + budget * 1_000_000 / (period as int) <= 1_000_000,
        before.cell(cur).admission.committed + budget * 1_000_000 / (period as int) <= 1_000_000,
        0 <= i < before.cell(cur).res.len(),
        !before.cell(cur).res[i].in_use,
        before.objects@.len() < before.objects.object_limit(),
        has_room(before.cell(cur).caps, before.cell(cur).cap_limit),
    ensures
        r.0 == 0,
        r.1 is Some,
{
    lemma_free_is_found(before.cell(cur).res, 0, i);
}

proof fn lemma_free_is_found(res: Seq<ResSlot>, from: int, i: int)
    requires
        0 <= from <= i < res.len(),
        !res[i].in_use,
    ensures
        free_from(res, from) is Some,
    decreases i - from,
{
    if from < i && res[from].in_use {
        lemma_free_is_found(res, from + 1, i);
    }
}

} // verus!
