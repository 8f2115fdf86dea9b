//! How a CPU works on an open round: it claims a batch of vcores, runs them, and
//! claims again until nothing is left.

use vstd::prelude::*;
use crate::kernel::cells;
use crate::kernel::cells::{CellTable, Vcore, MAX_CPUS, MAX_VCORES};
use crate::kernel::memory::MAX_CELLS;
use crate::kernel::placement;
use crate::kernel::placement::{Round, TierSuits, CLAIM_BATCH, CLAIM_BATCH_HYBRID, MAX_PLACED_CELLS};

verus! {

/// A vcore that a CPU has claimed.
#[derive(Copy, Clone, PartialEq, Eq, Debug, Structural)]
pub struct Held {
    pub slot: usize,
    pub vid: usize,
    /// Whether the claim has already taken it to be run.
    pub marked: bool,
    /// Whether it is still to be run.
    pub live: bool,
}

/// The CPU that drains a round.
#[derive(Copy, Clone, PartialEq, Eq, Debug, Structural)]
pub struct Worker {
    pub cpu: usize,
    /// Its node, where the machine has more than one.
    pub node: Option<u8>,
    /// Whether the CPUs differ, and which work this one suits.
    pub hybrid: bool,
    pub tier: TierSuits,
}

/// Join a round.
pub fn join(r: &mut Round)
    requires
        old(r).busy < usize::MAX,
    ensures
        *final(r) == (Round { busy: (old(r).busy + 1) as usize, ..*old(r) }),
{
    r.busy = r.busy + 1;
}

/// Leave a round.
pub fn leave(r: &mut Round)
    requires
        old(r).busy > 0,
    ensures
        *final(r) == (Round { busy: (old(r).busy - 1) as usize, ..*old(r) }),
{
    r.busy = r.busy - 1;
}

/// Whether some slot can be claimed for the worker's tier.
pub open spec fn tier_has(r: &Round, w: Worker) -> bool {
    w.hybrid && exists|k: int| 0 <= k < r.count && #[trigger] placement::tier_hit(r, k, w.tier)
}

/// The group that the worker claims from first.
pub open spec fn first_group(r: &Round, w: Worker) -> int {
    if r.affinity {
        placement::home_group(w.node, r.groups())
    } else {
        0
    }
}

/// Whether the worker can claim nothing more.
pub open spec fn nothing_left(r: &Round, w: Worker) -> bool {
    !tier_has(r, w) && placement::pick_group(r, first_group(r, w), 0) is None
}

/// One claim: the first slot that suits the worker's tier, or else the next of the
/// groups. A claim for the tier takes its vcore to be run, and so does every claim of a
/// round in slices, whose vcores run side by side as soon as one of them does. A vcore
/// that another CPU has taken in the meantime is not run again.
pub open spec fn claimed_one(before: &Round, after: &Round, w: Worker, h: Held) -> bool {
    let k = h.slot as int;
    &&& k < before.count
    &&& h.vid == before.cells@[k]
    &&& h.live == (tier_has(before, w) || !before.preempt || !before.run@[k])
    &&& h.marked == (tier_has(before, w) || (before.preempt && !before.run@[k]))
    &&& if tier_has(before, w) {
        &&& placement::tier_hit(before, k, w.tier)
        &&& forall|j: int| 0 <= j < k ==> !#[trigger] placement::tier_hit(before, j, w.tier)
        &&& placement::taken_by(before, after, k, w.cpu)
        &&& after.tier_claims == placement::next_usize(before.tier_claims)
        &&& after.steals == before.steals
    } else {
        let picked = placement::pick_group(before, first_group(before, w), 0);
        &&& picked is Some
        &&& k == before.next_slot(picked->0)
        &&& placement::claimed_from(
            before,
            &(Round { owner: before.owner, run: before.run, ..*after }),
            picked->0,
            w.node,
        )
        &&& after.owner@ == before.owner@.update(k, w.cpu)
        &&& after.run@ == (if before.preempt {
            before.run@.update(k, true)
        } else {
            before.run@
        })
    }
}

/// Make one claim, if there is anything left to claim.
pub fn claim_one(r: &mut Round, w: Worker) -> (h: Option<Held>)
    requires
        old(r).wf(),
    ensures
        final(r).wf(),
        match h {
            None => nothing_left(old(r), w) && *final(r) == *old(r),
            Some(h) => !nothing_left(old(r), w) && claimed_one(old(r), final(r), w, h),
        },
{
    match placement::claim_matching_tier(r, w.cpu, w.hybrid, w.tier) {
        Some(k) => {
            assert(tier_has(old(r), w));
            Some(Held { slot: k, vid: r.cells[k], marked: true, live: true })
        },
        None => {
            assert(!tier_has(old(r), w));
            match placement::claim_next(r, w.node) {
                None => None,
                Some(k) => {
                    let ghost mid = *r;
                    r.owner[k] = w.cpu;
                    if !r.preempt {
                        assert(Round { owner: old(r).owner, run: old(r).run, ..*r } == mid);
                        return Some(Held { slot: k, vid: r.cells[k], marked: false, live: true });
                    }
                    let free: bool = !r.run[k];
                    r.run[k] = true;
                    assert(Round { owner: old(r).owner, run: old(r).run, ..*r } == mid);
                    Some(Held { slot: k, vid: r.cells[k], marked: free, live: free })
                },
            }
        },
    }
}

/// A batch of claims, one after the other.
pub open spec fn claimed_all(before: &Round, after: &Round, w: Worker, batch: Seq<Held>) -> bool
    decreases batch.len(),
{
    if batch.len() == 0 {
        *after == *before
    } else {
        exists|mid: Round|
            claimed_all(before, &mid, w, batch.drop_last()) && #[trigger] claimed_one(
                &mid,
                after,
                w,
                batch.last(),
            )
    }
}

/// How many vcores a worker claims at once.
pub open spec fn batch_size(w: Worker) -> nat {
    if w.hybrid {
        CLAIM_BATCH_HYBRID as nat
    } else {
        CLAIM_BATCH as nat
    }
}

/// The vcores of a batch stand where the round says.
pub open spec fn batch_wf(r: &Round, batch: Seq<Held>) -> bool {
    forall|i: int|
        0 <= i < batch.len() ==> (#[trigger] batch[i]).slot < r.count && batch[i].vid
            == r.cells@[batch[i].slot as int]
}

/// Claim a full batch, or what is left.
pub fn claim_batch(r: &mut Round, w: Worker) -> (batch: Vec<Held>)
    requires
        old(r).wf(),
    ensures
        final(r).wf(),
        claimed_all(old(r), final(r), w, batch@),
        batch@.len() <= batch_size(w),
        batch@.len() == batch_size(w) || nothing_left(final(r), w),
        batch_wf(final(r), batch@),
        placement::same_but_marks(old(r), final(r)),
        final(r).steals == old(r).steals,
{
    let size: usize = if w.hybrid { CLAIM_BATCH_HYBRID } else { CLAIM_BATCH };
    let mut batch: Vec<Held> = Vec::new();
    while batch.len() < size
        invariant
            r.wf(),
            size == batch_size(w),
            batch@.len() <= size,
            claimed_all(old(r), r, w, batch@),
            batch_wf(r, batch@),
            placement::same_but_marks(old(r), r),
            r.steals == old(r).steals,
        decreases size - batch@.len(),
    {
        let ghost before = *r;
        let ghost batch0 = batch@;
        match claim_one(r, w) {
            None => {
                return batch;
            },
            Some(h) => {
                batch.push(h);
                proof {
                    assert(batch@.drop_last() =~= batch0);
                    assert(claimed_one(&before, r, w, batch@.last()));
                }
            },
        }
    }
    batch
}

/// Whether a held vcore can be started: only where no CPU has taken it yet or the claim
/// itself took it.
pub open spec fn startable(r: &Round, h: Held) -> bool {
    h.live && (h.marked || !r.run@[h.slot as int])
}

/// The first vcore of a batch that can be started, from `i` on.
pub open spec fn first_startable(r: &Round, batch: Seq<Held>, i: int) -> Option<int>
    decreases batch.len() - i,
{
    if i < 0 || i >= batch.len() {
        None
    } else if startable(r, batch[i]) {
        Some(i)
    } else {
        first_startable(r, batch, i + 1)
    }
}

/// The vcores before `i` are dropped from the batch: other CPUs run them.
pub open spec fn dropped_before(batch: Seq<Held>, i: int) -> Seq<Held> {
    Seq::new(
        batch.len(),
        |j: int|
            if j < i {
                Held { live: false, ..batch[j] }
            } else {
                batch[j]
            },
    )
}

/// What picking a vcore to start does to the marks.
pub open spec fn started(before: &Round, after: &Round, batch: Seq<Held>, pos: int) -> bool {
    &&& *after == (Round { run: after.run, ..*before })
    &&& after.run@ == (if batch[pos].marked {
        before.run@
    } else {
        before.run@.update(batch[pos].slot as int, true)
    })
}

/// Pick the vcore of a batch to start next, and take it to be run.
pub fn start_next(r: &mut Round, batch: &mut Vec<Held>) -> (pos: Option<usize>)
    requires
        old(r).wf(),
        batch_wf(old(r), old(batch)@),
    ensures
        final(r).wf(),
        batch_wf(final(r), final(batch)@),
        match first_startable(old(r), old(batch)@, 0) {
            None => {
                &&& pos is None
                &&& *final(r) == *old(r)
                &&& final(batch)@ == dropped_before(old(batch)@, old(batch)@.len() as int)
            },
            Some(i) => {
                &&& 0 <= i < old(batch)@.len()
                &&& pos is Some && pos->0 == i
                &&& startable(old(r), old(batch)@[i])
                &&& final(batch)@ == dropped_before(old(batch)@, i)
                &&& started(old(r), final(r), final(batch)@, i)
            },
        },
{
    let mut i: usize = 0;
    while i < batch.len()
        invariant
            *r == *old(r),
            r.wf(),
            i <= batch@.len(),
            batch@.len() == old(batch)@.len(),
            batch@ =~= dropped_before(old(batch)@, i as int),
            batch_wf(r, old(batch)@),
            first_startable(r, old(batch)@, 0) == first_startable(r, old(batch)@, i as int),
        decreases batch@.len() - i,
    {
        assert(batch@[i as int] == old(batch)@[i as int]);
        assert(old(batch)@[i as int].slot < r.count);
        let h: Held = batch[i];
        if h.live && (h.marked || !r.run[h.slot]) {
            proof {
                assert forall|j: int| 0 <= j < batch@.len() implies (#[trigger] batch@[j]).slot
                    < r.count && batch@[j].vid == r.cells@[batch@[j].slot as int] by {
                    assert(old(batch)@[j].slot < r.count);
                }
            }
            if !h.marked {
                r.run[h.slot] = true;
            }
            return Some(i);
        }
        let ghost batch0 = batch@;
        batch[i] = Held { live: false, ..h };
        assert(batch@ =~= dropped_before(old(batch)@, i + 1));
        i = i + 1;
    }
    proof {
        assert forall|j: int| 0 <= j < batch@.len() implies (#[trigger] batch@[j]).slot < r.count
            && batch@[j].vid == r.cells@[batch@[j].slot as int] by {
            assert(old(batch)@[j].slot < r.count);
        }
    }
    None
}

/// The vcore of a batch that an entity number belongs to, from `i` on.
pub open spec fn held_as(batch: Seq<Held>, vid: usize, i: int) -> Option<int>
    decreases batch.len() - i,
{
    if i < 0 || i >= batch.len() {
        None
    } else if batch[i].vid == vid && batch[i].live {
        Some(i)
    } else {
        held_as(batch, vid, i + 1)
    }
}

/// The CPU that a raw CPU number counts for.
pub open spec fn cpu_slot(raw: usize) -> int {
    if raw < MAX_CPUS {
        raw as int
    } else {
        0
    }
}

/// What the end of a vcore of the batch does to the round.
pub open spec fn finished(before: &Round, after: &Round, slot: int, code: u64, cpu: usize) -> bool {
    &&& after.code@ == before.code@.update(slot, code)
    &&& after.ran_on@ == before.ran_on@.update(slot, cpu)
    &&& after.taken@ == before.taken@.update(
        cpu_slot(cpu),
        placement::next_usize(before.taken@[cpu_slot(cpu)]),
    )
    &&& after.done == placement::next_usize(before.done)
    &&& *after == (Round {
        code: after.code,
        ran_on: after.ran_on,
        taken: after.taken,
        done: after.done,
        ..*before
    })
}

/// What the end of an entity does to the round and to the batch.
pub open spec fn finish_done(
    before: &Round,
    after: &Round,
    batch: Seq<Held>,
    rest: Seq<Held>,
    exited: usize,
    code: u64,
    cpu: usize,
    found: bool,
) -> bool {
    match held_as(batch, exited, 0) {
        None => !found && *after == *before && rest.len() == 0,
        Some(i) => {
            &&& found
            &&& 0 <= i < batch.len()
            &&& rest == batch.update(i, Held { live: false, ..batch[i] })
            &&& finished(before, after, batch[i].slot as int, code, cpu)
        },
    }
}

/// Record that a vcore has ended. The entity that ended need not be the one that was
/// started; where it is not in the batch, nothing is recorded and the rest of the batch is
/// given up.
pub fn finish_one(r: &mut Round, batch: &mut Vec<Held>, exited: usize, code: u64, cpu: usize) -> (found: bool)
    requires
        old(r).wf(),
        batch_wf(old(r), old(batch)@),
    ensures
        final(r).wf(),
        batch_wf(final(r), final(batch)@),
        finish_done(old(r), final(r), old(batch)@, final(batch)@, exited, code, cpu, found),
{
    let mut i: usize = 0;
    while i < batch.len()
        invariant
            *r == *old(r),
            r.wf(),
            *batch == *old(batch),
            batch_wf(r, batch@),
            i <= batch@.len(),
            held_as(batch@, exited, 0) == held_as(batch@, exited, i as int),
        decreases batch@.len() - i,
    {
        assert(batch@[i as int].slot < r.count);
        let h: Held = batch[i];
        if h.vid == exited && h.live {
            r.code[h.slot] = code;
            r.ran_on[h.slot] = cpu;
            let c: usize = if cpu < MAX_CPUS { cpu } else { 0 };
            let t: usize = r.taken[c];
            r.taken[c] = t.wrapping_add(1);
            r.done = r.done.wrapping_add(1);
            batch[i] = Held { live: false, ..h };
            proof {
                assert forall|j: int| 0 <= j < batch@.len() implies (#[trigger] batch@[j]).slot
                    < r.count && batch@[j].vid == r.cells@[batch@[j].slot as int] by {
                    assert(old(batch)@[j].slot < old(r).count);
                }
            }
            return true;
        }
        i = i + 1;
    }
    *batch = Vec::new();
    false
}

/// A claim counted: by a CPU of the cell's own node, or by another. Where the machine
/// has one node, nothing is counted.
pub open spec fn claim_counted(r: Round, node: Option<u8>, cell_node: u8) -> Round {
    match node {
        None => r,
        Some(mine) => if mine == cell_node {
            Round { claims_local: placement::next_usize(r.claims_local), ..r }
        } else {
            Round { claims_remote: placement::next_usize(r.claims_remote), ..r }
        },
    }
}

/// Count a claim by a CPU of a node on a vcore of a cell of a node.
pub fn count_claim(r: &mut Round, node: Option<u8>, cell_node: u8)
    ensures
        *final(r) == claim_counted(*old(r), node, cell_node),
{
    match node {
        None => {},
        Some(mine) => {
            if mine == cell_node {
                r.claims_local = r.claims_local.wrapping_add(1);
            } else {
                r.claims_remote = r.claims_remote.wrapping_add(1);
            }
        },
    }
}

/// The vcores among the first `n` of a batch that are given to the CPU: those still to
/// be run.
pub open spec fn in_live_vids(batch: Seq<Held>, n: int, e: int) -> bool {
    exists|i: int| 0 <= i < n && (#[trigger] batch[i]).live && batch[i].vid == e
}

/// Every vcore that `given` picks belongs to a CPU, and the others are as they were.
pub open spec fn given_to(
    before: Seq<Vcore>,
    after: Seq<Vcore>,
    given: spec_fn(int) -> bool,
    cpu: usize,
) -> bool {
    &&& after.len() == before.len()
    &&& forall|e: int|
        0 <= e < before.len() ==> #[trigger] after[e] == (if given(e) {
            Vcore { cpu, ..before[e] }
        } else {
            before[e]
        })
}

/// Prepare a vcore of the batch to be run: the claim is counted, and the vcore is given
/// to the CPU, in slices along with every other vcore of the batch that is still to be
/// run. The result is the cell and the vcore to run.
pub fn begin_run(
    r: &mut Round,
    t: &mut CellTable,
    batch: &Vec<Held>,
    pos: usize,
    w: Worker,
) -> (run: (usize, usize))
    requires
        old(t).wf(),
        pos < batch@.len(),
        batch@[pos as int].vid < MAX_CELLS * MAX_VCORES,
    ensures
        run.0 < MAX_CELLS,
        run.1 < MAX_VCORES,
        cells::entity(run.0 as int, run.1 as int) == batch@[pos as int].vid,
        *final(r) == claim_counted(*old(r), w.node, old(t).cells@[run.0 as int].node),
        final(t).wf(),
        cells::only_vcores(old(t), final(t)),
        given_to(
            old(t).vcores@,
            final(t).vcores@,
            |e: int|
                e == batch@[pos as int].vid || (old(r).preempt && in_live_vids(
                    batch@,
                    batch@.len() as int,
                    e,
                )),
            w.cpu,
        ),
{
    let vid: usize = batch[pos].vid;
    let run: (usize, usize) = match cells::entity_pair(vid) {
        Some(p) => p,
        None => (0, 0),
    };
    let node: u8 = cells::cell_node(t, run.0);
    count_claim(r, w.node, node);
    cells::claim_vcore(t, run.0, run.1, w.cpu);
    if r.preempt {
        let mut i: usize = 0;
        while i < batch.len()
            invariant
                i <= batch@.len(),
                t.wf(),
                cells::only_vcores(old(t), t),
                given_to(
                    old(t).vcores@,
                    t.vcores@,
                    |e: int| e == vid || in_live_vids(batch@, i as int, e),
                    w.cpu,
                ),
            decreases batch@.len() - i,
        {
            let ghost before = t.vcores@;
            let h: Held = batch[i];
            if h.live {
                match cells::entity_pair(h.vid) {
                    Some((c, v)) => cells::claim_vcore(t, c, v, w.cpu),
                    None => {},
                }
            }
            proof {
                assert forall|e: int| 0 <= e < old(t).vcores@.len() implies #[trigger] t.vcores@[e]
                    == (if e == vid || in_live_vids(batch@, i + 1, e) {
                    Vcore { cpu: w.cpu, ..old(t).vcores@[e] }
                } else {
                    old(t).vcores@[e]
                }) by {
                    assert(before[e] == (if e == vid || in_live_vids(batch@, i as int, e) {
                        Vcore { cpu: w.cpu, ..old(t).vcores@[e] }
                    } else {
                        old(t).vcores@[e]
                    }));
                    if in_live_vids(batch@, i as int, e) {
                        let j = choose|j: int|
                            0 <= j < i && (#[trigger] batch@[j]).live && batch@[j].vid == e;
                        assert(batch@[j].live);
                        assert(in_live_vids(batch@, i + 1, e));
                    }
                    assert(batch@[i as int] == h);
                }
            }
            i = i + 1;
        }
    }
    run
}

/// What a worker does next.
#[derive(Copy, Clone, PartialEq, Eq, Debug, Structural)]
pub enum DrainStep {
    /// Run this vcore of the batch, and report how it ended.
    Run(usize),
    /// A new batch has been claimed.
    Claimed,
    /// Nothing is left: leave the round.
    Leave,
}

/// A slot that was stolen from the CPU that had claimed it.
pub open spec fn stolen(before: &Round, after: &Round, w: Worker, h: Held) -> bool {
    let k = h.slot as int;
    &&& k < before.count
    &&& h.vid == before.cells@[k]
    &&& h.live
    &&& h.marked
    &&& placement::steal_hit(before, k, w.cpu)
    &&& forall|j: int| 0 <= j < k ==> !#[trigger] placement::steal_hit(before, j, w.cpu)
    &&& placement::taken_by(before, after, k, w.cpu)
    &&& after.steals == placement::next_usize(before.steals)
    &&& after.tier_claims == before.tier_claims
}

/// What the next step of a worker does to the round and to its batch.
pub open spec fn drain_done(
    before: &Round,
    after: &Round,
    batch: Seq<Held>,
    rest: Seq<Held>,
    w: Worker,
    step: DrainStep,
) -> bool {
    match step {
        DrainStep::Run(pos) => {
            &&& first_startable(before, batch, 0) == Some(pos as int)
            &&& pos < batch.len()
            &&& startable(before, batch[pos as int])
            &&& rest == dropped_before(batch, pos as int)
            &&& started(before, after, rest, pos as int)
        },
        DrainStep::Claimed => {
            &&& first_startable(before, batch, 0) is None
            &&& rest.len() > 0
            &&& if nothing_left(before, w) {
                rest.len() == 1 && stolen(before, after, w, rest[0])
            } else {
                &&& claimed_all(before, after, w, rest)
                &&& rest.len() <= batch_size(w)
                &&& rest.len() == batch_size(w) || nothing_left(after, w)
            }
        },
        DrainStep::Leave => {
            &&& first_startable(before, batch, 0) is None
            &&& nothing_left(before, w)
            &&& forall|k: int|
                0 <= k < before.count ==> !#[trigger] placement::steal_hit(before, k, w.cpu)
            &&& *after == *before
            &&& rest.len() == 0
        },
    }
}

/// Decide the next step of a worker on a round: start a vcore of its batch, or claim
/// a new batch, or steal one vcore where nothing can be claimed, or leave.
pub fn drain_cells(r: &mut Round, batch: &mut Vec<Held>, w: Worker) -> (step: DrainStep)
    requires
        old(r).wf(),
        batch_wf(old(r), old(batch)@),
    ensures
        final(r).wf(),
        batch_wf(final(r), final(batch)@),
        drain_done(old(r), final(r), old(batch)@, final(batch)@, w, step),
{
    match start_next(r, batch) {
        Some(pos) => {
            return DrainStep::Run(pos);
        },
        None => {},
    }
    let claimed: Vec<Held> = claim_batch(r, w);
    if claimed.len() > 0 {
        proof {
            assert(!nothing_left(old(r), w)) by {
                lemma_claims_need_something(old(r), r, w, claimed@);
            }
        }
        *batch = claimed;
        return DrainStep::Claimed;
    }
    match placement::steal(r, w.cpu) {
        Some(k) => {
            r.steals = r.steals.wrapping_add(1);
            let mut taken: Vec<Held> = Vec::new();
            taken.push(Held { slot: k, vid: r.cells[k], marked: true, live: true });
            *batch = taken;
            DrainStep::Claimed
        },
        None => {
            *batch = Vec::new();
            DrainStep::Leave
        },
    }
}

/// A batch that is not empty shows that there was something to claim.
proof fn lemma_claims_need_something(before: &Round, after: &Round, w: Worker, batch: Seq<Held>)
    requires
        claimed_all(before, after, w, batch),
        batch.len() > 0,
    ensures
        !nothing_left(before, w),
    decreases batch.len(),
{
    let mid = choose|mid: Round|
        claimed_all(before, &mid, w, batch.drop_last()) && #[trigger] claimed_one(
            &mid,
            after,
            w,
            batch.last(),
        );
    if batch.len() > 1 {
        lemma_claims_need_something(before, &mid, w, batch.drop_last());
    }
}

/// A vcore is taken to be run at most once in a round: whoever starts one that its claim
/// did not take finds it not yet taken and leaves it taken.
pub proof fn law_started_once(before: &Round, after: &Round, batch: Seq<Held>, pos: int)
    requires
        before.wf(),
        batch_wf(before, batch),
        0 <= pos < batch.len(),
        startable(before, batch[pos]),
        !batch[pos].marked,
        started(before, after, batch, pos),
    ensures
        !before.run@[batch[pos].slot as int],
        after.run@[batch[pos].slot as int],
        forall|k: int| 0 <= k < before.run@.len() && before.run@[k] ==> #[trigger] after.run@[k],
{
}

/// A claim for the tier and a theft take the vcore that they hand out.
pub proof fn law_marked_claims_take(before: &Round, after: &Round, k: int, cpu: usize)
    requires
        before.wf(),
        0 <= k < before.count,
        placement::taken_by(before, after, k, cpu),
    ensures
        !before.run@[k],
        after.run@[k],
        forall|j: int| 0 <= j < before.run@.len() && before.run@[j] ==> #[trigger] after.run@[j],
{
}

/// The end of a vcore is booked where it was claimed: its own slot gets the code and the
/// CPU, one more is done, the CPU has run one more, and no other slot changes. An end that
/// no claim is for books nothing.
pub proof fn law_end_is_booked_in_its_slot(
    before: &Round,
    after: &Round,
    batch: Seq<Held>,
    rest: Seq<Held>,
    exited: usize,
    code: u64,
    cpu: usize,
    found: bool,
    k: int,
)
    requires
        before.wf(),
        batch_wf(before, batch),
        finish_done(before, after, batch, rest, exited, code, cpu, found),
        0 <= k < MAX_PLACED_CELLS,
        before.done < usize::MAX,
    ensures
        found ==> exists|i: int|
            0 <= i < batch.len() && (#[trigger] batch[i]).live && batch[i].vid == exited && {
                &&& after.code@[batch[i].slot as int] == code
                &&& after.ran_on@[batch[i].slot as int] == cpu
                &&& before.cells@[batch[i].slot as int] == exited
                &&& !rest[i].live
                &&& k != batch[i].slot ==> after.code@[k] == before.code@[k] && after.ran_on@[k]
                    == before.ran_on@[k]
            },
        found ==> after.done == before.done + 1,
        !found ==> *after == *before,
        found <==> exists|i: int| 0 <= i < batch.len() && (#[trigger] batch[i]).live && batch[i].vid == exited,
        after.cells == before.cells,
        after.owner == before.owner,
        after.run == before.run,
{
    lemma_held_as_found(batch, exited, 0);
    if let Some(i) = held_as(batch, exited, 0) {
        assert(batch[i].live && batch[i].vid == exited);
        assert(batch[i].slot < before.count);
    }
}

proof fn lemma_held_as_found(batch: Seq<Held>, vid: usize, i: int)
    requires
        0 <= i,
    ensures
        held_as(batch, vid, i) matches Some(k) ==> i <= k < batch.len() && batch[k].live && batch[k].vid
            == vid,
        held_as(batch, vid, i) is None ==> forall|k: int|
            i <= k < batch.len() ==> !((#[trigger] batch[k]).live && batch[k].vid == vid),
    decreases batch.len() - i,
{
    if i < batch.len() && !(batch[i].vid == vid && batch[i].live) {
        lemma_held_as_found(batch, vid, i + 1);
    }
}

/// A CPU starts the first claim that it may, and never one that runs already: what it
/// starts is live and was marked for it or has not been run, every claim before it is of
/// no use any more, and from then on its slot counts as run.
pub proof fn law_first_startable_is_started(
    before: &Round,
    after: &Round,
    batch: Seq<Held>,
    rest: Seq<Held>,
    w: Worker,
    pos: usize,
    j: int,
)
    requires
        before.wf(),
        batch_wf(before, batch),
        drain_done(before, after, batch, rest, w, DrainStep::Run(pos)),
        0 <= j < batch.len(),
    ensures
        pos < batch.len(),
        batch[pos as int].live,
        !batch[pos as int].marked ==> !before.run@[batch[pos as int].slot as int],
        !batch[pos as int].marked ==> after.run@[batch[pos as int].slot as int],
        j < pos ==> !batch[j].live || (!batch[j].marked && before.run@[batch[j].slot as int]),
        j < pos ==> !rest[j].live,
        j >= pos ==> rest[j] == batch[j],
        rest.len() == batch.len(),
        after.code == before.code,
        after.done == before.done,
{
    lemma_first_startable_is_first(before, batch, 0);
    assert(batch[pos as int].slot < before.count);
}

proof fn lemma_first_startable_is_first(r: &Round, batch: Seq<Held>, i: int)
    requires
        0 <= i,
    ensures
        first_startable(r, batch, i) matches Some(k) ==> i <= k < batch.len() && startable(r, batch[k])
            && forall|j: int| i <= j < k ==> !startable(r, #[trigger] batch[j]),
    decreases batch.len() - i,
{
    if i < batch.len() && !startable(r, batch[i]) {
        lemma_first_startable_is_first(r, batch, i + 1);
    }
}

/// A CPU leaves a round only where nothing is left for it: no claim of its own that can be
/// started, no slot of any group that is still to be claimed, and none that another CPU
/// claimed and has not started.
pub proof fn law_nobody_leaves_work_behind(
    before: &Round,
    after: &Round,
    batch: Seq<Held>,
    rest: Seq<Held>,
    w: Worker,
    k: int,
)
    requires
        before.wf(),
        drain_done(before, after, batch, rest, w, DrainStep::Leave),
        0 <= k < before.count,
    ensures
        !before.run@[k] ==> before.owner@[k] == placement::NOBODY || before.owner@[k] == w.cpu,
        *after == *before,
        rest.len() == 0,
{
    assert(!placement::steal_hit(before, k, w.cpu));
}

/// What is stolen was another CPU's and had not been started; it is this CPU's from then
/// on, counts as run, and no slot before it could have been stolen.
pub proof fn law_only_unstarted_claims_are_stolen(before: &Round, after: &Round, w: Worker, h: Held, j: int)
    requires
        before.wf(),
        stolen(before, after, w, h),
        0 <= j < before.count,
    ensures
        h.slot < before.count,
        h.vid == before.cells@[h.slot as int],
        h.live,
        before.owner@[h.slot as int] != w.cpu,
        before.owner@[h.slot as int] != placement::NOBODY,
        !before.run@[h.slot as int],
        after.run@[h.slot as int],
        after.owner@[h.slot as int] == w.cpu,
        j != h.slot ==> after.owner@[j] == before.owner@[j] && after.run@[j] == before.run@[j],
        j < h.slot ==> before.run@[j] || before.owner@[j] == w.cpu || before.owner@[j] == placement::NOBODY,
{
    if j < h.slot {
        assert(!placement::steal_hit(before, j, w.cpu));
    }
}

/// A claim is local where the CPU's node is the cell's, remote where it is another, and
/// neither on a machine without nodes.
pub proof fn law_claims_are_counted_by_node(r: Round, mine: u8, cell_node: u8)
    requires
        r.claims_local < usize::MAX,
        r.claims_remote < usize::MAX,
    ensures
        claim_counted(r, None, cell_node) == r,
        claim_counted(r, Some(mine), cell_node).claims_local == r.claims_local + (if mine == cell_node {
            1int
        } else {
            0
        }),
        claim_counted(r, Some(mine), cell_node).claims_remote == r.claims_remote + (if mine != cell_node {
            1int
        } else {
            0
        }),
{
}

/// The vcores of a batch that is still to be run are given to the CPU that claimed it, and no
/// other vcore changes hands.
pub proof fn law_only_live_claims_are_given(
    before: Seq<Vcore>,
    after: Seq<Vcore>,
    batch: Seq<Held>,
    n: int,
    cpu: usize,
    e: int,
)
    requires
        0 <= n <= batch.len(),
        given_to(before, after, |x: int| in_live_vids(batch, n, x), cpu),
        0 <= e < before.len(),
    ensures
        (exists|i: int| 0 <= i < n && (#[trigger] batch[i]).live && batch[i].vid == e) ==> after[e].cpu == cpu
            && after[e].outcome == before[e].outcome && after[e].frame == before[e].frame,
        (forall|i: int| 0 <= i < n && (#[trigger] batch[i]).live ==> batch[i].vid != e) ==> after[e] == before[e],
{
}

/// A CPU claims two at a time, and one at a time on a machine with CPUs of several kinds.
pub proof fn law_claims_come_in_batches(w: Worker)
    ensures
        w.hybrid ==> batch_size(w) == 1,
        !w.hybrid ==> batch_size(w) == 2,
{
}

} // verus!
