//! Several CPUs on one round: what holds of the round whichever of them steps next.

use vstd::prelude::*;
use crate::kernel::cells::MAX_CPUS;
use crate::kernel::drain::{batch_wf, claimed_all, claimed_one, cpu_slot, drain_done, dropped_before, finish_done, first_startable, held_as, nothing_left, startable, DrainStep, Held, Worker};
use crate::kernel::placement::{same_but_marks, Round, MAX_PLACED_CELLS, NOBODY};
use crate::kernel::rounds::untouched;
use crate::kernel::work::sum_counts;

verus! {

/// A round and the CPUs on it: what each holds, and where in what it holds the vcore is
/// that it runs.
pub struct Floor {
    pub round: Round,
    pub batches: Seq<Seq<Held>>,
    pub running: Seq<Option<int>>,
}

/// What one CPU does.
pub enum Move {
    /// It decides its next step.
    Decide(DrainStep),
    /// An entity has come to its end on it, with this code: the vcore that it was told to
    /// run, or in slices any of those that it holds.
    End(usize, u64),
    /// It counts a claim, or joins or leaves.
    Aside,
}

/// What CPU `c` does, and what becomes of the round.
pub open spec fn moved(before: &Floor, after: &Floor, w: Seq<Worker>, c: int, m: Move) -> bool {
    &&& 0 <= c < w.len()
    &&& after.round.wf()
    &&& match m {
        Move::Decide(step) => {
            &&& before.running[c] is None
            &&& batch_wf(&after.round, after.batches[c])
            &&& drain_done(
                &before.round,
                &after.round,
                before.batches[c],
                after.batches[c],
                w[c],
                step,
            )
            &&& after.batches == before.batches.update(c, after.batches[c])
            &&& after.running == before.running.update(
                c,
                match step {
                    DrainStep::Run(pos) => Some(pos as int),
                    _ => None,
                },
            )
        },
        Move::End(vid, code) => {
            &&& before.running[c] is Some
            &&& before.round.preempt || vid == before.batches[c][before.running[c]->0].vid
            &&& finish_done(
                &before.round,
                &after.round,
                before.batches[c],
                after.batches[c],
                vid,
                code,
                w[c].cpu,
                true,
            )
            &&& after.batches == before.batches.update(c, after.batches[c])
            &&& after.running == before.running.update(c, None)
        },
        Move::Aside => {
            &&& after.round == (Round {
                claims_local: after.round.claims_local,
                claims_remote: after.round.claims_remote,
                busy: after.round.busy,
                ..before.round
            })
            &&& after.batches == before.batches
            &&& after.running == before.running
        },
    }
}

/// Whether the vcore of slot `k` has come to its end.
pub open spec fn is_over(r: &Round, k: int) -> bool {
    r.ran_on@[k] != NOBODY
}

/// How many of the first `n` have.
pub open spec fn over_among(r: &Round, n: int) -> nat
    decreases n,
{
    if n <= 0 {
        0
    } else {
        over_among(r, n - 1) + if is_over(r, n - 1) {
            1nat
        } else {
            0nat
        }
    }
}

/// CPU `c` has taken the vcore at `i` of what it holds: it runs it, or will, and no other
/// may.
pub open spec fn holds(f: &Floor, c: int, i: int) -> bool {
    &&& 0 <= c < f.batches.len()
    &&& 0 <= i < f.batches[c].len()
    &&& f.batches[c][i].live
    &&& f.batches[c][i].marked || f.running[c] == Some(i)
}

/// The slot of the vcore at `i` of what CPU `c` holds.
pub open spec fn slot_at(f: &Floor, c: int, i: int) -> int {
    f.batches[c][i].slot as int
}

/// Every vcore of a batch that is still to be run was taken by its claim.
pub open spec fn all_taken(batch: Seq<Held>) -> bool {
    forall|i: int| 0 <= i < batch.len() && (#[trigger] batch[i]).live ==> batch[i].marked
}

/// What is so at every time: every vcore that is taken is marked, is not over, and is
/// taken by one CPU; what is over stays marked; and the counts are the counts of what is
/// over.
pub open spec fn in_order(f: &Floor, w: Seq<Worker>) -> bool {
    &&& f.round.wf()
    &&& f.batches.len() == w.len()
    &&& f.running.len() == w.len()
    &&& forall|c: int| 0 <= c < w.len() ==> (#[trigger] w[c]).cpu != NOBODY
    &&& forall|c: int| 0 <= c < w.len() ==> batch_wf(&f.round, #[trigger] f.batches[c])
    &&& f.round.preempt ==> forall|c: int| 0 <= c < w.len() ==> all_taken(#[trigger] f.batches[c])
    &&& forall|c: int|
        0 <= c < w.len() ==> (#[trigger] f.running[c] matches Some(i) ==> {
            &&& holds(f, c, i)
            &&& forall|j: int| 0 <= j < i ==> !(#[trigger] f.batches[c][j]).live
        })
    &&& forall|c: int, i: int| #[trigger]
        holds(f, c, i) ==> f.round.run@[slot_at(f, c, i)] && !is_over(&f.round, slot_at(f, c, i))
    &&& forall|c: int, i: int, d: int, j: int| #[trigger]
        holds(f, c, i) && #[trigger] holds(f, d, j) && slot_at(f, c, i) == slot_at(f, d, j) ==> c
            == d && i == j
    &&& forall|k: int|
        0 <= k < f.round.count && is_over(&f.round, k) ==> #[trigger] f.round.run@[k]
    &&& f.round.done == over_among(&f.round, f.round.count as int)
    &&& sum_counts(f.round.taken@, MAX_CPUS as int) == f.round.done
}

/// A round that was just opened, with nobody on it.
pub open spec fn at_rest(f: &Floor, w: Seq<Worker>) -> bool {
    &&& f.round.wf()
    &&& untouched(&f.round)
    &&& f.batches == Seq::new(w.len(), |c: int| Seq::<Held>::empty())
    &&& f.running == Seq::new(w.len(), |c: int| None::<int>)
    &&& forall|c: int| 0 <= c < w.len() ==> (#[trigger] w[c]).cpu != NOBODY
}

proof fn lemma_none_over(r: &Round, n: int)
    requires
        0 <= n <= MAX_PLACED_CELLS,
        untouched(r),
    ensures
        over_among(r, n) == 0,
    decreases n,
{
    if n > 0 {
        lemma_none_over(r, n - 1);
        assert(r.ran_on@[n - 1] == NOBODY);
    }
}

proof fn lemma_none_counted(s: Seq<usize>, n: int)
    requires
        0 <= n <= s.len(),
        forall|i: int| 0 <= i < n ==> #[trigger] s[i] == 0,
    ensures
        sum_counts(s, n) == 0,
    decreases n,
{
    if n > 0 {
        lemma_none_counted(s, n - 1);
    }
}

proof fn lemma_same_over(a: &Round, b: &Round, n: int)
    requires
        a.ran_on@ == b.ran_on@,
    ensures
        over_among(a, n) == over_among(b, n),
    decreases n,
{
    if n > 0 {
        lemma_same_over(a, b, n - 1);
    }
}

/// One more vcore over is one more among those that hold it.
proof fn lemma_one_more_over(a: &Round, b: &Round, k: int, cpu: usize, n: int)
    requires
        0 <= k < a.ran_on@.len(),
        !is_over(a, k),
        cpu != NOBODY,
        b.ran_on@ == a.ran_on@.update(k, cpu),
        n <= a.ran_on@.len(),
    ensures
        over_among(b, n) == over_among(a, n) + if k < n {
            1nat
        } else {
            0nat
        },
    decreases n,
{
    if n > 0 {
        lemma_one_more_over(a, b, k, cpu, n - 1);
    }
}

/// Not all of those that hold one that is not over are over.
proof fn lemma_over_bounded(r: &Round, n: int)
    requires
        0 <= n,
    ensures
        over_among(r, n) <= n,
        over_among(r, n) == n ==> forall|k: int| 0 <= k < n ==> #[trigger] is_over(r, k),
    decreases n,
{
    if n > 0 {
        lemma_over_bounded(r, n - 1);
        assert forall|k: int| over_among(r, n) == n && 0 <= k < n implies #[trigger] is_over(r, k) by {
            if k < n - 1 {
                assert(over_among(r, n - 1) == n - 1);
            }
        }
    }
}

proof fn lemma_one_more_counted(s: Seq<usize>, i: int, n: int)
    requires
        0 <= i < s.len(),
        n <= s.len(),
        s[i] < usize::MAX,
    ensures
        sum_counts(s.update(i, (s[i] + 1) as usize), n) == sum_counts(s, n) + if i < n {
            1nat
        } else {
            0nat
        },
    decreases n,
{
    if n > 0 {
        lemma_one_more_counted(s, i, n - 1);
    }
}

proof fn lemma_count_bounds_each(s: Seq<usize>, i: int, n: int)
    requires
        0 <= i < n <= s.len(),
    ensures
        s[i] <= sum_counts(s, n),
    decreases n,
{
    if i < n - 1 {
        lemma_count_bounds_each(s, i, n - 1);
    }
}

/// What a batch of claims does to the marks: those that the claims took are marked now
/// and were not, no two of them are one, and everything else that this depends on is as
/// it was.
proof fn lemma_claims_mark(before: &Round, after: &Round, w: Worker, batch: Seq<Held>)
    requires
        before.wf(),
        claimed_all(before, after, w, batch),
    ensures
        same_but_marks(before, after),
        after.run@.len() == before.run@.len(),
        forall|k: int| 0 <= k < before.run@.len() && before.run@[k] ==> #[trigger] after.run@[k],
        forall|i: int|
            0 <= i < batch.len() ==> (#[trigger] batch[i]).slot < before.count && (
            batch[i].marked ==> !before.run@[batch[i].slot as int]
                && after.run@[batch[i].slot as int]),
        before.preempt ==> all_taken(batch),
        forall|i: int, j: int|
            0 <= i < j < batch.len() && (#[trigger] batch[i]).marked && (
            #[trigger] batch[j]).marked ==> batch[i].slot != batch[j].slot,
    decreases batch.len(),
{
    if batch.len() > 0 {
        let first = batch.drop_last();
        let mid = choose|mid: Round|
            claimed_all(before, &mid, w, first) && #[trigger] claimed_one(
                &mid,
                after,
                w,
                batch.last(),
            );
        lemma_claims_mark(before, &mid, w, first);
        let k = batch.last().slot as int;
        assert(after.run@ == mid.run@ || after.run@ == mid.run@.update(k, true));
        assert forall|i: int| 0 <= i < batch.len() implies (#[trigger] batch[i]).slot < before.count
            && (batch[i].marked ==> !before.run@[batch[i].slot as int]
            && after.run@[batch[i].slot as int]) by {
            if i < first.len() {
                assert(first[i] == batch[i]);
            }
        }
        assert forall|i: int|
            before.preempt && 0 <= i < batch.len() && (#[trigger] batch[i]).live implies batch[i].marked by {
            if i < first.len() {
                assert(first[i] == batch[i]);
            }
        }
        assert forall|i: int, j: int|
            0 <= i < j < batch.len() && (#[trigger] batch[i]).marked && (
            #[trigger] batch[j]).marked implies batch[i].slot != batch[j].slot by {
            assert(first[i] == batch[i]);
            if j < first.len() {
                assert(first[j] == batch[j]);
            }
        }
    }
}

/// Nothing of a batch that has nothing to start is taken.
proof fn lemma_nothing_taken(r: &Round, batch: Seq<Held>, i: int)
    requires
        0 <= i,
    ensures
        match first_startable(r, batch, i) {
            None => forall|j: int| i <= j < batch.len() ==> !startable(r, #[trigger] batch[j]),
            Some(p) => i <= p < batch.len() && startable(r, batch[p]) && forall|j: int|
                i <= j < p ==> !startable(r, #[trigger] batch[j]),
        },
    decreases batch.len() - i,
{
    if i < batch.len() && !startable(r, batch[i]) {
        lemma_nothing_taken(r, batch, i + 1);
    }
}

/// What is found by a number is still to be run and goes by it.
proof fn lemma_found(batch: Seq<Held>, vid: usize, i: int)
    requires
        0 <= i,
        held_as(batch, vid, i) is Some,
    ensures
        i <= held_as(batch, vid, i)->0 < batch.len(),
        batch[held_as(batch, vid, i)->0].live,
        batch[held_as(batch, vid, i)->0].vid == vid,
    decreases batch.len() - i,
{
    if !(batch[i].vid == vid && batch[i].live) {
        lemma_found(batch, vid, i + 1);
    }
}

/// The first live vcore that goes by a number is found.
proof fn lemma_held_as(batch: Seq<Held>, p: int, i: int)
    requires
        0 <= i <= p < batch.len(),
        batch[p].live,
        forall|j: int| 0 <= j < p ==> !(#[trigger] batch[j]).live,
    ensures
        held_as(batch, batch[p].vid, i) == Some(p),
    decreases p - i,
{
    if i < p {
        assert(!batch[i].live);
        lemma_held_as(batch, p, i + 1);
    }
}

/// A round that was just opened is in order.
pub proof fn law_round_opens_in_order(f: &Floor, w: Seq<Worker>)
    requires
        at_rest(f, w),
    ensures
        in_order(f, w),
{
    lemma_none_over(&f.round, f.round.count as int);
    lemma_none_counted(f.round.taken@, MAX_CPUS as int);
    assert forall|c: int, i: int| !#[trigger] holds(f, c, i) by {
        if 0 <= c < f.batches.len() {
            assert(f.batches[c].len() == 0);
        }
    }
    assert forall|k: int| 0 <= k < f.round.count implies !is_over(&f.round, k) by {
        assert(f.round.ran_on@[k] == NOBODY);
    }
}

/// Whatever a CPU does keeps the round in order.
#[verifier::rlimit(40)]
pub proof fn law_moves_keep_order(before: &Floor, after: &Floor, w: Seq<Worker>, c: int, m: Move)
    requires
        in_order(before, w),
        moved(before, after, w, c, m),
    ensures
        in_order(after, w),
        after.round.count == before.round.count,
        after.round.preempt == before.round.preempt,
        forall|k: int|
            0 <= k < before.round.count && is_over(&before.round, k) ==> #[trigger] is_over(
                &after.round,
                k,
            ),
{
    match m {
        Move::Decide(step) => {
            lemma_decide_keeps_order(before, after, w, c, step);
        },
        Move::End(vid, code) => {
            lemma_end_keeps_order(before, after, w, c, vid, code);
        },
        Move::Aside => {
            lemma_same_over(&before.round, &after.round, before.round.count as int);
            assert forall|d: int, j: int| #[trigger] holds(after, d, j) implies holds(before, d, j) by {}
            assert forall|d: int| 0 <= d < w.len() implies batch_wf(
                &after.round,
                #[trigger] after.batches[d],
            ) by {
                assert(batch_wf(&before.round, before.batches[d]));
            }
            assert forall|d: int|
                0 <= d < w.len() && (#[trigger] after.running[d]) is Some implies holds(
                after,
                d,
                after.running[d]->0,
            ) by {
                assert(holds(before, d, before.running[d]->0));
            }
        },
    }
}

#[verifier::rlimit(60)]
proof fn lemma_decide_keeps_order(
    before: &Floor,
    after: &Floor,
    w: Seq<Worker>,
    c: int,
    step: DrainStep,
)
    requires
        in_order(before, w),
        moved(before, after, w, c, Move::Decide(step)),
    ensures
        in_order(after, w),
        after.round.count == before.round.count,
        after.round.preempt == before.round.preempt,
        after.round.ran_on@ == before.round.ran_on@,
{
    let r0 = &before.round;
    let r1 = &after.round;
    let mine = before.batches[c];
    let now = after.batches[c];
    lemma_nothing_taken(r0, mine, 0);
    // Nothing that this CPU held before is taken, but for what it starts.
    assert(before.running[c] is None);
    assert(batch_wf(r0, mine));
    match step {
        DrainStep::Run(pos) => {
            assert(now == dropped_before(mine, pos as int));
        },
        DrainStep::Claimed => {
            if nothing_left(r0, w[c]) {
                assert(r1.run@ == r0.run@.update(now[0].slot as int, true));
            } else {
                lemma_claims_mark(r0, r1, w[c], now);
            }
        },
        DrainStep::Leave => {},
    }
    assert(r1.count == r0.count && r1.cells == r0.cells && r1.ran_on == r0.ran_on && r1.done
        == r0.done && r1.taken == r0.taken && r1.preempt == r0.preempt);
    assert(r1.run@.len() == r0.run@.len());
    assert forall|k: int| 0 <= k < r0.run@.len() && r0.run@[k] implies #[trigger] r1.run@[k] by {}
    lemma_same_over(r0, r1, r0.count as int);
    assert forall|d: int| 0 <= d < w.len() implies batch_wf(r1, #[trigger] after.batches[d]) by {
        if d != c {
            assert(batch_wf(r0, before.batches[d]));
        }
    }
    assert forall|d: int| r0.preempt && 0 <= d < w.len() implies all_taken(
        #[trigger] after.batches[d],
    ) by {
        assert(all_taken(before.batches[d]));
        if d == c {
            if let DrainStep::Run(pos) = step {
                assert forall|i: int| 0 <= i < now.len() && (#[trigger] now[i]).live implies now[i].marked by {
                    assert(now[i] == mine[i]);
                }
            }
        }
    }
    // What another CPU has taken it had taken before.
    assert forall|d: int, j: int| d != c && #[trigger] holds(after, d, j) implies holds(before, d, j)
        && slot_at(after, d, j) == slot_at(before, d, j) by {
        assert(after.batches[d] == before.batches[d]);
        assert(after.running[d] == before.running[d]);
    }
    // What this CPU has taken now it had taken before, or nobody had.
    assert forall|j: int| #[trigger] holds(after, c, j) implies (holds(before, c, j) && slot_at(
        before,
        c,
        j,
    ) == slot_at(after, c, j)) || !r0.run@[slot_at(after, c, j)] by {
        match step {
            DrainStep::Run(pos) => {
                if j < pos {
                    assert(!now[j].live);
                } else if j > pos {
                    assert(now[j] == mine[j]);
                    assert(after.running[c] == Some(pos as int));
                    assert(now[j].marked);
                } else {
                    assert(now[j] == mine[j]);
                }
            },
            DrainStep::Claimed => {
                if nothing_left(r0, w[c]) {
                    assert(j == 0);
                } else {
                    assert(now[j].marked);
                }
            },
            DrainStep::Leave => {},
        }
    }
    assert forall|d: int, j: int| #[trigger] holds(after, d, j) implies r1.run@[slot_at(
        after,
        d,
        j,
    )] && !is_over(r1, slot_at(after, d, j)) by {
        assert(batch_wf(r1, after.batches[d]));
        assert(after.batches[d][j].slot < r1.count);
        if d != c {
            assert(holds(before, d, j));
        } else if holds(before, c, j) && slot_at(before, c, j) == slot_at(after, c, j) {
        } else {
            let k = slot_at(after, c, j);
            assert(!r0.run@[k]);
            if is_over(r0, k) {
                assert(r0.run@[k]);
            }
            match step {
                DrainStep::Run(pos) => {
                    if j == pos {
                        assert(now[j] == mine[j]);
                    } else if j > pos {
                        assert(now[j] == mine[j] && mine[j].marked);
                    }
                },
                DrainStep::Claimed => {
                    if !nothing_left(r0, w[c]) {
                        assert(now[j].marked);
                    }
                },
                DrainStep::Leave => {},
            }
        }
    }
    assert forall|d: int, i: int, e: int, j: int| #[trigger]
        holds(after, d, i) && #[trigger] holds(after, e, j) && slot_at(after, d, i) == slot_at(
            after,
            e,
            j,
        ) implies d == e && i == j by {
        if d == c && e == c {
            match step {
                DrainStep::Run(pos) => {
                    if i != j {
                        // One of the two is not the one that is started, so it was taken.
                        assert(i < pos ==> !now[i].live);
                        assert(j < pos ==> !now[j].live);
                        assert(now[i] == mine[i] && now[j] == mine[j]);
                        assert(i != pos ==> holds(before, c, i));
                        assert(j != pos ==> holds(before, c, j));
                        if i != pos && j != pos {
                            assert(slot_at(before, c, i) == slot_at(before, c, j));
                        } else if i == pos {
                            assert(r0.run@[slot_at(before, c, j)]);
                            assert(holds(before, c, pos as int));
                        } else {
                            assert(r0.run@[slot_at(before, c, i)]);
                            assert(holds(before, c, pos as int));
                        }
                    }
                },
                DrainStep::Claimed => {
                    if !nothing_left(r0, w[c]) {
                        assert(now[i].marked && now[j].marked);
                    }
                },
                DrainStep::Leave => {},
            }
        } else if d != c && e != c {
            assert(holds(before, d, i) && holds(before, e, j));
        } else {
            let (other, oi, mi) = if d == c {
                (e, j, i)
            } else {
                (d, i, j)
            };
            assert(holds(before, other, oi));
            assert(r0.run@[slot_at(before, other, oi)]);
            if holds(before, c, mi) && slot_at(before, c, mi) == slot_at(after, c, mi) {
                assert(slot_at(before, c, mi) == slot_at(before, other, oi));
            }
        }
    }
    assert forall|d: int| 0 <= d < w.len() && (#[trigger] after.running[d]) is Some implies holds(
        after,
        d,
        after.running[d]->0,
    ) && forall|j: int|
        0 <= j < after.running[d]->0 ==> !(#[trigger] after.batches[d][j]).live by {
        if d != c {
            assert(holds(before, d, before.running[d]->0));
            assert(after.batches[d] == before.batches[d]);
        }
    }
}

#[verifier::rlimit(40)]
proof fn lemma_end_keeps_order(
    before: &Floor,
    after: &Floor,
    w: Seq<Worker>,
    c: int,
    vid: usize,
    code: u64,
)
    requires
        in_order(before, w),
        moved(before, after, w, c, Move::End(vid, code)),
    ensures
        in_order(after, w),
        after.round.count == before.round.count,
        after.round.preempt == before.round.preempt,
        ({
            let p = held_as(before.batches[c], vid, 0)->0;
            let k = slot_at(before, c, p);
            &&& holds(before, c, p)
            &&& !before.round.preempt ==> before.running[c] == Some(p)
            &&& !is_over(&before.round, k)
            &&& k < before.round.count
            &&& after.round.ran_on@ == before.round.ran_on@.update(k, w[c].cpu)
        }),
        w[c].cpu != NOBODY,
        forall|d: int, j: int| #[trigger]
            holds(before, d, j) && !(d == c && j == held_as(before.batches[c], vid, 0)->0) ==> holds(
                after,
                d,
                j,
            ) && slot_at(after, d, j) == slot_at(before, d, j),
{
    let r0 = &before.round;
    let r1 = &after.round;
    let mine = before.batches[c];
    let q = before.running[c]->0;
    assert(holds(before, c, q));
    if !r0.preempt {
        lemma_held_as(mine, q, 0);
    }
    lemma_found(mine, vid, 0);
    let p = held_as(mine, vid, 0)->0;
    if r0.preempt {
        assert(all_taken(mine));
    }
    assert(holds(before, c, p));
    let k = slot_at(before, c, p);
    assert(batch_wf(r0, mine));
    assert(mine[p].slot < r0.count);
    assert(w[c].cpu != NOBODY);
    lemma_one_more_over(r0, r1, k, w[c].cpu, r0.count as int);
    lemma_over_bounded(r0, r0.count as int);
    lemma_count_bounds_each(r0.taken@, cpu_slot(w[c].cpu), MAX_CPUS as int);
    lemma_one_more_counted(r0.taken@, cpu_slot(w[c].cpu), MAX_CPUS as int);
    assert forall|d: int| 0 <= d < w.len() implies batch_wf(r1, #[trigger] after.batches[d]) by {
        assert(batch_wf(r0, before.batches[d]));
        if d == c {
            assert forall|i: int| 0 <= i < after.batches[c].len() implies (
            #[trigger] after.batches[c][i]).slot < r1.count && after.batches[c][i].vid
                == r1.cells@[after.batches[c][i].slot as int] by {
                assert(mine[i].slot < r0.count);
            }
        }
    }
    assert forall|d: int| r0.preempt && 0 <= d < w.len() implies all_taken(
        #[trigger] after.batches[d],
    ) by {
        assert(all_taken(before.batches[d]));
        if d == c {
            let now = after.batches[c];
            assert forall|i: int| 0 <= i < now.len() && (#[trigger] now[i]).live implies now[i].marked by {
                assert(mine[i] == now[i]);
            }
        }
    }
    assert forall|d: int, j: int| #[trigger]
        holds(before, d, j) && !(d == c && j == p) implies holds(after, d, j) && slot_at(after, d, j)
        == slot_at(before, d, j) by {
        if d == c {
            assert(after.batches[c][j] == mine[j]);
            if !r0.preempt {
                assert(p == q);
            } else {
                assert(mine[j].marked);
            }
        } else {
            assert(after.batches[d] == before.batches[d]);
            assert(after.running[d] == before.running[d]);
        }
    }
    assert forall|d: int, j: int| #[trigger] holds(after, d, j) implies holds(before, d, j) && slot_at(
        before,
        d,
        j,
    ) == slot_at(after, d, j) && slot_at(after, d, j) != k by {
        if d == c {
            assert(j != p);
            assert(after.batches[c][j] == mine[j]);
        } else {
            assert(after.batches[d] == before.batches[d]);
            assert(after.running[d] == before.running[d]);
        }
        assert(holds(before, d, j));
    }
    assert forall|d: int| 0 <= d < w.len() && (#[trigger] after.running[d]) is Some implies holds(
        after,
        d,
        after.running[d]->0,
    ) && forall|j: int|
        0 <= j < after.running[d]->0 ==> !(#[trigger] after.batches[d][j]).live by {
        assert(d != c);
        assert(holds(before, d, before.running[d]->0));
        assert(after.batches[d] == before.batches[d]);
    }
}

/// A run of a round: the state before and after each of the first `n` moves, which CPU
/// moved, and what it did.
pub open spec fn ran(
    floors: Seq<Floor>,
    w: Seq<Worker>,
    who: Seq<int>,
    moves: Seq<Move>,
    n: nat,
) -> bool {
    &&& n < floors.len()
    &&& n <= who.len()
    &&& n <= moves.len()
    &&& at_rest(&floors[0], w)
    &&& forall|t: int|
        0 <= t < n ==> moved(&#[trigger] floors[t], &floors[t + 1], w, who[t], moves[t])
}

/// Whether a move starts the vcore of slot `k`.
pub open spec fn starts(f: &Floor, c: int, m: Move, k: int) -> bool {
    match m {
        Move::Decide(DrainStep::Run(pos)) => slot_at(f, c, pos as int) == k,
        _ => false,
    }
}

/// How often the vcore of slot `k` was started in the first `n` moves.
pub open spec fn times_started(
    floors: Seq<Floor>,
    who: Seq<int>,
    moves: Seq<Move>,
    n: nat,
    k: int,
) -> nat
    decreases n,
{
    if n == 0 {
        0
    } else {
        times_started(floors, who, moves, (n - 1) as nat, k) + if starts(
            &floors[n - 1],
            who[n - 1],
            moves[n - 1],
            k,
        ) {
            1nat
        } else {
            0nat
        }
    }
}

/// Whether some CPU runs the vcore of slot `k`.
pub open spec fn is_running(f: &Floor, k: int) -> bool {
    exists|c: int|
        0 <= c < f.running.len() && (#[trigger] f.running[c]) is Some && slot_at(
            f,
            c,
            f.running[c]->0,
        ) == k
}

/// Whatever the CPUs do, in whatever order, in a round that is not in slices a vcore has
/// been started once when it runs or is over, and else not at all.
#[verifier::rlimit(40)]
pub proof fn law_vcore_is_started_once(
    floors: Seq<Floor>,
    w: Seq<Worker>,
    who: Seq<int>,
    moves: Seq<Move>,
    n: nat,
    k: int,
)
    requires
        ran(floors, w, who, moves, n),
        !floors[0].round.preempt,
        0 <= k < floors[0].round.count,
    ensures
        in_order(&floors[n as int], w),
        floors[n as int].round.count == floors[0].round.count,
        !floors[n as int].round.preempt,
        times_started(floors, who, moves, n, k) == (if is_over(&floors[n as int].round, k)
            || is_running(&floors[n as int], k) {
            1nat
        } else {
            0nat
        }),
    decreases n,
{
    if n == 0 {
        law_round_opens_in_order(&floors[0], w);
        assert(floors[0].round.ran_on@[k] == NOBODY);
    } else {
        let m = (n - 1) as nat;
        law_vcore_is_started_once(floors, w, who, moves, m, k);
        let a = &floors[m as int];
        let b = &floors[n as int];
        let c = who[m as int];
        assert(moved(a, b, w, c, moves[m as int]));
        law_moves_keep_order(a, b, w, c, moves[m as int]);
        match moves[m as int] {
            Move::Decide(step) => {
                lemma_decide_keeps_order(a, b, w, c, step);
                assert(is_over(&b.round, k) == is_over(&a.round, k));
                lemma_nothing_taken(&a.round, a.batches[c], 0);
                assert(batch_wf(&a.round, a.batches[c]));
                if is_running(a, k) {
                    let d = choose|d: int|
                        0 <= d < a.running.len() && (#[trigger] a.running[d]) is Some && slot_at(
                            a,
                            d,
                            a.running[d]->0,
                        ) == k;
                    assert(d != c);
                    assert(b.running[d] == a.running[d]);
                    assert(b.batches[d] == a.batches[d]);
                    assert(is_running(b, k));
                    assert(holds(a, d, a.running[d]->0));
                    assert(holds(b, d, b.running[d]->0));
                    if let DrainStep::Run(pos) = step {
                        assert(holds(b, c, pos as int));
                        assert(slot_at(b, c, pos as int) == slot_at(a, c, pos as int));
                    }
                }
                if is_running(b, k) && !is_running(a, k) {
                    let d = choose|d: int|
                        0 <= d < b.running.len() && (#[trigger] b.running[d]) is Some && slot_at(
                            b,
                            d,
                            b.running[d]->0,
                        ) == k;
                    if d != c {
                        assert(b.running[d] == a.running[d]);
                        assert(b.batches[d] == a.batches[d]);
                        assert(a.running[d] is Some);
                    }
                    assert(holds(b, c, b.running[c]->0));
                }
                if let DrainStep::Run(pos) = step {
                    assert(b.running[c] == Some(pos as int));
                    assert(b.batches[c] == dropped_before(a.batches[c], pos as int));
                    assert(holds(b, c, pos as int));
                    assert(slot_at(b, c, pos as int) == slot_at(a, c, pos as int));
                    if slot_at(a, c, pos as int) == k {
                        assert(is_running(b, k));
                        assert(!is_over(&b.round, k));
                    }
                }
            },
            Move::End(vid, code) => {
                lemma_end_keeps_order(a, b, w, c, vid, code);
                let p = a.running[c]->0;
                let mine = slot_at(a, c, p);
                assert(holds(a, c, p));
                assert(a.batches[c][p].slot < a.round.count) by {
                    assert(batch_wf(&a.round, a.batches[c]));
                }
                if mine == k {
                    assert(is_running(a, k));
                    assert(is_over(&b.round, k));
                } else {
                    assert(is_over(&b.round, k) == is_over(&a.round, k));
                    if is_running(a, k) {
                        let d = choose|d: int|
                            0 <= d < a.running.len() && (#[trigger] a.running[d]) is Some
                                && slot_at(a, d, a.running[d]->0) == k;
                        assert(d != c);
                        assert(b.running[d] == a.running[d]);
                        assert(b.batches[d] == a.batches[d]);
                    }
                    if is_running(b, k) {
                        let d = choose|d: int|
                            0 <= d < b.running.len() && (#[trigger] b.running[d]) is Some
                                && slot_at(b, d, b.running[d]->0) == k;
                        assert(d != c);
                        assert(b.running[d] == a.running[d]);
                        assert(b.batches[d] == a.batches[d]);
                        assert(a.running[d] is Some);
                    }
                }
            },
            Move::Aside => {
                assert(is_running(a, k) == is_running(b, k));
            },
        }
    }
}

/// Whether a move ends the vcore of slot `k`.
pub open spec fn ends(f: &Floor, c: int, m: Move, k: int) -> bool {
    match m {
        Move::End(vid, _) => slot_at(f, c, held_as(f.batches[c], vid, 0)->0) == k,
        _ => false,
    }
}

/// How often the vcore of slot `k` came to its end in the first `n` moves.
pub open spec fn times_ended(
    floors: Seq<Floor>,
    who: Seq<int>,
    moves: Seq<Move>,
    n: nat,
    k: int,
) -> nat
    decreases n,
{
    if n == 0 {
        0
    } else {
        times_ended(floors, who, moves, (n - 1) as nat, k) + if ends(
            &floors[n - 1],
            who[n - 1],
            moves[n - 1],
            k,
        ) {
            1nat
        } else {
            0nat
        }
    }
}

/// Whatever the CPUs do, in whatever order, every round stays in order, and a vcore has
/// come to its end once when it is over, and else not at all.
#[verifier::rlimit(40)]
pub proof fn law_vcore_ends_once(
    floors: Seq<Floor>,
    w: Seq<Worker>,
    who: Seq<int>,
    moves: Seq<Move>,
    n: nat,
    k: int,
)
    requires
        ran(floors, w, who, moves, n),
        0 <= k < floors[0].round.count,
    ensures
        in_order(&floors[n as int], w),
        floors[n as int].round.count == floors[0].round.count,
        times_ended(floors, who, moves, n, k) == (if is_over(&floors[n as int].round, k) {
            1nat
        } else {
            0nat
        }),
    decreases n,
{
    if n == 0 {
        law_round_opens_in_order(&floors[0], w);
        assert(floors[0].round.ran_on@[k] == NOBODY);
    } else {
        let m = (n - 1) as nat;
        law_vcore_ends_once(floors, w, who, moves, m, k);
        let a = &floors[m as int];
        let b = &floors[n as int];
        let c = who[m as int];
        assert(moved(a, b, w, c, moves[m as int]));
        law_moves_keep_order(a, b, w, c, moves[m as int]);
        match moves[m as int] {
            Move::Decide(step) => {
                lemma_decide_keeps_order(a, b, w, c, step);
            },
            Move::End(vid, code) => {
                lemma_end_keeps_order(a, b, w, c, vid, code);
            },
            Move::Aside => {},
        }
    }
}

/// Whether a move runs the vcore of slot `k`: starts it, or ends it.
pub open spec fn runs(f: &Floor, c: int, m: Move, k: int) -> bool {
    starts(f, c, m, k) || ends(f, c, m, k)
}

/// Whether CPU `c` has taken the vcore of slot `k`.
pub open spec fn has_taken(f: &Floor, c: int, k: int) -> bool {
    exists|i: int| #[trigger] holds(f, c, i) && slot_at(f, c, i) == k
}

/// A CPU that has taken a vcore keeps it until it is over.
#[verifier::rlimit(40)]
proof fn lemma_taken_stays(before: &Floor, after: &Floor, w: Seq<Worker>, c: int, m: Move, d: int, k: int)
    requires
        in_order(before, w),
        moved(before, after, w, c, m),
        has_taken(before, d, k),
        0 <= k < before.round.count,
    ensures
        has_taken(after, d, k) || is_over(&after.round, k),
{
    let i = choose|i: int| #[trigger] holds(before, d, i) && slot_at(before, d, i) == k;
    let mine = before.batches[d];
    match m {
        Move::Decide(step) => {
            lemma_decide_keeps_order(before, after, w, c, step);
            if d == c {
                lemma_nothing_taken(&before.round, mine, 0);
                assert(startable(&before.round, mine[i]));
                match step {
                    DrainStep::Run(pos) => {
                        assert(pos <= i);
                        assert(after.batches[d][i] == mine[i]);
                        assert(holds(after, d, i));
                    },
                    _ => {},
                }
            } else {
                assert(after.batches[d] == before.batches[d]);
                assert(after.running[d] == before.running[d]);
                assert(holds(after, d, i));
            }
            assert(slot_at(after, d, i) == k);
        },
        Move::End(vid, code) => {
            lemma_end_keeps_order(before, after, w, c, vid, code);
            if !(d == c && i == held_as(before.batches[c], vid, 0)->0) {
                assert(holds(after, d, i));
            }
        },
        Move::Aside => {
            assert(holds(after, d, i));
            assert(slot_at(after, d, i) == k);
        },
    }
}

/// The CPU that runs a vcore has taken it when the move is over, or the vcore is over;
/// and it was not over before, and nobody else had taken it.
#[verifier::rlimit(40)]
proof fn lemma_runs_takes(before: &Floor, after: &Floor, w: Seq<Worker>, c: int, m: Move, k: int)
    requires
        in_order(before, w),
        moved(before, after, w, c, m),
        runs(before, c, m, k),
        0 <= k < before.round.count,
    ensures
        has_taken(after, c, k) || is_over(&after.round, k),
        !is_over(&before.round, k),
        forall|d: int| #[trigger] has_taken(before, d, k) ==> d == c,
{
    match m {
        Move::Decide(DrainStep::Run(pos)) => {
            lemma_decide_keeps_order(before, after, w, c, DrainStep::Run(pos));
            assert(after.batches[c][pos as int] == before.batches[c][pos as int]);
            assert(holds(after, c, pos as int));
            assert(slot_at(after, c, pos as int) == k);
            assert forall|d: int| #[trigger] has_taken(before, d, k) implies d == c by {
                let i = choose|i: int| #[trigger] holds(before, d, i) && slot_at(before, d, i) == k;
                assert(before.round.run@[k]);
                assert(before.batches[c][pos as int].marked);
                assert(holds(before, c, pos as int));
                assert(slot_at(before, c, pos as int) == k);
            }
        },
        Move::End(vid, code) => {
            lemma_end_keeps_order(before, after, w, c, vid, code);
            let p = held_as(before.batches[c], vid, 0)->0;
            assert forall|d: int| #[trigger] has_taken(before, d, k) implies d == c by {
                let i = choose|i: int| #[trigger] holds(before, d, i) && slot_at(before, d, i) == k;
                assert(holds(before, c, p));
            }
        },
        _ => {},
    }
}

proof fn lemma_runner_keeps(
    floors: Seq<Floor>,
    w: Seq<Worker>,
    who: Seq<int>,
    moves: Seq<Move>,
    n: nat,
    t: int,
    k: int,
)
    requires
        ran(floors, w, who, moves, n),
        0 <= k < floors[0].round.count,
        0 <= t < n,
        runs(&floors[t], who[t], moves[t], k),
    ensures
        has_taken(&floors[n as int], who[t], k) || is_over(&floors[n as int].round, k),
    decreases n,
{
    let m = (n - 1) as nat;
    law_vcore_ends_once(floors, w, who, moves, m, k);
    let a = &floors[m as int];
    let b = &floors[n as int];
    assert(moved(a, b, w, who[m as int], moves[m as int]));
    if t == m {
        lemma_runs_takes(a, b, w, who[t], moves[t], k);
    } else {
        lemma_runner_keeps(floors, w, who, moves, m, t, k);
        law_moves_keep_order(a, b, w, who[m as int], moves[m as int]);
        if has_taken(a, who[t], k) {
            lemma_taken_stays(a, b, w, who[m as int], moves[m as int], who[t], k);
        }
    }
}

/// No two CPUs run one vcore, in slices or not: whoever starts it, again or for the first
/// time, and whoever it ends on, is one CPU.
pub proof fn law_one_cpu_runs_each(
    floors: Seq<Floor>,
    w: Seq<Worker>,
    who: Seq<int>,
    moves: Seq<Move>,
    n: nat,
    t: int,
    u: int,
    k: int,
)
    requires
        ran(floors, w, who, moves, n),
        0 <= k < floors[0].round.count,
        0 <= t <= u < n,
        runs(&floors[t], who[t], moves[t], k),
        runs(&floors[u], who[u], moves[u], k),
    ensures
        who[t] == who[u],
{
    if t < u {
        law_vcore_ends_once(floors, w, who, moves, u as nat, k);
        lemma_runner_keeps(floors, w, who, moves, u as nat, t, k);
        assert(moved(&floors[u], &floors[u + 1], w, who[u], moves[u]));
        lemma_runs_takes(&floors[u], &floors[u + 1], w, who[u], moves[u], k);
    }
}

/// When a round is done, every vcore of it has come to its end once, and where it is not
/// in slices was started once; and the counts of what each CPU ran add up to the vcores of
/// the round.
pub proof fn law_done_round_ran_each_once(
    floors: Seq<Floor>,
    w: Seq<Worker>,
    who: Seq<int>,
    moves: Seq<Move>,
    n: nat,
    k: int,
)
    requires
        ran(floors, w, who, moves, n),
        0 <= k < floors[0].round.count,
        floors[n as int].round.done >= floors[n as int].round.count,
    ensures
        times_ended(floors, who, moves, n, k) == 1,
        !floors[0].round.preempt ==> times_started(floors, who, moves, n, k) == 1,
        is_over(&floors[n as int].round, k),
        sum_counts(floors[n as int].round.taken@, MAX_CPUS as int) == floors[0].round.count,
{
    law_vcore_ends_once(floors, w, who, moves, n, k);
    lemma_over_bounded(&floors[n as int].round, floors[n as int].round.count as int);
    assert(is_over(&floors[n as int].round, k));
    if !floors[0].round.preempt {
        law_vcore_is_started_once(floors, w, who, moves, n, k);
    }
}

} // verus!
