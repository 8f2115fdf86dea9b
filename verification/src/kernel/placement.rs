//! Placing cells on CPUs: a round publishes a set of vcores, grouped by memory
//! node, and every CPU claims from it until it is empty.

use vstd::prelude::*;
use crate::kernel::cells::MAX_CPUS;

verus! {

/// Vcores that one round can hold.
pub const MAX_PLACED_CELLS: usize = 16;

/// Vcores that a CPU claims at once.
pub const CLAIM_BATCH: usize = 2;

/// Vcores that a CPU claims at once where the CPUs differ.
pub const CLAIM_BATCH_HYBRID: usize = 1;

/// No owner, no CPU, no slot.
pub const NOBODY: usize = usize::MAX;

/// What kind of work a cell does.
#[derive(Copy, Clone, PartialEq, Eq, Debug, Structural)]
pub enum ThreadClass {
    Compute,
    Bursty,
    Unknown,
}

/// A round of placement.
pub struct Round {
    /// The published vcores, group after group.
    pub cells: Vec<usize>,
    /// Where each of them stood in the caller's list.
    pub origin: Vec<usize>,
    /// The CPU that claimed each, or [`NOBODY`].
    pub owner: Vec<usize>,
    /// Whether each has been taken to be run.
    pub run: Vec<bool>,
    /// What each did: its code, and the CPU that ran it.
    pub code: Vec<u64>,
    pub ran_on: Vec<usize>,
    /// What kind of work each does, by the caller's list.
    pub class: Vec<ThreadClass>,
    /// One past the last slot of each group.
    pub group_end: Vec<usize>,
    /// Slots of each group that were handed out.
    pub cursor: Vec<usize>,
    /// Published vcores.
    pub count: usize,
    /// Whether the round can be joined.
    pub open: bool,
    /// CPUs that have joined it and not left.
    pub busy: usize,
    /// Vcores that are done.
    pub done: usize,
    pub steals: usize,
    pub tier_claims: usize,
    pub claims_local: usize,
    pub claims_remote: usize,
    pub avoidable: usize,
    /// Vcores that each CPU ran.
    pub taken: Vec<usize>,
    /// Whether a CPU claims from its own node first.
    pub affinity: bool,
    /// Whether the vcores run in slices.
    pub preempt: bool,
}

/// The first slot of group `g`.
pub open spec fn group_start(group_end: Seq<usize>, g: int) -> int {
    if g == 0 {
        0
    } else {
        group_end[g - 1] as int
    }
}

impl Round {
    pub open spec fn groups(&self) -> nat {
        self.group_end@.len()
    }

    pub open spec fn wf(&self) -> bool {
        &&& self.cells@.len() == MAX_PLACED_CELLS
        &&& self.origin@.len() == MAX_PLACED_CELLS
        &&& self.owner@.len() == MAX_PLACED_CELLS
        &&& self.run@.len() == MAX_PLACED_CELLS
        &&& self.code@.len() == MAX_PLACED_CELLS
        &&& self.ran_on@.len() == MAX_PLACED_CELLS
        &&& self.class@.len() == MAX_PLACED_CELLS
        &&& self.taken@.len() == MAX_CPUS
        &&& self.count <= MAX_PLACED_CELLS
        &&& self.groups() >= 1
        &&& self.cursor@.len() == self.groups()
        &&& forall|g: int|
            0 <= g < self.groups() ==> #[trigger] self.group_end@[g] <= self.count
        &&& forall|g: int| 0 <= g < self.groups() ==> #[trigger] self.cursor@[g] <= MAX_PLACED_CELLS
        &&& forall|k: int|
            0 <= k < MAX_PLACED_CELLS ==> #[trigger] self.origin@[k] < MAX_PLACED_CELLS
    }

    /// Whether group `g` has a slot left to hand out.
    pub open spec fn claimable(&self, g: int) -> bool {
        group_start(self.group_end@, g) + self.cursor@[g] < self.group_end@[g]
    }

    /// The slot that group `g` hands out next.
    pub open spec fn next_slot(&self, g: int) -> int {
        group_start(self.group_end@, g) + self.cursor@[g]
    }
}

/// The group that is tried `step` places after `first`, going round.
pub open spec fn group_after(first: int, step: int, groups: int) -> int {
    if first + step < groups {
        first + step
    } else {
        first + step - groups
    }
}

/// The first group with a slot left, from `step` places after `first` on.
pub open spec fn pick_group(r: &Round, first: int, step: int) -> Option<int>
    decreases r.groups() - step,
{
    if step < 0 || step >= r.groups() {
        None
    } else if r.claimable(group_after(first, step, r.groups() as int)) {
        Some(group_after(first, step, r.groups() as int))
    } else {
        pick_group(r, first, step + 1)
    }
}

/// The group that a CPU on `node` claims from first.
pub open spec fn home_group(node: Option<u8>, groups: nat) -> int {
    match node {
        None => 0,
        Some(m) => if m < groups {
            m as int
        } else {
            groups - 1
        },
    }
}

fn home_index(node: Option<u8>, groups: usize) -> (g: usize)
    requires
        groups >= 1,
    ensures
        g == home_group(node, groups as nat),
        g < groups,
{
    match node {
        None => 0,
        Some(m) => {
            if (m as usize) < groups {
                m as usize
            } else {
                groups - 1
            }
        },
    }
}

/// A claim from group `g`: the cursor moves, and a claim from another node while
/// the CPU's own had slots left is counted.
pub open spec fn claimed_from(before: &Round, after: &Round, g: int, node: Option<u8>) -> bool {
    let crossing = node is Some && home_group(node, before.groups()) != g && before.claimable(
        home_group(node, before.groups()),
    );
    &&& after.cursor@ == before.cursor@.update(g, (before.cursor@[g] + 1) as usize)
    &&& after.avoidable == (if crossing {
        next_usize(before.avoidable)
    } else {
        before.avoidable
    })
    &&& same_slots(before, after)
    &&& after.tier_claims == before.tier_claims
    &&& after.steals == before.steals
}

/// The next value of a counter that wraps.
pub open spec fn next_usize(n: usize) -> usize {
    if n == usize::MAX {
        0
    } else {
        (n + 1) as usize
    }
}

/// The slots, the owners, the marks and the layout of the groups are as they were.
pub open spec fn same_slots(before: &Round, after: &Round) -> bool {
    &&& same_but_marks(before, after)
    &&& after.owner == before.owner
    &&& after.run == before.run
}

/// Everything but owners, marks, cursors and the counters of claims is as it was.
pub open spec fn same_but_marks(before: &Round, after: &Round) -> bool {
    &&& after.cells == before.cells
    &&& after.origin == before.origin
    &&& after.code == before.code
    &&& after.ran_on == before.ran_on
    &&& after.class == before.class
    &&& after.group_end == before.group_end
    &&& after.count == before.count
    &&& after.open == before.open
    &&& after.busy == before.busy
    &&& after.done == before.done
    &&& after.claims_local == before.claims_local
    &&& after.claims_remote == before.claims_remote
    &&& after.taken == before.taken
    &&& after.affinity == before.affinity
    &&& after.preempt == before.preempt
}

/// What claiming the next slot does: it comes from the first group that has one left,
/// beginning with the CPU's own while affinity is on.
pub open spec fn claim_done(before: &Round, after: &Round, node: Option<u8>, s: Option<usize>) -> bool {
    let from = if before.affinity {
        home_group(node, before.groups())
    } else {
        0
    };
    match pick_group(before, from, 0) {
        None => s is None && *after == *before,
        Some(g) => {
            &&& 0 <= g < before.groups()
            &&& s == Some(before.next_slot(g) as usize)
            &&& before.next_slot(g) < before.count
            &&& claimed_from(before, after, g, node)
        },
    }
}

/// Claim the next slot: from the CPU's own node while affinity is on and the node
/// has one left, and else from the next group that has. `node` is the CPU's node
/// where the machine has more than one.
pub fn claim_next(r: &mut Round, node: Option<u8>) -> (s: Option<usize>)
    requires
        old(r).wf(),
    ensures
        final(r).wf(),
        claim_done(old(r), final(r), node, s),
{
    let groups: usize = r.group_end.len();
    let home: usize = home_index(node, groups);
    let first: usize = if r.affinity { home } else { 0 };
    let mut step: usize = 0;
    while step < groups
        invariant
            *r == *old(r),
            r.wf(),
            groups == r.groups(),
            home == home_group(node, groups as nat),
            home < groups,
            first == (if r.affinity {
                home
            } else {
                0
            }),
            step <= groups,
            pick_group(r, first as int, 0) == pick_group(r, first as int, step as int),
        decreases groups - step,
    {
        let g: usize = if step < groups - first { first + step } else { step - (groups - first) };
        assert(g == group_after(first as int, step as int, groups as int));
        let start: usize = if g == 0 { 0 } else { r.group_end[g - 1] };
        let k: usize = r.cursor[g];
        proof {
            assert(r.group_end@[g as int] <= r.count);
            assert(r.cursor@[g as int] <= MAX_PLACED_CELLS);
            if g > 0 {
                assert(r.group_end@[g - 1] <= r.count);
            }
        }
        if start + k < r.group_end[g] {
            if node.is_some() && home != g {
                let own_start: usize = if home == 0 { 0 } else { r.group_end[home - 1] };
                proof {
                    assert(r.cursor@[home as int] <= MAX_PLACED_CELLS);
                    if home > 0 {
                        assert(r.group_end@[home - 1] <= r.count);
                    }
                }
                if own_start + r.cursor[home] < r.group_end[home] {
                    r.avoidable = r.avoidable.wrapping_add(1);
                }
            }
            r.cursor[g] = k + 1;
            return Some(start + k);
        }
        step = step + 1;
    }
    None
}

/// With affinity on, a CPU never crosses to another node while its own has a slot
/// left.
pub proof fn law_affinity_never_crosses_needlessly(
    before: &Round,
    after: &Round,
    g: int,
    node: Option<u8>,
)
    requires
        before.wf(),
        before.affinity,
        pick_group(before, home_group(node, before.groups()), 0) == Some(g),
        claimed_from(before, after, g, node),
    ensures
        after.avoidable == before.avoidable,
{
    let home = home_group(node, before.groups());
    assert(group_after(home, 0, before.groups() as int) == home);
}

/// Nothing is left out: no slot comes back only when every group is exhausted.
pub proof fn law_claims_reach_every_group(r: &Round, first: int, step: int, g: int)
    requires
        r.wf(),
        0 <= first < r.groups(),
        0 <= step <= r.groups(),
        pick_group(r, first, step) is None,
        0 <= g < r.groups(),
        exists|s: int|
            step <= s < r.groups() && #[trigger] group_after(first, s, r.groups() as int) == g,
    ensures
        !r.claimable(g),
    decreases r.groups() - step,
{
    let s = choose|s: int|
        step <= s < r.groups() && #[trigger] group_after(first, s, r.groups() as int) == g;
    if s > step {
        law_claims_reach_every_group(r, first, step + 1, g);
    }
}

/// The groups stand one after the other and end where the round ends.
pub open spec fn groups_meet(r: &Round) -> bool {
    &&& r.groups() >= 1
    &&& r.group_end@[r.groups() - 1] == r.count
    &&& forall|g: int, h: int|
        0 <= g < h < r.groups() ==> #[trigger] r.group_end@[g] <= #[trigger] r.group_end@[h]
}

/// No more slots of a group are out than it has.
pub open spec fn cursors_inside(r: &Round) -> bool {
    forall|g: int|
        0 <= g < r.groups() ==> group_start(r.group_end@, g) + #[trigger] r.cursor@[g]
            <= r.group_end@[g]
}

/// Whether slot `k` was handed out of group `g`.
pub open spec fn out_of(r: &Round, g: int, k: int) -> bool {
    group_start(r.group_end@, g) <= k < group_start(r.group_end@, g) + r.cursor@[g]
}

/// Whether slot `k` was handed out.
pub open spec fn is_out(r: &Round, k: int) -> bool {
    exists|g: int| 0 <= g < r.groups() && #[trigger] out_of(r, g, k)
}

/// The claims of a round, from whichever CPUs: `before` and `after` are the round at each
/// of `n` claims, and between them no slot is handed out in another way.
pub open spec fn claims(
    before: Seq<Round>,
    after: Seq<Round>,
    nodes: Seq<Option<u8>>,
    got: Seq<Option<usize>>,
    n: nat,
) -> bool {
    &&& before.len() == n
    &&& after.len() == n
    &&& nodes.len() == n
    &&& got.len() == n
    &&& forall|i: int|
        0 <= i < n ==> (#[trigger] before[i]).wf() && claim_done(
            &before[i],
            &after[i],
            nodes[i],
            got[i],
        )
    &&& forall|i: int|
        0 < i < n ==> {
            &&& (#[trigger] before[i]).cursor@ == after[i - 1].cursor@
            &&& before[i].group_end@ == after[i - 1].group_end@
            &&& before[i].count == after[i - 1].count
        }
}

/// What [`pick_group`] finds has a slot left.
proof fn lemma_pick_group(r: &Round, first: int, step: int)
    requires
        0 <= first < r.groups(),
        0 <= step,
    ensures
        pick_group(r, first, step) matches Some(g) ==> 0 <= g < r.groups() && r.claimable(g),
    decreases r.groups() - step,
{
    if step < r.groups() && !r.claimable(group_after(first, step, r.groups() as int)) {
        lemma_pick_group(r, first, step + 1);
    }
}

/// Every slot of a round lies in a group.
proof fn lemma_slot_in_group(r: &Round, k: int, g: int) -> (at: int)
    requires
        0 <= g < r.groups(),
        0 <= k < r.group_end@[g],
    ensures
        0 <= at < r.groups(),
        group_start(r.group_end@, at) <= k < r.group_end@[at],
    decreases g,
{
    if g == 0 || r.group_end@[g - 1] <= k {
        g
    } else {
        lemma_slot_in_group(r, k, g - 1)
    }
}

/// One claim hands out a slot that was not out, and keeps those that were.
proof fn lemma_claim_is_new(before: &Round, after: &Round, node: Option<u8>, s: Option<usize>)
    requires
        before.wf(),
        groups_meet(before),
        cursors_inside(before),
        claim_done(before, after, node, s),
    ensures
        groups_meet(after),
        cursors_inside(after),
        after.group_end@ == before.group_end@,
        after.count == before.count,
        s matches Some(k) ==> k < before.count && !is_out(before, k as int) && is_out(
            after,
            k as int,
        ),
        forall|k: int| is_out(before, k) ==> #[trigger] is_out(after, k),
        forall|k: int| #[trigger] is_out(after, k) ==> is_out(before, k) || s == Some(k as usize),
        s is None ==> forall|k: int| 0 <= k < before.count ==> #[trigger] is_out(before, k),
{
    let from = if before.affinity {
        home_group(node, before.groups())
    } else {
        0
    };
    lemma_pick_group(before, from, 0);
    match pick_group(before, from, 0) {
        None => {
            assert forall|k: int| 0 <= k < before.count implies #[trigger] is_out(before, k) by {
                let g = lemma_slot_in_group(before, k, before.groups() - 1);
                let step = if g >= from {
                    g - from
                } else {
                    g - from + before.groups()
                };
                assert(group_after(from, step, before.groups() as int) == g);
                law_claims_reach_every_group(before, from, 0, g);
                assert(out_of(before, g, k));
            }
        },
        Some(g) => {
            let k = before.next_slot(g);
            assert(out_of(after, g, k));
            if is_out(before, k) {
                let h = choose|h: int| 0 <= h < before.groups() && #[trigger] out_of(before, h, k);
                assert(group_start(before.group_end@, h) + before.cursor@[h]
                    <= before.group_end@[h]);
                if h < g {
                    assert(before.group_end@[h] <= before.group_end@[g - 1]);
                } else if h > g {
                    assert(before.group_end@[g] <= before.group_end@[h - 1]);
                }
            }
            assert forall|j: int| is_out(before, j) implies #[trigger] is_out(after, j) by {
                let h = choose|h: int| 0 <= h < before.groups() && #[trigger] out_of(before, h, j);
                assert(out_of(after, h, j));
            }
            assert forall|j: int| #[trigger] is_out(after, j) implies is_out(before, j) || s == Some(
                j as usize,
            ) by {
                let h = choose|h: int| 0 <= h < after.groups() && #[trigger] out_of(after, h, j);
                if h != g || j != k {
                    assert(out_of(before, h, j));
                }
            }
            assert forall|h: int| 0 <= h < after.groups() implies group_start(after.group_end@, h)
                + #[trigger] after.cursor@[h] <= after.group_end@[h] by {
                assert(group_start(before.group_end@, h) + before.cursor@[h]
                    <= before.group_end@[h]);
            }
        },
    }
}

/// What is out before claim `i` of a round that began untouched was handed out by an
/// earlier claim.
proof fn lemma_out_was_claimed(
    before: Seq<Round>,
    after: Seq<Round>,
    nodes: Seq<Option<u8>>,
    got: Seq<Option<usize>>,
    n: nat,
    i: int,
)
    requires
        claims(before, after, nodes, got, n),
        0 <= i < n,
        groups_meet(&before[0]),
        forall|g: int| 0 <= g < before[0].groups() ==> #[trigger] before[0].cursor@[g] == 0,
    ensures
        groups_meet(&before[i]),
        cursors_inside(&before[i]),
        before[i].count == before[0].count,
        forall|k: int| #[trigger] is_out(&before[i], k) ==> exists|j: int|
            0 <= j < i && #[trigger] got[j] == Some(k as usize),
        forall|j: int|
            0 <= j < i ==> (#[trigger] got[j] matches Some(k) ==> is_out(&before[i], k as int)),
    decreases i,
{
    if i == 0 {
        let r = &before[0];
        assert(r.wf());
        assert forall|g: int| 0 <= g < r.groups() implies group_start(r.group_end@, g)
            + #[trigger] r.cursor@[g] <= r.group_end@[g] by {
            if g > 0 {
                assert(r.group_end@[g - 1] <= r.group_end@[g]);
            }
        }
        assert forall|k: int| !#[trigger] is_out(r, k) by {
            if is_out(r, k) {
                let g = choose|g: int| 0 <= g < r.groups() && #[trigger] out_of(r, g, k);
                assert(r.cursor@[g] == 0);
            }
        }
    } else {
        lemma_out_was_claimed(before, after, nodes, got, n, i - 1);
        assert(before[i - 1].wf());
        lemma_claim_is_new(&before[i - 1], &after[i - 1], nodes[i - 1], got[i - 1]);
        assert(before[i].cursor@ == after[i - 1].cursor@);
        assert forall|k: int| is_out(&before[i], k) == #[trigger] is_out(&after[i - 1], k) by {
            if is_out(&before[i], k) {
                let g = choose|g: int| 0 <= g < before[i].groups() && #[trigger] out_of(
                    &before[i],
                    g,
                    k,
                );
                assert(out_of(&after[i - 1], g, k));
            }
            if is_out(&after[i - 1], k) {
                let g = choose|g: int| 0 <= g < before[i].groups() && #[trigger] out_of(
                    &after[i - 1],
                    g,
                    k,
                );
                assert(out_of(&before[i], g, k));
            }
        }
        assert forall|g: int| 0 <= g < before[i].groups() implies group_start(
            before[i].group_end@,
            g,
        ) + #[trigger] before[i].cursor@[g] <= before[i].group_end@[g] by {
            assert(after[i - 1].cursor@[g] == before[i].cursor@[g]);
        }
        assert forall|k: int| #[trigger] is_out(&before[i], k) implies exists|j: int|
            0 <= j < i && #[trigger] got[j] == Some(k as usize) by {
            assert(is_out(&after[i - 1], k));
            if !is_out(&before[i - 1], k) {
                assert(got[i - 1] == Some(k as usize));
            } else {
                let j = choose|j: int| 0 <= j < i - 1 && #[trigger] got[j] == Some(k as usize);
                assert(got[j] == Some(k as usize));
            }
        }
        assert forall|j: int| 0 <= j < i implies (#[trigger] got[j] matches Some(k) ==> is_out(
            &before[i],
            k as int,
        )) by {
            if got[j] is Some {
                let k = got[j]->0 as int;
                if j < i - 1 {
                    assert(is_out(&before[i - 1], k));
                }
                assert(is_out(&after[i - 1], k));
            }
        }
    }
}

/// Over a whole round, whichever CPUs claim in whatever order, no slot is handed out
/// twice, and a claim comes back empty only when every slot is out.
pub proof fn law_every_slot_is_claimed_once(
    before: Seq<Round>,
    after: Seq<Round>,
    nodes: Seq<Option<u8>>,
    got: Seq<Option<usize>>,
    n: nat,
)
    requires
        claims(before, after, nodes, got, n),
        n > 0,
        groups_meet(&before[0]),
        forall|g: int| 0 <= g < before[0].groups() ==> #[trigger] before[0].cursor@[g] == 0,
    ensures
        forall|i: int, j: int|
            0 <= i < j < n && (#[trigger] got[i]) is Some ==> got[i] != #[trigger] got[j],
        forall|i: int, k: usize|
            0 <= i < n && (#[trigger] got[i]) is None && 0 <= k < before[0].count
                ==> #[trigger] got.take(i).contains(Some(k)),
{
    assert forall|i: int, j: int|
        0 <= i < j < n && (#[trigger] got[i]) is Some implies got[i] != #[trigger] got[j] by {
        lemma_out_was_claimed(before, after, nodes, got, n, j);
        assert(before[j].wf());
        lemma_claim_is_new(&before[j], &after[j], nodes[j], got[j]);
        assert(is_out(&before[j], got[i]->0 as int));
    }
    assert forall|i: int, k: usize|
        0 <= i < n && (#[trigger] got[i]) is None && 0 <= k < before[0].count implies
        #[trigger] got.take(i).contains(Some(k)) by {
        lemma_out_was_claimed(before, after, nodes, got, n, i);
        assert(before[i].wf());
        lemma_claim_is_new(&before[i], &after[i], nodes[i], got[i]);
        assert(is_out(&before[i], k as int));
        let j = choose|j: int| 0 <= j < i && #[trigger] got[j] == Some((k as int) as usize);
        assert(got.take(i)[j] == Some(k));
    }
}

/// What kind of work slot `k` does.
pub open spec fn class_at(r: &Round, k: int) -> ThreadClass {
    r.class@[r.origin@[k] as int]
}

/// What kind of work slot `k` does.
pub fn class_of_slot(r: &Round, k: usize) -> (c: ThreadClass)
    requires
        r.wf(),
        k < MAX_PLACED_CELLS,
    ensures
        c == class_at(r, k as int),
{
    assert(r.origin@[k as int] < MAX_PLACED_CELLS);
    r.class[r.origin[k]]
}

/// Which kinds of work a CPU's tier suits.
#[derive(Copy, Clone, PartialEq, Eq, Debug, Structural)]
pub struct TierSuits {
    pub compute: bool,
    pub bursty: bool,
    pub unknown: bool,
}

impl TierSuits {
    pub open spec fn suits(&self, c: ThreadClass) -> bool {
        match c {
            ThreadClass::Compute => self.compute,
            ThreadClass::Bursty => self.bursty,
            ThreadClass::Unknown => self.unknown,
        }
    }

    pub fn fits(&self, c: ThreadClass) -> (yes: bool)
        ensures
            yes == self.suits(c),
    {
        match c {
            ThreadClass::Compute => self.compute,
            ThreadClass::Bursty => self.bursty,
            ThreadClass::Unknown => self.unknown,
        }
    }
}

/// Whether slot `k` can be claimed for a tier: unclaimed, suited, and not taken.
pub open spec fn tier_hit(r: &Round, k: int, tier: TierSuits) -> bool {
    &&& r.owner@[k] == NOBODY
    &&& tier.suits(class_at(r, k))
    &&& !r.run@[k]
}

/// Whether slot `k` can be stolen: claimed by another CPU, and not taken.
pub open spec fn steal_hit(r: &Round, k: int, cpu: usize) -> bool {
    &&& r.owner@[k] != NOBODY
    &&& r.owner@[k] != cpu
    &&& !r.run@[k]
}

/// Slot `k` is now taken by `cpu`.
pub open spec fn taken_by(before: &Round, after: &Round, k: int, cpu: usize) -> bool {
    &&& !before.run@[k]
    &&& after.run@ == before.run@.update(k, true)
    &&& after.owner@ == before.owner@.update(k, cpu)
    &&& after.cursor == before.cursor
    &&& after.avoidable == before.avoidable
    &&& same_but_marks(before, after)
}

/// Claim the first slot that suits the CPU's tier, where the CPUs differ.
pub fn claim_matching_tier(r: &mut Round, cpu: usize, hybrid: bool, tier: TierSuits) -> (s: Option<usize>)
    requires
        old(r).wf(),
    ensures
        final(r).wf(),
        match s {
            None => {
                &&& *final(r) == *old(r)
                &&& !hybrid || forall|k: int|
                    0 <= k < old(r).count ==> !#[trigger] tier_hit(old(r), k, tier)
            },
            Some(k) => {
                &&& hybrid
                &&& k < old(r).count
                &&& tier_hit(old(r), k as int, tier)
                &&& forall|j: int| 0 <= j < k ==> !#[trigger] tier_hit(old(r), j, tier)
                &&& taken_by(old(r), final(r), k as int, cpu)
                &&& final(r).tier_claims == next_usize(old(r).tier_claims)
                &&& final(r).steals == old(r).steals
            },
        },
{
    if !hybrid {
        return None;
    }
    let mut k: usize = 0;
    while k < r.count
        invariant
            hybrid,
            *r == *old(r),
            r.wf(),
            k <= r.count,
            forall|j: int| 0 <= j < k ==> !#[trigger] tier_hit(r, j, tier),
        decreases r.count - k,
    {
        if r.owner[k] == NOBODY && tier.fits(class_of_slot(r, k)) && !r.run[k] {
            assert(tier_hit(old(r), k as int, tier));
            r.run[k] = true;
            r.owner[k] = cpu;
            r.tier_claims = r.tier_claims.wrapping_add(1);
            return Some(k);
        }
        k = k + 1;
    }
    None
}

/// Take the first slot that another CPU claimed and has not started.
pub fn steal(r: &mut Round, cpu: usize) -> (s: Option<usize>)
    requires
        old(r).wf(),
    ensures
        final(r).wf(),
        match s {
            None => {
                &&& *final(r) == *old(r)
                &&& forall|k: int| 0 <= k < old(r).count ==> !#[trigger] steal_hit(old(r), k, cpu)
            },
            Some(k) => {
                &&& k < old(r).count
                &&& steal_hit(old(r), k as int, cpu)
                &&& forall|j: int| 0 <= j < k ==> !#[trigger] steal_hit(old(r), j, cpu)
                &&& taken_by(old(r), final(r), k as int, cpu)
                &&& final(r).tier_claims == old(r).tier_claims
                &&& final(r).steals == old(r).steals
            },
        },
{
    let mut k: usize = 0;
    while k < r.count
        invariant
            *r == *old(r),
            r.wf(),
            k <= r.count,
            forall|j: int| 0 <= j < k ==> !#[trigger] steal_hit(r, j, cpu),
        decreases r.count - k,
    {
        let owner: usize = r.owner[k];
        if owner != NOBODY && owner != cpu && !r.run[k] {
            assert(steal_hit(old(r), k as int, cpu));
            r.run[k] = true;
            r.owner[k] = cpu;
            return Some(k);
        }
        k = k + 1;
    }
    None
}

/// A tier takes the classes that it is marked for and no other.
pub proof fn law_tier_takes_its_classes(tier: TierSuits)
    ensures
        tier.suits(ThreadClass::Compute) == tier.compute,
        tier.suits(ThreadClass::Bursty) == tier.bursty,
        tier.suits(ThreadClass::Unknown) == tier.unknown,
{
}

/// The home of a CPU is the group of its node: the last one where there are fewer groups
/// than that, and the first where the node is not known.
pub proof fn law_home_is_the_nodes_group(m: u8, groups: nat)
    requires
        groups >= 1,
    ensures
        home_group(None, groups) == 0,
        m < groups ==> home_group(Some(m), groups) == m,
        m >= groups ==> home_group(Some(m), groups) == groups - 1,
        0 <= home_group(Some(m), groups) < groups,
{
}

/// The groups are tried in a ring from the first one on, each once.
pub proof fn law_groups_are_tried_in_a_ring(first: int, step: int, other: int, groups: int)
    requires
        0 <= first < groups,
        0 <= step < groups,
        0 <= other < groups,
    ensures
        0 <= group_after(first, step, groups) < groups,
        group_after(first, step, groups) == (first + step) % groups,
        step != other ==> group_after(first, step, groups) != group_after(first, other, groups),
{
    if first + step < groups {
        vstd::arithmetic::div_mod::lemma_small_mod((first + step) as nat, groups as nat);
    } else {
        vstd::arithmetic::div_mod::lemma_mod_sub_multiples_vanish(first + step, groups);
        vstd::arithmetic::div_mod::lemma_small_mod((first + step - groups) as nat, groups as nat);
    }
}

/// A claim takes the next slot of its group, in order: the slot lies in the group, behind
/// those that are out already, it is out from then on, and no other group moves.
pub proof fn law_claim_takes_the_next_slot(
    before: &Round,
    after: &Round,
    node: Option<u8>,
    slot: usize,
    h: int,
)
    requires
        before.wf(),
        claim_done(before, after, node, Some(slot)),
        0 <= h < before.groups(),
    ensures
        slot < before.count,
        exists|g: int|
            0 <= g < before.groups() && {
                &&& slot == (if g == 0 {
                    0
                } else {
                    before.group_end@[g - 1] as int
                }) + #[trigger] before.cursor@[g]
                &&& slot < before.group_end@[g]
                &&& after.cursor@[g] == before.cursor@[g] + 1
                &&& h != g ==> after.cursor@[h] == before.cursor@[h]
            },
        after.cells == before.cells,
        after.group_end == before.group_end,
        after.done == before.done,
{
    let from = if before.affinity {
        home_group(node, before.groups())
    } else {
        0
    };
    lemma_picked_is_claimable(before, from, 0);
    let g = pick_group(before, from, 0)->0;
    assert(before.cursor@[g] <= MAX_PLACED_CELLS);
    assert(before.group_end@[g] <= before.count);
}

proof fn lemma_picked_is_claimable(r: &Round, first: int, step: int)
    requires
        0 <= step,
        0 <= first < r.groups(),
    ensures
        pick_group(r, first, step) matches Some(g) ==> 0 <= g < r.groups() && r.claimable(g),
    decreases r.groups() - step,
{
    if step < r.groups() && !r.claimable(group_after(first, step, r.groups() as int)) {
        lemma_picked_is_claimable(r, first, step + 1);
    }
}

} // verus!
