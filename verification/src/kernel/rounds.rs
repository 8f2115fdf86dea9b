//! Opening a round of placement, waiting for it, and reporting what it did.

use vstd::prelude::*;
use crate::kernel::cells;
use crate::kernel::cells::{CellTable, Outcome, MAX_CPUS};
use crate::kernel::memory::MAX_CELLS;
use crate::kernel::placement;
use crate::kernel::placement::{Round, ThreadClass, MAX_PLACED_CELLS, NOBODY};
use crate::kernel::work;
use crate::kernel::work::RV_TIMEOUT_NS;

verus! {

/// The code of a vcore that did not exit.
pub const NO_CODE: u64 = u64::MAX;

impl Round {
    /// A round that holds nothing, with affinity on.
    pub fn new() -> (r: Round)
        ensures
            r.wf(),
            untouched(&r),
            r.groups() == 1,
            r.count == 0,
            !r.open,
            !r.preempt,
            r.busy == 0,
            r.affinity,
            forall|k: int|
                0 <= k < MAX_PLACED_CELLS ==> #[trigger] r.class@[k] == ThreadClass::Unknown,
    {
        Round {
            cells: vec![0; MAX_PLACED_CELLS],
            origin: vec![0; MAX_PLACED_CELLS],
            owner: vec![NOBODY; MAX_PLACED_CELLS],
            run: vec![false; MAX_PLACED_CELLS],
            code: vec![NO_CODE; MAX_PLACED_CELLS],
            ran_on: vec![NOBODY; MAX_PLACED_CELLS],
            class: vec![ThreadClass::Unknown; MAX_PLACED_CELLS],
            group_end: vec![0; 1],
            cursor: vec![0; 1],
            count: 0,
            open: false,
            busy: 0,
            done: 0,
            steals: 0,
            tier_claims: 0,
            claims_local: 0,
            claims_remote: 0,
            avoidable: 0,
            taken: vec![0; MAX_CPUS],
            affinity: true,
            preempt: false,
        }
    }
}

/// Turn claiming from the own node first on or off.
pub fn set_node_affinity(r: &mut Round, on: bool)
    ensures
        *final(r) == (Round { affinity: on, ..*old(r) }),
{
    r.affinity = on;
}

/// Claims by CPUs of the cell's own node, and by others.
pub fn node_claims(r: &Round) -> (n: (usize, usize))
    ensures
        n == (r.claims_local, r.claims_remote),
{
    (r.claims_local, r.claims_remote)
}

/// Claims from another node while the CPU's own had slots left.
pub fn avoidable_crossings(r: &Round) -> (n: usize)
    ensures
        n == r.avoidable,
{
    r.avoidable
}

pub fn steals(r: &Round) -> (n: usize)
    ensures
        n == r.steals,
{
    r.steals
}

/// Claims that were made for the CPU's tier.
pub fn tier_claims(r: &Round) -> (n: usize)
    ensures
        n == r.tier_claims,
{
    r.tier_claims
}

/// Vcores that a CPU ran; the last CPU stands for those past the end.
pub fn cells_taken(r: &Round, cpu: usize) -> (n: usize)
    requires
        r.wf(),
    ensures
        n == r.taken@[if cpu < MAX_CPUS {
            cpu as int
        } else {
            MAX_CPUS - 1
        }],
{
    if cpu < MAX_CPUS {
        r.taken[cpu]
    } else {
        r.taken[MAX_CPUS - 1]
    }
}

/// The code that an outcome is reported by.
pub open spec fn outcome_code(o: Outcome) -> u64 {
    match o {
        Outcome::Exited(c) => c,
        _ => NO_CODE,
    }
}

pub fn code_of(o: Outcome) -> (c: u64)
    ensures
        c == outcome_code(o),
{
    match o {
        Outcome::Exited(c) => c,
        _ => NO_CODE,
    }
}

/// The code that an outcome is reported by.
pub fn dbg_code(o: Outcome) -> (c: u64)
    ensures
        c == outcome_code(o),
{
    code_of(o)
}

/// The group of a vcore whose cell is on this node.
pub open spec fn group_of(node: u8, groups: nat) -> int {
    if node < groups {
        node as int
    } else {
        0
    }
}

/// How many of the first `i` nodes fall into group `g`.
pub open spec fn in_group(nodes: Seq<u8>, groups: nat, g: int, i: int) -> nat
    decreases i,
{
    if i <= 0 {
        0
    } else {
        in_group(nodes, groups, g, i - 1) + (if group_of(nodes[i - 1], groups) == g {
            1nat
        } else {
            0
        })
    }
}

/// How many of the first `i` nodes fall into a group below `g`.
pub open spec fn below_group(nodes: Seq<u8>, groups: nat, g: int, i: int) -> nat
    decreases i,
{
    if i <= 0 {
        0
    } else {
        below_group(nodes, groups, g, i - 1) + (if group_of(nodes[i - 1], groups) < g {
            1nat
        } else {
            0
        })
    }
}

proof fn lemma_groups_add_up(nodes: Seq<u8>, groups: nat, g: int, i: int)
    requires
        0 <= g,
        groups >= 1,
    ensures
        below_group(nodes, groups, 0, i) == 0,
        below_group(nodes, groups, g + 1, i) == below_group(nodes, groups, g, i) + in_group(
            nodes,
            groups,
            g,
            i,
        ),
        i >= 0 ==> below_group(nodes, groups, groups as int, i) == i,
        i >= 0 ==> below_group(nodes, groups, g, i) + in_group(nodes, groups, g, i) <= i,
    decreases i,
{
    if i > 0 {
        lemma_groups_add_up(nodes, groups, g, i - 1);
    }
}

proof fn lemma_counts_grow(nodes: Seq<u8>, groups: nat, g: int, i: int, n: int)
    requires
        0 <= i <= n,
    ensures
        in_group(nodes, groups, g, i) <= in_group(nodes, groups, g, n),
    decreases n - i,
{
    if i < n {
        lemma_counts_grow(nodes, groups, g, i + 1, n);
    }
}

/// Which vcores a round takes of those it is given.
pub open spec fn round_size(given: nat, room: nat) -> nat {
    let a = if given < MAX_PLACED_CELLS {
        given
    } else {
        MAX_PLACED_CELLS as nat
    };
    if a < room {
        a
    } else {
        room
    }
}

/// The first `n` vcores stand in the round, group after group, each group in the
/// order they were given.
pub open spec fn laid_out(r: &Round, vids: Seq<usize>, nodes: Seq<u8>, n: int) -> bool {
    &&& r.count == n
    &&& placement::groups_meet(r)
    &&& forall|k: int|
        0 <= k < n ==> #[trigger] r.origin@[k] < n && r.cells@[k] == vids[r.origin@[k] as int]
    &&& forall|j: int, k: int|
        0 <= j < k < n ==> #[trigger] r.origin@[j] != #[trigger] r.origin@[k]
    &&& forall|g: int, k: int|
        #![trigger r.group_end@[g], r.origin@[k]]
        0 <= g < r.groups() && placement::group_start(r.group_end@, g) <= k < r.group_end@[g]
            ==> group_of(nodes[r.origin@[k] as int], r.groups()) == g
    &&& forall|g: int, j: int, k: int|
        #![trigger r.group_end@[g], r.origin@[j], r.origin@[k]]
        0 <= g < r.groups() && placement::group_start(r.group_end@, g) <= j < k < r.group_end@[g]
            ==> r.origin@[j] < r.origin@[k]
}

/// Nothing is claimed, nothing has run, and the counters are at zero.
pub open spec fn untouched(r: &Round) -> bool {
    &&& forall|g: int| 0 <= g < r.groups() ==> #[trigger] r.cursor@[g] == 0
    &&& forall|k: int| 0 <= k < MAX_PLACED_CELLS ==> #[trigger] r.owner@[k] == NOBODY
    &&& forall|k: int| 0 <= k < MAX_PLACED_CELLS ==> !#[trigger] r.run@[k]
    &&& forall|k: int| 0 <= k < MAX_PLACED_CELLS ==> #[trigger] r.code@[k] == NO_CODE
    &&& forall|k: int| 0 <= k < MAX_PLACED_CELLS ==> #[trigger] r.ran_on@[k] == NOBODY
    &&& forall|c: int| 0 <= c < MAX_CPUS ==> #[trigger] r.taken@[c] == 0
    &&& r.done == 0
    &&& r.steals == 0
    &&& r.tier_claims == 0
    &&& r.claims_local == 0
    &&& r.claims_remote == 0
    &&& r.avoidable == 0
}

/// Open a round: publish the vcores, grouped by the node of their cell, for every
/// CPU to claim. `nodes` holds the node of each vcore's cell, `room` how many
/// results the caller can take.
pub fn open_round(
    r: &mut Round,
    vids: &Vec<usize>,
    nodes: &Vec<u8>,
    groups: usize,
    room: usize,
    preempt: bool,
)
    requires
        old(r).wf(),
        groups >= 1,
        nodes@.len() == vids@.len(),
    ensures
        final(r).wf(),
        final(r).groups() == groups,
        laid_out(final(r), vids@, nodes@, round_size(vids@.len(), room as nat) as int),
        untouched(final(r)),
        final(r).open == (final(r).count > 0),
        final(r).preempt == preempt,
        final(r).class == old(r).class,
        final(r).affinity == old(r).affinity,
        final(r).busy == old(r).busy,
{
    let mut n: usize = vids.len();
    if n > MAX_PLACED_CELLS {
        n = MAX_PLACED_CELLS;
    }
    if n > room {
        n = room;
    }
    let mut cells: Vec<usize> = vec![0; MAX_PLACED_CELLS];
    let mut origin: Vec<usize> = vec![0; MAX_PLACED_CELLS];
    let mut group_end: Vec<usize> = Vec::new();
    let mut cursor: Vec<usize> = Vec::new();
    let mut w: usize = 0;
    let mut g: usize = 0;
    proof {
        lemma_groups_add_up(nodes@, groups as nat, 0, n as int);
    }
    while g < groups
        invariant
            g <= groups,
            groups >= 1,
            n <= vids@.len(),
            n <= MAX_PLACED_CELLS,
            nodes@.len() == vids@.len(),
            cells@.len() == MAX_PLACED_CELLS,
            origin@.len() == MAX_PLACED_CELLS,
            group_end@.len() == g,
            cursor@.len() == g,
            w <= n,
            w == below_group(nodes@, groups as nat, g as int, n as int),
            w == placement::group_start(group_end@, g as int),
            forall|h: int| 0 <= h < g ==> #[trigger] group_end@[h] <= w,
            forall|h: int, k: int|
                0 <= h < k < g ==> #[trigger] group_end@[h] <= #[trigger] group_end@[k],
            forall|h: int| 0 <= h < g ==> #[trigger] cursor@[h] == 0,
            forall|k: int| 0 <= k < MAX_PLACED_CELLS ==> #[trigger] origin@[k] < MAX_PLACED_CELLS,
            forall|k: int|
                0 <= k < w ==> #[trigger] origin@[k] < n && cells@[k] == vids@[origin@[k] as int],
            forall|k: int|
                0 <= k < w ==> group_of(nodes@[#[trigger] origin@[k] as int], groups as nat) < g,
            forall|j: int, k: int|
                0 <= j < k < w ==> #[trigger] origin@[j] != #[trigger] origin@[k],
            forall|h: int, k: int|
                #![trigger group_end@[h], origin@[k]]
                0 <= h < g && placement::group_start(group_end@, h) <= k < group_end@[h]
                    ==> group_of(nodes@[origin@[k] as int], groups as nat) == h,
            forall|h: int, j: int, k: int|
                #![trigger group_end@[h], origin@[j], origin@[k]]
                0 <= h < g && placement::group_start(group_end@, h) <= j < k < group_end@[h]
                    ==> origin@[j] < origin@[k],
        decreases groups - g,
    {
        let ghost start = w as int;
        let ghost origin0 = origin@;
        let ghost ends0 = group_end@;
        let mut i: usize = 0;
        proof {
            lemma_groups_add_up(nodes@, groups as nat, g as int, n as int);
        }
        while i < n
            invariant
                g < groups,
                i <= n,
                n <= vids@.len(),
                n <= MAX_PLACED_CELLS,
                nodes@.len() == vids@.len(),
                cells@.len() == MAX_PLACED_CELLS,
                origin@.len() == MAX_PLACED_CELLS,
                origin0.len() == MAX_PLACED_CELLS,
                0 <= start <= w <= n,
                start == below_group(nodes@, groups as nat, g as int, n as int),
                w == start + in_group(nodes@, groups as nat, g as int, i as int),
                below_group(nodes@, groups as nat, g as int, n as int) + in_group(
                    nodes@,
                    groups as nat,
                    g as int,
                    n as int,
                ) <= n,
                forall|k: int|
                    0 <= k < MAX_PLACED_CELLS ==> #[trigger] origin@[k] < MAX_PLACED_CELLS,
                forall|k: int| 0 <= k < start ==> #[trigger] origin@[k] == origin0[k],
                forall|k: int|
                    0 <= k < w ==> #[trigger] origin@[k] < n && cells@[k]
                        == vids@[origin@[k] as int],
                forall|k: int|
                    0 <= k < start ==> group_of(
                        nodes@[#[trigger] origin@[k] as int],
                        groups as nat,
                    ) < g,
                forall|k: int|
                    start <= k < w ==> group_of(
                        nodes@[#[trigger] origin@[k] as int],
                        groups as nat,
                    ) == g && origin@[k] < i,
                forall|j: int, k: int|
                    start <= j < k < w ==> #[trigger] origin@[j] < #[trigger] origin@[k],
                forall|j: int, k: int|
                    0 <= j < k < w ==> #[trigger] origin@[j] != #[trigger] origin@[k],
            decreases n - i,
        {
            let node: u8 = nodes[i];
            let cg: usize = if (node as usize) < groups { node as usize } else { 0 };
            proof {
                lemma_counts_grow(nodes@, groups as nat, g as int, i + 1, n as int);
            }
            if cg == g {
                cells[w] = vids[i];
                origin[w] = i;
                w = w + 1;
            }
            i = i + 1;
        }
        group_end.push(w);
        cursor.push(0);
        proof {
            assert forall|h: int, k: int|
                #![trigger group_end@[h], origin@[k]]
                0 <= h < g + 1 && placement::group_start(group_end@, h) <= k
                    < group_end@[h] implies group_of(nodes@[origin@[k] as int], groups as nat)
                == h by {
                if h < g {
                    assert(group_end@[h] == ends0[h]);
                    assert(placement::group_start(group_end@, h) == placement::group_start(ends0, h));
                    if h > 0 {
                        assert(group_end@[h - 1] == ends0[h - 1]);
                    }
                    assert(k < start);
                    assert(k >= 0);
                    assert(origin@[k] == origin0[k]);
                }
            }
            assert forall|h: int, j: int, k: int|
                #![trigger group_end@[h], origin@[j], origin@[k]]
                0 <= h < g + 1 && placement::group_start(group_end@, h) <= j < k
                    < group_end@[h] implies origin@[j] < origin@[k] by {
                if h < g {
                    assert(group_end@[h] == ends0[h]);
                    assert(placement::group_start(group_end@, h) == placement::group_start(ends0, h));
                    if h > 0 {
                        assert(group_end@[h - 1] == ends0[h - 1]);
                    }
                    assert(origin@[j] == origin0[j]);
                    assert(origin@[k] == origin0[k]);
                }
            }
        }
        g = g + 1;
    }
    proof {
        lemma_groups_add_up(nodes@, groups as nat, groups as int, n as int);
        assert(w == n);
    }
    r.cells = cells;
    r.origin = origin;
    r.group_end = group_end;
    r.cursor = cursor;
    r.owner = vec![NOBODY; MAX_PLACED_CELLS];
    r.run = vec![false; MAX_PLACED_CELLS];
    r.code = vec![NO_CODE; MAX_PLACED_CELLS];
    r.ran_on = vec![NOBODY; MAX_PLACED_CELLS];
    r.taken = vec![0; MAX_CPUS];
    r.claims_local = 0;
    r.claims_remote = 0;
    r.avoidable = 0;
    r.steals = 0;
    r.tier_claims = 0;
    r.done = 0;
    r.preempt = preempt;
    r.count = n;
    r.open = n > 0;
}

/// The node of the cell that an entity belongs to; one that there is not counts for the
/// first cell.
pub open spec fn node_of(t: &CellTable, vid: usize) -> u8 {
    if vid < cells::MAX_VCORES * MAX_CELLS {
        t.cells@[vid as int / cells::MAX_VCORES as int].node
    } else {
        t.cells@[0].node
    }
}

/// The nodes of the cells that some entities belong to.
pub fn nodes_of(t: &CellTable, vids: &Vec<usize>) -> (nodes: Vec<u8>)
    requires
        t.wf(),
    ensures
        nodes@.len() == vids@.len(),
        forall|i: int| 0 <= i < vids@.len() ==> #[trigger] nodes@[i] == node_of(t, vids@[i]),
{
    let mut nodes: Vec<u8> = Vec::new();
    let mut i: usize = 0;
    while i < vids.len()
        invariant
            t.wf(),
            i <= vids@.len(),
            nodes@.len() == i,
            forall|j: int| 0 <= j < i ==> #[trigger] nodes@[j] == node_of(t, vids@[j]),
        decreases vids@.len() - i,
    {
        let cell: usize = match cells::entity_pair(vids[i]) {
            Some((c, v)) => {
                assert(vids@[i as int] as int / cells::MAX_VCORES as int == c);
                c
            },
            None => 0,
        };
        nodes.push(cells::cell_node(t, cell));
        i = i + 1;
    }
    nodes
}

/// The entities of the first vcores of some cells.
fn first_vcores(cell_ids: &Vec<usize>) -> (vids: Vec<usize>)
    requires
        forall|i: int| 0 <= i < cell_ids@.len() ==> #[trigger] cell_ids@[i] < MAX_CELLS,
    ensures
        vids@.len() == cell_ids@.len(),
        forall|i: int|
            0 <= i < cell_ids@.len() ==> #[trigger] vids@[i] == cells::entity(
                cell_ids@[i] as int,
                0,
            ),
{
    let mut vids: Vec<usize> = Vec::new();
    let mut i: usize = 0;
    while i < cell_ids.len()
        invariant
            i <= cell_ids@.len(),
            vids@.len() == i,
            forall|j: int| 0 <= j < cell_ids@.len() ==> #[trigger] cell_ids@[j] < MAX_CELLS,
            forall|j: int|
                0 <= j < i ==> #[trigger] vids@[j] == cells::entity(cell_ids@[j] as int, 0),
        decreases cell_ids@.len() - i,
    {
        vids.push(cells::entity_of(cell_ids[i], 0));
        i = i + 1;
    }
    vids
}

/// The entities of the first vcores of some cells.
pub open spec fn cell_entities(cell_ids: Seq<usize>) -> Seq<usize> {
    cell_ids.map_values(|c: usize| cells::entity(c as int, 0) as usize)
}

/// What opening a round on these vcores does.
pub open spec fn round_opened(
    before: &Round,
    after: &Round,
    vids: Seq<usize>,
    nodes: Seq<u8>,
    groups: usize,
    room: usize,
    preempt: bool,
) -> bool {
    &&& after.wf()
    &&& after.groups() == groups
    &&& laid_out(after, vids, nodes, round_size(vids.len(), room as nat) as int)
    &&& untouched(after)
    &&& after.open == (after.count > 0)
    &&& after.preempt == preempt
    &&& after.affinity == before.affinity
    &&& after.busy == before.busy
}

/// Open a round on vcores that run to their end.
pub fn place_vcores(r: &mut Round, vids: &Vec<usize>, nodes: &Vec<u8>, groups: usize, room: usize)
    requires
        old(r).wf(),
        groups >= 1,
        nodes@.len() == vids@.len(),
    ensures
        round_opened(old(r), final(r), vids@, nodes@, groups, room, false),
        final(r).class == old(r).class,
{
    open_round(r, vids, nodes, groups, room, false);
}

/// Open a round on the first vcores of some cells, which run to their end.
pub fn place_cells(r: &mut Round, cell_ids: &Vec<usize>, nodes: &Vec<u8>, groups: usize, room: usize)
    requires
        old(r).wf(),
        groups >= 1,
        nodes@.len() == cell_ids@.len(),
        forall|i: int| 0 <= i < cell_ids@.len() ==> #[trigger] cell_ids@[i] < MAX_CELLS,
    ensures
        round_opened(old(r), final(r), cell_entities(cell_ids@), nodes@, groups, room, false),
        final(r).class == old(r).class,
{
    let vids: Vec<usize> = first_vcores(cell_ids);
    assert(vids@ =~= cell_entities(cell_ids@));
    open_round(r, &vids, nodes, groups, room, false);
}

/// Open a round on the first vcores of some cells, which run in slices.
pub fn place_cells_preemptive(
    r: &mut Round,
    cell_ids: &Vec<usize>,
    nodes: &Vec<u8>,
    groups: usize,
    room: usize,
)
    requires
        old(r).wf(),
        groups >= 1,
        nodes@.len() == cell_ids@.len(),
        forall|i: int| 0 <= i < cell_ids@.len() ==> #[trigger] cell_ids@[i] < MAX_CELLS,
    ensures
        round_opened(old(r), final(r), cell_entities(cell_ids@), nodes@, groups, room, true),
        final(r).class == old(r).class,
{
    let vids: Vec<usize> = first_vcores(cell_ids);
    assert(vids@ =~= cell_entities(cell_ids@));
    open_round(r, &vids, nodes, groups, room, true);
}

/// Open a round on the first vcores of some cells, each with the kind of work it
/// does; the kind of those past the end of the list is not known.
pub fn place_cells_classed(
    r: &mut Round,
    cell_ids: &Vec<usize>,
    classes: &Vec<ThreadClass>,
    nodes: &Vec<u8>,
    groups: usize,
    room: usize,
)
    requires
        old(r).wf(),
        groups >= 1,
        nodes@.len() == cell_ids@.len(),
        forall|i: int| 0 <= i < cell_ids@.len() ==> #[trigger] cell_ids@[i] < MAX_CELLS,
    ensures
        round_opened(old(r), final(r), cell_entities(cell_ids@), nodes@, groups, room, false),
        forall|k: int|
            0 <= k < MAX_PLACED_CELLS ==> #[trigger] final(r).class@[k] == (if k
                < classes@.len() {
                classes@[k]
            } else {
                ThreadClass::Unknown
            }),
{
    let vids: Vec<usize> = first_vcores(cell_ids);
    assert(vids@ =~= cell_entities(cell_ids@));
    let mut class: Vec<ThreadClass> = Vec::new();
    let mut k: usize = 0;
    while k < MAX_PLACED_CELLS
        invariant
            k <= MAX_PLACED_CELLS,
            class@.len() == k,
            forall|j: int|
                0 <= j < k ==> #[trigger] class@[j] == (if j < classes@.len() {
                    classes@[j]
                } else {
                    ThreadClass::Unknown
                }),
        decreases MAX_PLACED_CELLS - k,
    {
        if k < classes.len() {
            class.push(classes[k]);
        } else {
            class.push(ThreadClass::Unknown);
        }
        k = k + 1;
    }
    r.class = class;
    open_round(r, &vids, nodes, groups, room, false);
}

/// What a CPU that waits does next.
#[derive(Copy, Clone, PartialEq, Eq, Debug, Structural)]
pub enum Wait {
    /// What it waits for has come.
    Done,
    /// The deadline has passed.
    TimedOut,
    /// Look again.
    Again,
}

/// Look whether every vcore of the round is done. At the deadline the round is
/// closed; it is also closed when it is done.
pub fn await_round(r: &mut Round, now: u64, deadline: u64) -> (w: Wait)
    requires
        old(r).wf(),
    ensures
        final(r).wf(),
        w == work::waited(old(r).done >= old(r).count, now, deadline),
        *final(r) == (if w == Wait::Again {
            *old(r)
        } else {
            Round { open: false, ..*old(r) }
        }),
{
    if r.done >= r.count {
        r.open = false;
        Wait::Done
    } else if now >= deadline {
        r.open = false;
        Wait::TimedOut
    } else {
        Wait::Again
    }
}

/// Look whether every CPU has left the round, up to a deadline.
pub fn quiesce(r: &Round, now: u64, deadline: u64) -> (w: Wait)
    ensures
        w == work::waited(r.busy == 0, now, deadline),
{
    if r.busy == 0 {
        Wait::Done
    } else if now >= deadline {
        Wait::TimedOut
    } else {
        Wait::Again
    }
}

/// Forget the kinds of work.
pub fn clear_classes(r: &mut Round)
    requires
        old(r).wf(),
    ensures
        final(r).wf(),
        forall|k: int|
            0 <= k < MAX_PLACED_CELLS ==> #[trigger] final(r).class@[k] == ThreadClass::Unknown,
        *final(r) == (Round { class: final(r).class, ..*old(r) }),
{
    r.class = vec![ThreadClass::Unknown; MAX_PLACED_CELLS];
}

/// Hand the results out in the order in which the vcores were given. A place that
/// belongs to none of them keeps what it held.
pub fn report(r: &Round, out: &mut Vec<(u64, usize)>)
    requires
        r.wf(),
        origins_differ(r),
    ensures
        reported(r, old(out)@, final(out)@),
{
    let mut k: usize = 0;
    while k < r.count
        invariant
            r.wf(),
            k <= r.count,
            out@.len() == old(out)@.len(),
            forall|j: int, l: int|
                0 <= j < l < r.count ==> #[trigger] r.origin@[j] != #[trigger] r.origin@[l],
            forall|j: int|
                0 <= j < k && r.origin@[j] < out@.len() ==> out@[#[trigger] r.origin@[j] as int]
                    == (r.code@[j], r.ran_on@[j]),
            forall|i: int|
                0 <= i < out@.len() && (forall|j: int|
                    0 <= j < r.count ==> #[trigger] r.origin@[j] != i) ==> #[trigger] out@[i]
                    == old(out)@[i],
        decreases r.count - k,
    {
        let i: usize = r.origin[k];
        if i < out.len() {
            out[i] = (r.code[k], r.ran_on[k]);
        }
        k = k + 1;
    }
}

/// Where the CPU that opened a round is.
#[derive(Copy, Clone, PartialEq, Eq, Debug, Structural)]
pub enum PlacingAt {
    /// The round is open.
    Opened,
    /// It has worked through the round itself.
    Drained,
    /// Waits for the others up to a deadline.
    Waiting(u64),
    /// The round is closed; whether it was done.
    Closed(bool),
    /// Waits for the others to leave up to a deadline.
    Settling(bool, u64),
    Over,
}

/// What the CPU that opened a round does next.
#[derive(Copy, Clone, PartialEq, Eq, Debug, Structural)]
pub enum PlacingAction {
    /// Take the time and step again.
    Look,
    /// Let the others on, and step again.
    Spin,
    /// Work through the round, and step again.
    Drain,
    /// Over: whether every vcore was run.
    Return(bool),
}

/// The results stand in the order in which the vcores were given.
pub open spec fn reported(r: &Round, before: Seq<(u64, usize)>, after: Seq<(u64, usize)>) -> bool {
    &&& after.len() == before.len()
    &&& forall|k: int|
        0 <= k < r.count && r.origin@[k] < before.len() ==> after[#[trigger] r.origin@[k] as int]
            == (r.code@[k], r.ran_on@[k])
    &&& forall|i: int|
        0 <= i < before.len() && (forall|k: int|
            0 <= k < r.count ==> #[trigger] r.origin@[k] != i) ==> #[trigger] after[i]
            == before[i]
}

/// No two slots hold the same place of the caller's list.
pub open spec fn origins_differ(r: &Round) -> bool {
    forall|j: int, k: int|
        0 <= j < k < r.count ==> #[trigger] r.origin@[j] != #[trigger] r.origin@[k]
}

/// Take the CPU that opened a round one step on: it works through the round, waits for
/// the others, closes the round and waits until they have left it. The results are
/// handed out only where every vcore is done.
pub fn place_vcores_inner(
    r: &mut Round,
    at: &mut PlacingAt,
    now: u64,
    out: &mut Vec<(u64, usize)>,
) -> (action: PlacingAction)
    requires
        old(r).wf(),
        origins_differ(old(r)),
        *old(at) != PlacingAt::Over,
    ensures
        final(r).wf(),
        match *old(at) {
            PlacingAt::Opened => {
                &&& action == PlacingAction::Drain
                &&& *final(at) == PlacingAt::Drained
                &&& *final(r) == *old(r)
                &&& final(out)@ == old(out)@
            },
            PlacingAt::Drained => {
                &&& action == PlacingAction::Look
                &&& *final(at) == PlacingAt::Waiting(work::after(now, RV_TIMEOUT_NS))
                &&& *final(r) == *old(r)
                &&& final(out)@ == old(out)@
            },
            PlacingAt::Waiting(deadline) => {
                let w = work::waited(old(r).done >= old(r).count, now, deadline);
                &&& final(out)@ == old(out)@
                &&& if w == Wait::Again {
                    &&& action == PlacingAction::Spin
                    &&& *final(at) == *old(at)
                    &&& *final(r) == *old(r)
                } else {
                    &&& action == PlacingAction::Look
                    &&& *final(at) == PlacingAt::Closed(w == Wait::Done)
                    &&& *final(r) == (Round { open: false, ..*old(r) })
                }
            },
            PlacingAt::Closed(done) => {
                &&& action == PlacingAction::Look
                &&& *final(at) == PlacingAt::Settling(done, work::after(now, RV_TIMEOUT_NS))
                &&& *final(r) == *old(r)
                &&& final(out)@ == old(out)@
            },
            PlacingAt::Settling(done, deadline) => {
                &&& *final(r) == *old(r)
                &&& if old(r).busy > 0 && now < deadline {
                    &&& action == PlacingAction::Spin
                    &&& *final(at) == *old(at)
                    &&& final(out)@ == old(out)@
                } else {
                    &&& action == PlacingAction::Return(done)
                    &&& *final(at) == PlacingAt::Over
                    &&& if done {
                        reported(old(r), old(out)@, final(out)@)
                    } else {
                        final(out)@ == old(out)@
                    }
                }
            },
            PlacingAt::Over => false,
        },
{
    match *at {
        PlacingAt::Opened => {
            *at = PlacingAt::Drained;
            PlacingAction::Drain
        },
        PlacingAt::Drained => {
            *at = PlacingAt::Waiting(work::deadline_after(now, RV_TIMEOUT_NS));
            PlacingAction::Look
        },
        PlacingAt::Waiting(deadline) => match await_round(r, now, deadline) {
            Wait::Again => PlacingAction::Spin,
            Wait::Done => {
                *at = PlacingAt::Closed(true);
                PlacingAction::Look
            },
            Wait::TimedOut => {
                *at = PlacingAt::Closed(false);
                PlacingAction::Look
            },
        },
        PlacingAt::Closed(done) => {
            *at = PlacingAt::Settling(done, work::deadline_after(now, RV_TIMEOUT_NS));
            PlacingAction::Look
        },
        PlacingAt::Settling(done, deadline) => match quiesce(r, now, deadline) {
            Wait::Again => PlacingAction::Spin,
            _ => {
                if done {
                    report(r, out);
                }
                *at = PlacingAt::Over;
                PlacingAction::Return(done)
            },
        },
        PlacingAt::Over => PlacingAction::Look,
    }
}

/// Every vcore of a round is published exactly once: no two slots hold the same
/// place of the caller's list, and every place that the round takes has a slot.
pub proof fn law_round_holds_each_vcore_once(
    r: &Round,
    vids: Seq<usize>,
    nodes: Seq<u8>,
    n: int,
    i: int,
)
    requires
        r.wf(),
        0 <= n,
        laid_out(r, vids, nodes, n),
        0 <= i < n,
    ensures
        exists|k: int| 0 <= k < n && #[trigger] r.origin@[k] == i && r.cells@[k] == vids[i],
        forall|j: int, k: int|
            0 <= j < n && 0 <= k < n && #[trigger] r.origin@[j] == #[trigger] r.origin@[k] ==> j
                == k,
{
    let s = Seq::new(n as nat, |k: int| r.origin@[k] as int);
    lemma_injection_is_onto(s, n as nat, i);
    let k = choose|k: int| 0 <= k < n && #[trigger] s[k] == i;
    assert(r.origin@[k] == i);
}

/// Every vcore that the round took has its result handed out, in the place in which it was
/// given: the code with which it ended, and the CPU that it ran on.
pub proof fn law_every_result_is_reported(
    r: &Round,
    vids: Seq<usize>,
    nodes: Seq<u8>,
    n: int,
    before: Seq<(u64, usize)>,
    after: Seq<(u64, usize)>,
    i: int,
)
    requires
        r.wf(),
        0 <= i < n <= before.len(),
        laid_out(r, vids, nodes, n),
        reported(r, before, after),
    ensures
        exists|k: int|
            0 <= k < n && #[trigger] r.cells@[k] == vids[i] && after[i] == (
                r.code@[k],
                r.ran_on@[k],
            ),
{
    law_round_holds_each_vcore_once(r, vids, nodes, n, i);
    let k = choose|k: int| 0 <= k < n && #[trigger] r.origin@[k] == i && r.cells@[k] == vids[i];
    assert(after[r.origin@[k] as int] == (r.code@[k], r.ran_on@[k]));
    assert(r.cells@[k] == vids[i]);
}

/// `n` different numbers below `n` are all of them.
proof fn lemma_injection_is_onto(s: Seq<int>, n: nat, i: int)
    requires
        s.len() == n,
        forall|k: int| 0 <= k < n ==> 0 <= #[trigger] s[k] < n,
        forall|j: int, k: int| 0 <= j < k < n ==> #[trigger] s[j] != #[trigger] s[k],
        0 <= i < n,
    ensures
        exists|k: int| 0 <= k < n && #[trigger] s[k] == i,
{
    if forall|k: int| 0 <= k < n ==> #[trigger] s[k] != i {
        // Then n different numbers stand in a set of n - 1.
        let all = vstd::set_lib::set_int_range(0, n as int);
        vstd::set_lib::lemma_int_range(0, n as int);
        assert(s.no_duplicates());
        s.unique_seq_to_set();
        assert(s.to_set().subset_of(all.remove(i)));
        vstd::set_lib::lemma_len_subset(s.to_set(), all.remove(i));
        assert(false);
    }
}

/// What is reported of a vcore that exited is its code, and of one that faulted the number
/// that no exit is reported with.
pub proof fn law_only_exits_have_codes(code: u64, addr: u64)
    ensures
        outcome_code(Outcome::Exited(code)) == code,
        outcome_code(Outcome::Faulted(addr)) == u64::MAX,
{
}

/// A vcore is placed with its node's group, or with the first where the machine has no
/// such group.
pub proof fn law_vcores_go_to_their_nodes(node: u8, groups: nat)
    requires
        groups >= 1,
    ensures
        node < groups ==> group_of(node, groups) == node,
        node >= groups ==> group_of(node, groups) == 0,
{
}

/// A round takes as many as it is given, up to what it has room for and to what a round
/// can hold.
pub proof fn law_round_takes_what_fits(given: nat, room: nat)
    ensures
        round_size(given, room) <= given,
        round_size(given, room) <= room,
        round_size(given, room) <= MAX_PLACED_CELLS,
        round_size(given, room) == given || round_size(given, room) == room || round_size(given, room)
            == MAX_PLACED_CELLS,
{
}

/// The entities of a list of cells are their first vcores, in the order of the list, each
/// on its cell's node.
pub proof fn law_cells_stand_for_their_first_vcores(t: &CellTable, cell_ids: Seq<usize>, i: int)
    requires
        0 <= i < cell_ids.len(),
        cell_ids[i] < MAX_CELLS,
    ensures
        cell_entities(cell_ids).len() == cell_ids.len(),
        cell_entities(cell_ids)[i] == 4 * cell_ids[i],
        node_of(t, cell_entities(cell_ids)[i]) == t.cells@[cell_ids[i] as int].node,
{
}

/// A round that was opened holds what it was given, up to its room: each slot is a vcore of
/// the list, no two the same one, in the group of its node; none is claimed, run or ended yet;
/// and it is open exactly where it holds any.
pub proof fn law_opened_round_holds_the_list(
    before: &Round,
    after: &Round,
    vids: Seq<usize>,
    nodes: Seq<u8>,
    groups: usize,
    room: usize,
    preempt: bool,
    j: int,
    k: int,
)
    requires
        round_opened(before, after, vids, nodes, groups, room, preempt),
        0 <= j < k < after.count,
    ensures
        after.count <= vids.len(),
        after.count <= room,
        vids.len() <= room && vids.len() <= MAX_PLACED_CELLS ==> after.count == vids.len(),
        exists|i: int| 0 <= i < vids.len() && #[trigger] vids[i] == after.cells@[k],
        after.origin@[j] != after.origin@[k],
        after.cells@[k] == vids[after.origin@[k] as int],
        after.owner@[k] == NOBODY,
        !after.run@[k],
        after.ran_on@[k] == NOBODY,
        after.done == 0,
        after.open,
        after.preempt == preempt,
{
    assert(after.origin@[k] < after.count);
    assert(vids[after.origin@[k] as int] == after.cells@[k]);
    assert(after.origin@[j] != after.origin@[k]);
}

} // verus!
