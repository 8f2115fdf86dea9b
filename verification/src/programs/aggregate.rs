//! A query over a column in memory, in blocks, and the trials of the rest of what the
//! library computes with.

use vstd::prelude::*;
use crate::kernel::graph;
use crate::kernel::graph::GraphNode;
use crate::user::compute;
use crate::user::compute::{EngineKind, GraphBuilder, In, NodeRef};

verus! {

/// The exit code of a run in which everything was as it should be.
pub const OK_CODE: i32 = 0x42;

/// Rows of the column.
pub const LEN: usize = 4096;

/// Blocks of the query.
pub const N: usize = 8;

/// The sum of the odd numbers from `lo` up to `hi`.
pub open spec fn odd_over(s: Seq<u32>, lo: int, hi: int) -> int
    decreases hi - lo,
{
    if hi <= lo {
        0
    } else {
        odd_over(s, lo, hi - 1) + (if s[hi - 1] % 2 == 1 {
            s[hi - 1] as int
        } else {
            0
        })
    }
}

proof fn lemma_odd_bound(s: Seq<u32>, lo: int, hi: int)
    requires
        lo <= hi,
    ensures
        0 <= odd_over(s, lo, hi) <= (hi - lo) * 0xffff_ffff,
    decreases hi - lo,
{
    if lo < hi {
        lemma_odd_bound(s, lo, hi - 1);
    }
}

proof fn lemma_odd_joins(s: Seq<u32>, lo: int, mid: int, hi: int)
    requires
        lo <= mid <= hi,
    ensures
        odd_over(s, lo, hi) == odd_over(s, lo, mid) + odd_over(s, mid, hi),
    decreases hi - mid,
{
    if mid < hi {
        lemma_odd_joins(s, lo, mid, hi - 1);
    }
}

fn odd_in(data: &Vec<u32>, lo: usize, hi: usize) -> (s: u64)
    requires
        lo <= hi <= data@.len(),
        data@.len() <= u32::MAX,
    ensures
        s == odd_over(data@, lo as int, hi as int),
{
    let mut s: u64 = 0;
    let mut i: usize = lo;
    while i < hi
        invariant
            lo <= i <= hi <= data@.len(),
            data@.len() <= u32::MAX,
            s == odd_over(data@, lo as int, i as int),
        decreases hi - i,
    {
        proof {
            lemma_odd_bound(data@, lo as int, i as int);
            lemma_odd_bound(data@, lo as int, i + 1);
            assert((i + 1 - lo) * 0xffff_ffff <= 0xffff_ffff * 0xffff_ffff);
        }
        if data[i] % 2 == 1 {
            s = s + data[i] as u64;
        }
        i = i + 1;
    }
    s
}

/// What the blocks found adds up to what all of them hold, up to the `n`th.
proof fn lemma_blocks_add_up(
    s: Seq<u32>,
    blocks: Seq<(usize, usize)>,
    found: Seq<u64>,
    accs: Seq<u64>,
    n: int,
)
    requires
        s.len() <= u32::MAX,
        compute::covers(blocks, s.len() as int),
        found.len() == blocks.len(),
        accs.len() == blocks.len() + 1,
        accs[0] == 0,
        forall|k: int|
            0 <= k < blocks.len() ==> #[trigger] found[k] == odd_over(
                s,
                blocks[k].0 as int,
                blocks[k].1 as int,
            ),
        forall|k: int|
            0 <= k < blocks.len() ==> accs[k + 1] == (accs[k] + #[trigger] found[k])
                % 0x1_0000_0000_0000_0000,
        0 <= n <= blocks.len(),
    ensures
        n > 0 ==> accs[n] == odd_over(s, 0, blocks[n - 1].1 as int),
        n == 0 ==> accs[n] == 0,
    decreases n,
{
    if n > 0 {
        lemma_blocks_add_up(s, blocks, found, accs, n - 1);
        let (lo, hi) = blocks[n - 1];
        assert(lo < hi <= s.len());
        if n > 1 {
            assert(blocks[n - 2].1 == blocks[n - 1].0);
        }
        assert(found[n - 1] == odd_over(s, lo as int, hi as int));
        lemma_odd_joins(s, 0, lo as int, hi as int);
        lemma_odd_bound(s, 0, hi as int);
        assert(hi * 0xffff_ffff <= 0xffff_ffff * 0xffff_ffff);
        assert(accs[n] == accs[n - 1] + found[n - 1]);
    }
}

/// The sum of the odd numbers of a column, block by block.
pub fn odd_total(data: &Vec<u32>, parts: usize) -> (s: u64)
    requires
        data@.len() <= u32::MAX,
    ensures
        s == odd_over(data@, 0, data@.len() as int),
{
    let map = |lo: usize, hi: usize| -> (s: u64)
        requires
            lo <= hi <= data@.len(),
            data@.len() <= u32::MAX,
        ensures
            s == odd_over(data@, lo as int, hi as int),
        { odd_in(data, lo, hi) };
    let reduce = |a: u64, b: u64| -> (c: u64)
        ensures
            c == (a + b) % 0x1_0000_0000_0000_0000,
        { a.wrapping_add(b) };
    let s: u64 = compute::map_reduce(data.len(), parts, map, reduce, 0u64);
    proof {
        let (blocks, found, accs) = choose|
            blocks: Seq<(usize, usize)>,
            found: Seq<u64>,
            accs: Seq<u64>,
        |
            compute::covers(blocks, data@.len() as int) && #[trigger] compute::reduced(
                blocks,
                map,
                reduce,
                0u64,
                found,
                accs,
            ) && s == accs.last();
        lemma_blocks_add_up(data@, blocks, found, accs, blocks.len() as int);
    }
    s
}

/// The column that counts its rows.
pub fn counted_column(n: usize) -> (v: Vec<u32>)
    requires
        n <= 0x1_0000,
    ensures
        v@.len() == n,
        forall|i: int| 0 <= i < n ==> #[trigger] v@[i] == i,
{
    let mut v: Vec<u32> = Vec::new();
    let mut i: usize = 0;
    while i < n
        invariant
            i <= n <= 0x1_0000,
            v@.len() == i,
            forall|k: int| 0 <= k < i ==> #[trigger] v@[k] == k,
        decreases n - i,
    {
        v.push(i as u32);
        i = i + 1;
    }
    v
}

/// The odd numbers below an even number add up to the square of its half.
pub proof fn law_odd_numbers_make_a_square(s: Seq<u32>, half: int)
    requires
        0 <= half,
        2 * half <= s.len(),
        forall|i: int| 0 <= i < s.len() ==> #[trigger] s[i] == i,
    ensures
        odd_over(s, 0, 2 * half) == half * half,
    decreases half,
{
    if half > 0 {
        law_odd_numbers_make_a_square(s, half - 1);
        assert(s[2 * half - 1] == 2 * half - 1);
        assert(s[2 * half - 2] == 2 * half - 2);
        assert(odd_over(s, 0, 2 * half) == odd_over(s, 0, 2 * half - 1) + (2 * half - 1));
        assert(odd_over(s, 0, 2 * half - 1) == odd_over(s, 0, 2 * half - 2));
        assert(half * half == (half - 1) * (half - 1) + 2 * half - 1) by (nonlinear_arith);
    } else {
        assert(half * half == 0) by (nonlinear_arith)
            requires
                half == 0,
        ;
    }
}

proof fn lemma_ones(s: Seq<u64>, n: int)
    requires
        0 <= n <= s.len(),
        forall|i: int| 0 <= i < s.len() ==> #[trigger] s[i] == 1,
    ensures
        compute::total(s, 0, n) == n,
    decreases n,
{
    if n > 0 {
        lemma_ones(s, n - 1);
    }
}

/// Running sums over ones count: the trial of the scan.
pub fn scan_of_ones(n: usize, parts: usize) -> (v: Vec<u64>)
    ensures
        v@.len() == n,
        forall|i: int| 0 <= i < n ==> #[trigger] v@[i] == i + 1,
{
    let mut v: Vec<u64> = vec![1u64; n];
    let ghost ones: Seq<u64> = v@;
    compute::scan(&mut v, parts);
    proof {
        assert forall|i: int| 0 <= i < n implies #[trigger] v@[i] == i + 1 by {
            lemma_ones(ones, i + 1);
        }
    }
    v
}

/// Fill every block of a range with its places.
pub fn fill_blocks(n: usize, parts: usize) -> (v: Vec<u64>)
    ensures
        v@.len() == n,
        forall|i: int| 0 <= i < n ==> #[trigger] v@[i] == i,
{
    let blocks: Vec<(usize, usize)> = compute::partition(n, parts);
    let mut v: Vec<u64> = vec![0u64; n];
    let mut k: usize = 0;
    let ghost mut at: int = 0;
    while k < blocks.len()
        invariant
            v@.len() == n,
            compute::covers(blocks@, n as int),
            k <= blocks@.len(),
            at == (if k == 0 {
                0
            } else {
                blocks@[k - 1].1 as int
            }),
            forall|i: int| 0 <= i < at ==> #[trigger] v@[i] == i,
        decreases blocks@.len() - k,
    {
        let (lo, hi) = blocks[k];
        proof {
            assert(blocks@[k as int].0 < blocks@[k as int].1 <= n);
            if k > 0 {
                assert(blocks@[k - 1].1 == blocks@[k as int].0);
            }
        }
        let mut i: usize = lo;
        while i < hi
            invariant
                v@.len() == n,
                lo <= i <= hi <= n,
                forall|x: int| 0 <= x < i ==> #[trigger] v@[x] == x,
            decreases hi - i,
        {
            v[i] = i as u64;
            i = i + 1;
        }
        proof {
            at = hi as int;
        }
        k = k + 1;
    }
    v
}

/// The graph that computes six times seven.
pub open spec fn answer_nodes() -> Seq<GraphNode> {
    seq![
        compute::written(0, In::Imm(6), In::Imm(0)),
        compute::written(1, In::Node(NodeRef(0)), In::Imm(1)),
        compute::written(2, In::Node(NodeRef(1)), In::Node(NodeRef(0))),
    ]
}

/// The graph that computes six times seven.
pub fn answer_graph() -> (g: GraphBuilder)
    ensures
        g.nodes@ == answer_nodes(),
{
    let mut g: GraphBuilder = GraphBuilder::new();
    let n0: NodeRef = g.constant(6);
    let n1: NodeRef = g.add(In::Node(n0), In::Imm(1));
    let _n2: NodeRef = g.mul(In::Node(n1), In::Node(n0));
    g
}

/// What a request for a share of the processor is answered.
#[derive(Copy, Clone, PartialEq, Eq, Debug, Structural)]
pub enum Reserved {
    /// It is granted, with this many parts in a million.
    Granted(u64),
    BadParams,
    Overcommit,
    /// It is refused for another reason.
    Refused,
}

/// A share of the processor that is asked for: so much of every period, by a deadline,
/// and with a floor.
#[derive(Copy, Clone, PartialEq, Eq, Debug, Structural)]
pub struct Share {
    pub budget: u64,
    pub period: u64,
    pub deadline: u64,
    pub floor: u64,
}

/// The share that is to be had: three parts in ten.
pub open spec fn feasible() -> Share {
    Share { budget: 3, period: 10, deadline: 10, floor: 16 }
}

/// A share that nobody can have: twenty parts in ten.
pub open spec fn impossible() -> Share {
    Share { budget: 20, period: 10, deadline: 10, floor: 0 }
}

/// A share that is too much on top of the first: eight parts in ten.
pub open spec fn too_much() -> Share {
    Share { budget: 8, period: 10, deadline: 10, floor: 0 }
}

/// The share of a task that comes round: two parts in twenty.
pub open spec fn task_share() -> Share {
    Share { budget: 2, period: 20, deadline: 20, floor: 0 }
}

/// Where the program is.
#[derive(Copy, Clone, PartialEq, Eq, Debug, Structural)]
pub enum ComputeAt {
    Begun,
    /// The graph was given to the kernel.
    Graph,
    /// The share that is to be had was asked for.
    Feasible,
    /// What is committed was asked for; this much should be.
    Committed(u64),
    /// The share that nobody can have was asked for.
    Impossible,
    /// The share that is too much was asked for.
    TooMuch,
    /// A task that comes round was described.
    Described,
    /// Its share was asked for.
    Task,
    /// Everything was given back, and what is committed was asked for.
    Left,
    /// The kind of the executor was asked for.
    Engine,
    Over,
}

/// What came back.
#[derive(Copy, Clone, PartialEq, Eq, Debug, Structural)]
pub enum ComputeEvent {
    Go,
    /// What the kernel computed from the graph, if it took it.
    Computed(Option<u64>),
    Answered(Reserved),
    /// What is committed, in parts of a million.
    Committed(u64),
    /// Whether the task kept the high priority that it was given.
    Kept(bool),
    Engine(EngineKind),
}

/// What the program asks for.
pub enum ComputeAction {
    /// Give a graph to the kernel.
    Submit(GraphBuilder),
    /// Ask for a share.
    Reserve(Share),
    /// What is committed.
    ReadCommitted,
    /// Describe a task of high priority that comes round, with this share.
    Describe(Share),
    /// Ask for the share of that task.
    Build,
    /// Give back the task's share and the first one; then, what is committed.
    ReleaseAll,
    /// The kind of the executor that the program runs on.
    Introspect,
    /// Leave with this code.
    Done(i32),
}

/// Whether an event is what the program waits for.
pub open spec fn awaits(at: ComputeAt, e: ComputeEvent) -> bool {
    match at {
        ComputeAt::Begun => e is Go,
        ComputeAt::Graph => e is Computed,
        ComputeAt::Feasible => e is Answered,
        ComputeAt::Committed(_) => e is Committed,
        ComputeAt::Impossible => e is Answered,
        ComputeAt::TooMuch => e is Answered,
        ComputeAt::Described => e is Kept,
        ComputeAt::Task => e is Answered,
        ComputeAt::Left => e is Committed,
        ComputeAt::Engine => e is Engine,
        ComputeAt::Over => false,
    }
}

/// The program leaves, with a code.
pub open spec fn leaves(at: ComputeAt, action: ComputeAction, code: i32) -> bool {
    at == ComputeAt::Over && action == ComputeAction::Done(code)
}

/// The program, one part after the other: nothing is asked for after a part that did not
/// go well, and the code is that of the first which did not.
pub open spec fn computed(
    at0: ComputeAt,
    at1: ComputeAt,
    e: ComputeEvent,
    action: ComputeAction,
) -> bool {
    match at0 {
        ComputeAt::Begun => {
            &&& at1 == ComputeAt::Graph
            &&& action matches ComputeAction::Submit(g) && g.nodes@ == answer_nodes()
        },
        ComputeAt::Graph => match e->Computed_0 {
            None => leaves(at1, action, 32),
            Some(v) => if v != 42 {
                leaves(at1, action, 41)
            } else {
                at1 == ComputeAt::Feasible && action == ComputeAction::Reserve(feasible())
            },
        },
        ComputeAt::Feasible => match e->Answered_0 {
            Reserved::Granted(ppm) => if ppm == 0 {
                leaves(at1, action, 51)
            } else {
                at1 == ComputeAt::Committed(ppm) && action is ReadCommitted
            },
            _ => leaves(at1, action, 50),
        },
        ComputeAt::Committed(ppm) => if e->Committed_0 != ppm {
            leaves(at1, action, 52)
        } else {
            at1 == ComputeAt::Impossible && action == ComputeAction::Reserve(impossible())
        },
        ComputeAt::Impossible => if e->Answered_0 != Reserved::BadParams {
            leaves(at1, action, 53)
        } else {
            at1 == ComputeAt::TooMuch && action == ComputeAction::Reserve(too_much())
        },
        ComputeAt::TooMuch => if e->Answered_0 != Reserved::Overcommit {
            leaves(at1, action, 54)
        } else {
            at1 == ComputeAt::Described && action == ComputeAction::Describe(task_share())
        },
        ComputeAt::Described => if !e->Kept_0 {
            leaves(at1, action, 55)
        } else {
            at1 == ComputeAt::Task && action is Build
        },
        ComputeAt::Task => if e->Answered_0 is Granted {
            at1 == ComputeAt::Left && action is ReleaseAll
        } else {
            leaves(at1, action, 56)
        },
        ComputeAt::Left => if e->Committed_0 != 0 {
            leaves(at1, action, 57)
        } else {
            at1 == ComputeAt::Engine && action is Introspect
        },
        ComputeAt::Engine => leaves(
            at1,
            action,
            if e->Engine_0 != EngineKind::Cpu {
                60
            } else {
                OK_CODE
            },
        ),
        ComputeAt::Over => false,
    }
}

/// The code of what the library computes by itself: the prefix sums of ones and the blocks
/// that are filled.
fn own_code() -> (code: i32)
    ensures
        code == 0,
{
    let v: Vec<u64> = scan_of_ones(16, 4);
    let mut i: usize = 0;
    while i < v.len()
        invariant
            i <= v@.len() == 16,
            forall|k: int| 0 <= k < 16 ==> #[trigger] v@[k] == k + 1,
        decreases v@.len() - i,
    {
        if v[i] != i as u64 + 1 {
            return 30;
        }
        i = i + 1;
    }
    let f: Vec<u64> = fill_blocks(64, 8);
    let mut i: usize = 0;
    while i < f.len()
        invariant
            i <= f@.len() == 64,
            forall|k: int| 0 <= k < 64 ==> #[trigger] f@[k] == k,
        decreases f@.len() - i,
    {
        if f[i] != i as u64 {
            return 31;
        }
        i = i + 1;
    }
    0
}

/// Whether the query over the column comes to the square of half its length.
fn query_holds() -> (b: bool)
    ensures
        b,
{
    let data: Vec<u32> = counted_column(LEN);
    let agg: u64 = odd_total(&data, N);
    proof {
        law_odd_numbers_make_a_square(data@, 2048);
        assert(2048 * 2048 == 4194304) by (nonlinear_arith);
    }
    agg == 4194304
}

fn leave(at: &mut ComputeAt, code: i32) -> (action: ComputeAction)
    ensures
        leaves(*final(at), action, code),
{
    *at = ComputeAt::Over;
    ComputeAction::Done(code)
}

fn go_on(at: &mut ComputeAt, next: ComputeAt, action: ComputeAction) -> (r: ComputeAction)
    ensures
        *final(at) == next,
        r == action,
{
    *at = next;
    action
}

/// Take the program one step on.
pub fn run(at: &mut ComputeAt, e: ComputeEvent) -> (action: ComputeAction)
    requires
        awaits(*old(at), e),
    ensures
        computed(*old(at), *final(at), e, action),
{
    match (*at, e) {
        (ComputeAt::Graph, ComputeEvent::Computed(result)) => match result {
            None => leave(at, 32),
            Some(v) => {
                if !query_holds() {
                    leave(at, 40)
                } else if v != 42 {
                    leave(at, 41)
                } else {
                    let share: Share = Share { budget: 3, period: 10, deadline: 10, floor: 16 };
                    go_on(at, ComputeAt::Feasible, ComputeAction::Reserve(share))
                }
            },
        },
        (ComputeAt::Feasible, ComputeEvent::Answered(r)) => match r {
            Reserved::Granted(ppm) => {
                if ppm == 0 {
                    leave(at, 51)
                } else {
                    go_on(at, ComputeAt::Committed(ppm), ComputeAction::ReadCommitted)
                }
            },
            _ => leave(at, 50),
        },
        (ComputeAt::Committed(ppm), ComputeEvent::Committed(now)) => {
            if now != ppm {
                leave(at, 52)
            } else {
                let share: Share = Share { budget: 20, period: 10, deadline: 10, floor: 0 };
                go_on(at, ComputeAt::Impossible, ComputeAction::Reserve(share))
            }
        },
        (ComputeAt::Impossible, ComputeEvent::Answered(r)) => {
            if r != Reserved::BadParams {
                leave(at, 53)
            } else {
                let share: Share = Share { budget: 8, period: 10, deadline: 10, floor: 0 };
                go_on(at, ComputeAt::TooMuch, ComputeAction::Reserve(share))
            }
        },
        (ComputeAt::TooMuch, ComputeEvent::Answered(r)) => {
            if r != Reserved::Overcommit {
                leave(at, 54)
            } else {
                let share: Share = Share { budget: 2, period: 20, deadline: 20, floor: 0 };
                go_on(at, ComputeAt::Described, ComputeAction::Describe(share))
            }
        },
        (ComputeAt::Described, ComputeEvent::Kept(kept)) => {
            if !kept {
                leave(at, 55)
            } else {
                go_on(at, ComputeAt::Task, ComputeAction::Build)
            }
        },
        (ComputeAt::Task, ComputeEvent::Answered(r)) => match r {
            Reserved::Granted(_) => go_on(at, ComputeAt::Left, ComputeAction::ReleaseAll),
            _ => leave(at, 56),
        },
        (ComputeAt::Left, ComputeEvent::Committed(left)) => {
            if left != 0 {
                leave(at, 57)
            } else {
                go_on(at, ComputeAt::Engine, ComputeAction::Introspect)
            }
        },
        (ComputeAt::Engine, ComputeEvent::Engine(kind)) => {
            if kind != EngineKind::Cpu {
                leave(at, 60)
            } else {
                leave(at, OK_CODE)
            }
        },
        (_, _) => {
            let code: i32 = own_code();
            if code != 0 {
                leave(at, code)
            } else {
                go_on(at, ComputeAt::Graph, ComputeAction::Submit(answer_graph()))
            }
        },
    }
}

/// What is added up is the odd numbers and no other, wherever the range is parted.
pub proof fn law_odd_sums_join(s: Seq<u32>, lo: int, mid: int, hi: int)
    requires
        0 <= lo <= mid <= hi <= s.len(),
    ensures
        odd_over(s, lo, mid) + odd_over(s, mid, hi) == odd_over(s, lo, hi),
        lo < hi && s[hi - 1] % 2 == 1 ==> odd_over(s, lo, hi) == odd_over(s, lo, hi - 1) + s[hi - 1],
        lo < hi && s[hi - 1] % 2 == 0 ==> odd_over(s, lo, hi) == odd_over(s, lo, hi - 1),
        odd_over(s, lo, lo) == 0,
    decreases hi - mid,
{
    if mid < hi {
        law_odd_sums_join(s, lo, mid, hi - 1);
    }
}

/// The graph that the program submits is one that the engine takes, and its last node is the
/// answer that the program checks for.
pub proof fn law_graph_gives_the_answer()
    ensures
        graph::first_fault(answer_nodes(), 0) is None,
        graph::value(graph::read_nodes(answer_nodes()), 2) == 42,
{
    let raw = answer_nodes();
    let nodes = graph::read_nodes(raw);
    assert(raw.len() == 3);
    graph::law_list_is_run_or_refused(raw);
    let results = Seq::new(3, |j: int| graph::value(nodes, j));
    graph::law_written_node_is_computed(raw, results, 0, 6, 0);
    graph::law_written_node_is_computed(raw, results, 1, 6, 1);
    graph::law_written_node_is_computed(raw, results, 2, 7, 6);
}

/// The program ends well only where every answer was the right one: the graph gave 42, the
/// share that fits was granted and is what is committed, the share beyond its period was
/// told bad, the one beyond the rest was told too much, and nothing was left at the end.
pub proof fn law_computing_ends_well_only_as_it_should(
    at0: ComputeAt,
    at1: ComputeAt,
    e: ComputeEvent,
    action: ComputeAction,
)
    requires
        computed(at0, at1, e, action),
        awaits(at0, e),
    ensures
        action == ComputeAction::Done(OK_CODE) ==> at0 == ComputeAt::Engine && e->Engine_0 == EngineKind::Cpu,
        at1 == ComputeAt::Engine ==> at0 == ComputeAt::Left && e->Committed_0 == 0,
        at1 == ComputeAt::Left ==> at0 == ComputeAt::Task && e->Answered_0 is Granted,
        at1 == ComputeAt::Task ==> at0 == ComputeAt::Described && e->Kept_0,
        at1 == ComputeAt::Described ==> at0 == ComputeAt::TooMuch && e->Answered_0 == Reserved::Overcommit,
        at1 == ComputeAt::TooMuch ==> at0 == ComputeAt::Impossible && e->Answered_0 == Reserved::BadParams,
        at1 == ComputeAt::Impossible ==> at0 is Committed && e->Committed_0 == at0->Committed_0,
        at1 is Committed ==> at0 == ComputeAt::Feasible && e->Answered_0 == Reserved::Granted(
            at1->Committed_0,
        ) && at1->Committed_0 != 0,
        at1 == ComputeAt::Feasible ==> at0 == ComputeAt::Graph && e->Computed_0 == Some(42u64),
{
}

} // verus!
