//! Graphs of arithmetic that a cell hands to the kernel's engine: every node takes
//! immediate values or the results of earlier nodes.

use vstd::prelude::*;

verus! {

/// What a node computes.
#[derive(Copy, Clone, PartialEq, Eq, Debug, Structural)]
pub enum Op {
    Const(u64),
    Add,
    Mul,
    /// The second input where the first is not zero, and zero where it is.
    Select,
}

/// An input of a node.
#[derive(Copy, Clone, PartialEq, Eq, Debug, Structural)]
pub enum Input {
    Node(u64),
    Imm(u64),
}

#[derive(Copy, Clone, PartialEq, Eq, Debug, Structural)]
pub struct Node {
    pub op: Op,
    pub a: Input,
    pub b: Input,
}

/// A node as a cell writes it: the number of the operation, and for each input
/// whether it is a node.
#[derive(Copy, Clone, PartialEq, Eq, Debug, Structural)]
pub struct GraphNode {
    pub op: u32,
    pub a_is_node: u32,
    pub b_is_node: u32,
    pub a: u64,
    pub b: u64,
}

/// How a graph was answered.
#[derive(Copy, Clone, PartialEq, Eq, Debug, Structural)]
pub enum Status {
    Done,
    BadOpcode,
    Denied,
}

/// The sum, on numbers that wrap.
pub open spec fn wrap_add(a: u64, b: u64) -> u64 {
    ((a + b) % 0x1_0000_0000_0000_0000) as u64
}

/// The product, on numbers that wrap.
pub open spec fn wrap_mul(a: u64, b: u64) -> u64 {
    ((a * b) % 0x1_0000_0000_0000_0000) as u64
}

/// What an operation makes of its inputs.
pub open spec fn op_value(op: Op, a: u64, b: u64) -> u64 {
    match op {
        Op::Const(v) => v,
        Op::Add => wrap_add(a, b),
        Op::Mul => wrap_mul(a, b),
        Op::Select => if a != 0 {
            b
        } else {
            0
        },
    }
}

/// Whether an input stands before node `i`.
pub open spec fn input_before(x: Input, i: int) -> bool {
    match x {
        Input::Node(n) => n < i,
        Input::Imm(_) => true,
    }
}

/// The result of node `i`.
pub open spec fn value(nodes: Seq<Node>, i: int) -> u64
    decreases i, 1int,
{
    if 0 <= i < nodes.len() {
        op_value(
            nodes[i].op,
            input_value(nodes, nodes[i].a, i),
            input_value(nodes, nodes[i].b, i),
        )
    } else {
        0
    }
}

/// The value of an input of node `i`.
pub open spec fn input_value(nodes: Seq<Node>, x: Input, i: int) -> u64
    decreases i, 0int,
{
    match x {
        Input::Imm(v) => v,
        Input::Node(n) => if 0 <= n < i {
            value(nodes, n as int)
        } else {
            0
        },
    }
}

/// A graph of at most `limit` nodes.
pub struct Graph {
    pub nodes: Vec<Node>,
    pub limit: usize,
}

impl Graph {
    /// Every input stands before the node that takes it.
    pub open spec fn wf(&self) -> bool {
        &&& self.nodes@.len() <= self.limit
        &&& forall|i: int|
            0 <= i < self.nodes@.len() ==> input_before((#[trigger] self.nodes@[i]).a, i)
                && input_before(self.nodes@[i].b, i)
    }

    pub fn new(limit: usize) -> (g: Graph)
        ensures
            g.wf(),
            g.nodes@.len() == 0,
            g.limit == limit,
    {
        Graph { nodes: Vec::new(), limit }
    }

    /// Append a node. It is refused where the graph is full and where an input does
    /// not stand before it.
    pub fn push(&mut self, op: Op, a: Input, b: Input) -> (r: Result<usize, ()>)
        requires
            old(self).wf(),
        ensures
            final(self).wf(),
            final(self).limit == old(self).limit,
            r is Ok <==> old(self).nodes@.len() < old(self).limit && input_before(
                a,
                old(self).nodes@.len() as int,
            ) && input_before(b, old(self).nodes@.len() as int),
            r is Ok ==> r->Ok_0 == old(self).nodes@.len() && final(self).nodes@
                == old(self).nodes@.push(Node { op, a, b }),
            r is Err ==> final(self).nodes@ == old(self).nodes@,
    {
        let n: usize = self.nodes.len();
        if n >= self.limit || !stands_before(a, n) || !stands_before(b, n) {
            return Err(());
        }
        self.nodes.push(Node { op, a, b });
        proof {
            assert forall|i: int| 0 <= i < self.nodes@.len() implies input_before(
                (#[trigger] self.nodes@[i]).a,
                i,
            ) && input_before(self.nodes@[i].b, i) by {
                if i < n {
                    assert(self.nodes@[i] == old(self).nodes@[i]);
                }
            }
        }
        Ok(n)
    }

    /// Compute every node, in order.
    pub fn run(&self) -> (results: Vec<u64>)
        requires
            self.wf(),
        ensures
            results@.len() == self.nodes@.len(),
            forall|i: int|
                0 <= i < self.nodes@.len() ==> #[trigger] results@[i] == value(self.nodes@, i),
    {
        let mut results: Vec<u64> = Vec::new();
        let mut i: usize = 0;
        while i < self.nodes.len()
            invariant
                self.wf(),
                i <= self.nodes@.len(),
                results@.len() == i,
                forall|j: int| 0 <= j < i ==> #[trigger] results@[j] == value(self.nodes@, j),
            decreases self.nodes@.len() - i,
        {
            let node: Node = self.nodes[i];
            assert(input_before(self.nodes@[i as int].a, i as int));
            let a: u64 = match node.a {
                Input::Imm(v) => v,
                Input::Node(n) => results[n as usize],
            };
            let b: u64 = match node.b {
                Input::Imm(v) => v,
                Input::Node(n) => results[n as usize],
            };
            let r: u64 = match node.op {
                Op::Const(v) => v,
                Op::Add => a.wrapping_add(b),
                Op::Mul => a.wrapping_mul(b),
                Op::Select => if a != 0 {
                    b
                } else {
                    0
                },
            };
            results.push(r);
            i = i + 1;
        }
        results
    }
}

fn stands_before(x: Input, n: usize) -> (b: bool)
    ensures
        b == input_before(x, n as int),
{
    match x {
        Input::Node(k) => k < n as u64,
        Input::Imm(_) => true,
    }
}

/// An input as a cell writes it.
pub open spec fn wired(is_node: u32, v: u64) -> Input {
    if is_node != 0 {
        Input::Node(v)
    } else {
        Input::Imm(v)
    }
}

fn wire_input(is_node: u32, v: u64) -> (x: Input)
    ensures
        x == wired(is_node, v),
{
    if is_node != 0 {
        Input::Node(v)
    } else {
        Input::Imm(v)
    }
}

/// The operation with a number, if there is one.
pub open spec fn op_numbered(n: GraphNode) -> Option<Op> {
    if n.op == 0 {
        Some(Op::Const(n.a))
    } else if n.op == 1 {
        Some(Op::Add)
    } else if n.op == 2 {
        Some(Op::Mul)
    } else if n.op == 3 {
        Some(Op::Select)
    } else {
        None
    }
}

/// What is wrong with node `i` of a list, if anything.
pub open spec fn fault_at(raw: Seq<GraphNode>, i: int) -> Option<Status> {
    if op_numbered(raw[i]) is None {
        Some(Status::BadOpcode)
    } else if !input_before(wired(raw[i].a_is_node, raw[i].a), i) || !input_before(
        wired(raw[i].b_is_node, raw[i].b),
        i,
    ) {
        Some(Status::Denied)
    } else {
        None
    }
}

/// What is wrong with the first node, from `i` on, that something is wrong with.
pub open spec fn first_fault(raw: Seq<GraphNode>, i: int) -> Option<Status>
    decreases raw.len() - i,
{
    if i < 0 || i >= raw.len() {
        None
    } else if fault_at(raw, i) is Some {
        fault_at(raw, i)
    } else {
        first_fault(raw, i + 1)
    }
}

/// The nodes that a list stands for.
pub open spec fn read_nodes(raw: Seq<GraphNode>) -> Seq<Node> {
    raw.map_values(
        |n: GraphNode|
            Node {
                op: op_numbered(n)->0,
                a: wired(n.a_is_node, n.a),
                b: wired(n.b_is_node, n.b),
            },
    )
}

/// Run a graph that a cell has written, of at most `limit` nodes.
pub fn graph_submit(raw: &Vec<GraphNode>, limit: usize) -> (r: (Status, Vec<u64>))
    ensures
        ({
            let n = raw@.len();
            if n == 0 || n > limit {
                r.0 == Status::BadOpcode && r.1@.len() == 0
            } else {
                match first_fault(raw@, 0) {
                    Some(s) => r.0 == s && r.1@.len() == 0,
                    None => {
                        &&& r.0 == Status::Done
                        &&& r.1@.len() == n
                        &&& forall|i: int|
                            0 <= i < n ==> #[trigger] r.1@[i] == value(read_nodes(raw@), i)
                    },
                }
            }
        }),
{
    if raw.len() == 0 || raw.len() > limit {
        return (Status::BadOpcode, Vec::new());
    }
    let mut g: Graph = Graph::new(limit);
    let mut i: usize = 0;
    while i < raw.len()
        invariant
            g.wf(),
            g.limit == limit,
            0 < raw@.len() <= limit,
            i <= raw@.len(),
            g.nodes@ =~= read_nodes(raw@).take(i as int),
            first_fault(raw@, 0) == first_fault(raw@, i as int),
        decreases raw@.len() - i,
    {
        let n: GraphNode = raw[i];
        let op: Op = match n.op {
            0 => Op::Const(n.a),
            1 => Op::Add,
            2 => Op::Mul,
            3 => Op::Select,
            _ => {
                return (Status::BadOpcode, Vec::new());
            },
        };
        let a: Input = wire_input(n.a_is_node, n.a);
        let b: Input = wire_input(n.b_is_node, n.b);
        if g.push(op, a, b).is_err() {
            return (Status::Denied, Vec::new());
        }
        i = i + 1;
    }
    assert(g.nodes@ =~= read_nodes(raw@));
    (Status::Done, g.run())
}

/// A number plus one, times the number, by a graph of three nodes.
pub fn run_demo_graph(arg: u64) -> (r: u64)
    ensures
        r == wrap_mul(wrap_add(arg, 1), arg),
{
    let mut g: Graph = Graph::new(3);
    let n0: Result<usize, ()> = g.push(Op::Const(arg), Input::Imm(0), Input::Imm(0));
    let n1: Result<usize, ()> = g.push(Op::Add, Input::Node(0), Input::Imm(1));
    let n2: Result<usize, ()> = g.push(Op::Mul, Input::Node(1), Input::Node(0));
    let results: Vec<u64> = g.run();
    proof {
        reveal_with_fuel(value, 4);
        reveal_with_fuel(input_value, 4);
        assert(value(g.nodes@, 0) == arg);
        assert(value(g.nodes@, 1) == wrap_add(arg, 1));
    }
    results[2]
}

/// A graph is answered with its results exactly where every node of it is one that
/// the engine knows and takes only the results of nodes before it.
pub proof fn law_results_only_in_order(raw: Seq<GraphNode>, i: int)
    requires
        0 <= i,
    ensures
        first_fault(raw, i) is None <==> forall|j: int|
            i <= j < raw.len() ==> #[trigger] fault_at(raw, j) is None,
    decreases raw.len() - i,
{
    if i < raw.len() && fault_at(raw, i) is None {
        law_results_only_in_order(raw, i + 1);
    }
}

/// Every result is the node's operation on what its inputs stand for, an immediate
/// value or the result of an earlier node: a constant is itself, a sum and a product
/// are those of the two inputs less what does not fit in 64 bits, and a select is its
/// second input where the first is not zero and zero where the first is zero.
pub proof fn law_node_is_its_operation(nodes: Seq<Node>, results: Seq<u64>, i: int, a: u64, b: u64)
    requires
        0 <= i < nodes.len(),
        results.len() == nodes.len(),
        forall|j: int| 0 <= j < nodes.len() ==> #[trigger] results[j] == value(nodes, j),
        input_before(nodes[i].a, i),
        input_before(nodes[i].b, i),
        match nodes[i].a {
            Input::Imm(v) => a == v,
            Input::Node(n) => a == results[n as int],
        },
        match nodes[i].b {
            Input::Imm(v) => b == v,
            Input::Node(n) => b == results[n as int],
        },
    ensures
        nodes[i].op matches Op::Const(v) ==> results[i] == v,
        nodes[i].op is Add && a + b <= u64::MAX ==> results[i] == a + b,
        nodes[i].op is Add && a + b > u64::MAX ==> results[i] + u64::MAX + 1 == a + b,
        nodes[i].op is Mul && a * b <= u64::MAX ==> results[i] == a * b,
        nodes[i].op is Mul ==> results[i] == (a * b) % (u64::MAX + 1),
        nodes[i].op is Select && a == 0 ==> results[i] == 0,
        nodes[i].op is Select && a != 0 ==> results[i] == b,
{
    assert(results[i] == value(nodes, i));
    match nodes[i].a {
        Input::Imm(_) => {},
        Input::Node(n) => {
            assert(results[n as int] == value(nodes, n as int));
        },
    }
    match nodes[i].b {
        Input::Imm(_) => {},
        Input::Node(n) => {
            assert(results[n as int] == value(nodes, n as int));
        },
    }
    assert(input_value(nodes, nodes[i].a, i) == a);
    assert(input_value(nodes, nodes[i].b, i) == b);
    assert(0 <= a * b) by (nonlinear_arith);
}

/// A select gates: whatever the second inputs are, a select whose first input is zero
/// gives zero, so two graphs that differ only behind it agree on it.
pub proof fn law_select_gates(nodes: Seq<Node>, results: Seq<u64>, i: int)
    requires
        0 <= i < nodes.len(),
        results.len() == nodes.len(),
        forall|j: int| 0 <= j < nodes.len() ==> #[trigger] results[j] == value(nodes, j),
        nodes[i].op is Select,
        input_before(nodes[i].a, i),
    ensures
        nodes[i].a == Input::Imm(0) ==> results[i] == 0,
        nodes[i].a matches Input::Node(n) ==> (results[n as int] == 0 ==> results[i] == 0),
        nodes[i].b == Input::Imm(0) ==> results[i] == 0,
        forall|v: u64, w: u64|
            v != 0 && nodes[i].a == Input::Imm(v) && nodes[i].b == Input::Imm(w) ==> #[trigger] results[i]
                == w,
{
    assert(results[i] == value(nodes, i));
    if let Input::Node(n) = nodes[i].a {
        assert(results[n as int] == value(nodes, n as int));
    }
}

/// A list is run exactly where each of its nodes has one of the four numbers and takes
/// only the results of nodes before it; the first that does not says why: a number
/// that no operation has, or else an input that is not there yet.
pub proof fn law_list_is_run_or_refused(raw: Seq<GraphNode>)
    ensures
        first_fault(raw, 0) is None <==> forall|i: int|
            0 <= i < raw.len() ==> (#[trigger] raw[i]).op < 4 && (raw[i].a_is_node != 0 ==> raw[i].a
                < i) && (raw[i].b_is_node != 0 ==> raw[i].b < i),
        first_fault(raw, 0) is None || first_fault(raw, 0) == Some(Status::BadOpcode) || first_fault(
            raw,
            0,
        ) == Some(Status::Denied),
        forall|i: int|
            0 <= i < raw.len() && (forall|j: int|
                0 <= j < i ==> (#[trigger] raw[j]).op < 4 && (raw[j].a_is_node != 0 ==> raw[j].a < j)
                    && (raw[j].b_is_node != 0 ==> raw[j].b < j)) ==> {
                &&& (#[trigger] raw[i]).op >= 4 ==> first_fault(raw, 0) == Some(Status::BadOpcode)
                &&& raw[i].op < 4 && raw[i].a_is_node != 0 && raw[i].a >= i ==> first_fault(raw, 0)
                    == Some(Status::Denied)
                &&& raw[i].op < 4 && raw[i].b_is_node != 0 && raw[i].b >= i ==> first_fault(raw, 0)
                    == Some(Status::Denied)
            },
{
    law_results_only_in_order(raw, 0);
    assert forall|i: int| 0 <= i < raw.len() implies (#[trigger] fault_at(raw, i) is None <==> raw[i].op
        < 4 && (raw[i].a_is_node != 0 ==> raw[i].a < i) && (raw[i].b_is_node != 0 ==> raw[i].b < i)) by {}
    if first_fault(raw, 0) is None {
        assert forall|i: int| 0 <= i < raw.len() implies (#[trigger] raw[i]).op < 4 && (raw[i].a_is_node
            != 0 ==> raw[i].a < i) && (raw[i].b_is_node != 0 ==> raw[i].b < i) by {
            assert(fault_at(raw, i) is None);
        }
    }
    lemma_first_fault_kind(raw, 0);
    assert forall|i: int|
        0 <= i < raw.len() && (forall|j: int|
            0 <= j < i ==> (#[trigger] raw[j]).op < 4 && (raw[j].a_is_node != 0 ==> raw[j].a < j) && (
            raw[j].b_is_node != 0 ==> raw[j].b < j)) implies {
        &&& (#[trigger] raw[i]).op >= 4 ==> first_fault(raw, 0) == Some(Status::BadOpcode)
        &&& raw[i].op < 4 && raw[i].a_is_node != 0 && raw[i].a >= i ==> first_fault(raw, 0) == Some(
            Status::Denied,
        )
        &&& raw[i].op < 4 && raw[i].b_is_node != 0 && raw[i].b >= i ==> first_fault(raw, 0) == Some(
            Status::Denied,
        )
    } by {
        assert forall|j: int| 0 <= j < i implies #[trigger] fault_at(raw, j) is None by {
            assert(raw[j].op < 4);
        }
        lemma_skip_sound(raw, 0, i);
    }
}

proof fn lemma_first_fault_kind(raw: Seq<GraphNode>, i: int)
    ensures
        first_fault(raw, i) is None || first_fault(raw, i) == Some(Status::BadOpcode) || first_fault(raw, i)
            == Some(Status::Denied),
    decreases raw.len() - i,
{
    if 0 <= i < raw.len() {
        lemma_first_fault_kind(raw, i + 1);
    }
}

proof fn lemma_skip_sound(raw: Seq<GraphNode>, i: int, k: int)
    requires
        0 <= i <= k < raw.len(),
        forall|j: int| i <= j < k ==> #[trigger] fault_at(raw, j) is None,
    ensures
        fault_at(raw, k) is Some ==> first_fault(raw, i) == fault_at(raw, k),
    decreases k - i,
{
    if i < k {
        assert(fault_at(raw, i) is None);
        lemma_skip_sound(raw, i + 1, k);
    }
}

/// What a cell wrote is what is computed: a node of number 0 gives the value written
/// in it, of 1 the sum and of 2 the product of its two inputs on 64 bits, and of 3 the
/// second input where the first is not zero and zero where it is; an input is the
/// result of the node that it names where it is marked as one, and the number written
/// there where it is not.
pub proof fn law_written_node_is_computed(raw: Seq<GraphNode>, results: Seq<u64>, i: int, a: u64, b: u64)
    requires
        0 <= i < raw.len(),
        results.len() == raw.len(),
        first_fault(raw, 0) is None,
        forall|j: int|
            0 <= j < raw.len() ==> #[trigger] results[j] == value(read_nodes(raw), j),
        a == (if raw[i].a_is_node != 0 {
            results[raw[i].a as int]
        } else {
            raw[i].a
        }),
        b == (if raw[i].b_is_node != 0 {
            results[raw[i].b as int]
        } else {
            raw[i].b
        }),
    ensures
        raw[i].op == 0 ==> results[i] == raw[i].a,
        raw[i].op == 1 ==> results[i] == (a + b) % (u64::MAX + 1),
        raw[i].op == 2 ==> results[i] == (a * b) % (u64::MAX + 1),
        raw[i].op == 3 && a == 0 ==> results[i] == 0,
        raw[i].op == 3 && a != 0 ==> results[i] == b,
        raw[i].op <= 3,
{
    law_list_is_run_or_refused(raw);
    let nodes = read_nodes(raw);
    assert(raw[i].op < 4);
    assert(nodes[i].a == wired(raw[i].a_is_node, raw[i].a));
    assert(nodes[i].b == wired(raw[i].b_is_node, raw[i].b));
    law_node_is_its_operation(nodes, results, i, a, b);
}

} // verus!
