//! The trial of the tiles: a product against the same product formed plainly, what a
//! simulation of it has to count, sums and narrowing over known numbers, and the same
//! work on the kernel's engine. The programs are run elsewhere; what they have to come to is
//! judged here.

use vstd::prelude::*;
use crate::programs::battle;
use crate::programs::battle::{Fill, Product};
use crate::programs::runs;
use crate::programs::runs::{Buffer, Executor, Marks, Program, Ran, Report, TileOp};
use crate::programs::tile;
use crate::programs::tile::{Tile32, Tile8};

verus! {

/// The exit code of a run in which everything was as it should be.
pub const OK_CODE: i32 = 0x42;

/// The side of the product.
pub const N: usize = 128;

/// What a simulation of a product counts.
#[derive(Copy, Clone, PartialEq, Eq, Debug, Structural)]
pub struct SimCounts {
    pub mac_ops: u64,
    pub mma_tiles: u64,
    pub tile_trips: u64,
    pub yields: u64,
    pub bytes_in: u64,
    pub bytes_out: u64,
    pub bytes_staged: u64,
}

/// What the product of two tiles with sides of `16 t` comes to in blocks of 16: every
/// number is multiplied once for each of the others in its row, every block of the
/// result takes a block of either tile for each step along, and is handed over once.
pub open spec fn counts_of(t: int) -> SimCounts {
    SimCounts {
        mac_ops: (16 * t * (16 * t) * (16 * t)) as u64,
        mma_tiles: (t * t * t) as u64,
        tile_trips: (t * t * t) as u64,
        yields: (t * t) as u64,
        bytes_in: (2 * (16 * t) * (16 * t)) as u64,
        bytes_out: (4 * (16 * t) * (16 * t)) as u64,
        bytes_staged: (t * t * t * 512 + t * t * 1024) as u64,
    }
}

/// The code for two simulations of the product: they have to be the same, and to count
/// what the closed forms say.
pub fn sim_code(one: SimCounts, two: SimCounts) -> (code: i32)
    ensures
        code == (if one != two {
            31
        } else if one != counts_of(8) {
            32
        } else {
            0i32
        }),
{
    if one != two {
        return 31;
    }
    let t: u64 = 8;
    let n: u64 = 128;
    proof {
        assert(counts_of(8) == (SimCounts {
            mac_ops: 2097152,
            mma_tiles: 512,
            tile_trips: 512,
            yields: 64,
            bytes_in: 32768,
            bytes_out: 65536,
            bytes_staged: 327680,
        })) by (nonlinear_arith);
        assert(n * n == 16384 && n * n * n == 2097152 && t * t == 64 && t * t * t == 512 && 2 * n * n
            == 32768) by (nonlinear_arith)
            requires
                n == 128,
                t == 8,
        ;
    }
    if one.mac_ops != n * n * n || one.mma_tiles != t * t * t || one.tile_trips != t * t * t
        || one.yields != t * t || one.bytes_in != 2 * n * n || one.bytes_out != n * n * 4
        || one.bytes_staged != t * t * t * (16 * 16 * 2) + t * t * (16 * 16 * 4) {
        return 32;
    }
    0
}

/// What is known of an engine's contract.
#[derive(Copy, Clone, PartialEq, Eq, Debug, Structural)]
pub struct ContractFacts {
    pub is_cpu: bool,
    pub measured: bool,
    /// Whether it multiplies tiles of bytes sixteen high.
    pub multiplies_bytes: bool,
}

/// The key under which what was learned of a program is kept.
#[derive(Copy, Clone, PartialEq, Eq, Debug, Structural)]
pub struct TuneKey {
    pub program: u64,
    pub shape_class: u64,
}

/// The code for the keys of one product in two ways of cutting it: they are two
/// programs of one class.
pub fn keys_code(k1: TuneKey, k2: TuneKey) -> (code: i32)
    ensures
        code == (if k1.program == k2.program {
            36
        } else if k1.shape_class != k2.shape_class {
            37
        } else {
            0i32
        }),
{
    if k1.program == k2.program {
        return 36;
    }
    if k1.shape_class != k2.shape_class {
        return 37;
    }
    0
}

/// The code for a contract: it has to be there, that of a measured processor, and one
/// that multiplies bytes.
pub fn contract_code(c: Option<ContractFacts>) -> (code: i32)
    ensures
        code == (match c {
            None => 30i32,
            Some(f) => if !f.is_cpu || !f.measured {
                33i32
            } else if !f.multiplies_bytes {
                34
            } else {
                0
            },
        }),
{
    match c {
        None => 30,
        Some(f) => {
            if !f.is_cpu || !f.measured {
                33
            } else if !f.multiplies_bytes {
                34
            } else {
                0
            }
        },
    }
}

/// The product of two tiles, formed plainly: row by row, and along the rows of the
/// second tile.
pub fn reference(a: &Tile8, b: &Tile8) -> (c: Tile32)
    requires
        a.wf(),
        b.wf(),
        a.cols == b.rows,
        a.cols <= tile::MAX_DEPTH,
    ensures
        c.wf(),
        c.rows == a.rows,
        c.cols == b.cols,
        tile::is_product(a, b, &c),
{
    let mut c: Tile32 = Tile32::new(a.rows, b.cols, b.cols);
    let mut i: usize = 0;
    while i < a.rows
        invariant
            a.wf(),
            b.wf(),
            a.cols == b.rows,
            a.cols <= tile::MAX_DEPTH,
            c.wf(),
            c.rows == a.rows,
            c.cols == b.cols,
            c.stride == b.cols,
            i <= a.rows,
            forall|x: int, y: int|
                0 <= x < i && 0 <= y < c.cols ==> #[trigger] c.at(x, y) == tile::dot(
                    a,
                    b,
                    x,
                    y,
                    a.cols as int,
                ),
            forall|x: int, y: int|
                i <= x < c.rows && 0 <= y < c.cols ==> #[trigger] c.at(x, y) == 0,
        decreases a.rows - i,
    {
        let mut p: usize = 0;
        while p < a.cols
            invariant
                a.wf(),
                b.wf(),
                a.cols == b.rows,
                a.cols <= tile::MAX_DEPTH,
                c.wf(),
                c.rows == a.rows,
                c.cols == b.cols,
                c.stride == b.cols,
                i < a.rows,
                p <= a.cols,
                forall|x: int, y: int|
                    0 <= x < i && 0 <= y < c.cols ==> #[trigger] c.at(x, y) == tile::dot(
                        a,
                        b,
                        x,
                        y,
                        a.cols as int,
                    ),
                forall|y: int|
                    0 <= y < c.cols ==> #[trigger] c.at(i as int, y) == tile::dot(
                        a,
                        b,
                        i as int,
                        y,
                        p as int,
                    ),
                forall|x: int, y: int|
                    i < x < c.rows && 0 <= y < c.cols ==> #[trigger] c.at(x, y) == 0,
            decreases a.cols - p,
        {
            let mut j: usize = 0;
            while j < b.cols
                invariant
                    a.wf(),
                    b.wf(),
                    a.cols == b.rows,
                    a.cols <= tile::MAX_DEPTH,
                    c.wf(),
                    c.rows == a.rows,
                    c.cols == b.cols,
                    c.stride == b.cols,
                    i < a.rows,
                    p < a.cols,
                    j <= b.cols,
                    forall|x: int, y: int|
                        0 <= x < i && 0 <= y < c.cols ==> #[trigger] c.at(x, y) == tile::dot(
                            a,
                            b,
                            x,
                            y,
                            a.cols as int,
                        ),
                    forall|y: int|
                        0 <= y < j ==> #[trigger] c.at(i as int, y) == tile::dot(
                            a,
                            b,
                            i as int,
                            y,
                            p + 1,
                        ),
                    forall|y: int|
                        j <= y < c.cols ==> #[trigger] c.at(i as int, y) == tile::dot(
                            a,
                            b,
                            i as int,
                            y,
                            p as int,
                        ),
                    forall|x: int, y: int|
                        i < x < c.rows && 0 <= y < c.cols ==> #[trigger] c.at(x, y) == 0,
                decreases b.cols - j,
            {
                let v: i32 = tile::dot_from(a, b, i, j, p, p + 1, c.get(i, j));
                c.set(i, j, v);
                j = j + 1;
            }
            p = p + 1;
        }
        i = i + 1;
    }
    c
}
/// The product of the trial.
pub open spec fn product() -> Product {
    Product {
        m: N,
        k: N,
        n: N,
        b_stride: N,
        c_stride: N,
        a: Fill { ci: 31, cj: 7, c0: 0 },
        b: Fill { ci: 17, cj: 13, c0: 0 },
        block: 16,
    }
}

fn the_product() -> (g: Product)
    ensures
        g == product(),
        g.wf(),
{
    Product {
        m: N,
        k: N,
        n: N,
        b_stride: N,
        c_stride: N,
        a: Fill { ci: 31, cj: 7, c0: 0 },
        b: Fill { ci: 17, cj: 13, c0: 0 },
        block: 16,
    }
}

/// The code for what ran: its numbers have to be those of the product formed plainly, and
/// its first receipt the receipt of those.
pub open spec fn product_code(r: Report) -> int {
    let c = runs::words_of(r.tiles@, 2);
    if !battle::holds_product(product(), &c) {
        22
    } else if r.checksums@.len() == 0 || r.checksums@[0] != tile::receipt_of(&c) {
        23
    } else {
        0
    }
}

/// Judge what ran against the product formed plainly.
pub fn judge_product(r: &Report) -> (code: i32)
    requires
        runs::words_at(r.tiles@, 2, N as int, N as int),
    ensures
        code == product_code(*r),
{
    let g: Product = the_product();
    let a: Tile8 = battle::filled(g.m, g.k, g.k, g.a);
    let b: Tile8 = battle::filled(g.k, g.n, g.b_stride, g.b);
    let plain: Tile32 = reference(&a, &b);
    proof {
        battle::law_product_of_fills(g, &a, &b, &plain);
    }
    match &r.tiles[2] {
        Buffer::Words(c) => {
            let same: bool = tile::same_numbers(c, &plain);
            proof {
                if same {
                    tile::law_receipt_is_of_the_numbers(c, &plain);
                    assert forall|i: int, j: int|
                        0 <= i < c.rows && 0 <= j < c.cols implies #[trigger] c.at(i, j)
                        == battle::filled_dot(g.a, g.b, i, j, g.k as int) by {
                        assert(plain.at(i, j) == battle::filled_dot(g.a, g.b, i, j, g.k as int));
                    }
                } else {
                    let (i, j) = choose|i: int, j: int|
                        0 <= i < c.rows && 0 <= j < c.cols && #[trigger] c.at(i, j) != plain.at(
                            i,
                            j,
                        );
                    assert(plain.at(i, j) == battle::filled_dot(g.a, g.b, i, j, g.k as int));
                }
            }
            if !same {
                22
            } else if r.checksums.len() == 0 || r.checksums[0] != tile::receipt(&plain) {
                23
            } else {
                0
            }
        },
        Buffer::Bytes(_) => 22,
    }
}

/// A program copies a tile that counts its places, narrows the copy by four bits, and sums
/// it up.
pub open spec fn sums(p: &Program) -> bool {
    &&& p.tiles@.len() == 3
    &&& p.tiles@[0] matches Buffer::Words(c) && c.wf() && c.rows == 64 && c.cols == 64
        && battle::is_counted(&c)
    &&& battle::blank_words(p, 1, 64, 64, 64)
    &&& battle::blank_bytes(p, 2, 64, 64, 64)
    &&& p.ops@ == seq![
        TileOp::Duplicate { from: 0, to: 1 },
        TileOp::ShiftClamp { from: 1, to: 2, shift: 4 },
        TileOp::Reduce { of: 1 },
    ]
}

fn summing() -> (p: Program)
    ensures
        sums(&p),
{
    let p: Program = Program {
        tiles: vec![
            Buffer::Words(battle::counted(64, 64)),
            Buffer::Words(Tile32::new(64, 64, 64)),
            Buffer::Bytes(Tile8::new(64, 64, 64)),
        ],
        ops: vec![
            TileOp::Duplicate { from: 0, to: 1 },
            TileOp::ShiftClamp { from: 1, to: 2, shift: 4 },
            TileOp::Reduce { of: 1 },
        ],
    };
    assert(p.ops@ =~= seq![
        TileOp::Duplicate { from: 0, to: 1 },
        TileOp::ShiftClamp { from: 1, to: 2, shift: 4 },
        TileOp::Reduce { of: 1 },
    ]);
    p
}

/// What the places of a tile of 64 by 64 sum to.
pub const PLACES_SUM: u64 = 8386560;

/// The code for what ran: the sum, and the last number, which is held within a byte.
pub open spec fn sums_code(r: Report) -> int {
    if r.reduced != PLACES_SUM {
        45
    } else if runs::bytes_of(r.tiles@, 2).at(63, 63) != 127 {
        46
    } else {
        0
    }
}

/// Judge the sum and the narrowing.
pub fn judge_sums(r: &Report) -> (code: i32)
    requires
        runs::bytes_at(r.tiles@, 2, 64, 64),
    ensures
        code == sums_code(*r),
{
    if r.reduced != PLACES_SUM {
        return 45;
    }
    let last: i8 = match &r.tiles[2] {
        Buffer::Bytes(t) => t.get(63, 63),
        Buffer::Words(_) => 0,
    };
    if last != 127 {
        return 46;
    }
    0
}

/// What is looked for is what copying, narrowing and summing come to.
pub proof fn law_sums_are_known(src: &Tile32, dst: &Tile32, narrow: &Tile8)
    requires
        battle::is_counted(src),
        src.rows == 64,
        src.cols == 64,
        tile::holds_same(src, dst),
        narrow.rows == 64,
        narrow.cols == 64,
        tile::is_narrowed(dst, narrow, 4),
    ensures
        tile::reduced(dst) == PLACES_SUM,
        narrow.at(63, 63) == 127,
{
    battle::law_counted_sum(src, 64, 0);
    tile::law_receipt_is_of_the_numbers(src, dst);
    assert(battle::sum_below(4096) == 8386560) by (nonlinear_arith);
    assert(narrow.at(63, 63) == tile::narrowed(dst.at(63, 63), 4));
    assert(src.at(63, 63) == 63 * 64 + 63);
    assert(4095i32 >> 4u32 == 255) by (bit_vector);
}

/// The product that is given to the kernel's engine too.
pub open spec fn small_product() -> Product {
    Product {
        m: 64,
        k: 64,
        n: 64,
        b_stride: 64,
        c_stride: 64,
        a: Fill { ci: 5, cj: 3, c0: 0 },
        b: Fill { ci: 11, cj: 2, c0: 0 },
        block: 16,
    }
}

/// A program forms that product and sums it up.
pub open spec fn forms_and_sums(p: &Program) -> bool {
    &&& battle::binds(p, small_product())
    &&& p.ops@ == seq![TileOp::Gemm { a: 0, b: 1, c: 2, block: 16 }, TileOp::Reduce { of: 2 }]
}

fn forming_and_summing() -> (p: Program)
    ensures
        forms_and_sums(&p),
{
    let mut p: Program = battle::forming(
        Product {
            m: 64,
            k: 64,
            n: 64,
            b_stride: 64,
            c_stride: 64,
            a: Fill { ci: 5, cj: 3, c0: 0 },
            b: Fill { ci: 11, cj: 2, c0: 0 },
            block: 16,
        },
    );
    p.ops.push(TileOp::Reduce { of: 2 });
    assert(p.ops@ =~= seq![
        TileOp::Gemm { a: 0, b: 1, c: 2, block: 16 },
        TileOp::Reduce { of: 2 },
    ]);
    p
}

/// A part of a tile: its place and its size.
#[derive(Copy, Clone, PartialEq, Eq, Debug, Structural)]
pub struct Part {
    pub row: usize,
    pub col: usize,
    pub rows: usize,
    pub cols: usize,
}

impl Part {
    /// The part lies in a tile of this size.
    pub open spec fn lies_in(self, rows: int, cols: int) -> bool {
        self.row + self.rows <= rows && self.col + self.cols <= cols
    }

    /// Whether the part lies in a tile of this size.
    pub fn fits(&self, rows: usize, cols: usize) -> (b: bool)
        ensures
            b == self.lies_in(rows as int, cols as int),
    {
        self.row <= rows && self.rows <= rows - self.row && self.col <= cols && self.cols <= cols
            - self.col
    }
}

/// Of the two parts that are asked for, the first lies in the tile and the second does not.
pub proof fn law_one_part_lies_in()
    ensures
        inner_part().lies_in(N as int, N as int),
        !outer_part().lies_in(N as int, N as int),
{
}

/// A part that lies in the first tile of the product.
pub open spec fn inner_part() -> Part {
    Part { row: 0, col: 0, rows: 16, cols: 16 }
}

/// A part that does not.
pub open spec fn outer_part() -> Part {
    Part { row: (N - 8) as usize, col: (N - 8) as usize, rows: 16, cols: 16 }
}

/// A tile that the trial has memory for: its rows and columns, and the bytes of a number.
#[derive(Copy, Clone, PartialEq, Eq, Debug, Structural)]
pub struct TileAsk {
    pub rows: usize,
    pub cols: usize,
    pub width: usize,
}

/// Tiles that the trial has memory for: three for the product, three for the sums, four for
/// the numbers with a point, three for the engine and one for the narrow formats.
pub const TILES: u32 = 14;

/// The tile at `k`.
pub open spec fn asked(k: int) -> TileAsk {
    if k < 3 {
        TileAsk {
            rows: N,
            cols: N,
            width: if k == 2 {
                4
            } else {
                1
            },
        }
    } else if k < 6 {
        TileAsk {
            rows: 64,
            cols: 64,
            width: if k < 5 {
                4
            } else {
                1
            },
        }
    } else if k == 8 {
        TileAsk { rows: 1, cols: 16, width: 4 }
    } else if k < 10 {
        TileAsk {
            rows: 16,
            cols: 32,
            width: if k == 7 {
                1
            } else {
                4
            },
        }
    } else if k < 13 {
        TileAsk {
            rows: 64,
            cols: 64,
            width: if k == 12 {
                4
            } else {
                1
            },
        }
    } else {
        TileAsk { rows: 1, cols: 64, width: 4 }
    }
}

/// The code where there is no memory for the tile at `k`.
pub open spec fn without(k: int) -> int {
    if k < 3 {
        10 + k
    } else if k < 6 {
        40 + (k - 3)
    } else if k < 10 {
        50 + (k - 6)
    } else if k < 13 {
        60 + (k - 10)
    } else {
        80
    }
}

fn tile_asked(k: u32) -> (t: TileAsk)
    requires
        k < TILES,
    ensures
        t == asked(k as int),
{
    let (rows, cols): (usize, usize) = if k < 3 {
        (N, N)
    } else if k < 6 || (10 <= k && k < 13) {
        (64, 64)
    } else if k == 8 {
        (1, 16)
    } else if k < 10 {
        (16, 32)
    } else {
        (1, 64)
    };
    let width: usize = if k < 2 || k == 5 || k == 7 || k == 10 || k == 11 { 1 } else { 4 };
    TileAsk { rows, cols, width }
}

fn code_without(k: u32) -> (code: i32)
    requires
        k < TILES,
    ensures
        code == without(k as int),
{
    let k: i32 = k as i32;
    if k < 3 {
        10 + k
    } else if k < 6 {
        40 + (k - 3)
    } else if k < 10 {
        50 + (k - 6)
    } else if k < 13 {
        60 + (k - 10)
    } else {
        80
    }
}

/// What the kernel's engine is told of a product: the sides, the strides, and the numbers
/// of the kinds of what goes in and of what is summed.
#[derive(Copy, Clone, PartialEq, Eq, Debug, Structural)]
pub struct GemmShape {
    pub m: u32,
    pub n: u32,
    pub k: u32,
    pub stride: u32,
    pub dtype_in: u32,
    pub dtype_acc: u32,
}

/// The products that the engine has to deny: one without a depth, one whose sums have a
/// point, and one that stands nowhere.
pub open spec fn denied(i: int) -> Option<GemmShape> {
    if i == 0 {
        Some(GemmShape { m: 64, n: 64, k: 0, stride: 64, dtype_in: 0, dtype_acc: 2 })
    } else if i == 1 {
        Some(GemmShape { m: 64, n: 64, k: 64, stride: 64, dtype_in: 0, dtype_acc: 3 })
    } else {
        None
    }
}

/// The engine that is not there.
pub const MISSING: u64 = 999;

/// Where the trial is.
pub enum TileAt {
    Begun,
    /// Memory for the tile at this place was asked for.
    Having(u32),
    /// Two parts of the first tile were asked for.
    Parts,
    /// The product runs.
    Product,
    /// The contract of the first engine was asked for.
    Contract,
    /// The product was given to the simulator twice, with this contract.
    Simulated(ContractFacts),
    /// The keys of the product in two ways of cutting it were asked for.
    Keys,
    /// Copying, narrowing and summing run.
    Sums,
    /// The trial of narrowing numbers with a point was asked for.
    Quant,
    /// The small product runs on the processor.
    Small,
    /// It runs on the kernel's engine, and this is what the processor left.
    Engine(Marks),
    /// It was given to an engine that is not there.
    Missing,
    /// A product that has to be denied was given to the kernel's engine.
    Denied(u32),
    /// The trial of the narrow formats was asked for.
    Formats,
    Over,
}

/// What came back.
pub enum TileEvent {
    Go,
    /// Whether there is memory for the tile.
    Had(bool),
    /// Whether either part could be had.
    Parts(bool, bool),
    /// What became of the program.
    Ran(Ran),
    Contract(Option<ContractFacts>),
    Counted(SimCounts, SimCounts),
    /// The keys, unless the second way of cutting the product was refused.
    Keys(Option<(TuneKey, TuneKey)>),
    /// The code of a trial of numbers with a point; zero where it went well.
    Code(i32),
    /// Whether it was refused as it has to be.
    Refused(bool),
}

/// What the trial asks for.
pub enum TileAction {
    Have(TileAsk),
    /// Two parts of the first tile.
    Parts(Part, Part),
    /// Have a program run.
    Run(Executor, Program),
    /// The contract of this engine.
    Contract(u64),
    /// Simulate the product twice, with blocks of this side.
    Simulate(u32),
    /// The keys of the product with blocks of either side.
    Keys(u32, u32),
    Quantize,
    /// Have the kernel's engine form a product of this description, or of none.
    Deny(Option<GemmShape>),
    Formats,
    /// Over, with this code.
    Done(i32),
}

/// A report shows the tile that is to be looked at.
pub open spec fn shows(at: TileAt, r: Report) -> bool {
    match at {
        TileAt::Product => runs::words_at(r.tiles@, 2, N as int, N as int),
        TileAt::Sums => runs::bytes_at(r.tiles@, 2, 64, 64),
        _ => true,
    }
}

/// Whether an event is what the trial waits for.
pub open spec fn awaits(at: TileAt, e: TileEvent) -> bool {
    match at {
        TileAt::Begun => e is Go,
        TileAt::Having(k) => e is Had && k < TILES,
        TileAt::Parts => e is Parts,
        TileAt::Contract => e is Contract,
        TileAt::Simulated(_) => e is Counted,
        TileAt::Keys => e is Keys,
        TileAt::Quant => e is Code,
        TileAt::Denied(i) => e is Refused && i < 3,
        TileAt::Formats => e is Code,
        TileAt::Over => false,
        _ => e matches TileEvent::Ran(ran) && (ran matches Ran::Done(r) ==> shows(at, r)),
    }
}

/// Whether an event is what the trial waits for.
pub fn fits(at: &TileAt, e: &TileEvent) -> (b: bool)
    ensures
        b == awaits(*at, *e),
{
    match (at, e) {
        (TileAt::Begun, TileEvent::Go) => true,
        (TileAt::Begun, _) => false,
        (TileAt::Having(k), TileEvent::Had(_)) => *k < TILES,
        (TileAt::Having(_), _) => false,
        (TileAt::Parts, TileEvent::Parts(_, _)) => true,
        (TileAt::Parts, _) => false,
        (TileAt::Contract, TileEvent::Contract(_)) => true,
        (TileAt::Contract, _) => false,
        (TileAt::Simulated(_), TileEvent::Counted(_, _)) => true,
        (TileAt::Simulated(_), _) => false,
        (TileAt::Keys, TileEvent::Keys(_)) => true,
        (TileAt::Keys, _) => false,
        (TileAt::Quant, TileEvent::Code(_)) => true,
        (TileAt::Quant, _) => false,
        (TileAt::Denied(i), TileEvent::Refused(_)) => *i < 3,
        (TileAt::Denied(_), _) => false,
        (TileAt::Formats, TileEvent::Code(_)) => true,
        (TileAt::Formats, _) => false,
        (TileAt::Over, _) => false,
        (_, TileEvent::Ran(Ran::Done(r))) => match at {
            TileAt::Product => runs::has_words(&r.tiles, 2, N, N),
            TileAt::Sums => runs::has_bytes(&r.tiles, 2, 64, 64),
            _ => true,
        },
        (_, TileEvent::Ran(_)) => true,
        (_, _) => false,
    }
}

/// The trial is over, with a code.
pub open spec fn is_over(at: TileAt, action: TileAction, code: int) -> bool {
    &&& at is Over
    &&& action matches TileAction::Done(c) && c == code
}

/// Memory for the tile at `k` is asked for.
pub open spec fn asks_for(at: TileAt, action: TileAction, k: int) -> bool {
    &&& at matches TileAt::Having(j) && j == k
    &&& action == TileAction::Have(asked(k))
}

/// The strands of the processor that a program runs on.
pub const STRANDS: usize = 8;

/// The small product is given to an executor.
pub open spec fn gives(action: TileAction, to: Executor) -> bool {
    action matches TileAction::Run(x, p) && x == to && forms_and_sums(&p)
}

/// After memory for the tile at `k` was had.
pub open spec fn after_having(k: int, at: TileAt, action: TileAction) -> bool {
    if k == 2 {
        at is Parts && action == TileAction::Parts(inner_part(), outer_part())
    } else if k == 5 {
        &&& at is Sums
        &&& action matches TileAction::Run(x, p) && x == Executor::Processor(STRANDS) && sums(&p)
    } else if k == 9 {
        at is Quant && action is Quantize
    } else if k == 12 {
        at is Small && gives(action, Executor::Processor(STRANDS))
    } else if k == 13 {
        at is Formats && action is Formats
    } else {
        asks_for(at, action, k + 1)
    }
}

/// After the parts were asked for.
pub open spec fn after_parts(inner: bool, outer: bool, at: TileAt, action: TileAction) -> bool {
    if !inner {
        is_over(at, action, 13)
    } else if outer {
        is_over(at, action, 14)
    } else {
        &&& at is Product
        &&& action matches TileAction::Run(x, p) && x == Executor::Processor(STRANDS)
            && battle::forms(&p, product())
    }
}

/// The trial, one part after the other: nothing is asked for after a part that did not go
/// well, and the code is that of the first which did not.
pub open spec fn tried(at0: TileAt, at1: TileAt, e: TileEvent, action: TileAction) -> bool {
    match at0 {
        TileAt::Begun => asks_for(at1, action, 0),
        TileAt::Having(k) => if !e->Had_0 {
            is_over(at1, action, without(k as int))
        } else {
            after_having(k as int, at1, action)
        },
        TileAt::Parts => after_parts(e->Parts_0, e->Parts_1, at1, action),
        TileAt::Product => match e->Ran_0 {
            Ran::Done(r) => if product_code(r) != 0 {
                is_over(at1, action, product_code(r))
            } else {
                at1 is Contract && action == TileAction::Contract(0)
            },
            _ => is_over(at1, action, runs::lost(e->Ran_0, 20, 21)),
        },
        TileAt::Contract => match e->Contract_0 {
            None => is_over(at1, action, 30),
            Some(f) => at1 == TileAt::Simulated(f) && action == TileAction::Simulate(16),
        },
        TileAt::Simulated(f) => if e->Counted_0 != e->Counted_1 {
            is_over(at1, action, 31)
        } else if e->Counted_0 != counts_of(8) {
            is_over(at1, action, 32)
        } else if !f.is_cpu || !f.measured {
            is_over(at1, action, 33)
        } else if !f.multiplies_bytes {
            is_over(at1, action, 34)
        } else {
            at1 is Keys && action == TileAction::Keys(16, 32)
        },
        TileAt::Keys => match e->Keys_0 {
            None => is_over(at1, action, 35),
            Some((one, two)) => if one.program == two.program {
                is_over(at1, action, 36)
            } else if one.shape_class != two.shape_class {
                is_over(at1, action, 37)
            } else {
                asks_for(at1, action, 3)
            },
        },
        TileAt::Sums => match e->Ran_0 {
            Ran::Done(r) => if sums_code(r) != 0 {
                is_over(at1, action, sums_code(r))
            } else {
                asks_for(at1, action, 6)
            },
            _ => is_over(at1, action, runs::lost(e->Ran_0, 43, 44)),
        },
        TileAt::Quant => if e->Code_0 != 0 {
            is_over(at1, action, e->Code_0 as int)
        } else {
            asks_for(at1, action, 10)
        },
        TileAt::Small => match e->Ran_0 {
            Ran::Done(r) => at1 == TileAt::Engine(runs::marks_of(r)) && gives(
                action,
                Executor::Engine(0),
            ),
            _ => is_over(at1, action, runs::lost(e->Ran_0, 63, 64)),
        },
        TileAt::Engine(cpu) => match e->Ran_0 {
            Ran::Done(r) => if !runs::same_marks(cpu, runs::marks_of(r)) {
                is_over(at1, action, 66)
            } else {
                at1 is Missing && gives(action, Executor::Engine(MISSING))
            },
            _ => is_over(at1, action, 65),
        },
        TileAt::Missing => if e->Ran_0 !is Unavailable {
            is_over(at1, action, 67)
        } else {
            at1 == TileAt::Denied(0) && action == TileAction::Deny(denied(0))
        },
        TileAt::Denied(i) => if !e->Refused_0 {
            is_over(at1, action, 68 + i)
        } else if i == 2 {
            asks_for(at1, action, 13)
        } else {
            &&& at1 matches TileAt::Denied(j) && j == i + 1
            &&& action == TileAction::Deny(denied(i + 1))
        },
        TileAt::Formats => is_over(at1, action, e->Code_0 as int),
        TileAt::Over => false,
    }
}

fn over(code: i32) -> (r: (TileAt, TileAction))
    ensures
        is_over(r.0, r.1, code as int),
{
    (TileAt::Over, TileAction::Done(code))
}

fn ask(k: u32) -> (r: (TileAt, TileAction))
    requires
        k < TILES,
    ensures
        asks_for(r.0, r.1, k as int),
{
    (TileAt::Having(k), TileAction::Have(tile_asked(k)))
}

fn had(k: u32) -> (r: (TileAt, TileAction))
    requires
        k < TILES,
    ensures
        after_having(k as int, r.0, r.1),
{
    if k == 2 {
        let inner: Part = Part { row: 0, col: 0, rows: 16, cols: 16 };
        let outer: Part = Part { row: N - 8, col: N - 8, rows: 16, cols: 16 };
        (TileAt::Parts, TileAction::Parts(inner, outer))
    } else if k == 5 {
        (TileAt::Sums, TileAction::Run(Executor::Processor(STRANDS), summing()))
    } else if k == 9 {
        (TileAt::Quant, TileAction::Quantize)
    } else if k == 12 {
        (TileAt::Small, TileAction::Run(Executor::Processor(STRANDS), forming_and_summing()))
    } else if k == 13 {
        (TileAt::Formats, TileAction::Formats)
    } else {
        ask(k + 1)
    }
}

fn product_ran(ran: Ran) -> (r: (TileAt, TileAction))
    requires
        awaits(TileAt::Product, TileEvent::Ran(ran)),
    ensures
        tried(TileAt::Product, r.0, TileEvent::Ran(ran), r.1),
{
    let code: i32 = runs::lost_code(&ran, 20, 21);
    match ran {
        Ran::Done(r) => {
            let code: i32 = judge_product(&r);
            if code != 0 {
                over(code)
            } else {
                (TileAt::Contract, TileAction::Contract(0))
            }
        },
        _ => over(code),
    }
}

fn sums_ran(ran: Ran) -> (r: (TileAt, TileAction))
    requires
        awaits(TileAt::Sums, TileEvent::Ran(ran)),
    ensures
        tried(TileAt::Sums, r.0, TileEvent::Ran(ran), r.1),
{
    let code: i32 = runs::lost_code(&ran, 43, 44);
    match ran {
        Ran::Done(r) => {
            let code: i32 = judge_sums(&r);
            if code != 0 {
                over(code)
            } else {
                ask(6)
            }
        },
        _ => over(code),
    }
}

fn small_ran(ran: Ran) -> (r: (TileAt, TileAction))
    ensures
        tried(TileAt::Small, r.0, TileEvent::Ran(ran), r.1),
{
    let code: i32 = runs::lost_code(&ran, 63, 64);
    match ran {
        Ran::Done(r) => {
            let cpu: Marks = Marks { checksums: r.checksums, reduced: r.reduced };
            (TileAt::Engine(cpu), TileAction::Run(Executor::Engine(0), forming_and_summing()))
        },
        _ => over(code),
    }
}

fn engine_ran(cpu: Marks, ran: Ran) -> (r: (TileAt, TileAction))
    ensures
        tried(TileAt::Engine(cpu), r.0, TileEvent::Ran(ran), r.1),
{
    match ran {
        Ran::Done(r) => {
            let engine: Marks = Marks { checksums: r.checksums, reduced: r.reduced };
            if !runs::marks_agree(&cpu, &engine) {
                over(66)
            } else {
                (
                    TileAt::Missing,
                    TileAction::Run(Executor::Engine(MISSING), forming_and_summing()),
                )
            }
        },
        _ => over(65),
    }
}

fn denied_at(i: u32) -> (shape: Option<GemmShape>)
    ensures
        shape == denied(i as int),
{
    if i == 0 {
        Some(GemmShape { m: 64, n: 64, k: 0, stride: 64, dtype_in: 0, dtype_acc: 2 })
    } else if i == 1 {
        Some(GemmShape { m: 64, n: 64, k: 64, stride: 64, dtype_in: 0, dtype_acc: 3 })
    } else {
        None
    }
}

/// Take the trial one step on.
pub fn work(at: TileAt, e: TileEvent) -> (r: (TileAt, TileAction))
    requires
        awaits(at, e),
    ensures
        tried(at, r.0, e, r.1),
{
    match (at, e) {
        (TileAt::Having(k), TileEvent::Had(there)) => {
            if there {
                had(k)
            } else {
                over(code_without(k))
            }
        },
        (TileAt::Parts, TileEvent::Parts(inner, outer)) => {
            if !inner {
                over(13)
            } else if outer {
                over(14)
            } else {
                let p: Program = battle::forming(the_product());
                (TileAt::Product, TileAction::Run(Executor::Processor(STRANDS), p))
            }
        },
        (TileAt::Product, TileEvent::Ran(ran)) => product_ran(ran),
        (TileAt::Contract, TileEvent::Contract(facts)) => match facts {
            None => over(30),
            Some(f) => (TileAt::Simulated(f), TileAction::Simulate(16)),
        },
        (TileAt::Simulated(f), TileEvent::Counted(one, two)) => {
            let mut code: i32 = sim_code(one, two);
            if code == 0 {
                code = contract_code(Some(f));
            }
            if code != 0 {
                over(code)
            } else {
                (TileAt::Keys, TileAction::Keys(16, 32))
            }
        },
        (TileAt::Keys, TileEvent::Keys(keys)) => match keys {
            None => over(35),
            Some((one, two)) => {
                let code: i32 = keys_code(one, two);
                if code != 0 {
                    over(code)
                } else {
                    ask(3)
                }
            },
        },
        (TileAt::Sums, TileEvent::Ran(ran)) => sums_ran(ran),
        (TileAt::Quant, TileEvent::Code(code)) => {
            if code != 0 {
                over(code)
            } else {
                ask(10)
            }
        },
        (TileAt::Small, TileEvent::Ran(ran)) => small_ran(ran),
        (TileAt::Engine(cpu), TileEvent::Ran(ran)) => engine_ran(cpu, ran),
        (TileAt::Missing, TileEvent::Ran(ran)) => match ran {
            Ran::Unavailable => (TileAt::Denied(0), TileAction::Deny(denied_at(0))),
            _ => over(67),
        },
        (TileAt::Denied(i), TileEvent::Refused(refused)) => {
            if !refused {
                over(68 + i as i32)
            } else if i == 2 {
                ask(13)
            } else {
                (TileAt::Denied(i + 1), TileAction::Deny(denied_at(i + 1)))
            }
        },
        (TileAt::Formats, TileEvent::Code(code)) => over(code),
        (_, _) => ask(0),
    }
}

/// The exit code of the program. Where the processor has the wide registers, the part
/// of the library that uses them must have come to the right numbers.
pub fn exit_code(code: i32, has_wide: bool, wide_works: bool) -> (r: i32)
    ensures
        r == (if code != 0 {
            code
        } else if has_wide && !wide_works {
            90i32
        } else {
            OK_CODE
        }),
{
    if code != 0 {
        return code;
    }
    if has_wide && !wide_works {
        return 90;
    }
    OK_CODE
}

/// The program goes on only where what came back was right: what it asked for it had, a part
/// inside a tile lies in it and one across its edge does not, the product and its receipt are
/// the right ones, the counts agree with each other and with the closed form, two programs
/// have two names and one shape, the engine leaves the marks that the processor left, an
/// engine that is not there is told so, and what must be refused is.
pub proof fn law_tiles_go_on_only_when_right(at0: TileAt, at1: TileAt, e: TileEvent, action: TileAction)
    requires
        awaits(at0, e),
        tried(at0, at1, e, action),
    ensures
        at0 is Having && !(at1 is Over) ==> e->Had_0,
        at1 is Product ==> at0 is Parts && e->Parts_0 && !e->Parts_1,
        at1 is Contract ==> at0 is Product && e->Ran_0 is Done && battle::holds_product(
            product(),
            &runs::words_of((e->Ran_0->Done_0).tiles@, 2),
        ) && (e->Ran_0->Done_0).checksums@[0] == tile::receipt_of(
            &runs::words_of((e->Ran_0->Done_0).tiles@, 2),
        ),
        at1 is Simulated ==> at0 is Contract && e->Contract_0 == Some(at1->Simulated_0),
        at1 is Keys ==> at0 is Simulated && e->Counted_0 == e->Counted_1 && e->Counted_0 == counts_of(8)
            && at0->Simulated_0.is_cpu && at0->Simulated_0.measured && at0->Simulated_0.multiplies_bytes,
        at0 is Keys && !(at1 is Over) ==> e->Keys_0 is Some && (e->Keys_0->0).0.program
            != (e->Keys_0->0).1.program && (e->Keys_0->0).0.shape_class == (e->Keys_0->0).1.shape_class,
        at0 is Sums && !(at1 is Over) ==> e->Ran_0 is Done && (e->Ran_0->Done_0).reduced == PLACES_SUM,
        at1 is Missing ==> at0 is Engine && e->Ran_0 is Done && (e->Ran_0->Done_0).checksums@
            == at0->Engine_0.checksums@ && (e->Ran_0->Done_0).reduced == at0->Engine_0.reduced,
        at0 is Missing && !(at1 is Over) ==> e->Ran_0 is Unavailable,
        at0 is Denied && !(at1 is Over) ==> e->Refused_0,
{
}

} // verus!