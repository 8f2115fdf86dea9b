//! Trials of the tiles at the shapes of real work: the layers of a model, an attention
//! block, keys and values in pages, a column, odd sizes. The programs are run elsewhere; what
//! they have to come to is judged here, with zero or the code of what was not as it should be.

use vstd::prelude::*;
use crate::programs::runs;
use crate::programs::runs::{Buffer, Executor, Marks, Program, Ran, Report, TileOp};
use crate::programs::tile;
use crate::programs::tile::{Tile32, Tile8};

verus! {

/// The width of the model, and of the layer inside it.
pub const D_MODEL: usize = 256;

pub const D_MLP: usize = 688;

/// Rows of a page of keys.
pub const PKV_BLK: usize = 16;

/// Numbers of a key.
pub const PKV_HD: usize = 128;

/// Pages in the pool.
pub const PKV_NBLK: usize = 12;

/// Pages of a sequence.
pub const PKV_PER_SEQ: usize = 8;

/// Pages that the two sequences share.
pub const PKV_SHARED: usize = 4;

/// A byte as a number with a sign.
pub open spec fn signed_byte(b: int) -> int {
    if b < 128 {
        b
    } else {
        b - 256
    }
}

fn to_signed(b: u8) -> (v: i8)
    ensures
        v == signed_byte(b as int),
{
    if b < 128 {
        b as i8
    } else {
        (b as i16 - 256) as i8
    }
}

/// The number of a linear fill at a place.
pub open spec fn linear_value(i: int, j: int, ci: int, cj: int, c0: int) -> int {
    signed_byte((i * ci + j * cj + c0) % 256)
}

/// A tile is filled so.
pub open spec fn is_linear(t: &Tile8, ci: int, cj: int, c0: int) -> bool {
    forall|i: int, j: int|
        0 <= i < t.rows && 0 <= j < t.cols ==> #[trigger] t.at(i, j) == linear_value(
            i,
            j,
            ci,
            cj,
            c0,
        )
}

/// Fill a tile with the bytes of a linear form of the place.
pub fn fill_linear(t: &mut Tile8, ci: u64, cj: u64, c0: u64)
    requires
        old(t).wf(),
        old(t).rows <= 0x1_0000,
        old(t).cols <= 0x1_0000,
        ci <= 0x1_0000,
        cj <= 0x1_0000,
        c0 <= 0x1_0000,
    ensures
        final(t).wf(),
        final(t).rows == old(t).rows,
        final(t).cols == old(t).cols,
        final(t).stride == old(t).stride,
        is_linear(final(t), ci as int, cj as int, c0 as int),
{
    let (m, n): (usize, usize) = (t.rows, t.cols);
    let mut i: usize = 0;
    while i < m
        invariant
            t.wf(),
            m == t.rows == old(t).rows,
            n == t.cols == old(t).cols,
            t.stride == old(t).stride,
            m <= 0x1_0000,
            n <= 0x1_0000,
            ci <= 0x1_0000,
            cj <= 0x1_0000,
            c0 <= 0x1_0000,
            i <= m,
            forall|x: int, y: int|
                0 <= x < i && 0 <= y < n ==> #[trigger] t.at(x, y) == linear_value(
                    x,
                    y,
                    ci as int,
                    cj as int,
                    c0 as int,
                ),
        decreases m - i,
    {
        let mut j: usize = 0;
        while j < n
            invariant
                t.wf(),
                m == t.rows == old(t).rows,
                n == t.cols == old(t).cols,
                t.stride == old(t).stride,
                m <= 0x1_0000,
                n <= 0x1_0000,
                ci <= 0x1_0000,
                cj <= 0x1_0000,
                c0 <= 0x1_0000,
                i < m,
                j <= n,
                forall|x: int, y: int|
                    0 <= x < i && 0 <= y < n ==> #[trigger] t.at(x, y) == linear_value(
                        x,
                        y,
                        ci as int,
                        cj as int,
                        c0 as int,
                    ),
                forall|y: int|
                    0 <= y < j ==> #[trigger] t.at(i as int, y) == linear_value(
                        i as int,
                        y,
                        ci as int,
                        cj as int,
                        c0 as int,
                    ),
            decreases n - j,
        {
            proof {
                assert(0 <= i * ci <= 0x1_0000 * 0x1_0000 && 0 <= j * cj <= 0x1_0000 * 0x1_0000)
                    by (nonlinear_arith)
                    requires
                        0 <= i < 0x1_0000,
                        0 <= j < 0x1_0000,
                        0 <= ci <= 0x1_0000,
                        0 <= cj <= 0x1_0000,
                ;
            }
            let h: u64 = (i as u64) * ci + (j as u64) * cj + c0;
            t.set(i, j, to_signed((h % 256) as u8));
            j = j + 1;
        }
        i = i + 1;
    }
}

/// The number that a fill puts at a place.
pub open spec fn fill_value(i: int, j: int, seed: int) -> int {
    linear_value(i, j, seed + 3, 2 * seed + 7, seed)
}

/// A tile is filled.
pub open spec fn is_filled(t: &Tile8, seed: int) -> bool {
    is_linear(t, seed + 3, 2 * seed + 7, seed)
}

/// Fill a tile with numbers that differ with the seed.
pub fn fill_i8(t: &mut Tile8, seed: u64)
    requires
        old(t).wf(),
        old(t).rows <= 0x1_0000,
        old(t).cols <= 0x1_0000,
        seed <= 1000,
    ensures
        final(t).wf(),
        final(t).rows == old(t).rows,
        final(t).cols == old(t).cols,
        final(t).stride == old(t).stride,
        is_filled(final(t), seed as int),
{
    fill_linear(t, seed + 3, 2 * seed + 7, seed);
}

/// How a tile is filled.
#[derive(Copy, Clone, PartialEq, Eq, Debug, Structural)]
pub struct Fill {
    pub ci: u64,
    pub cj: u64,
    pub c0: u64,
}

impl Fill {
    pub open spec fn wf(&self) -> bool {
        self.ci <= 0x1_0000 && self.cj <= 0x1_0000 && self.c0 <= 0x1_0000
    }

    /// The number at a place.
    pub open spec fn value(&self, i: int, j: int) -> int {
        linear_value(i, j, self.ci as int, self.cj as int, self.c0 as int)
    }
}

/// The fill of a seed.
pub open spec fn seeded(seed: u64) -> Fill {
    Fill { ci: (seed + 3) as u64, cj: (2 * seed + 7) as u64, c0: seed }
}

fn of_seed(seed: u64) -> (f: Fill)
    requires
        seed <= 1000,
    ensures
        f == seeded(seed),
        f.wf(),
{
    Fill { ci: seed + 3, cj: 2 * seed + 7, c0: seed }
}

/// A tile of this size, filled so.
pub open spec fn is_fill(t: &Tile8, rows: int, cols: int, stride: int, f: Fill) -> bool {
    &&& t.wf()
    &&& t.rows == rows
    &&& t.cols == cols
    &&& t.stride == stride
    &&& is_linear(t, f.ci as int, f.cj as int, f.c0 as int)
}

/// A tile of this size, filled so.
pub fn filled(rows: usize, cols: usize, stride: usize, f: Fill) -> (t: Tile8)
    requires
        rows <= 0x1_0000,
        cols <= 0x1_0000,
        cols <= stride,
        f.wf(),
    ensures
        is_fill(&t, rows as int, cols as int, stride as int, f),
{
    let mut t: Tile8 = Tile8::new(rows, cols, stride);
    fill_linear(&mut t, f.ci, f.cj, f.c0);
    t
}

/// A product of two filled tiles: the sides, the strides of the second tile and of the
/// result, the fills, and the side of a block.
#[derive(Copy, Clone, PartialEq, Eq, Debug, Structural)]
pub struct Product {
    pub m: usize,
    pub k: usize,
    pub n: usize,
    pub b_stride: usize,
    pub c_stride: usize,
    pub a: Fill,
    pub b: Fill,
    pub block: usize,
}

impl Product {
    pub open spec fn wf(&self) -> bool {
        &&& self.m <= 0x1_0000 && self.k <= 0x1_0000 && self.n <= 0x1_0000
        &&& self.n <= self.b_stride && self.n <= self.c_stride
        &&& self.a.wf() && self.b.wf()
    }
}

/// A tile of zeros of this size stands at `k`.
pub open spec fn blank_words(p: &Program, k: int, rows: int, cols: int, stride: int) -> bool {
    &&& p.tiles@[k] matches Buffer::Words(t) && {
        &&& t.wf() && t.rows == rows && t.cols == cols && t.stride == stride
        &&& forall|i: int, j: int| 0 <= i < rows && 0 <= j < cols ==> #[trigger] t.at(i, j) == 0
    }
}

/// The same, of bytes.
pub open spec fn blank_bytes(p: &Program, k: int, rows: int, cols: int, stride: int) -> bool {
    &&& p.tiles@[k] matches Buffer::Bytes(t) && {
        &&& t.wf() && t.rows == rows && t.cols == cols && t.stride == stride
        &&& forall|i: int, j: int| 0 <= i < rows && 0 <= j < cols ==> #[trigger] t.at(i, j) == 0
    }
}

/// A filled tile stands at `k`.
pub open spec fn holds_fill(p: &Program, k: int, rows: int, cols: int, stride: int, f: Fill) -> bool {
    p.tiles@[k] matches Buffer::Bytes(t) && is_fill(&t, rows, cols, stride, f)
}

/// A program binds the tiles of a product.
pub open spec fn binds(p: &Program, g: Product) -> bool {
    &&& p.tiles@.len() == 3
    &&& holds_fill(p, 0, g.m as int, g.k as int, g.k as int, g.a)
    &&& holds_fill(p, 1, g.k as int, g.n as int, g.b_stride as int, g.b)
    &&& blank_words(p, 2, g.m as int, g.n as int, g.c_stride as int)
}

/// A program forms a product.
pub open spec fn forms(p: &Program, g: Product) -> bool {
    &&& binds(p, g)
    &&& p.ops@ == seq![TileOp::Gemm { a: 0, b: 1, c: 2, block: g.block }]
}

/// The program that forms a product.
pub fn forming(g: Product) -> (p: Program)
    requires
        g.wf(),
    ensures
        forms(&p, g),
{
    let a: Tile8 = filled(g.m, g.k, g.k, g.a);
    let b: Tile8 = filled(g.k, g.n, g.b_stride, g.b);
    let c: Tile32 = Tile32::new(g.m, g.n, g.c_stride);
    let p: Program = Program {
        tiles: vec![Buffer::Bytes(a), Buffer::Bytes(b), Buffer::Words(c)],
        ops: vec![TileOp::Gemm { a: 0, b: 1, c: 2, block: g.block }],
    };
    assert(p.ops@ =~= seq![TileOp::Gemm { a: 0, b: 1, c: 2, block: g.block }]);
    p
}

/// The sum of the first `k` products of a row and a column of two filled tiles.
pub open spec fn filled_dot(a: Fill, b: Fill, i: int, j: int, k: int) -> int
    decreases k,
{
    if k <= 0 {
        0
    } else {
        filled_dot(a, b, i, j, k - 1) + a.value(i, k - 1) * b.value(k - 1, j)
    }
}

/// A tile holds a product.
pub open spec fn holds_product(g: Product, c: &Tile32) -> bool {
    forall|i: int, j: int|
        0 <= i < c.rows && 0 <= j < c.cols ==> #[trigger] c.at(i, j) == filled_dot(
            g.a,
            g.b,
            i,
            j,
            g.k as int,
        )
}

proof fn lemma_filled_dot(x: &Tile8, y: &Tile8, a: Fill, b: Fill, i: int, j: int, k: int)
    requires
        is_linear(x, a.ci as int, a.cj as int, a.c0 as int),
        is_linear(y, b.ci as int, b.cj as int, b.c0 as int),
        0 <= i < x.rows,
        0 <= j < y.cols,
        0 <= k <= x.cols,
        k <= y.rows,
    ensures
        tile::dot(x, y, i, j, k) == filled_dot(a, b, i, j, k),
    decreases k,
{
    if k > 0 {
        lemma_filled_dot(x, y, a, b, i, j, k - 1);
        assert(x.at(i, k - 1) == a.value(i, k - 1));
        assert(y.at(k - 1, j) == b.value(k - 1, j));
    }
}

/// The product of two filled tiles is the product of what they are filled with.
pub proof fn law_product_of_fills(g: Product, x: &Tile8, y: &Tile8, c: &Tile32)
    requires
        is_fill(x, g.m as int, g.k as int, g.k as int, g.a),
        is_fill(y, g.k as int, g.n as int, g.b_stride as int, g.b),
        c.rows == g.m,
        c.cols == g.n,
    ensures
        tile::is_product(x, y, c) == holds_product(g, c),
{
    assert forall|i: int, j: int| 0 <= i < c.rows && 0 <= j < c.cols implies #[trigger] tile::dot(
        x,
        y,
        i,
        j,
        g.k as int,
    ) == filled_dot(g.a, g.b, i, j, g.k as int) by {
        lemma_filled_dot(x, y, g.a, g.b, i, j, g.k as int);
    }
    if tile::is_product(x, y, c) {
        assert forall|i: int, j: int| 0 <= i < c.rows && 0 <= j < c.cols implies #[trigger] c.at(i, j)
            == filled_dot(g.a, g.b, i, j, g.k as int) by {
            assert(tile::dot(x, y, i, j, g.k as int) == filled_dot(g.a, g.b, i, j, g.k as int));
        }
    }
    if holds_product(g, c) {
        assert forall|i: int, j: int| 0 <= i < c.rows && 0 <= j < c.cols implies #[trigger] c.at(i, j)
            == tile::dot(x, y, i, j, x.cols as int) by {
            assert(tile::dot(x, y, i, j, g.k as int) == filled_dot(g.a, g.b, i, j, g.k as int));
        }
    }
}

/// Whether a tile holds a product, number by number.
pub fn holds_naive(g: Product, c: &Tile32) -> (ok: bool)
    requires
        g.wf(),
        c.wf(),
        c.rows == g.m,
        c.cols == g.n,
    ensures
        ok == holds_product(g, c),
{
    let a: Tile8 = filled(g.m, g.k, g.k, g.a);
    let b: Tile8 = filled(g.k, g.n, g.b_stride, g.b);
    proof {
        law_product_of_fills(g, &a, &b, c);
    }
    matches_naive(&a, &b, c)
}

/// Whether a tile is the product of two others, number by number.
pub fn matches_naive(a: &Tile8, b: &Tile8, c: &Tile32) -> (ok: bool)
    requires
        a.wf(),
        b.wf(),
        c.wf(),
        tile::shapes_fit(a, b, c),
    ensures
        ok == tile::is_product(a, b, c),
{
    let mut i: usize = 0;
    while i < c.rows
        invariant
            a.wf(),
            b.wf(),
            c.wf(),
            tile::shapes_fit(a, b, c),
            i <= c.rows,
            forall|x: int, y: int|
                0 <= x < i && 0 <= y < c.cols ==> #[trigger] c.at(x, y) == tile::dot(
                    a,
                    b,
                    x,
                    y,
                    a.cols as int,
                ),
        decreases c.rows - i,
    {
        let mut j: usize = 0;
        while j < c.cols
            invariant
                a.wf(),
                b.wf(),
                c.wf(),
                tile::shapes_fit(a, b, c),
                i < c.rows,
                j <= c.cols,
                forall|x: int, y: int|
                    0 <= x < i && 0 <= y < c.cols ==> #[trigger] c.at(x, y) == tile::dot(
                        a,
                        b,
                        x,
                        y,
                        a.cols as int,
                    ),
                forall|y: int|
                    0 <= y < j ==> #[trigger] c.at(i as int, y) == tile::dot(
                        a,
                        b,
                        i as int,
                        y,
                        a.cols as int,
                    ),
            decreases c.cols - j,
        {
            let want: i32 = tile::dot_from(a, b, i, j, 0, a.cols, 0);
            if c.get(i, j) != want {
                assert(c.at(i as int, j as int) != tile::dot(
                    a,
                    b,
                    i as int,
                    j as int,
                    a.cols as int,
                ));
                return false;
            }
            j = j + 1;
        }
        i = i + 1;
    }
    true
}

/// What an attention block leaves at its stages.
pub struct Attention {
    pub q: Tile32,
    pub qq: Tile8,
    pub v: Tile32,
    pub vq: Tile8,
    pub scores: Tile32,
    pub probs: Tile8,
    pub out: Tile32,
}

/// What an attention block takes.
pub struct AttentionInput {
    pub x: Tile8,
    pub wq: Tile8,
    pub kt: Tile8,
    pub wv: Tile8,
}

impl AttentionInput {
    /// `seq` rows of a model of width `d`.
    pub open spec fn wf(&self) -> bool {
        let seq = self.x.rows;
        let d = self.x.cols;
        &&& self.x.wf() && self.wq.wf() && self.kt.wf() && self.wv.wf()
        &&& self.wq.rows == d && self.wq.cols == d
        &&& self.wv.rows == d && self.wv.cols == d
        &&& self.kt.rows == d && self.kt.cols == seq
        &&& d <= tile::MAX_DEPTH && seq <= tile::MAX_DEPTH
    }
}

/// The stages of an attention block: queries and values are products of the input and are
/// narrowed; the scores are the product of the queries and the keys, narrowed too; and
/// the output is the product of those and the values.
pub open spec fn attends(in_: &AttentionInput, o: &Attention) -> bool {
    &&& o.q.wf() && o.qq.wf() && o.v.wf() && o.vq.wf() && o.scores.wf() && o.probs.wf() && o.out.wf()
    &&& o.q.rows == o.qq.rows == o.v.rows == o.vq.rows == o.scores.rows == o.probs.rows
        == o.out.rows == in_.x.rows
    &&& o.q.cols == o.qq.cols == o.v.cols == o.vq.cols == o.out.cols == in_.x.cols
    &&& o.scores.cols == o.probs.cols == in_.x.rows
    &&& tile::is_product(&in_.x, &in_.wq, &o.q)
    &&& tile::is_narrowed(&o.q, &o.qq, 8)
    &&& tile::is_product(&in_.x, &in_.wv, &o.v)
    &&& tile::is_narrowed(&o.v, &o.vq, 8)
    &&& tile::is_product(&o.qq, &in_.kt, &o.scores)
    &&& tile::is_narrowed(&o.scores, &o.probs, 8)
    &&& tile::is_product(&o.probs, &o.vq, &o.out)
}

proof fn lemma_same_dot(a: &Tile8, b: &Tile8, c: &Tile8, d: &Tile8, i: int, j: int, k: int)
    requires
        forall|x: int| 0 <= x < k ==> #[trigger] a.at(i, x) == c.at(i, x),
        forall|x: int| 0 <= x < k ==> #[trigger] b.at(x, j) == d.at(x, j),
    ensures
        tile::dot(a, b, i, j, k) == tile::dot(c, d, i, j, k),
    decreases k,
{
    if k > 0 {
        lemma_same_dot(a, b, c, d, i, j, k - 1);
        assert(a.at(i, k - 1) == c.at(i, k - 1));
        assert(b.at(k - 1, j) == d.at(k - 1, j));
    }
}

/// An attention block is a function of what it takes: run again on the same input, every
/// stage leaves the same numbers, so that its receipts never drift.
pub proof fn law_attention_does_not_drift(in_: &AttentionInput, o: &Attention, p: &Attention)
    requires
        in_.wf(),
        attends(in_, o),
        attends(in_, p),
    ensures
        tile::holds_same(&o.q, &p.q),
        tile::holds_same(&o.v, &p.v),
        tile::holds_same(&o.scores, &p.scores),
        tile::holds_same(&o.out, &p.out),
        tile::receipt_of(&o.out) == tile::receipt_of(&p.out),
        tile::reduced(&o.out) == tile::reduced(&p.out),
{
    assert(tile::holds_same(&o.q, &p.q));
    assert(tile::holds_same(&o.v, &p.v));
    assert forall|i: int, j: int|
        0 <= i < o.qq.rows && 0 <= j < o.qq.cols implies #[trigger] o.qq.at(i, j) == p.qq.at(i, j) by {
        assert(o.q.at(i, j) == p.q.at(i, j));
    }
    assert forall|i: int, j: int|
        0 <= i < o.vq.rows && 0 <= j < o.vq.cols implies #[trigger] o.vq.at(i, j) == p.vq.at(i, j) by {
        assert(o.v.at(i, j) == p.v.at(i, j));
    }
    assert forall|i: int, j: int|
        0 <= i < o.scores.rows && 0 <= j < o.scores.cols implies #[trigger] o.scores.at(i, j)
        == p.scores.at(i, j) by {
        lemma_same_dot(&o.qq, &in_.kt, &p.qq, &in_.kt, i, j, o.qq.cols as int);
        assert(p.scores.at(i, j) == tile::dot(&p.qq, &in_.kt, i, j, p.qq.cols as int));
    }
    assert forall|i: int, j: int|
        0 <= i < o.probs.rows && 0 <= j < o.probs.cols implies #[trigger] o.probs.at(i, j)
        == p.probs.at(i, j) by {
        assert(o.scores.at(i, j) == p.scores.at(i, j));
    }
    assert forall|i: int, j: int|
        0 <= i < o.out.rows && 0 <= j < o.out.cols implies #[trigger] o.out.at(i, j) == p.out.at(
        i,
        j,
    ) by {
        lemma_same_dot(&o.probs, &o.vq, &p.probs, &p.vq, i, j, o.probs.cols as int);
        assert(p.out.at(i, j) == tile::dot(&p.probs, &p.vq, i, j, p.probs.cols as int));
    }
    tile::law_receipt_is_of_the_numbers(&o.out, &p.out);
}

/// The pages of a sequence lie in a pool.
pub open spec fn pages_fit(pool: &Tile8, table: Seq<usize>) -> bool {
    forall|b: int| 0 <= b < table.len() ==> (#[trigger] table[b] + 1) * PKV_BLK <= pool.rows
}

/// The place in the pool of a key of a sequence.
pub open spec fn key_row(table: Seq<usize>, c: int) -> int {
    table[c / PKV_BLK as int] * PKV_BLK + c % PKV_BLK as int
}

/// The keys of a sequence side by side, each as a column.
pub open spec fn is_gathered(pool: &Tile8, table: Seq<usize>, kt: &Tile8) -> bool {
    &&& kt.wf()
    &&& kt.rows == pool.cols
    &&& kt.cols == table.len() * PKV_BLK
    &&& forall|x: int, c: int|
        0 <= x < kt.rows && 0 <= c < kt.cols ==> #[trigger] kt.at(x, c) == pool.at(
            key_row(table, c),
            x,
        )
}

/// Gather the keys of a sequence from its pages.
pub fn gather(pool: &Tile8, table: &Vec<usize>) -> (kt: Tile8)
    requires
        pool.wf(),
        pages_fit(pool, table@),
        table@.len() <= PKV_PER_SEQ,
    ensures
        is_gathered(pool, table@, &kt),
{
    let n: usize = table.len() * PKV_BLK;
    let mut kt: Tile8 = Tile8::new(pool.cols, n, n);
    let mut c: usize = 0;
    while c < n
        invariant
            pool.wf(),
            pages_fit(pool, table@),
            n == table@.len() * PKV_BLK,
            kt.wf(),
            kt.rows == pool.cols,
            kt.cols == n,
            kt.stride == n,
            c <= n,
            forall|x: int, d: int|
                0 <= x < kt.rows && 0 <= d < c ==> #[trigger] kt.at(x, d) == pool.at(
                    key_row(table@, d),
                    x,
                ),
        decreases n - c,
    {
        proof {
            assert((table@[c as int / PKV_BLK as int] + 1) * PKV_BLK <= pool.rows);
            assert(pool.rows <= usize::MAX);
        }
        let row: usize = table[c / PKV_BLK] * PKV_BLK + c % PKV_BLK;
        let mut x: usize = 0;
        while x < pool.cols
            invariant
                pool.wf(),
                row < pool.rows,
                row == key_row(table@, c as int),
                kt.wf(),
                kt.rows == pool.cols,
                kt.cols == n,
                kt.stride == n,
                c < n,
                x <= pool.cols,
                forall|y: int, d: int|
                    0 <= y < kt.rows && 0 <= d < c ==> #[trigger] kt.at(y, d) == pool.at(
                        key_row(table@, d),
                        y,
                    ),
                forall|y: int|
                    0 <= y < x ==> #[trigger] kt.at(y, c as int) == pool.at(row as int, y),
            decreases pool.cols - x,
        {
            kt.set(x, c, pool.get(row, x));
            x = x + 1;
        }
        c = c + 1;
    }
    kt
}

/// The scores of a sequence: the product of some queries and its keys.
pub open spec fn is_scores(pool: &Tile8, q: &Tile8, table: Seq<usize>, s: &Tile32) -> bool {
    &&& s.wf()
    &&& s.rows == q.rows
    &&& s.cols == table.len() * PKV_BLK
    &&& forall|r: int, c: int|
        0 <= r < s.rows && 0 <= c < s.cols ==> #[trigger] s.at(r, c) == score(
            pool,
            q,
            r,
            key_row(table, c),
            q.cols as int,
        )
}

/// The sum of the first `k` products of a query and a key of the pool.
pub open spec fn score(pool: &Tile8, q: &Tile8, r: int, key: int, k: int) -> int
    decreases k,
{
    if k <= 0 {
        0
    } else {
        score(pool, q, r, key, k - 1) + q.at(r, k - 1) * pool.at(key, k - 1)
    }
}

proof fn lemma_score_is_dot(pool: &Tile8, q: &Tile8, kt: &Tile8, table: Seq<usize>, r: int, c: int, k: int)
    requires
        is_gathered(pool, table, kt),
        0 <= k <= kt.rows,
        0 <= c < kt.cols,
    ensures
        tile::dot(q, kt, r, c, k) == score(pool, q, r, key_row(table, c), k),
    decreases k,
{
    if k > 0 {
        lemma_score_is_dot(pool, q, kt, table, r, c, k - 1);
        assert(kt.at(k - 1, c) == pool.at(key_row(table, c), k - 1));
    }
}

/// A program scores a sequence whose keys lie in pages.
pub open spec fn scores_pages(pool: &Tile8, table: Seq<usize>, p: &Program) -> bool {
    &&& p.tiles@.len() == 3
    &&& holds_fill(p, 0, PKV_BLK as int, PKV_HD as int, PKV_HD as int, seeded(14))
    &&& p.tiles@[1] matches Buffer::Bytes(kt) && is_gathered(pool, table, &kt)
    &&& blank_words(
        p,
        2,
        PKV_BLK as int,
        table.len() * PKV_BLK,
        table.len() * PKV_BLK,
    )
    &&& p.ops@ == seq![TileOp::Gemm { a: 0, b: 1, c: 2, block: 16 }]
}

/// The program that scores a sequence whose keys lie in pages.
pub fn paged_kv_scores(pool: &Tile8, table: &Vec<usize>) -> (p: Program)
    requires
        pool.wf(),
        pool.cols == PKV_HD,
        pages_fit(pool, table@),
        table@.len() <= PKV_PER_SEQ,
    ensures
        scores_pages(pool, table@, &p),
{
    let q: Tile8 = filled(PKV_BLK, PKV_HD, PKV_HD, of_seed(14));
    let kt: Tile8 = gather(pool, table);
    let s: Tile32 = Tile32::new(PKV_BLK, kt.cols, kt.cols);
    let p: Program = Program {
        tiles: vec![Buffer::Bytes(q), Buffer::Bytes(kt), Buffer::Words(s)],
        ops: vec![TileOp::Gemm { a: 0, b: 1, c: 2, block: 16 }],
    };
    assert(p.ops@ =~= seq![TileOp::Gemm { a: 0, b: 1, c: 2, block: 16 }]);
    p
}

/// What a program over the pages of a sequence forms are the scores of that sequence.
pub proof fn law_paged_product_is_scores(
    pool: &Tile8,
    q: &Tile8,
    kt: &Tile8,
    table: Seq<usize>,
    s: &Tile32,
)
    requires
        is_gathered(pool, table, kt),
        q.cols == kt.rows,
        s.wf(),
        s.rows == q.rows,
        s.cols == kt.cols,
        tile::is_product(q, kt, s),
    ensures
        is_scores(pool, q, table, s),
{
    assert forall|r: int, c: int| 0 <= r < s.rows && 0 <= c < s.cols implies #[trigger] s.at(r, c)
        == score(pool, q, r, key_row(table, c), q.cols as int) by {
        lemma_score_is_dot(pool, q, kt, table, r, c, q.cols as int);
    }
}

/// Sequences share what their tables share: where two tables name the same page, the
/// scores of its keys are the same, whatever else the sequences hold.
pub proof fn law_shared_pages_score_the_same(
    pool: &Tile8,
    q: &Tile8,
    ta: Seq<usize>,
    tb: Seq<usize>,
    sa: &Tile32,
    sb: &Tile32,
    r: int,
    c: int,
)
    requires
        is_scores(pool, q, ta, sa),
        is_scores(pool, q, tb, sb),
        0 <= r < q.rows,
        0 <= c < sa.cols,
        c < sb.cols,
        ta[c / PKV_BLK as int] == tb[c / PKV_BLK as int],
    ensures
        sa.at(r, c) == sb.at(r, c),
{
    assert(key_row(ta, c) == key_row(tb, c));
}

/// The number of the pool at a place: a page is told from the others by its number.
pub open spec fn pool_value(i: int, j: int) -> int {
    signed_byte(((i / 16) * 101 + (i % 16) * 7 + j * 3 + 5) % 256)
}

/// A tile is the pool.
pub open spec fn is_pool(t: &Tile8) -> bool {
    &&& t.wf()
    &&& t.rows == PKV_NBLK * PKV_BLK
    &&& t.cols == PKV_HD
    &&& forall|i: int, j: int|
        0 <= i < t.rows && 0 <= j < t.cols ==> #[trigger] t.at(i, j) == pool_value(i, j)
}

fn filled_pool() -> (t: Tile8)
    ensures
        is_pool(&t),
{
    let mut t: Tile8 = Tile8::new(192, 128, 128);
    let mut i: usize = 0;
    while i < 192
        invariant
            t.wf(),
            t.rows == 192,
            t.cols == 128,
            i <= 192,
            forall|x: int, y: int|
                0 <= x < i && 0 <= y < 128 ==> #[trigger] t.at(x, y) == pool_value(x, y),
        decreases 192 - i,
    {
        let mut j: usize = 0;
        while j < 128
            invariant
                t.wf(),
                t.rows == 192,
                t.cols == 128,
                i < 192,
                j <= 128,
                forall|x: int, y: int|
                    0 <= x < i && 0 <= y < 128 ==> #[trigger] t.at(x, y) == pool_value(x, y),
                forall|y: int|
                    0 <= y < j ==> #[trigger] t.at(i as int, y) == pool_value(i as int, y),
            decreases 128 - j,
        {
            let h: usize = (i / 16) * 101 + (i % 16) * 7 + j * 3 + 5;
            t.set(i, j, to_signed((h % 256) as u8));
            j = j + 1;
        }
        i = i + 1;
    }
    t
}

/// The sum of the first `k` products of a query and a key, as they are filled.
pub open spec fn filled_score(r: int, key: int, k: int) -> int
    decreases k,
{
    if k <= 0 {
        0
    } else {
        filled_score(r, key, k - 1) + fill_value(r, k - 1, 14) * pool_value(key, k - 1)
    }
}

proof fn lemma_filled_score(pool: &Tile8, q: &Tile8, r: int, key: int, k: int)
    requires
        0 <= k <= 128,
        q.cols == 128,
        pool.cols == 128,
        0 <= r < q.rows,
        0 <= key < pool.rows,
        is_filled(q, 14),
        forall|i: int, j: int|
            0 <= i < pool.rows && 0 <= j < pool.cols ==> #[trigger] pool.at(i, j) == pool_value(
                i,
                j,
            ),
    ensures
        score(pool, q, r, key, k) == filled_score(r, key, k),
    decreases k,
{
    if k > 0 {
        lemma_filled_score(pool, q, r, key, k - 1);
        assert(q.at(r, k - 1) == fill_value(r, k - 1, 14));
        assert(pool.at(key, k - 1) == pool_value(key, k - 1));
    }
}

/// The place in the pool of a key of the first sequence, whose pages are the first eight.
pub open spec fn first_row(c: int) -> int {
    c
}

/// The place in the pool of a key of the second sequence, whose first four pages are
/// those of the first, and whose others lie behind.
pub open spec fn second_row(c: int) -> int {
    if c < PKV_SHARED * PKV_BLK {
        c
    } else {
        c + 64
    }
}


/// The pages of the first sequence, or of the second.
pub open spec fn table_of(second: bool) -> Seq<usize> {
    if second {
        seq![0usize, 1, 2, 3, 8, 9, 10, 11]
    } else {
        seq![0usize, 1, 2, 3, 4, 5, 6, 7]
    }
}

/// The place in the pool of a key of either sequence.
pub open spec fn row_of(second: bool, c: int) -> int {
    if second {
        second_row(c)
    } else {
        first_row(c)
    }
}

/// A program scores one of the two sequences over the pool.
pub open spec fn scores_sequence(second: bool, p: &Program) -> bool {
    exists|pool: Tile8| is_pool(&pool) && #[trigger] scores_pages(&pool, table_of(second), p)
}

fn scoring(second: bool) -> (p: Program)
    ensures
        scores_sequence(second, &p),
{
    let pool: Tile8 = filled_pool();
    let table: Vec<usize> = if second {
        vec![0, 1, 2, 3, 8, 9, 10, 11]
    } else {
        vec![0, 1, 2, 3, 4, 5, 6, 7]
    };
    assert(table@ =~= table_of(second));
    let p: Program = paged_kv_scores(&pool, &table);
    assert(scores_pages(&pool, table_of(second), &p));
    p
}

/// The scores of either sequence.
pub open spec fn scores_of(second: bool, s: &Tile32) -> bool {
    &&& s.rows == PKV_BLK
    &&& s.cols == PKV_PER_SEQ * PKV_BLK
    &&& forall|r: int, c: int|
        0 <= r < s.rows && 0 <= c < s.cols ==> #[trigger] s.at(r, c) == filled_score(
            r,
            row_of(second, c),
            128,
        )
}

/// The products that the program over either sequence asks for are its scores.
pub proof fn law_pages_are_scored(second: bool, p: &Program, s: &Tile32)
    requires
        scores_sequence(second, p),
        s.wf(),
        s.rows == PKV_BLK,
        s.cols == PKV_PER_SEQ * PKV_BLK,
        tile::is_product(&p.tiles@[0]->Bytes_0, &p.tiles@[1]->Bytes_0, s),
    ensures
        scores_of(second, s),
{
    let pool = choose|pool: Tile8| is_pool(&pool) && #[trigger] scores_pages(&pool, table_of(second), p);
    let q = p.tiles@[0]->Bytes_0;
    let kt = p.tiles@[1]->Bytes_0;
    law_paged_product_is_scores(&pool, &q, &kt, table_of(second), s);
    assert forall|r: int, c: int| 0 <= r < s.rows && 0 <= c < s.cols implies #[trigger] s.at(r, c)
        == filled_score(r, row_of(second, c), 128) by {
        assert(key_row(table_of(second), c) == row_of(second, c));
        lemma_filled_score(&pool, &q, r, row_of(second, c), 128);
    }
}

/// By how much the scores of the first query differ on the first key that the sequences do
/// not share.
pub open spec fn gap(k: int) -> int {
    filled_score(0, 64, k) - filled_score(0, 128, k)
}

proof fn lemma_gap(k: int, q: int, d: int)
    requires
        0 <= k,
        fill_value(0, k, 14) == q,
        pool_value(64, k) - pool_value(128, k) == d,
    ensures
        gap(k + 1) == gap(k) + q * d,
{
    let a = pool_value(64, k);
    let b = pool_value(128, k);
    assert(q * a - q * b == q * (a - b)) by (nonlinear_arith);
}

proof fn lemma_gap_of_four(
    k: int,
    q0: int,
    q1: int,
    q2: int,
    q3: int,
    d0: int,
    d1: int,
    d2: int,
    d3: int,
)
    requires
        0 <= k,
        fill_value(0, k, 14) == q0,
        fill_value(0, k + 1, 14) == q1,
        fill_value(0, k + 2, 14) == q2,
        fill_value(0, k + 3, 14) == q3,
        pool_value(64, k) - pool_value(128, k) == d0,
        pool_value(64, k + 1) - pool_value(128, k + 1) == d1,
        pool_value(64, k + 2) - pool_value(128, k + 2) == d2,
        pool_value(64, k + 3) - pool_value(128, k + 3) == d3,
    ensures
        gap(k + 4) == gap(k) + q0 * d0 + q1 * d1 + q2 * d2 + q3 * d3,
{
    lemma_gap(k, q0, d0);
    lemma_gap(k + 1, q1, d1);
    lemma_gap(k + 2, q2, d2);
    lemma_gap(k + 3, q3, d3);
}

proof fn lemma_gap_to_32()
    ensures
        gap(32) == 1728,
{
    lemma_gap_of_four(0, 14, 49, 84, 119, -148, -148, -148, -148);
    lemma_gap_of_four(4, -102, -67, -32, 3, -148, -148, -148, -148);
    lemma_gap_of_four(8, 38, 73, 108, -113, -148, -148, -148, -148);
    lemma_gap_of_four(12, -78, -43, -8, 27, -148, -148, -148, -148);
    lemma_gap_of_four(16, 62, 97, -124, -89, -148, -148, -148, -148);
    lemma_gap_of_four(20, -54, -19, 16, 51, -148, -148, -148, -148);
    lemma_gap_of_four(24, 86, 121, -100, -65, -148, -148, -148, -148);
    lemma_gap_of_four(28, -30, 5, 40, 75, 108, 108, 108, 108);
}

proof fn lemma_gap_to_64()
    ensures
        gap(64) == -10368,
{
    lemma_gap_to_32();
    lemma_gap_of_four(32, 110, -111, -76, -41, 108, 108, 108, 108);
    lemma_gap_of_four(36, -6, 29, 64, 99, 108, 108, 108, 108);
    lemma_gap_of_four(40, -122, -87, -52, -17, 108, 108, 108, 108);
    lemma_gap_of_four(44, 18, 53, 88, 123, 108, 108, 108, 108);
    lemma_gap_of_four(48, -98, -63, -28, 7, 108, 108, 108, 108);
    lemma_gap_of_four(52, 42, 77, 112, -109, 108, 108, 108, 108);
    lemma_gap_of_four(56, -74, -39, -4, 31, 108, 108, 108, 108);
    lemma_gap_of_four(60, 66, 101, -120, -85, 108, 108, 108, 108);
}

proof fn lemma_gap_to_96()
    ensures
        gap(96) == 42048,
{
    lemma_gap_to_64();
    lemma_gap_of_four(64, -50, -15, 20, 55, 108, 108, 108, 108);
    lemma_gap_of_four(68, 90, 125, -96, -61, 108, 108, 108, 108);
    lemma_gap_of_four(72, -26, 9, 44, 79, 108, 108, 108, 108);
    lemma_gap_of_four(76, 114, -107, -72, -37, 108, -148, -148, -148);
    lemma_gap_of_four(80, -2, 33, 68, 103, -148, -148, -148, -148);
    lemma_gap_of_four(84, -118, -83, -48, -13, -148, -148, -148, -148);
    lemma_gap_of_four(88, 22, 57, 92, 127, -148, -148, -148, -148);
    lemma_gap_of_four(92, -94, -59, -24, 11, -148, -148, -148, -148);
}

proof fn lemma_gap_to_128()
    ensures
        gap(128) == 15104,
{
    lemma_gap_to_96();
    lemma_gap_of_four(96, 46, 81, 116, -105, -148, -148, -148, -148);
    lemma_gap_of_four(100, -70, -35, 0, 35, -148, -148, -148, -148);
    lemma_gap_of_four(104, 70, 105, -116, -81, -148, -148, -148, -148);
    lemma_gap_of_four(108, -46, -11, 24, 59, -148, -148, -148, -148);
    lemma_gap_of_four(112, 94, -127, -92, -57, -148, 108, 108, 108);
    lemma_gap_of_four(116, -22, 13, 48, 83, 108, 108, 108, 108);
    lemma_gap_of_four(120, 118, -103, -68, -33, 108, 108, 108, 108);
    lemma_gap_of_four(124, 2, 37, 72, 107, 108, 108, 108, 108);
}

/// Two sequences over one pool: where they share pages they score the same, and where
/// they do not, they diverge.
pub proof fn law_sequences_share_and_diverge(sa: &Tile32, sb: &Tile32)
    requires
        scores_of(false, sa),
        scores_of(true, sb),
    ensures
        forall|r: int, c: int|
            0 <= r < PKV_BLK && 0 <= c < PKV_SHARED * PKV_BLK ==> #[trigger] sa.at(r, c) == sb.at(
                r,
                c,
            ),
        sa.at(0, 64) != sb.at(0, 64),
        !tile::holds_same(sa, sb),
{
    lemma_gap_to_128();
    assert(sa.at(0, 64) == filled_score(0, 64, 128));
    assert(sb.at(0, 64) == filled_score(0, 128, 128));
    assert forall|r: int, c: int|
        0 <= r < PKV_BLK && 0 <= c < PKV_SHARED * PKV_BLK implies #[trigger] sa.at(r, c) == sb.at(
        r,
        c,
    ) by {
        assert(row_of(false, c) == row_of(true, c));
        assert(sb.at(r, c) == filled_score(r, row_of(true, c), 128));
    }
}

fn columns_agree(a: &Tile32, b: &Tile32, from: usize, to: usize) -> (ok: bool)
    requires
        a.wf(),
        b.wf(),
        a.rows == b.rows,
        from <= to <= a.cols,
        a.cols == b.cols,
    ensures
        ok == (forall|r: int, c: int|
            0 <= r < a.rows && from <= c < to ==> #[trigger] a.at(r, c) == b.at(r, c)),
{
    let mut i: usize = 0;
    while i < a.rows
        invariant
            a.wf(),
            b.wf(),
            a.rows == b.rows,
            from <= to <= a.cols,
            a.cols == b.cols,
            i <= a.rows,
            forall|r: int, c: int|
                0 <= r < i && from <= c < to ==> #[trigger] a.at(r, c) == b.at(r, c),
        decreases a.rows - i,
    {
        let mut j: usize = from;
        while j < to
            invariant
                a.wf(),
                b.wf(),
                a.rows == b.rows,
                from <= j <= to <= a.cols,
                a.cols == b.cols,
                i < a.rows,
                forall|r: int, c: int|
                    0 <= r < i && from <= c < to ==> #[trigger] a.at(r, c) == b.at(r, c),
                forall|c: int| from <= c < j ==> #[trigger] a.at(i as int, c) == b.at(i as int, c),
            decreases to - j,
        {
            if a.get(i, j) != b.get(i, j) {
                assert(a.at(i as int, j as int) != b.at(i as int, j as int));
                return false;
            }
            j = j + 1;
        }
        i = i + 1;
    }
    true
}

/// A tile that counts its places.
pub open spec fn is_counted(c: &Tile32) -> bool {
    forall|i: int, j: int|
        0 <= i < c.rows && 0 <= j < c.cols ==> #[trigger] c.at(i, j) == i * c.cols + j
}

/// A tile that holds, at each place, how many places stand before it.
pub fn counted(rows: usize, cols: usize) -> (c: Tile32)
    requires
        rows <= 0x1000,
        cols <= 0x1000,
    ensures
        c.wf(),
        c.rows == rows,
        c.cols == cols,
        is_counted(&c),
{
    let mut c: Tile32 = Tile32::new(rows, cols, cols);
    let mut next: i32 = 0;
    let mut i: usize = 0;
    proof {
        assert(0 * cols == 0) by (nonlinear_arith);
    }
    while i < rows
        invariant
            c.wf(),
            c.rows == rows <= 0x1000,
            c.cols == cols <= 0x1000,
            i <= rows,
            next == i * cols,
            forall|x: int, y: int|
                0 <= x < i && 0 <= y < cols ==> #[trigger] c.at(x, y) == x * cols + y,
        decreases rows - i,
    {
        let ghost first: int = i * cols;
        proof {
            assert(i * cols + cols <= 0x100_0000 && (i + 1) * cols == i * cols + cols)
                by (nonlinear_arith)
                requires
                    i < rows <= 0x1000,
                    cols <= 0x1000,
            ;
        }
        let mut j: usize = 0;
        while j < cols
            invariant
                c.wf(),
                c.rows == rows <= 0x1000,
                c.cols == cols <= 0x1000,
                i < rows,
                j <= cols,
                first == i * cols,
                first + cols <= 0x100_0000,
                next == first + j,
                forall|x: int, y: int|
                    0 <= x < i && 0 <= y < cols ==> #[trigger] c.at(x, y) == x * cols + y,
                forall|y: int|
                    0 <= y < j ==> #[trigger] c.at(i as int, y) == i * cols + y,
            decreases cols - j,
        {
            c.set(i, j, next);
            next = next + 1;
            j = j + 1;
        }
        i = i + 1;
    }
    c
}

/// The sum of the numbers below `n`.
pub open spec fn sum_below(n: int) -> int {
    n * (n - 1) / 2
}

/// A tile that counts its places sums to the closed form.
pub proof fn law_counted_sum(c: &Tile32, i: int, j: int)
    requires
        is_counted(c),
        0 <= i,
        0 <= j <= c.cols,
        i < c.rows || (i == c.rows && j == 0),
    ensures
        tile::sum_before(c, i, j) == sum_below(i * c.cols + j),
    decreases i, j,
{
    let n = i * c.cols + j;
    if j > 0 {
        law_counted_sum(c, i, j - 1);
        assert(c.at(i, j - 1) == i * c.cols + (j - 1));
        assert(n * (n - 1) == (n - 1) * (n - 2) + 2 * (n - 1)) by (nonlinear_arith);
        assert(sum_below(n) == sum_below(n - 1) + (n - 1));
    } else if i > 0 {
        law_counted_sum(c, i - 1, c.cols as int);
        assert((i - 1) * c.cols + c.cols == n) by (nonlinear_arith)
            requires
                n == i * c.cols + 0,
        ;
    } else {
        assert(n == 0) by (nonlinear_arith)
            requires
                n == i * c.cols + j,
                i == 0,
                j == 0,
        ;
        assert(sum_below(0) == 0);
    }
}
/// A column of 65536 numbers, each of which says how many stand before it, to be summed.
pub open spec fn sums_column(p: &Program) -> bool {
    &&& p.tiles@.len() == 1
    &&& p.tiles@[0] matches Buffer::Words(c) && c.wf() && c.rows == 256 && c.cols == 256
        && is_counted(&c)
    &&& p.ops@ == seq![TileOp::Reduce { of: 0 }]
}

fn column_program() -> (p: Program)
    ensures
        sums_column(&p),
{
    let p: Program = Program {
        tiles: vec![Buffer::Words(counted(256, 256))],
        ops: vec![TileOp::Reduce { of: 0 }],
    };
    assert(p.ops@ =~= seq![TileOp::Reduce { of: 0 }]);
    p
}

/// What a column of 65536 such numbers sums to.
pub const COLUMN_SUM: u64 = 2147450880;

/// The sum that is looked for is that of the column.
pub proof fn law_column_sum(c: &Tile32)
    requires
        is_counted(c),
        c.rows == 256,
        c.cols == 256,
    ensures
        tile::reduced(c) == COLUMN_SUM,
{
    law_counted_sum(c, 256, 0);
    assert(sum_below(65536) == 2147450880) by (nonlinear_arith);
}

/// The steps of an attention block: queries and values are products of the input and are
/// narrowed; the scores are the product of the queries and the keys, narrowed too; and the
/// output, which is summed, is the product of those and the values.
pub open spec fn attention_ops() -> Seq<TileOp> {
    seq![
        TileOp::Gemm { a: 0, b: 1, c: 4, block: 16 },
        TileOp::ShiftClamp { from: 4, to: 6, shift: 8 },
        TileOp::Gemm { a: 0, b: 3, c: 5, block: 16 },
        TileOp::ShiftClamp { from: 5, to: 7, shift: 8 },
        TileOp::Gemm { a: 6, b: 2, c: 8, block: 16 },
        TileOp::ShiftClamp { from: 8, to: 9, shift: 8 },
        TileOp::Gemm { a: 9, b: 7, c: 10, block: 16 },
        TileOp::Reduce { of: 10 },
    ]
}

/// A program is the attention block over 64 rows of a model of width 256: the input, the
/// weights of the queries, the keys side by side and the weights of the values, each filled
/// from a seed of its own, and blank tiles for the rest.
pub open spec fn attends_rows(p: &Program) -> bool {
    &&& p.tiles@.len() == 11
    &&& holds_fill(p, 0, 64, 256, 256, seeded(7))
    &&& holds_fill(p, 1, 256, 256, 256, seeded(8))
    &&& holds_fill(p, 2, 256, 64, 64, seeded(9))
    &&& holds_fill(p, 3, 256, 256, 256, seeded(10))
    &&& blank_words(p, 4, 64, 256, 256)
    &&& blank_words(p, 5, 64, 256, 256)
    &&& blank_bytes(p, 6, 64, 256, 256)
    &&& blank_bytes(p, 7, 64, 256, 256)
    &&& blank_words(p, 8, 64, 64, 64)
    &&& blank_bytes(p, 9, 64, 64, 64)
    &&& blank_words(p, 10, 64, 256, 256)
    &&& p.ops@ == attention_ops()
}

fn attention() -> (p: Program)
    ensures
        attends_rows(&p),
{
    let mut tiles: Vec<Buffer> = Vec::new();
    tiles.push(Buffer::Bytes(filled(64, 256, 256, of_seed(7))));
    tiles.push(Buffer::Bytes(filled(256, 256, 256, of_seed(8))));
    tiles.push(Buffer::Bytes(filled(256, 64, 64, of_seed(9))));
    tiles.push(Buffer::Bytes(filled(256, 256, 256, of_seed(10))));
    tiles.push(Buffer::Words(Tile32::new(64, 256, 256)));
    tiles.push(Buffer::Words(Tile32::new(64, 256, 256)));
    tiles.push(Buffer::Bytes(Tile8::new(64, 256, 256)));
    tiles.push(Buffer::Bytes(Tile8::new(64, 256, 256)));
    tiles.push(Buffer::Words(Tile32::new(64, 64, 64)));
    tiles.push(Buffer::Bytes(Tile8::new(64, 64, 64)));
    tiles.push(Buffer::Words(Tile32::new(64, 256, 256)));
    let ops: Vec<TileOp> = vec![
        TileOp::Gemm { a: 0, b: 1, c: 4, block: 16 },
        TileOp::ShiftClamp { from: 4, to: 6, shift: 8 },
        TileOp::Gemm { a: 0, b: 3, c: 5, block: 16 },
        TileOp::ShiftClamp { from: 5, to: 7, shift: 8 },
        TileOp::Gemm { a: 6, b: 2, c: 8, block: 16 },
        TileOp::ShiftClamp { from: 8, to: 9, shift: 8 },
        TileOp::Gemm { a: 9, b: 7, c: 10, block: 16 },
        TileOp::Reduce { of: 10 },
    ];
    assert(ops@ =~= attention_ops());
    Program { tiles, ops }
}

/// Rounds of the chain.
pub const ROUNDS: usize = 32;

/// The step of the chain at `i`: a product, and its narrowing into what the next takes.
pub open spec fn chain_op(i: int) -> TileOp {
    if i % 2 == 0 {
        TileOp::GemmOr { a: 3, other: 0, b: 1, c: 2, block: 8 }
    } else {
        TileOp::ShiftClamp { from: 2, to: 3, shift: 6 }
    }
}

/// A program is a chain of products, each of which takes what the one before it left.
pub open spec fn is_chain(p: &Program) -> bool {
    &&& p.tiles@.len() == 4
    &&& holds_fill(p, 0, 8, 8, 8, seeded(31))
    &&& holds_fill(p, 1, 8, 8, 8, seeded(32))
    &&& blank_words(p, 2, 8, 8, 8)
    &&& blank_bytes(p, 3, 8, 8, 8)
    &&& p.ops@.len() == 2 * ROUNDS
    &&& forall|i: int| 0 <= i < 2 * ROUNDS ==> #[trigger] p.ops@[i] == chain_op(i)
}

fn chain() -> (p: Program)
    ensures
        is_chain(&p),
{
    let mut ops: Vec<TileOp> = Vec::new();
    let mut n: usize = 0;
    while n < ROUNDS
        invariant
            n <= ROUNDS,
            ops@.len() == 2 * n,
            forall|i: int| 0 <= i < 2 * n ==> #[trigger] ops@[i] == chain_op(i),
        decreases ROUNDS - n,
    {
        ops.push(TileOp::GemmOr { a: 3, other: 0, b: 1, c: 2, block: 8 });
        ops.push(TileOp::ShiftClamp { from: 2, to: 3, shift: 6 });
        n = n + 1;
    }
    Program {
        tiles: vec![
            Buffer::Bytes(filled(8, 8, 8, of_seed(31))),
            Buffer::Bytes(filled(8, 8, 8, of_seed(32))),
            Buffer::Words(Tile32::new(8, 8, 8)),
            Buffer::Bytes(Tile8::new(8, 8, 8)),
        ],
        ops,
    }
}

/// A program sums up a tile.
pub open spec fn sums_tile(p: &Program, t: Tile8) -> bool {
    &&& p.tiles@ == seq![Buffer::Bytes(t)]
    &&& p.ops@ == seq![TileOp::Reduce { of: 0 }]
}

/// The products of the layers: a projection and a widening, each in two ways of cutting it.
pub open spec fn layer(which: u32) -> Product {
    let n = if which < 2 {
        D_MODEL
    } else {
        D_MLP
    };
    Product {
        m: D_MODEL,
        k: D_MODEL,
        n,
        b_stride: n,
        c_stride: n,
        a: seeded(1),
        b: if which < 2 {
            seeded(2)
        } else {
            seeded(3)
        },
        block: if which % 2 == 0 {
            16
        } else {
            32
        },
    }
}

fn layer_at(which: u32) -> (g: Product)
    ensures
        g == layer(which),
        g.wf(),
{
    let n: usize = if which < 2 { D_MODEL } else { D_MLP };
    let b: Fill = if which < 2 { of_seed(2) } else { of_seed(3) };
    let block: usize = if which % 2 == 0 { 16 } else { 32 };
    Product { m: D_MODEL, k: D_MODEL, n, b_stride: n, c_stride: n, a: of_seed(1), b, block }
}

/// The products that are compared number by number: the scores of four heads over the keys
/// of one, a product of odd sides with rows that are longer than they are wide, and a row
/// by a column.
pub open spec fn compared(which: u32) -> Product {
    if which == 0 {
        Product {
            m: 256,
            k: 64,
            n: 64,
            b_stride: 64,
            c_stride: 64,
            a: seeded(5),
            b: seeded(6),
            block: 16,
        }
    } else if which == 1 {
        Product {
            m: 13,
            k: 5,
            n: 17,
            b_stride: 26,
            c_stride: 20,
            a: seeded(21),
            b: seeded(22),
            block: 16,
        }
    } else {
        Product {
            m: 1,
            k: 64,
            n: 1,
            b_stride: 1,
            c_stride: 1,
            a: seeded(23),
            b: seeded(24),
            block: 16,
        }
    }
}

fn compared_at(which: u32) -> (g: Product)
    ensures
        g == compared(which),
        g.wf(),
{
    if which == 0 {
        Product {
            m: 256,
            k: 64,
            n: 64,
            b_stride: 64,
            c_stride: 64,
            a: of_seed(5),
            b: of_seed(6),
            block: 16,
        }
    } else if which == 1 {
        Product {
            m: 13,
            k: 5,
            n: 17,
            b_stride: 26,
            c_stride: 20,
            a: of_seed(21),
            b: of_seed(22),
            block: 16,
        }
    } else {
        Product {
            m: 1,
            k: 64,
            n: 1,
            b_stride: 1,
            c_stride: 1,
            a: of_seed(23),
            b: of_seed(24),
            block: 16,
        }
    }
}

/// How often the attention block is run again.
pub const SOAKS: u32 = 100;

/// How often memory is had and given back.
pub const CHURNS: u32 = 20;

/// Where the trials are. What the attention block left first is kept until it was run for
/// the last time.
pub enum BattleAt {
    Begun,
    /// A product of a layer runs; in the second way of cutting it, with the receipt of the
    /// first.
    Layer(u32, u64),
    /// A product runs that is compared number by number.
    Compared(u32),
    /// The attention block runs for the first time.
    Attention,
    /// It runs for the second time.
    Again(Marks),
    /// The scores of the first sequence are formed.
    FirstPages(Marks),
    /// Those of the second are, and these are the first's.
    SecondPages(Marks, Tile32),
    /// The column is summed by the processor.
    Column(Marks),
    /// It is summed by the kernel's engine, and this is the processor's sum.
    Engine(Marks, u64),
    /// The attention block runs again, so many times more.
    Soak(Marks, u32),
    /// Memory is had and given back, so many times more.
    Churn(u32),
    /// The trial of the numbers with a point was asked for.
    Quant,
    Chain,
    /// The kernel's engine sums up what the chain has left.
    Fence,
    Over,
}

/// What came back.
pub enum BattleEvent {
    Go,
    /// What became of the program.
    Ran(Ran),
    /// Whether memory could be had and given back.
    Had(bool),
    /// The code of the trial of the numbers with a point; zero where it went well.
    Quantized(i32),
}

/// What the trials ask for.
pub enum BattleAction {
    /// Have a program run.
    Run(Executor, Program),
    HaveAndGiveBack,
    Quantize,
    /// Over, with this code.
    Done(i32),
}

/// A report shows the tile that is to be looked at.
pub open spec fn shows(at: BattleAt, r: Report) -> bool {
    match at {
        BattleAt::Layer(_, _) => r.checksums@.len() >= 1,
        BattleAt::Compared(which) => runs::words_at(
            r.tiles@,
            2,
            compared(which).m as int,
            compared(which).n as int,
        ),
        BattleAt::FirstPages(_) => runs::words_at(r.tiles@, 2, 16, 128),
        BattleAt::SecondPages(_, _) => runs::words_at(r.tiles@, 2, 16, 128),
        BattleAt::Chain => runs::bytes_at(r.tiles@, 3, 8, 8),
        _ => true,
    }
}

/// Whether an event is what the trials wait for.
pub open spec fn awaits(at: BattleAt, e: BattleEvent) -> bool {
    match at {
        BattleAt::Begun => e is Go,
        BattleAt::Churn(_) => e is Had,
        BattleAt::Quant => e is Quantized,
        BattleAt::Over => false,
        _ => {
            &&& at matches BattleAt::SecondPages(_, s) ==> s.wf() && s.rows == 16 && s.cols == 128
            &&& e matches BattleEvent::Ran(ran) && (ran matches Ran::Done(r) ==> shows(at, r))
        },
    }
}

/// Whether an event is what the trials wait for.
pub fn fits(at: &BattleAt, e: &BattleEvent) -> (b: bool)
    requires
        at matches BattleAt::SecondPages(_, s) ==> s.wf() && s.rows == 16 && s.cols == 128,
    ensures
        b == awaits(*at, *e),
{
    match (at, e) {
        (BattleAt::Begun, BattleEvent::Go) => true,
        (BattleAt::Begun, _) => false,
        (BattleAt::Churn(_), BattleEvent::Had(_)) => true,
        (BattleAt::Churn(_), _) => false,
        (BattleAt::Quant, BattleEvent::Quantized(_)) => true,
        (BattleAt::Quant, _) => false,
        (BattleAt::Over, _) => false,
        (_, BattleEvent::Ran(Ran::Done(r))) => match at {
            BattleAt::Layer(_, _) => r.checksums.len() >= 1,
            BattleAt::Compared(which) => {
                let g: Product = compared_at(*which);
                runs::has_words(&r.tiles, 2, g.m, g.n)
            },
            BattleAt::FirstPages(_) => runs::has_words(&r.tiles, 2, 16, 128),
            BattleAt::SecondPages(_, _) => runs::has_words(&r.tiles, 2, 16, 128),
            BattleAt::Chain => runs::has_bytes(&r.tiles, 3, 8, 8),
            _ => true,
        },
        (_, BattleEvent::Ran(_)) => true,
        (_, _) => false,
    }
}

/// The trials are over, with a code.
pub open spec fn is_over(at: BattleAt, action: BattleAction, code: int) -> bool {
    &&& at is Over
    &&& action matches BattleAction::Done(c) && c == code
}

/// A program is given to the processor, on so many strands.
pub open spec fn given(action: BattleAction, strands: usize) -> bool {
    action matches BattleAction::Run(x, _) && x == Executor::Processor(strands)
}

/// The codes of a layer: where the product was refused, where it did not run, and where its
/// receipts differ.
pub open spec fn layer_code(which: u32) -> int {
    if which < 2 {
        10
    } else {
        13
    }
}

/// The same codes of the products that are compared number by number.
pub open spec fn compared_code(which: u32) -> int {
    if which == 0 {
        16
    } else if which == 1 {
        60
    } else {
        63
    }
}

/// The product of a layer is given on.
pub open spec fn goes_to_layer(at: BattleAt, action: BattleAction, which: u32, mark: u64) -> bool {
    &&& at == BattleAt::Layer(which, mark)
    &&& given(action, 8)
    &&& forms(&action->Run_1, layer(which))
}

/// A product that is compared number by number is given on.
pub open spec fn goes_to_compared(at: BattleAt, action: BattleAction, which: u32) -> bool {
    &&& at == BattleAt::Compared(which)
    &&& given(action, 8)
    &&& forms(&action->Run_1, compared(which))
}

/// After a layer.
pub open spec fn after_layer(
    which: u32,
    mark: u64,
    ran: Ran,
    at: BattleAt,
    action: BattleAction,
) -> bool {
    match ran {
        Ran::Done(r) => if which % 2 == 0 {
            goes_to_layer(at, action, (which + 1) as u32, r.checksums@[0])
        } else if r.checksums@[0] != mark {
            is_over(at, action, layer_code(which) + 2)
        } else if which < 3 {
            goes_to_layer(at, action, (which + 1) as u32, 0)
        } else {
            goes_to_compared(at, action, 0)
        },
        _ => is_over(
            at,
            action,
            runs::lost(ran, layer_code(which), layer_code(which) + 1),
        ),
    }
}

/// After a product that is compared number by number.
pub open spec fn after_compared(which: u32, ran: Ran, at: BattleAt, action: BattleAction) -> bool {
    match ran {
        Ran::Done(r) => if !holds_product(compared(which), &runs::words_of(r.tiles@, 2)) {
            is_over(at, action, compared_code(which) + 2)
        } else if which == 0 {
            at is Attention && given(action, 8) && attends_rows(&action->Run_1)
        } else if which == 1 {
            goes_to_compared(at, action, 2)
        } else {
            at is Quant && action is Quantize
        },
        _ => is_over(
            at,
            action,
            runs::lost(ran, compared_code(which), compared_code(which) + 1),
        ),
    }
}

/// After the attention block ran for the second time.
pub open spec fn after_again(first: Marks, ran: Ran, at: BattleAt, action: BattleAction) -> bool {
    match ran {
        Ran::Done(r) => if !runs::same_marks(first, runs::marks_of(r)) {
            is_over(at, action, 22)
        } else {
            at == BattleAt::FirstPages(first) && given(action, 4) && scores_sequence(
                false,
                &action->Run_1,
            )
        },
        _ => is_over(at, action, 21),
    }
}

/// The scores agree on the columns below `to`.
pub open spec fn agree_below(a: &Tile32, b: &Tile32, to: int) -> bool {
    forall|r: int, c: int| 0 <= r < a.rows && 0 <= c < to ==> #[trigger] a.at(r, c) == b.at(r, c)
}

/// After the scores of the second sequence were formed.
pub open spec fn after_second(
    first: Marks,
    sa: Tile32,
    ran: Ran,
    at: BattleAt,
    action: BattleAction,
) -> bool {
    match ran {
        Ran::Done(r) => {
            let sb = runs::words_of(r.tiles@, 2);
            if !agree_below(&sa, &sb, (PKV_SHARED * PKV_BLK) as int) {
                is_over(at, action, 32)
            } else if agree_below(&sa, &sb, (PKV_PER_SEQ * PKV_BLK) as int) {
                is_over(at, action, 33)
            } else {
                at == BattleAt::Column(first) && given(action, 8) && sums_column(&action->Run_1)
            }
        },
        _ => is_over(at, action, 31),
    }
}

/// After the kernel's engine summed the column.
pub open spec fn after_engine(
    first: Marks,
    lib: u64,
    ran: Ran,
    at: BattleAt,
    action: BattleAction,
) -> bool {
    match ran {
        Ran::Done(r) => if lib != COLUMN_SUM || r.reduced != COLUMN_SUM {
            is_over(at, action, 43)
        } else {
            at == BattleAt::Soak(first, SOAKS) && given(action, 8) && attends_rows(&action->Run_1)
        },
        _ => is_over(at, action, 42),
    }
}

/// After the attention block ran once more.
pub open spec fn after_soak(
    first: Marks,
    left: u32,
    ran: Ran,
    at: BattleAt,
    action: BattleAction,
) -> bool {
    match ran {
        Ran::Done(r) => if !runs::same_marks(first, runs::marks_of(r)) {
            is_over(at, action, 51)
        } else if left > 1 {
            at == BattleAt::Soak(first, (left - 1) as u32) && given(action, 8) && attends_rows(
                &action->Run_1,
            )
        } else {
            at == BattleAt::Churn(CHURNS) && action is HaveAndGiveBack
        },
        _ => is_over(at, action, 50),
    }
}

/// The trials, one after the other: none is asked for after one that did not go well, and
/// the code is that of the first which did not.
pub open spec fn fought(at0: BattleAt, at1: BattleAt, e: BattleEvent, action: BattleAction) -> bool {
    match at0 {
        BattleAt::Begun => goes_to_layer(at1, action, 0, 0),
        BattleAt::Layer(which, mark) => after_layer(which, mark, e->Ran_0, at1, action),
        BattleAt::Compared(which) => after_compared(which, e->Ran_0, at1, action),
        BattleAt::Attention => match e->Ran_0 {
            Ran::Done(r) => at1 == BattleAt::Again(runs::marks_of(r)) && given(action, 8)
                && attends_rows(&action->Run_1),
            _ => is_over(at1, action, runs::lost(e->Ran_0, 20, 21)),
        },
        BattleAt::Again(first) => after_again(first, e->Ran_0, at1, action),
        BattleAt::FirstPages(first) => match e->Ran_0 {
            Ran::Done(r) => at1 == BattleAt::SecondPages(first, runs::words_of(r.tiles@, 2))
                && given(action, 4) && scores_sequence(true, &action->Run_1),
            _ => is_over(at1, action, 30),
        },
        BattleAt::SecondPages(first, sa) => after_second(first, sa, e->Ran_0, at1, action),
        BattleAt::Column(first) => match e->Ran_0 {
            Ran::Done(r) => {
                &&& at1 == BattleAt::Engine(first, r.reduced)
                &&& action matches BattleAction::Run(x, p) && x == Executor::Engine(0)
                    && sums_column(&p)
            },
            _ => is_over(at1, action, runs::lost(e->Ran_0, 40, 41)),
        },
        BattleAt::Engine(first, lib) => after_engine(first, lib, e->Ran_0, at1, action),
        BattleAt::Soak(first, left) => after_soak(first, left, e->Ran_0, at1, action),
        BattleAt::Churn(left) => if !e->Had_0 {
            is_over(at1, action, 55)
        } else if left > 1 {
            at1 == BattleAt::Churn((left - 1) as u32) && action is HaveAndGiveBack
        } else {
            goes_to_compared(at1, action, 1)
        },
        BattleAt::Quant => if e->Quantized_0 != 0 {
            is_over(at1, action, e->Quantized_0 as int)
        } else {
            at1 is Chain && given(action, 8) && is_chain(&action->Run_1)
        },
        BattleAt::Chain => match e->Ran_0 {
            Ran::Done(r) => {
                &&& at1 is Fence
                &&& action matches BattleAction::Run(x, p) && x == Executor::Engine(0) && sums_tile(
                    &p,
                    runs::bytes_of(r.tiles@, 3),
                )
            },
            Ran::Refused(i) => is_over(
                at1,
                action,
                if i % 2 == 0 {
                    70
                } else {
                    71
                },
            ),
            _ => is_over(at1, action, 72),
        },
        BattleAt::Fence => is_over(at1, action, runs::lost(e->Ran_0, 73, 74)),
        BattleAt::Over => false,
    }
}

fn over(code: i32) -> (r: (BattleAt, BattleAction))
    ensures
        is_over(r.0, r.1, code as int),
{
    (BattleAt::Over, BattleAction::Done(code))
}

fn on_processor(strands: usize, p: Program) -> (action: BattleAction)
    ensures
        action == BattleAction::Run(Executor::Processor(strands), p),
{
    BattleAction::Run(Executor::Processor(strands), p)
}

fn go_to_layer(which: u32, mark: u64) -> (r: (BattleAt, BattleAction))
    ensures
        goes_to_layer(r.0, r.1, which, mark),
{
    (BattleAt::Layer(which, mark), on_processor(8, forming(layer_at(which))))
}

fn go_to_compared(which: u32) -> (r: (BattleAt, BattleAction))
    ensures
        goes_to_compared(r.0, r.1, which),
{
    (BattleAt::Compared(which), on_processor(8, forming(compared_at(which))))
}

fn layer_ran(which: u32, mark: u64, ran: Ran) -> (r: (BattleAt, BattleAction))
    requires
        ran matches Ran::Done(r) ==> r.checksums@.len() >= 1,
    ensures
        after_layer(which, mark, ran, r.0, r.1),
{
    let base: i32 = if which < 2 { 10 } else { 13 };
    let code: i32 = runs::lost_code(&ran, base, base + 1);
    match ran {
        Ran::Done(r) => {
            let got: u64 = r.checksums[0];
            if which % 2 == 0 {
                go_to_layer(which + 1, got)
            } else if got != mark {
                over(base + 2)
            } else if which < 3 {
                go_to_layer(which + 1, 0)
            } else {
                go_to_compared(0)
            }
        },
        _ => over(code),
    }
}

/// The words at a place of a report.
fn words_out(tiles: Vec<Buffer>, k: usize) -> (t: Option<Tile32>)
    requires
        k < tiles@.len(),
    ensures
        t == (match tiles@[k as int] {
            Buffer::Words(w) => Some(w),
            Buffer::Bytes(_) => None,
        }),
{
    let mut tiles = tiles;
    match tiles.remove(k) {
        Buffer::Words(w) => Some(w),
        Buffer::Bytes(_) => None,
    }
}

fn compared_ran(which: u32, ran: Ran) -> (r: (BattleAt, BattleAction))
    requires
        ran matches Ran::Done(r) ==> shows(BattleAt::Compared(which), r),
    ensures
        after_compared(which, ran, r.0, r.1),
{
    let base: i32 = if which == 0 {
        16
    } else if which == 1 {
        60
    } else {
        63
    };
    let code: i32 = runs::lost_code(&ran, base, base + 1);
    match ran {
        Ran::Done(r) => {
            let held: bool = match &r.tiles[2] {
                Buffer::Words(c) => holds_naive(compared_at(which), c),
                Buffer::Bytes(_) => false,
            };
            if !held {
                over(base + 2)
            } else if which == 0 {
                (BattleAt::Attention, on_processor(8, attention()))
            } else if which == 1 {
                go_to_compared(2)
            } else {
                (BattleAt::Quant, BattleAction::Quantize)
            }
        },
        _ => over(code),
    }
}

fn again_ran(first: Marks, ran: Ran) -> (r: (BattleAt, BattleAction))
    ensures
        after_again(first, ran, r.0, r.1),
{
    match ran {
        Ran::Done(r) => {
            let now: Marks = Marks { checksums: r.checksums, reduced: r.reduced };
            if !runs::marks_agree(&first, &now) {
                over(22)
            } else {
                (BattleAt::FirstPages(first), on_processor(4, scoring(false)))
            }
        },
        _ => over(21),
    }
}

fn second_ran(first: Marks, sa: Tile32, ran: Ran) -> (r: (BattleAt, BattleAction))
    requires
        sa.wf(),
        sa.rows == 16,
        sa.cols == 128,
        ran matches Ran::Done(r) ==> runs::words_at(r.tiles@, 2, 16, 128),
    ensures
        after_second(first, sa, ran, r.0, r.1),
{
    match ran {
        Ran::Done(r) => match words_out(r.tiles, 2) {
            Some(sb) => {
                if !columns_agree(&sa, &sb, 0, 64) {
                    over(32)
                } else if columns_agree(&sa, &sb, 0, 128) {
                    over(33)
                } else {
                    (BattleAt::Column(first), on_processor(8, column_program()))
                }
            },
            None => over(31),
        },
        _ => over(31),
    }
}

fn engine_ran(first: Marks, lib: u64, ran: Ran) -> (r: (BattleAt, BattleAction))
    ensures
        after_engine(first, lib, ran, r.0, r.1),
{
    match ran {
        Ran::Done(r) => {
            if lib != COLUMN_SUM || r.reduced != COLUMN_SUM {
                over(43)
            } else {
                (BattleAt::Soak(first, SOAKS), on_processor(8, attention()))
            }
        },
        _ => over(42),
    }
}

fn soak_ran(first: Marks, left: u32, ran: Ran) -> (r: (BattleAt, BattleAction))
    ensures
        after_soak(first, left, ran, r.0, r.1),
{
    match ran {
        Ran::Done(r) => {
            let now: Marks = Marks { checksums: r.checksums, reduced: r.reduced };
            if !runs::marks_agree(&first, &now) {
                over(51)
            } else if left > 1 {
                (BattleAt::Soak(first, left - 1), on_processor(8, attention()))
            } else {
                (BattleAt::Churn(CHURNS), BattleAction::HaveAndGiveBack)
            }
        },
        _ => over(50),
    }
}

fn chain_ran(ran: Ran) -> (r: (BattleAt, BattleAction))
    requires
        awaits(BattleAt::Chain, BattleEvent::Ran(ran)),
    ensures
        fought(BattleAt::Chain, r.0, BattleEvent::Ran(ran), r.1),
{
    match ran {
        Ran::Done(r) => {
            let mut tiles = r.tiles;
            let end: Buffer = tiles.remove(3);
            let p: Program = Program { tiles: vec![end], ops: vec![TileOp::Reduce { of: 0 }] };
            assert(p.ops@ =~= seq![TileOp::Reduce { of: 0 }]);
            assert(p.tiles@ =~= seq![Buffer::Bytes(runs::bytes_of(r.tiles@, 3))]);
            (BattleAt::Fence, BattleAction::Run(Executor::Engine(0), p))
        },
        Ran::Refused(i) => over(if i % 2 == 0 { 70 } else { 71 }),
        _ => over(72),
    }
}

/// Take the trials one step on.
pub fn work(at: BattleAt, e: BattleEvent) -> (r: (BattleAt, BattleAction))
    requires
        awaits(at, e),
    ensures
        fought(at, r.0, e, r.1),
{
    match (at, e) {
        (BattleAt::Layer(which, mark), BattleEvent::Ran(ran)) => layer_ran(which, mark, ran),
        (BattleAt::Compared(which), BattleEvent::Ran(ran)) => compared_ran(which, ran),
        (BattleAt::Attention, BattleEvent::Ran(ran)) => {
            let code: i32 = runs::lost_code(&ran, 20, 21);
            match ran {
                Ran::Done(r) => {
                    let first: Marks = Marks { checksums: r.checksums, reduced: r.reduced };
                    (BattleAt::Again(first), on_processor(8, attention()))
                },
                _ => over(code),
            }
        },
        (BattleAt::Again(first), BattleEvent::Ran(ran)) => again_ran(first, ran),
        (BattleAt::FirstPages(first), BattleEvent::Ran(ran)) => match ran {
            Ran::Done(r) => match words_out(r.tiles, 2) {
                Some(sa) => (BattleAt::SecondPages(first, sa), on_processor(4, scoring(true))),
                None => over(30),
            },
            _ => over(30),
        },
        (BattleAt::SecondPages(first, sa), BattleEvent::Ran(ran)) => second_ran(first, sa, ran),
        (BattleAt::Column(first), BattleEvent::Ran(ran)) => {
            let code: i32 = runs::lost_code(&ran, 40, 41);
            match ran {
                Ran::Done(r) => (
                    BattleAt::Engine(first, r.reduced),
                    BattleAction::Run(Executor::Engine(0), column_program()),
                ),
                _ => over(code),
            }
        },
        (BattleAt::Engine(first, lib), BattleEvent::Ran(ran)) => engine_ran(first, lib, ran),
        (BattleAt::Soak(first, left), BattleEvent::Ran(ran)) => soak_ran(first, left, ran),
        (BattleAt::Churn(left), BattleEvent::Had(had)) => {
            if !had {
                over(55)
            } else if left > 1 {
                (BattleAt::Churn(left - 1), BattleAction::HaveAndGiveBack)
            } else {
                go_to_compared(1)
            }
        },
        (BattleAt::Quant, BattleEvent::Quantized(code)) => {
            if code != 0 {
                over(code)
            } else {
                (BattleAt::Chain, on_processor(8, chain()))
            }
        },
        (BattleAt::Chain, BattleEvent::Ran(ran)) => chain_ran(ran),
        (BattleAt::Fence, BattleEvent::Ran(ran)) => over(runs::lost_code(&ran, 73, 74)),
        (_, _) => go_to_layer(0, 0),
    }
}

/// Trials of products that are what they should be are not lost: whoever forms the scores of
/// the two sequences comes past them.
pub proof fn law_true_scores_are_taken(
    first: Marks,
    sa: Tile32,
    r: Report,
    at: BattleAt,
    action: BattleAction,
)
    requires
        scores_of(false, &sa),
        runs::words_at(r.tiles@, 2, 16, 128),
        scores_of(true, &runs::words_of(r.tiles@, 2)),
        after_second(first, sa, Ran::Done(r), at, action),
    ensures
        at == BattleAt::Column(first),
{
    let sb = runs::words_of(r.tiles@, 2);
    law_sequences_share_and_diverge(&sa, &sb);
    assert(sa.at(0, 64) != sb.at(0, 64));
}

/// The battle goes on only where what came back was right: each layer left the same mark
/// with either block, each product that is compared is the product, attention left the same
/// marks again, the sequences agree on the pages they share and not on all, both sums are
/// the known one, and it ends well only behind all of that.
pub proof fn law_battle_goes_on_only_when_right(at0: BattleAt, at1: BattleAt, e: BattleEvent, action: BattleAction)
    requires
        awaits(at0, e),
        fought(at0, at1, e, action),
    ensures
        action is Done && action->Done_0 == 0 ==> at0 is Fence && e->Ran_0 is Done,
        at1 is Fence ==> at0 is Chain && e->Ran_0 is Done,
        at1 is Chain ==> at0 is Quant && e->Quantized_0 == 0,
        at1 is Quant ==> at0 == BattleAt::Compared(at0->Compared_0) && e->Ran_0 is Done && holds_product(
            compared(at0->Compared_0),
            &runs::words_of((e->Ran_0->Done_0).tiles@, 2),
        ),
        at1 is Attention ==> at0 == BattleAt::Compared(0) && e->Ran_0 is Done && holds_product(
            compared(0),
            &runs::words_of((e->Ran_0->Done_0).tiles@, 2),
        ),
        at1 is FirstPages ==> at0 is Again && e->Ran_0 is Done && (e->Ran_0->Done_0).checksums@
            == at0->Again_0.checksums@ && (e->Ran_0->Done_0).reduced == at0->Again_0.reduced,
        at1 is Engine ==> at0 is Column && e->Ran_0 is Done && at1->Engine_1 == (e->Ran_0->Done_0).reduced,
        at1 is Soak && at0 is Engine ==> at0->Engine_1 == COLUMN_SUM && (e->Ran_0->Done_0).reduced == COLUMN_SUM,
        at1 is Soak && at0 is Soak ==> at1->Soak_1 == at0->Soak_1 - 1 && (e->Ran_0->Done_0).reduced
            == at0->Soak_0.reduced,
        at1 is Churn && at0 is Churn ==> e->Had_0 && at1->Churn_0 == at0->Churn_0 - 1,
        at1 is Compared && at0 is Layer ==> at0->Layer_0 % 2 == 1 && (e->Ran_0->Done_0).checksums@[0]
            == at0->Layer_1,
        at1 is Layer && at0 is Layer && at0->Layer_0 % 2 == 1 ==> (e->Ran_0->Done_0).checksums@[0]
            == at0->Layer_1,
{
}

/// The bytes that a tile is filled with go round: the number at a place is the sum of its
/// row, its column and the start, each times its factor, as a byte with a sign.
pub proof fn law_fills_are_bytes(i: int, j: int, ci: int, cj: int, c0: int, b: int)
    requires
        0 <= b < 256,
    ensures
        -128 <= linear_value(i, j, ci, cj, c0) <= 127,
        (linear_value(i, j, ci, cj, c0) - (i * ci + j * cj + c0)) % 256 == 0,
        -128 <= signed_byte(b) <= 127,
        b < 128 ==> signed_byte(b) == b,
        b >= 128 ==> signed_byte(b) == b - 256,
{
    let x = i * ci + j * cj + c0;
    assert((signed_byte(x % 256) - x) % 256 == 0);
}

} // verus!
