//! Programs over tiles: who is to run one, what it is to do, and what comes back.

use vstd::prelude::*;
use crate::programs::tile::{Tile32, Tile8};

verus! {

/// Who runs a program.
#[derive(Copy, Clone, PartialEq, Eq, Debug, Structural)]
pub enum Executor {
    /// The processor, on so many strands.
    Processor(usize),
    /// An engine of the kernel, by its number.
    Engine(u64),
}

/// A tile that a program works on.
pub enum Buffer {
    Bytes(Tile8),
    Words(Tile32),
}

/// A step of a program. Tiles are named by their places.
#[derive(Copy, Clone, PartialEq, Eq, Debug, Structural)]
pub enum TileOp {
    /// The product of `a` and `b` into `c`, in blocks of this side.
    Gemm { a: usize, b: usize, c: usize, block: usize },
    /// The same, with `other` in place of `a` where `a` is refused.
    GemmOr { a: usize, other: usize, b: usize, c: usize, block: usize },
    /// The numbers of a tile, shifted to the right and held within a byte.
    ShiftClamp { from: usize, to: usize, shift: u32 },
    Duplicate { from: usize, to: usize },
    /// The sum over a tile.
    Reduce { of: usize },
}

/// A program over tiles.
pub struct Program {
    pub tiles: Vec<Buffer>,
    pub ops: Vec<TileOp>,
}

/// What a program that ran leaves: a receipt for each step that has one, the last sum, and
/// the tiles.
pub struct Report {
    pub checksums: Vec<u64>,
    pub reduced: u64,
    pub tiles: Vec<Buffer>,
}

/// What became of a program.
pub enum Ran {
    /// The step at this place was refused before anything ran.
    Refused(usize),
    /// There is no such executor, or nothing drives it.
    Unavailable,
    Failed,
    Done(Report),
}

/// The tile at `k` holds words, and is of this size.
pub open spec fn words_at(tiles: Seq<Buffer>, k: int, rows: int, cols: int) -> bool {
    &&& 0 <= k < tiles.len()
    &&& tiles[k] matches Buffer::Words(t) && t.wf() && t.rows == rows && t.cols == cols
}

/// The tile at `k` holds bytes, and is of this size.
pub open spec fn bytes_at(tiles: Seq<Buffer>, k: int, rows: int, cols: int) -> bool {
    &&& 0 <= k < tiles.len()
    &&& tiles[k] matches Buffer::Bytes(t) && t.wf() && t.rows == rows && t.cols == cols
}

/// The words at `k`.
pub open spec fn words_of(tiles: Seq<Buffer>, k: int) -> Tile32 {
    tiles[k]->Words_0
}

/// The bytes at `k`.
pub open spec fn bytes_of(tiles: Seq<Buffer>, k: int) -> Tile8 {
    tiles[k]->Bytes_0
}

/// The code of a program that did not run to its end; zero where it did.
pub open spec fn lost(r: Ran, refused: int, failed: int) -> int {
    match r {
        Ran::Refused(_) => refused,
        Ran::Done(_) => 0,
        _ => failed,
    }
}

/// The code of a program that did not run to its end.
pub fn lost_code(r: &Ran, refused: i32, failed: i32) -> (code: i32)
    ensures
        code == lost(*r, refused as int, failed as int),
{
    match r {
        Ran::Refused(_) => refused,
        Ran::Done(_) => 0,
        _ => failed,
    }
}

fn rows_hold<T>(data: &Vec<Vec<T>>, stride: usize) -> (b: bool)
    ensures
        b == forall|i: int| 0 <= i < data@.len() ==> (#[trigger] data@[i])@.len() == stride,
{
    let mut i: usize = 0;
    while i < data.len()
        invariant
            i <= data@.len(),
            forall|k: int| 0 <= k < i ==> (#[trigger] data@[k])@.len() == stride,
        decreases data@.len() - i,
    {
        if data[i].len() != stride {
            assert(data@[i as int]@.len() != stride);
            return false;
        }
        i = i + 1;
    }
    true
}

/// Whether the tile at `k` holds words, and is of this size.
pub fn has_words(tiles: &Vec<Buffer>, k: usize, rows: usize, cols: usize) -> (b: bool)
    ensures
        b == words_at(tiles@, k as int, rows as int, cols as int),
{
    if k >= tiles.len() {
        return false;
    }
    match &tiles[k] {
        Buffer::Words(t) => t.rows == rows && t.cols == cols && t.cols <= t.stride && t.data.len()
            == t.rows && rows_hold(&t.data, t.stride),
        Buffer::Bytes(_) => false,
    }
}

/// Whether the tile at `k` holds bytes, and is of this size.
pub fn has_bytes(tiles: &Vec<Buffer>, k: usize, rows: usize, cols: usize) -> (b: bool)
    ensures
        b == bytes_at(tiles@, k as int, rows as int, cols as int),
{
    if k >= tiles.len() {
        return false;
    }
    match &tiles[k] {
        Buffer::Bytes(t) => t.rows == rows && t.cols == cols && t.cols <= t.stride && t.data.len()
            == t.rows && rows_hold(&t.data, t.stride),
        Buffer::Words(_) => false,
    }
}

/// The receipts and the sum of a report.
pub struct Marks {
    pub checksums: Vec<u64>,
    pub reduced: u64,
}

/// Two runs left the same receipts and the same sum.
pub open spec fn same_marks(a: Marks, b: Marks) -> bool {
    a.checksums@ == b.checksums@ && a.reduced == b.reduced
}

/// A report's receipts and sum.
pub open spec fn marks_of(r: Report) -> Marks {
    Marks { checksums: r.checksums, reduced: r.reduced }
}

/// Whether two runs left the same receipts and the same sum.
pub fn marks_agree(a: &Marks, b: &Marks) -> (ok: bool)
    ensures
        ok == same_marks(*a, *b),
{
    if a.checksums.len() != b.checksums.len() || a.reduced != b.reduced {
        return false;
    }
    let mut i: usize = 0;
    while i < a.checksums.len()
        invariant
            a.checksums@.len() == b.checksums@.len(),
            i <= a.checksums@.len(),
            forall|k: int| 0 <= k < i ==> #[trigger] a.checksums@[k] == b.checksums@[k],
        decreases a.checksums@.len() - i,
    {
        if a.checksums[i] != b.checksums[i] {
            assert(a.checksums@[i as int] != b.checksums@[i as int]);
            return false;
        }
        i = i + 1;
    }
    assert(a.checksums@ =~= b.checksums@);
    true
}

} // verus!
