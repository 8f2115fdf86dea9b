//! A scan over a table of two columns: what is read off the disk, what is computed over
//! it in blocks, and what it has to come to.

use vstd::prelude::*;
use vstd::string::*;
use crate::bytes;
use crate::user::mem::MemKind;
use crate::text;
use crate::user::compute;

verus! {

/// The exit code of a run in which everything was as it should be.
pub const OK_CODE: i32 = 0x42;

/// What a table begins with.
pub const MAGIC: u32 = 0x314C_4F43;

/// Bytes of the header.
pub const HEADER: usize = 16;

/// Blocks of the scan.
pub const PARTS: usize = 8;

/// The byte of the pattern at a place.
pub open spec fn pattern_byte(i: int) -> u8 {
    ((i * 7) % 256) as u8
}

/// The first `n` bytes of the pattern.
pub fn pattern_bytes(n: usize) -> (v: Vec<u8>)
    ensures
        v@ == Seq::new(n as nat, |i: int| pattern_byte(i)),
{
    let mut v: Vec<u8> = Vec::new();
    let mut next: u8 = 0;
    while v.len() < n
        invariant
            v@.len() <= n,
            next == pattern_byte(v@.len() as int),
            v@ =~= Seq::new(v@.len(), |i: int| pattern_byte(i)),
        decreases n - v@.len(),
    {
        v.push(next);
        next = next.wrapping_add(7);
    }
    v
}

/// Whether a buffer holds the pattern.
pub fn holds_pattern(buf: &Vec<u8>) -> (b: bool)
    ensures
        b == (forall|i: int| 0 <= i < buf@.len() ==> #[trigger] buf@[i] == pattern_byte(i)),
{
    let mut next: u8 = 0;
    let mut i: usize = 0;
    while i < buf.len()
        invariant
            i <= buf@.len(),
            next == pattern_byte(i as int),
            forall|j: int| 0 <= j < i ==> #[trigger] buf@[j] == pattern_byte(j),
        decreases buf@.len() - i,
    {
        if buf[i] != next {
            assert(buf@[i as int] != pattern_byte(i as int));
            return false;
        }
        next = next.wrapping_add(7);
        i = i + 1;
    }
    true
}

/// Where the trial of the grants is.
#[derive(Copy, Clone, PartialEq, Eq, Debug, Structural)]
pub enum GrantAt {
    Begun,
    /// A grant of two pages was asked for.
    Allocated,
    /// The pattern was written to it, and read back.
    Written,
    /// Its second page was given back.
    Decommitted,
    /// Its second page was backed again.
    Recommitted,
    /// It was sealed.
    Sealed,
    /// Backing was asked for after it was sealed.
    Refused,
    /// Memory of a kind that other memory stands in for was asked for.
    Emulated,
    /// Memory of a kind that there is none of was asked for.
    Missing,
    Over,
}

/// What came back.
pub enum GrantEvent {
    Go,
    /// Whether it was done.
    Done(bool),
    /// What was read back.
    Read(Vec<u8>),
}

/// What the trial of the grants asks for.
pub enum GrantAction {
    /// A grant of this kind that is backed throughout.
    Allocate(MemKind, u64),
    /// Write these bytes to it, and read as many back.
    WriteAndRead(Vec<u8>),
    /// Give back so many bytes of it from a place on.
    Decommit(u64, u64),
    /// Back so many bytes of it from a place on.
    Commit(u64, u64),
    Seal,
    /// A grant of this kind, of which nothing is backed.
    Reserve(MemKind, u64),
    /// Over, with this code; zero where it went as it should.
    Over(i32),
}

/// A buffer holds the pattern.
pub open spec fn is_pattern(b: Seq<u8>) -> bool {
    forall|i: int| 0 <= i < b.len() ==> #[trigger] b[i] == pattern_byte(i)
}

/// Whether an event is what the trial of the grants waits for.
pub open spec fn grant_awaits(at: GrantAt, e: GrantEvent) -> bool {
    match at {
        GrantAt::Begun => e is Go,
        GrantAt::Written => e is Read,
        GrantAt::Over => false,
        _ => e is Done,
    }
}

/// The trial of the grants is over, with a code.
pub open spec fn grants_over(at: GrantAt, action: GrantAction, code: i32) -> bool {
    at == GrantAt::Over && action == GrantAction::Over(code)
}

/// The trial of the grants, one step after the other: nothing is asked for after a step that
/// did not go well, and the code is that of the step.
pub open spec fn granted(at0: GrantAt, at1: GrantAt, e: GrantEvent, action: GrantAction) -> bool {
    match at0 {
        GrantAt::Begun => at1 == GrantAt::Allocated && action == GrantAction::Allocate(
            MemKind::Ddr,
            8192,
        ),
        GrantAt::Allocated => if !e->Done_0 {
            grants_over(at1, action, 10)
        } else {
            &&& at1 == GrantAt::Written
            &&& action matches GrantAction::WriteAndRead(b) && b@.len() == 8192 && is_pattern(b@)
        },
        GrantAt::Written => if !is_pattern(e->Read_0@) {
            grants_over(at1, action, 11)
        } else {
            at1 == GrantAt::Decommitted && action == GrantAction::Decommit(4096, 4096)
        },
        GrantAt::Decommitted => if !e->Done_0 {
            grants_over(at1, action, 12)
        } else {
            at1 == GrantAt::Recommitted && action == GrantAction::Commit(4096, 4096)
        },
        GrantAt::Recommitted => if !e->Done_0 {
            grants_over(at1, action, 12)
        } else {
            at1 == GrantAt::Sealed && action is Seal
        },
        GrantAt::Sealed => if !e->Done_0 {
            grants_over(at1, action, 13)
        } else {
            at1 == GrantAt::Refused && action == GrantAction::Commit(0, 4096)
        },
        GrantAt::Refused => if e->Done_0 {
            grants_over(at1, action, 13)
        } else {
            at1 == GrantAt::Emulated && action == GrantAction::Reserve(MemKind::Hbm, 4096)
        },
        GrantAt::Emulated => if !e->Done_0 {
            grants_over(at1, action, 14)
        } else {
            at1 == GrantAt::Missing && action == GrantAction::Reserve(MemKind::DeviceBar, 4096)
        },
        GrantAt::Missing => grants_over(
            at1,
            action,
            if e->Done_0 {
                15
            } else {
                0
            },
        ),
        GrantAt::Over => false,
    }
}

/// Take the trial of the grants one step on.
pub fn grants(at: &mut GrantAt, e: GrantEvent) -> (action: GrantAction)
    requires
        grant_awaits(*old(at), e),
    ensures
        granted(*old(at), *final(at), e, action),
{
    let (next, action): (GrantAt, GrantAction) = match (*at, e) {
        (GrantAt::Allocated, GrantEvent::Done(true)) => (
            GrantAt::Written,
            GrantAction::WriteAndRead(pattern_bytes(8192)),
        ),
        (GrantAt::Allocated, _) => (GrantAt::Over, GrantAction::Over(10)),
        (GrantAt::Written, GrantEvent::Read(b)) => {
            if holds_pattern(&b) {
                (GrantAt::Decommitted, GrantAction::Decommit(4096, 4096))
            } else {
                (GrantAt::Over, GrantAction::Over(11))
            }
        },
        (GrantAt::Decommitted, GrantEvent::Done(true)) => (
            GrantAt::Recommitted,
            GrantAction::Commit(4096, 4096),
        ),
        (GrantAt::Decommitted, _) => (GrantAt::Over, GrantAction::Over(12)),
        (GrantAt::Recommitted, GrantEvent::Done(true)) => (GrantAt::Sealed, GrantAction::Seal),
        (GrantAt::Recommitted, _) => (GrantAt::Over, GrantAction::Over(12)),
        (GrantAt::Sealed, GrantEvent::Done(true)) => (
            GrantAt::Refused,
            GrantAction::Commit(0, 4096),
        ),
        (GrantAt::Sealed, _) => (GrantAt::Over, GrantAction::Over(13)),
        (GrantAt::Refused, GrantEvent::Done(false)) => (
            GrantAt::Emulated,
            GrantAction::Reserve(MemKind::Hbm, 4096),
        ),
        (GrantAt::Refused, _) => (GrantAt::Over, GrantAction::Over(13)),
        (GrantAt::Emulated, GrantEvent::Done(true)) => (
            GrantAt::Missing,
            GrantAction::Reserve(MemKind::DeviceBar, 4096),
        ),
        (GrantAt::Emulated, _) => (GrantAt::Over, GrantAction::Over(14)),
        (GrantAt::Missing, GrantEvent::Done(false)) => (GrantAt::Over, GrantAction::Over(0)),
        (GrantAt::Missing, _) => (GrantAt::Over, GrantAction::Over(15)),
        (_, _) => (GrantAt::Allocated, GrantAction::Allocate(MemKind::Ddr, 8192)),
    };
    *at = next;
    action
}

/// How many rows a header announces, if it is one: two columns, and rows that the
/// blocks can share evenly.
pub open spec fn rows_in(h: Seq<u8>) -> Option<u32> {
    let n = bytes::le(h, 4, 4) as u32;
    if bytes::le(h, 0, 4) == MAGIC && bytes::le(h, 8, 4) == 2 && n != 0 && n % 8 == 0 {
        Some(n)
    } else {
        None
    }
}

/// How many rows a table has, or the code where its header is none.
pub fn check_header(header: &Vec<u8>) -> (r: Result<u32, i32>)
    requires
        header@.len() == HEADER,
    ensures
        r == (match rows_in(header@) {
            Some(n) => Ok::<u32, i32>(n),
            None => Err(24),
        }),
{
    let magic: u32 = bytes::read_u32(header.as_slice(), 0);
    let nrows: u32 = bytes::read_u32(header.as_slice(), 4);
    let ncols: u32 = bytes::read_u32(header.as_slice(), 8);
    if magic != MAGIC || ncols != 2 || nrows == 0 || nrows % 8 != 0 {
        return Err(24);
    }
    Ok(nrows)
}

/// A number of the first column.
pub open spec fn col_a(t: Seq<u8>, i: int) -> u32 {
    bytes::le(t, HEADER + 4 * i, 4) as u32
}

/// A number of the second column.
pub open spec fn col_b(t: Seq<u8>, nrows: int, i: int) -> u32 {
    bytes::le(t, HEADER + 4 * nrows + 4 * i, 4) as u32
}

/// What the query gives over some rows: of the rows whose second number is one, the sum
/// of the first numbers, how many they are, and the greatest.
#[derive(Copy, Clone, PartialEq, Eq, Debug, Structural)]
pub struct Aggregate {
    pub sum: u64,
    pub count: u64,
    pub max: u32,
}

/// Whether the query takes row `i`.
pub open spec fn taken(t: Seq<u8>, nrows: int, i: int) -> bool {
    col_b(t, nrows, i) == 1
}

/// The sum over the rows from `lo` up to `hi`.
pub open spec fn sum_over(t: Seq<u8>, nrows: int, lo: int, hi: int) -> int
    decreases hi - lo,
{
    if hi <= lo {
        0
    } else {
        sum_over(t, nrows, lo, hi - 1) + (if taken(t, nrows, hi - 1) {
            col_a(t, hi - 1) as int
        } else {
            0
        })
    }
}

/// How many of the rows from `lo` up to `hi` the query takes.
pub open spec fn count_over(t: Seq<u8>, nrows: int, lo: int, hi: int) -> int
    decreases hi - lo,
{
    if hi <= lo {
        0
    } else {
        count_over(t, nrows, lo, hi - 1) + (if taken(t, nrows, hi - 1) {
            1int
        } else {
            0
        })
    }
}

/// The greatest of the rows from `lo` up to `hi`, zero if there is none.
pub open spec fn max_over(t: Seq<u8>, nrows: int, lo: int, hi: int) -> int
    decreases hi - lo,
{
    if hi <= lo {
        0
    } else {
        let m = max_over(t, nrows, lo, hi - 1);
        if taken(t, nrows, hi - 1) && col_a(t, hi - 1) > m {
            col_a(t, hi - 1) as int
        } else {
            m
        }
    }
}

/// What the query gives over the rows from `lo` up to `hi`.
pub open spec fn query(t: Seq<u8>, nrows: int, lo: int, hi: int) -> Aggregate {
    Aggregate {
        sum: sum_over(t, nrows, lo, hi) as u64,
        count: count_over(t, nrows, lo, hi) as u64,
        max: max_over(t, nrows, lo, hi) as u32,
    }
}

proof fn lemma_bounds(t: Seq<u8>, nrows: int, lo: int, hi: int)
    requires
        lo <= hi,
    ensures
        0 <= sum_over(t, nrows, lo, hi) <= (hi - lo) * 0xffff_ffff,
        0 <= count_over(t, nrows, lo, hi) <= hi - lo,
        0 <= max_over(t, nrows, lo, hi) <= u32::MAX,
    decreases hi - lo,
{
    if lo < hi {
        lemma_bounds(t, nrows, lo, hi - 1);
    }
}

proof fn lemma_joins(t: Seq<u8>, nrows: int, lo: int, mid: int, hi: int)
    requires
        lo <= mid <= hi,
    ensures
        sum_over(t, nrows, lo, hi) == sum_over(t, nrows, lo, mid) + sum_over(t, nrows, mid, hi),
        count_over(t, nrows, lo, hi) == count_over(t, nrows, lo, mid) + count_over(
            t,
            nrows,
            mid,
            hi,
        ),
        max_over(t, nrows, lo, hi) == (if max_over(t, nrows, mid, hi) > max_over(
            t,
            nrows,
            lo,
            mid,
        ) {
            max_over(t, nrows, mid, hi)
        } else {
            max_over(t, nrows, lo, mid)
        }),
    decreases hi - mid,
{
    lemma_bounds(t, nrows, lo, mid);
    if mid < hi {
        lemma_joins(t, nrows, lo, mid, hi - 1);
    }
}

/// Whether a table holds its two columns.
pub open spec fn holds_columns(t: Seq<u8>, nrows: u32) -> bool {
    t.len() >= HEADER + 8 * nrows
}

/// Query one block of rows.
fn scan_part(t: &Vec<u8>, nrows: u32, lo: usize, hi: usize) -> (a: Aggregate)
    requires
        holds_columns(t@, nrows),
        lo <= hi <= nrows,
    ensures
        a == query(t@, nrows as int, lo as int, hi as int),
{
    let mut a: Aggregate = Aggregate { sum: 0, count: 0, max: 0 };
    let mut i: usize = lo;
    while i < hi
        invariant
            holds_columns(t@, nrows),
            lo <= i <= hi <= nrows,
            a == query(t@, nrows as int, lo as int, i as int),
        decreases hi - i,
    {
        assert(HEADER + 8 * nrows <= t.len());
        let b: u32 = bytes::read_u32(t.as_slice(), HEADER + 4 * (nrows as usize) + 4 * i);
        proof {
            lemma_bounds(t@, nrows as int, lo as int, i as int);
            lemma_bounds(t@, nrows as int, lo as int, i + 1);
            assert((i + 1 - lo) * 0xffff_ffff <= 0xffff_ffff * 0xffff_ffff);
        }
        if b == 1 {
            let v: u32 = bytes::read_u32(t.as_slice(), HEADER + 4 * i);
            a.sum = a.sum + v as u64;
            a.count = a.count + 1;
            if v > a.max {
                a.max = v;
            }
        }
        i = i + 1;
    }
    a
}

/// Query the whole table, block by block, and put what the blocks gave together.
pub fn aggregate(t: &Vec<u8>, nrows: u32) -> (a: Aggregate)
    requires
        holds_columns(t@, nrows),
    ensures
        a == query(t@, nrows as int, 0, nrows as int),
{
    assert(nrows <= t.len());
    let blocks: Vec<(usize, usize)> = compute::partition(nrows as usize, PARTS);
    let mut a: Aggregate = Aggregate { sum: 0, count: 0, max: 0 };
    let mut k: usize = 0;
    let ghost mut at: int = 0;
    while k < blocks.len()
        invariant
            holds_columns(t@, nrows),
            compute::covers(blocks@, nrows as int),
            k <= blocks@.len(),
            at == (if k == 0 {
                0
            } else {
                blocks@[k - 1].1 as int
            }),
            0 <= at <= nrows,
            a == query(t@, nrows as int, 0, at),
        decreases blocks@.len() - k,
    {
        let (lo, hi) = blocks[k];
        proof {
            assert(blocks@[k as int].0 < blocks@[k as int].1 <= nrows);
            if k > 0 {
                assert(blocks@[k as int].0 == blocks@[k - 1].1);
            }
            lemma_joins(t@, nrows as int, 0, lo as int, hi as int);
            lemma_bounds(t@, nrows as int, 0, lo as int);
            lemma_bounds(t@, nrows as int, lo as int, hi as int);
            lemma_bounds(t@, nrows as int, 0, hi as int);
            assert(hi * 0xffff_ffff <= 0xffff_ffff * 0xffff_ffff);
            assert(lo * 0xffff_ffff <= 0xffff_ffff * 0xffff_ffff);
            assert((hi - lo) * 0xffff_ffff <= 0xffff_ffff * 0xffff_ffff);
        }
        let p: Aggregate = scan_part(t, nrows, lo, hi);
        a.sum = a.sum + p.sum;
        a.count = a.count + p.count;
        if p.max > a.max {
            a.max = p.max;
        }
        proof {
            at = hi as int;
        }
        k = k + 1;
    }
    a
}

/// What the query has to come to over the table that the disk holds: its first column
/// counts the rows, its second tells odd from even.
pub open spec fn expected(nrows: u32) -> Aggregate {
    Aggregate {
        sum: ((nrows / 2) * (nrows / 2)) as u64,
        count: (nrows / 2) as u64,
        max: (nrows - 1) as u32,
    }
}

/// Whether the rows that were read one way are those that were read the other: the
/// first, the second, the first of the second block, the middle and the last.
pub open spec fn columns_agree(ca: Seq<u8>, t: Seq<u8>, nrows: u32) -> bool {
    let same = |i: int| bytes::le(ca, 4 * i, 4) as u32 == col_a(t, i);
    same(0) && same(1) && same((nrows / 8) as int) && same(nrows - 1) && same((nrows / 2) as int)
}

fn agrees_at(ca: &Vec<u8>, t: &Vec<u8>, i: usize) -> (b: bool)
    requires
        4 * i + 4 <= ca@.len(),
        HEADER + 4 * i + 4 <= t@.len(),
    ensures
        b == (bytes::le(ca@, 4 * i, 4) as u32 == col_a(t@, i as int)),
{
    assert(4 * i + 4 <= ca.len());
    assert(HEADER + 4 * i + 4 <= t.len());
    bytes::read_u32(ca.as_slice(), 4 * i) == bytes::read_u32(t.as_slice(), HEADER + 4 * i)
}

/// What the query over a table comes to, or the code of what is not as it should be.
pub open spec fn verdict(ca: Seq<u8>, t: Seq<u8>, nrows: u32) -> Result<Aggregate, i32> {
    if !columns_agree(ca, t, nrows) {
        Err(28)
    } else if query(t, nrows as int, 0, nrows as int) != expected(nrows) {
        Err(29)
    } else {
        Ok(query(t, nrows as int, 0, nrows as int))
    }
}

/// Query a table, and hold what comes out to what it has to be. `ca` is the first column
/// as it was read into a grant, `t` the table as it was mapped.
pub fn check_table(ca: &Vec<u8>, t: &Vec<u8>, nrows: u32) -> (r: Result<Aggregate, i32>)
    requires
        nrows >= 8,
        nrows % 8 == 0,
        holds_columns(t@, nrows),
        ca@.len() == 4 * nrows,
    ensures
        r == verdict(ca@, t@, nrows),
{
    assert(nrows <= ca.len());
    let n: usize = nrows as usize;
    if !agrees_at(ca, t, 0) || !agrees_at(ca, t, 1) || !agrees_at(ca, t, n / 8) || !agrees_at(
        ca,
        t,
        n - 1,
    ) || !agrees_at(ca, t, n / 2) {
        return Err(28);
    }
    let a: Aggregate = aggregate(t, nrows);
    let half: u64 = (nrows / 2) as u64;
    proof {
        assert(half * half <= 0x7fff_ffff * 0x7fff_ffff) by (nonlinear_arith)
            requires
                0 <= half <= 0x7fff_ffff,
        ;
        assert(half * half == (nrows / 2) * (nrows / 2));
    }
    if a.sum != half * half || a.count != half || a.max != nrows - 1 {
        return Err(29);
    }
    Ok(a)
}

/// A piece of the first column: where it goes in the grant, where it stands in the file,
/// and how many bytes it has.
#[derive(Copy, Clone, PartialEq, Eq, Debug, Structural)]
pub struct Piece {
    pub into: u64,
    pub from: u64,
    pub len: u32,
}

/// Piece `k` of the first column.
pub open spec fn piece(nrows: u32, k: int) -> Piece {
    let size = 4 * (nrows / 8);
    Piece { into: (k * size) as u64, from: (HEADER + k * size) as u64, len: size as u32 }
}

/// The pieces in which the first column is read.
pub fn column_pieces(nrows: u32) -> (v: Vec<Piece>)
    ensures
        v@ == Seq::new(PARTS as nat, |k: int| piece(nrows, k)),
{
    let size: u32 = 4 * (nrows / 8);
    let mut v: Vec<Piece> = Vec::new();
    let mut at: u64 = 0;
    while v.len() < PARTS
        invariant
            size == 4 * (nrows / 8),
            v@.len() <= PARTS,
            at == v@.len() * size,
            v@ =~= Seq::new(v@.len(), |k: int| piece(nrows, k)),
        decreases PARTS - v@.len(),
    {
        proof {
            let k = v@.len() as int;
            assert(k * size <= 8 * size) by (nonlinear_arith)
                requires
                    0 <= k <= 8,
                    0 <= size,
            ;
            assert((k + 1) * size == k * size + size) by (nonlinear_arith);
        }
        v.push(Piece { into: at, from: 16 + at, len: size });
        at = at + size as u64;
    }
    v
}

/// The pieces are the first column, with nothing twice and nothing left out: each begins
/// where the one before ends, and the last ends with the column.
pub proof fn law_pieces_are_the_column(nrows: u32, k: int)
    requires
        nrows % 8 == 0,
        0 <= k < PARTS,
    ensures
        piece(nrows, 0).into == 0,
        piece(nrows, k).from == HEADER + piece(nrows, k).into,
        piece(nrows, k).into + piece(nrows, k).len == (if k + 1 < PARTS {
            piece(nrows, k + 1).into as int
        } else {
            4 * nrows
        }),
{
    let size = 4 * (nrows / 8);
    assert(k * size <= 8 * size && (k + 1) * size == k * size + size) by (nonlinear_arith)
        requires
            0 <= k <= 8,
            0 <= size,
    ;
    if k + 1 < PARTS {
        assert((k + 1) * size <= 8 * size) by (nonlinear_arith)
            requires
                0 <= k + 1 <= 8,
                0 <= size,
        ;
    } else {
        assert(k == 7);
    }
    assert(0 * size == 0) by (nonlinear_arith);
}

/// Where the scan is.
#[derive(PartialEq, Eq, Debug)]
pub enum ScanAt {
    Start,
    Opening,
    /// Asks for memory for the header.
    HeaderGrant,
    ReadingHeader,
    /// Asks for memory for the first column, of so many rows.
    ColumnGrant(u32),
    ReadingColumn(u32),
    /// Maps the table; the first column has been read.
    Mapping(u32, Vec<u8>),
    /// Says that the scan came to this.
    Saying(Aggregate),
    Over,
}

/// What the scan is answered.
#[derive(PartialEq, Eq, Debug)]
pub enum ScanEvent {
    Begin,
    /// The size of the table, if it could be opened.
    Opened(Option<u64>),
    /// Whether there was memory.
    Granted(bool),
    /// The header, if all of it was read.
    Header(Option<Vec<u8>>),
    /// Whether each piece was read whole, and what the memory for them holds.
    Column(Vec<bool>, Vec<u8>),
    /// The table, if it could be mapped.
    Mapped(Option<Vec<u8>>),
    /// Whether the text was written.
    Said(bool),
}

/// What the scan asks for next.
#[derive(PartialEq, Eq, Debug)]
pub enum ScanAction {
    /// Open the table.
    Open,
    /// Memory of so many bytes.
    Grant(u64),
    ReadHeader,
    /// Read these pieces of the file, all at once.
    Read(Vec<Piece>),
    MapTable,
    Say(Vec<u8>),
    /// The scan is over: what it came to, or its code.
    Done(Result<Aggregate, i32>),
}

impl ScanAt {
    /// The rows are rows of a table, and the column that was read is as long as they are.
    pub open spec fn wf(&self) -> bool {
        match *self {
            ScanAt::ColumnGrant(n) => n >= 8 && n % 8 == 0,
            ScanAt::ReadingColumn(n) => n >= 8 && n % 8 == 0,
            ScanAt::Mapping(n, ca) => n >= 8 && n % 8 == 0 && ca@.len() == 4 * n,
            _ => true,
        }
    }
}

/// Whether an answer is one to what the scan asked for.
pub open spec fn event_fits(at: ScanAt, e: ScanEvent) -> bool {
    match (at, e) {
        (ScanAt::Start, ScanEvent::Begin) => true,
        (ScanAt::Opening, ScanEvent::Opened(_)) => true,
        (ScanAt::HeaderGrant, ScanEvent::Granted(_)) => true,
        (ScanAt::ReadingHeader, ScanEvent::Header(None)) => true,
        (ScanAt::ReadingHeader, ScanEvent::Header(Some(h))) => h@.len() == HEADER,
        (ScanAt::ColumnGrant(_), ScanEvent::Granted(_)) => true,
        (ScanAt::ReadingColumn(n), ScanEvent::Column(_, ca)) => ca@.len() == 4 * n,
        (ScanAt::Mapping(_, _), ScanEvent::Mapped(None)) => true,
        (ScanAt::Mapping(n, _), ScanEvent::Mapped(Some(t))) => holds_columns(t@, n),
        (ScanAt::Saying(_), ScanEvent::Said(_)) => true,
        _ => false,
    }
}

/// Whether an answer is one to what the scan asked for.
pub fn fits(at: &ScanAt, e: &ScanEvent) -> (b: bool)
    ensures
        b == event_fits(*at, *e),
{
    match (at, e) {
        (ScanAt::Start, ScanEvent::Begin) => true,
        (ScanAt::Opening, ScanEvent::Opened(_)) => true,
        (ScanAt::HeaderGrant, ScanEvent::Granted(_)) => true,
        (ScanAt::ReadingHeader, ScanEvent::Header(None)) => true,
        (ScanAt::ReadingHeader, ScanEvent::Header(Some(h))) => h.len() == HEADER,
        (ScanAt::ColumnGrant(_), ScanEvent::Granted(_)) => true,
        (ScanAt::ReadingColumn(n), ScanEvent::Column(_, ca)) => ca.len() as u64 == 4 * (*n as u64),
        (ScanAt::Mapping(_, _), ScanEvent::Mapped(None)) => true,
        (ScanAt::Mapping(n, _), ScanEvent::Mapped(Some(t))) => t.len() as u64 >= 16 + 8 * (*n as u64),
        (ScanAt::Saying(_), ScanEvent::Said(_)) => true,
        _ => false,
    }
}

/// The scan ends with a code.
pub open spec fn failed(at: ScanAt, a: ScanAction, code: i32) -> bool {
    at is Over && a == ScanAction::Done(Err(code))
}

/// What an answer makes of the scan.
pub open spec fn scan_steps(before: ScanAt, e: ScanEvent, after: ScanAt, a: ScanAction) -> bool {
    match (before, e) {
        (ScanAt::Start, _) => after is Opening && a is Open,
        (ScanAt::Opening, ScanEvent::Opened(size)) => match size {
            None => failed(after, a, 20),
            Some(n) => if n < HEADER {
                failed(after, a, 21)
            } else {
                after is HeaderGrant && a == ScanAction::Grant(HEADER as u64)
            },
        },
        (ScanAt::HeaderGrant, ScanEvent::Granted(given)) => if given {
            after is ReadingHeader && a is ReadHeader
        } else {
            failed(after, a, 22)
        },
        (ScanAt::ReadingHeader, ScanEvent::Header(None)) => failed(after, a, 23),
        (ScanAt::ReadingHeader, ScanEvent::Header(Some(h))) => match rows_in(h@) {
            None => failed(after, a, 24),
            Some(n) => after == ScanAt::ColumnGrant(n) && a == ScanAction::Grant((4 * n) as u64),
        },
        (ScanAt::ColumnGrant(n), ScanEvent::Granted(given)) => if given {
            &&& after == ScanAt::ReadingColumn(n)
            &&& a matches ScanAction::Read(v)
            &&& v@ == Seq::new(PARTS as nat, |k: int| piece(n, k))
        } else {
            failed(after, a, 25)
        },
        (ScanAt::ReadingColumn(n), ScanEvent::Column(whole, ca)) => if whole@.contains(false) {
            failed(after, a, 26)
        } else {
            after == ScanAt::Mapping(n, ca) && a is MapTable
        },
        (ScanAt::Mapping(_, _), ScanEvent::Mapped(None)) => failed(after, a, 27),
        (ScanAt::Mapping(n, ca), ScanEvent::Mapped(Some(t))) => match verdict(ca@, t@, n) {
            Err(code) => failed(after, a, code),
            Ok(agg) => {
                &&& after == ScanAt::Saying(agg)
                &&& a matches ScanAction::Say(said)
                &&& said@ == "[scan ok]\n".spec_bytes()
            },
        },
        (ScanAt::Saying(agg), ScanEvent::Said(written)) => if written {
            after is Over && a == ScanAction::Done(Ok(agg))
        } else {
            failed(after, a, 30)
        },
        _ => false,
    }
}

fn all_true(v: &Vec<bool>) -> (b: bool)
    ensures
        b == !v@.contains(false),
{
    let mut i: usize = 0;
    while i < v.len()
        invariant
            i <= v@.len(),
            forall|k: int| 0 <= k < i ==> #[trigger] v@[k],
        decreases v@.len() - i,
    {
        if !v[i] {
            assert(v@[i as int] == false);
            return false;
        }
        i = i + 1;
    }
    true
}

/// Take the scan one answer on: it opens the table, reads its header and its first
/// column, maps it, queries it and says so. The first thing that is not as it should be
/// ends it with its code.
pub fn scan(at: &mut ScanAt, e: ScanEvent) -> (a: ScanAction)
    requires
        old(at).wf(),
        event_fits(*old(at), e),
    ensures
        final(at).wf(),
        scan_steps(*old(at), e, *final(at), a),
{
    let mut was: ScanAt = ScanAt::Over;
    std::mem::swap(at, &mut was);
    match (was, e) {
        (ScanAt::Start, _) => {
            *at = ScanAt::Opening;
            ScanAction::Open
        },
        (ScanAt::Opening, ScanEvent::Opened(size)) => match size {
            None => ScanAction::Done(Err(20)),
            Some(n) => {
                if n < 16 {
                    return ScanAction::Done(Err(21));
                }
                *at = ScanAt::HeaderGrant;
                ScanAction::Grant(16)
            },
        },
        (ScanAt::HeaderGrant, ScanEvent::Granted(given)) => {
            if !given {
                return ScanAction::Done(Err(22));
            }
            *at = ScanAt::ReadingHeader;
            ScanAction::ReadHeader
        },
        (ScanAt::ReadingHeader, ScanEvent::Header(h)) => match h {
            None => ScanAction::Done(Err(23)),
            Some(h) => match check_header(&h) {
                Err(code) => ScanAction::Done(Err(code)),
                Ok(n) => {
                    *at = ScanAt::ColumnGrant(n);
                    ScanAction::Grant(4 * (n as u64))
                },
            },
        },
        (ScanAt::ColumnGrant(n), ScanEvent::Granted(given)) => {
            if !given {
                return ScanAction::Done(Err(25));
            }
            *at = ScanAt::ReadingColumn(n);
            ScanAction::Read(column_pieces(n))
        },
        (ScanAt::ReadingColumn(n), ScanEvent::Column(whole, ca)) => {
            if !all_true(&whole) {
                return ScanAction::Done(Err(26));
            }
            *at = ScanAt::Mapping(n, ca);
            ScanAction::MapTable
        },
        (ScanAt::Mapping(n, ca), ScanEvent::Mapped(t)) => match t {
            None => ScanAction::Done(Err(27)),
            Some(t) => match check_table(&ca, &t, n) {
                Err(code) => ScanAction::Done(Err(code)),
                Ok(agg) => {
                    *at = ScanAt::Saying(agg);
                    let mut said: Vec<u8> = Vec::new();
                    text::put_str(&mut said, "[scan ok]\n");
                    assert(said@ =~= "[scan ok]\n".spec_bytes());
                    ScanAction::Say(said)
                },
            },
        },
        (ScanAt::Saying(agg), ScanEvent::Said(written)) => {
            if !written {
                return ScanAction::Done(Err(30));
            }
            ScanAction::Done(Ok(agg))
        },
        _ => ScanAction::Open,
    }
}

/// Whether a table is the one that the disk holds.
pub open spec fn is_table(t: Seq<u8>, nrows: int) -> bool {
    &&& forall|i: int| 0 <= i < nrows ==> #[trigger] col_a(t, i) == i
    &&& forall|i: int| 0 <= i < nrows ==> #[trigger] col_b(t, nrows, i) == i % 2
}

proof fn lemma_odd_rows(t: Seq<u8>, nrows: int, n: int)
    requires
        is_table(t, nrows),
        0 <= n <= nrows,
    ensures
        sum_over(t, nrows, 0, n) == (n / 2) * (n / 2),
        count_over(t, nrows, 0, n) == n / 2,
        max_over(t, nrows, 0, n) == (if n < 2 {
            0
        } else {
            2 * (n / 2) - 1
        }),
    decreases n,
{
    if n == 0 {
        assert((n / 2) * (n / 2) == 0) by (nonlinear_arith)
            requires
                n == 0,
        ;
    } else {
        lemma_odd_rows(t, nrows, n - 1);
        assert(col_a(t, n - 1) == n - 1);
        assert(col_b(t, nrows, n - 1) == (n - 1) % 2);
        let h = (n - 1) / 2;
        assert((h + 1) * (h + 1) == h * h + 2 * h + 1) by (nonlinear_arith);
        if n % 2 == 0 {
            assert(n / 2 == h + 1);
            assert(n - 1 == 2 * h + 1);
            assert(taken(t, nrows, n - 1));
            assert(sum_over(t, nrows, 0, n) == h * h + (n - 1));
        } else {
            assert(n / 2 == h);
            assert(!taken(t, nrows, n - 1));
            assert(sum_over(t, nrows, 0, n) == h * h);
        }
    }
}

/// Over the table that the disk holds the query comes to its closed form: half of the
/// rows, the square of that, and the last row.
pub proof fn law_closed_form(t: Seq<u8>, nrows: u32)
    requires
        nrows >= 8,
        nrows % 8 == 0,
        is_table(t, nrows as int),
    ensures
        query(t, nrows as int, 0, nrows as int) == expected(nrows),
{
    lemma_odd_rows(t, nrows as int, nrows as int);
}

/// However a table is cut, the query over the whole is what the queries over its parts
/// come to together.
pub proof fn law_parts_make_the_whole(t: Seq<u8>, nrows: u32, lo: int, mid: int, hi: int)
    requires
        0 <= lo <= mid <= hi <= nrows,
    ensures
        ({
            let a = query(t, nrows as int, lo, mid);
            let b = query(t, nrows as int, mid, hi);
            let c = query(t, nrows as int, lo, hi);
            &&& c.sum == a.sum + b.sum
            &&& c.count == a.count + b.count
            &&& c.max == (if b.max > a.max {
                b.max
            } else {
                a.max
            })
        }),
{
    lemma_joins(t, nrows as int, lo, mid, hi);
    lemma_bounds(t, nrows as int, lo, mid);
    lemma_bounds(t, nrows as int, mid, hi);
    lemma_bounds(t, nrows as int, lo, hi);
    assert((hi - lo) * 0xffff_ffff <= 0xffff_ffff * 0xffff_ffff);
    assert((mid - lo) * 0xffff_ffff <= 0xffff_ffff * 0xffff_ffff);
    assert((hi - mid) * 0xffff_ffff <= 0xffff_ffff * 0xffff_ffff);
}

/// What a query counts is the rows that are taken and no other: it is within the number of
/// rows, none exactly where none is taken, and a row that is not taken adds nothing to any
/// of the three.
pub proof fn law_query_is_of_taken_rows(t: Seq<u8>, nrows: int, lo: int, hi: int)
    requires
        lo <= hi,
    ensures
        0 <= count_over(t, nrows, lo, hi) <= hi - lo,
        count_over(t, nrows, lo, hi) == 0 <==> forall|i: int| lo <= i < hi ==> !#[trigger] taken(t, nrows, i),
        lo < hi && !taken(t, nrows, hi - 1) ==> {
            &&& sum_over(t, nrows, lo, hi) == sum_over(t, nrows, lo, hi - 1)
            &&& count_over(t, nrows, lo, hi) == count_over(t, nrows, lo, hi - 1)
            &&& max_over(t, nrows, lo, hi) == max_over(t, nrows, lo, hi - 1)
        },
        lo < hi && taken(t, nrows, hi - 1) ==> {
            &&& sum_over(t, nrows, lo, hi) == sum_over(t, nrows, lo, hi - 1) + col_a(t, hi - 1)
            &&& count_over(t, nrows, lo, hi) == count_over(t, nrows, lo, hi - 1) + 1
        },
        sum_over(t, nrows, lo, hi) <= count_over(t, nrows, lo, hi) * max_over(t, nrows, lo, hi),
    decreases hi - lo,
{
    if lo < hi {
        law_query_is_of_taken_rows(t, nrows, lo, hi - 1);
        law_max_is_the_greatest_taken(t, nrows, lo, hi);
        law_max_is_the_greatest_taken(t, nrows, lo, hi - 1);
        let c = count_over(t, nrows, lo, hi - 1);
        let m0 = max_over(t, nrows, lo, hi - 1);
        let m1 = max_over(t, nrows, lo, hi);
        assert(c * m0 <= c * m1) by (nonlinear_arith)
            requires
                0 <= c,
                m0 <= m1,
        ;
        assert((c + 1) * m1 == c * m1 + m1) by (nonlinear_arith);
        assert(taken(t, nrows, hi - 1) == taken(t, nrows, hi - 1));
    }
}

/// The greatest of a query is one of the rows that are taken and no less than any of them,
/// and 0 where none is.
pub proof fn law_max_is_the_greatest_taken(t: Seq<u8>, nrows: int, lo: int, hi: int)
    requires
        lo <= hi,
    ensures
        0 <= max_over(t, nrows, lo, hi),
        forall|i: int|
            lo <= i < hi && #[trigger] taken(t, nrows, i) ==> col_a(t, i) <= max_over(t, nrows, lo, hi),
        max_over(t, nrows, lo, hi) != 0 ==> exists|i: int|
            lo <= i < hi && #[trigger] taken(t, nrows, i) && col_a(t, i) == max_over(t, nrows, lo, hi),
        lo < hi ==> max_over(t, nrows, lo, hi - 1) <= max_over(t, nrows, lo, hi),
    decreases hi - lo,
{
    if lo < hi {
        law_max_is_the_greatest_taken(t, nrows, lo, hi - 1);
        let m = max_over(t, nrows, lo, hi - 1);
        if taken(t, nrows, hi - 1) && col_a(t, hi - 1) > m {
        } else if m != 0 {
            let i = choose|i: int| lo <= i < hi - 1 && #[trigger] taken(t, nrows, i) && col_a(t, i) == m;
            assert(taken(t, nrows, i));
        }
    }
}

/// A table is laid out by columns: a header of sixteen bytes, the numbers of the first
/// column, four bytes each with the least first, and behind them those of the second. A row
/// is taken where its second number is 1.
pub proof fn law_columns_stand_behind_the_header(t: Seq<u8>, nrows: int, i: int)
    ensures
        col_a(t, i) == t[16 + 4 * i] + 0x100 * t[17 + 4 * i] + 0x1_0000 * t[18 + 4 * i] + 0x100_0000 * t[19
            + 4 * i],
        col_b(t, nrows, i) == col_a(t, nrows + i),
        taken(t, nrows, i) <==> col_b(t, nrows, i) == 1,
{
    reveal_with_fuel(bytes::le, 5);
}

/// A header is good exactly where it begins with the mark, has two columns and some rows,
/// eight at a time; then it says how many.
pub proof fn law_header_says_the_rows(h: Seq<u8>)
    ensures
        rows_in(h) is Some <==> bytes::le(h, 0, 4) == 0x314C_4F43 && bytes::le(h, 8, 4) == 2 && bytes::le(
            h,
            4,
            4,
        ) > 0 && bytes::le(h, 4, 4) % 8 == 0,
        rows_in(h) matches Some(n) ==> n == bytes::le(h, 4, 4),
{
    reveal_with_fuel(bytes::le, 5);
}

/// A scan is answered only where both ways of reading agree: the column that was read
/// agrees with the one that was mapped, and the query with what the table is known to hold.
pub proof fn law_scan_is_checked(ca: Seq<u8>, t: Seq<u8>, nrows: u32)
    requires
        nrows >= 8,
        nrows % 8 == 0,
    ensures
        verdict(ca, t, nrows) matches Ok(agg) ==> {
            &&& agg.count == nrows / 2
            &&& agg.sum == (nrows / 2) * (nrows / 2)
            &&& agg.max == nrows - 1
            &&& bytes::le(ca, 0, 4) as u32 == col_a(t, 0)
            &&& bytes::le(ca, 4 * (nrows - 1), 4) as u32 == col_a(t, nrows - 1)
        },
        verdict(ca, t, nrows) matches Err(code) ==> code == 28 || code == 29,
        verdict(ca, t, nrows) == Err::<Aggregate, i32>(28) <==> !columns_agree(ca, t, nrows),
{
    let half = (nrows / 2) as int;
    assert(half * half <= u64::MAX) by (nonlinear_arith)
        requires
            0 <= half <= 0xffff_ffff,
    ;
    assert(half * half >= 0) by (nonlinear_arith);
}

/// The grant program ends well only where everything went as it should: what it wrote it
/// read back, a page could be given back and had again, the sealed grant refused to be
/// committed, an emulated kind was there and a missing one was not.
pub proof fn law_grants_end_well_only_as_they_should(at0: GrantAt, at1: GrantAt, e: GrantEvent, action: GrantAction)
    requires
        granted(at0, at1, e, action),
    ensures
        action == GrantAction::Over(0) ==> at0 == GrantAt::Missing && !e->Done_0,
        at1 == GrantAt::Missing ==> at0 == GrantAt::Emulated && e->Done_0,
        at1 == GrantAt::Emulated ==> at0 == GrantAt::Refused && !e->Done_0,
        at1 == GrantAt::Refused ==> at0 == GrantAt::Sealed && e->Done_0 && action == GrantAction::Commit(0, 4096),
        at1 == GrantAt::Sealed ==> at0 == GrantAt::Recommitted && e->Done_0,
        at1 == GrantAt::Recommitted ==> at0 == GrantAt::Decommitted && e->Done_0 && action == GrantAction::Commit(
            4096,
            4096,
        ),
        at1 == GrantAt::Decommitted ==> at0 == GrantAt::Written && action == GrantAction::Decommit(4096, 4096)
            && forall|i: int|
            0 <= i < e->Read_0@.len() ==> #[trigger] e->Read_0@[i] == (i * 7) % 256,
{
}

/// The scan goes on only where each step was done: the table is opened and has a header, the
/// header is read and good, the column is read whole, the table is mapped, and both agree;
/// only then does it say so, and it ends well only once that was written.
pub proof fn law_scan_goes_on_only_when_right(before: ScanAt, e: ScanEvent, after: ScanAt, a: ScanAction)
    requires
        before.wf(),
        event_fits(before, e),
        scan_steps(before, e, after, a),
    ensures
        (a is Done && a->Done_0 is Ok) ==> before is Saying && e == ScanEvent::Said(true) && a->Done_0->Ok_0
            == before->Saying_0,
        after is Saying ==> before is Mapping && e is Mapped && e->Mapped_0 is Some && verdict(
            before->Mapping_1@,
            e->Mapped_0->0@,
            before->Mapping_0,
        ) == Ok::<Aggregate, i32>(after->Saying_0),
        after is Mapping ==> before is ReadingColumn && (e matches ScanEvent::Column(whole, ca) && ca@
            == after->Mapping_1@ && after->Mapping_0 == before->ReadingColumn_0 && forall|i: int|
            0 <= i < whole@.len() ==> #[trigger] whole@[i]),
        after is ReadingColumn ==> before is ColumnGrant && e == ScanEvent::Granted(true) && (
        a matches ScanAction::Read(v) && forall|k: int|
            0 <= k < v@.len() ==> (#[trigger] v@[k]).from == 16 + v@[k].into && v@[k].len == 4 * (
            before->ColumnGrant_0 / 8)),
        after is ColumnGrant ==> before is ReadingHeader && e is Header && e->Header_0 is Some && rows_in(
            e->Header_0->0@,
        ) == Some(after->ColumnGrant_0) && a == ScanAction::Grant((4 * after->ColumnGrant_0) as u64),
        after is ReadingHeader ==> before is HeaderGrant && e == ScanEvent::Granted(true),
        after is HeaderGrant ==> before is Opening && e is Opened && e->Opened_0 is Some && e->Opened_0->0
            >= 16,
{
    if after is ReadingColumn {
        let n = before->ColumnGrant_0;
        if let ScanAction::Read(v) = a {
            assert forall|k: int| 0 <= k < v@.len() implies (#[trigger] v@[k]).from == 16 + v@[k].into
                && v@[k].len == 4 * (n / 8) by {
                law_pieces_are_the_column(n, k);
                assert(v@[k] == piece(n, k));
            }
        }
    }
    if after is Mapping {
        if let ScanEvent::Column(whole, ca) = e {
            assert forall|i: int| 0 <= i < whole@.len() implies #[trigger] whole@[i] by {
                if !whole@[i] {
                    assert(whole@.contains(false));
                }
            }
        }
    }
}

} // verus!
