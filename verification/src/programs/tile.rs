//! Tiles of small integers: what the product of two is, what narrowing and summing come to,
//! and a receipt for what a tile holds. Everything is exact, so that how a product is cut
//! into blocks does not show.

use vstd::prelude::*;
use crate::bytes;

verus! {

/// The longest row of a product whose sums fit.
pub const MAX_DEPTH: usize = 131071;

/// A tile of bytes with a sign: rows of `stride` numbers, of which the first `cols` count.
pub struct Tile8 {
    pub rows: usize,
    pub cols: usize,
    pub stride: usize,
    pub data: Vec<Vec<i8>>,
}

/// A tile of words with a sign.
pub struct Tile32 {
    pub rows: usize,
    pub cols: usize,
    pub stride: usize,
    pub data: Vec<Vec<i32>>,
}

impl Tile8 {
    pub open spec fn wf(&self) -> bool {
        &&& self.cols <= self.stride
        &&& self.data@.len() == self.rows
        &&& forall|i: int| 0 <= i < self.rows ==> (#[trigger] self.data@[i])@.len() == self.stride
    }

    /// The number at a place.
    pub open spec fn at(&self, i: int, j: int) -> int {
        self.data@[i]@[j] as int
    }

    /// A tile of zeros.
    pub fn new(rows: usize, cols: usize, stride: usize) -> (t: Tile8)
        requires
            cols <= stride,
        ensures
            t.wf(),
            t.rows == rows,
            t.cols == cols,
            t.stride == stride,
            forall|i: int, j: int| 0 <= i < rows && 0 <= j < stride ==> #[trigger] t.at(i, j) == 0,
    {
        let mut data: Vec<Vec<i8>> = Vec::new();
        while data.len() < rows
            invariant
                data@.len() <= rows,
                forall|i: int| 0 <= i < data@.len() ==> (#[trigger] data@[i])@.len() == stride,
                forall|i: int, j: int|
                    0 <= i < data@.len() && 0 <= j < stride ==> #[trigger] data@[i]@[j] == 0,
            decreases rows - data@.len(),
        {
            let row: Vec<i8> = vec![0i8; stride];
            data.push(row);
        }
        Tile8 { rows, cols, stride, data }
    }

    pub fn get(&self, i: usize, j: usize) -> (v: i8)
        requires
            self.wf(),
            i < self.rows,
            j < self.cols,
        ensures
            v == self.at(i as int, j as int),
    {
        assert(self.data@[i as int]@.len() == self.stride);
        self.data[i][j]
    }

    pub fn set(&mut self, i: usize, j: usize, v: i8)
        requires
            old(self).wf(),
            i < old(self).rows,
            j < old(self).cols,
        ensures
            final(self).wf(),
            final(self).rows == old(self).rows,
            final(self).cols == old(self).cols,
            final(self).stride == old(self).stride,
            forall|x: int, y: int|
                0 <= x < old(self).rows && 0 <= y < old(self).stride ==> #[trigger] final(self).at(
                    x,
                    y,
                ) == (if x == i && y == j {
                    v as int
                } else {
                    old(self).at(x, y)
                }),
    {
        assert(self.data@[i as int]@.len() == self.stride);
        self.data[i][j] = v;
        proof {
            assert forall|k: int| 0 <= k < self.rows implies (#[trigger] self.data@[k])@.len()
                == self.stride by {
                if k != i {
                    assert(self.data@[k] == old(self).data@[k]);
                }
                assert(old(self).data@[k]@.len() == old(self).stride);
            }
        }
    }
}

impl Tile32 {
    pub open spec fn wf(&self) -> bool {
        &&& self.cols <= self.stride
        &&& self.data@.len() == self.rows
        &&& forall|i: int| 0 <= i < self.rows ==> (#[trigger] self.data@[i])@.len() == self.stride
    }

    /// The number at a place.
    pub open spec fn at(&self, i: int, j: int) -> int {
        self.data@[i]@[j] as int
    }

    /// A tile of zeros.
    pub fn new(rows: usize, cols: usize, stride: usize) -> (t: Tile32)
        requires
            cols <= stride,
        ensures
            t.wf(),
            t.rows == rows,
            t.cols == cols,
            t.stride == stride,
            forall|i: int, j: int| 0 <= i < rows && 0 <= j < stride ==> #[trigger] t.at(i, j) == 0,
    {
        let mut data: Vec<Vec<i32>> = Vec::new();
        while data.len() < rows
            invariant
                data@.len() <= rows,
                forall|i: int| 0 <= i < data@.len() ==> (#[trigger] data@[i])@.len() == stride,
                forall|i: int, j: int|
                    0 <= i < data@.len() && 0 <= j < stride ==> #[trigger] data@[i]@[j] == 0,
            decreases rows - data@.len(),
        {
            let row: Vec<i32> = vec![0i32; stride];
            data.push(row);
        }
        Tile32 { rows, cols, stride, data }
    }

    pub fn get(&self, i: usize, j: usize) -> (v: i32)
        requires
            self.wf(),
            i < self.rows,
            j < self.cols,
        ensures
            v == self.at(i as int, j as int),
    {
        assert(self.data@[i as int]@.len() == self.stride);
        self.data[i][j]
    }

    pub fn set(&mut self, i: usize, j: usize, v: i32)
        requires
            old(self).wf(),
            i < old(self).rows,
            j < old(self).cols,
        ensures
            final(self).wf(),
            final(self).rows == old(self).rows,
            final(self).cols == old(self).cols,
            final(self).stride == old(self).stride,
            forall|x: int, y: int|
                0 <= x < old(self).rows && 0 <= y < old(self).stride ==> #[trigger] final(self).at(
                    x,
                    y,
                ) == (if x == i && y == j {
                    v as int
                } else {
                    old(self).at(x, y)
                }),
    {
        assert(self.data@[i as int]@.len() == self.stride);
        self.data[i][j] = v;
        proof {
            assert forall|k: int| 0 <= k < self.rows implies (#[trigger] self.data@[k])@.len()
                == self.stride by {
                if k != i {
                    assert(self.data@[k] == old(self).data@[k]);
                }
                assert(old(self).data@[k]@.len() == old(self).stride);
            }
        }
    }
}

/// The sum of the first `k` products of a row and a column.
pub open spec fn dot(a: &Tile8, b: &Tile8, i: int, j: int, k: int) -> int
    decreases k,
{
    if k <= 0 {
        0
    } else {
        dot(a, b, i, j, k - 1) + a.at(i, k - 1) * b.at(k - 1, j)
    }
}

proof fn lemma_dot_bound(a: &Tile8, b: &Tile8, i: int, j: int, k: int)
    requires
        0 <= k,
    ensures
        -16384 * k <= dot(a, b, i, j, k) <= 16384 * k,
    decreases k,
{
    if k > 0 {
        lemma_dot_bound(a, b, i, j, k - 1);
        let x = a.at(i, k - 1);
        let y = b.at(k - 1, j);
        assert(-16384 <= x * y <= 16384) by (nonlinear_arith)
            requires
                -128 <= x <= 127,
                -128 <= y <= 127,
        ;
    }
}

/// Whether a product can be formed.
pub open spec fn shapes_fit(a: &Tile8, b: &Tile8, c: &Tile32) -> bool {
    a.cols == b.rows && c.rows == a.rows && c.cols == b.cols && a.cols <= MAX_DEPTH
}

/// The tile `c` is the product of `a` and `b`.
pub open spec fn is_product(a: &Tile8, b: &Tile8, c: &Tile32) -> bool {
    forall|i: int, j: int|
        0 <= i < c.rows && 0 <= j < c.cols ==> #[trigger] c.at(i, j) == dot(
            a,
            b,
            i,
            j,
            a.cols as int,
        )
}

/// Go on with a sum of products from `k0` up to `k1`.
pub fn dot_from(a: &Tile8, b: &Tile8, i: usize, j: usize, k0: usize, k1: usize, start: i32) -> (acc: i32)
    requires
        a.wf(),
        b.wf(),
        i < a.rows,
        j < b.cols,
        a.cols == b.rows,
        a.cols <= MAX_DEPTH,
        k0 <= k1 <= a.cols,
        start == dot(a, b, i as int, j as int, k0 as int),
    ensures
        acc == dot(a, b, i as int, j as int, k1 as int),
{
    let mut acc: i32 = start;
    let mut x: usize = k0;
    while x < k1
        invariant
            a.wf(),
            b.wf(),
            i < a.rows,
            j < b.cols,
            a.cols == b.rows,
            a.cols <= MAX_DEPTH,
            k0 <= x <= k1 <= a.cols,
            acc == dot(a, b, i as int, j as int, x as int),
        decreases k1 - x,
    {
        let p: i32 = a.get(i, x) as i32;
        let q: i32 = b.get(x, j) as i32;
        proof {
            lemma_dot_bound(a, b, i as int, j as int, x as int);
            lemma_dot_bound(a, b, i as int, j as int, x + 1);
            assert(-16384 <= p * q <= 16384) by (nonlinear_arith)
                requires
                    -128 <= p <= 127,
                    -128 <= q <= 127,
            ;
        }
        acc = acc + p * q;
        x = x + 1;
    }
    acc
}

/// How a product is cut into blocks does not show: two tiles that hold the same product
/// hold the same numbers.
pub proof fn law_blocks_do_not_show(a: &Tile8, b: &Tile8, c: &Tile32, d: &Tile32, i: int, j: int)
    requires
        is_product(a, b, c),
        is_product(a, b, d),
        c.rows == d.rows,
        c.cols == d.cols,
        0 <= i < c.rows,
        0 <= j < c.cols,
    ensures
        c.at(i, j) == d.at(i, j),
{
}

/// A number shifted to the right, and held within a byte with a sign.
pub open spec fn narrowed(v: int, shift: u32) -> int {
    let s = (v as i32) >> shift;
    if s > 127 {
        127
    } else if s < -128 {
        -128
    } else {
        s as int
    }
}

/// The tile `d` holds the numbers of `c`, narrowed.
pub open spec fn is_narrowed(c: &Tile32, d: &Tile8, shift: u32) -> bool {
    forall|i: int, j: int|
        0 <= i < d.rows && 0 <= j < d.cols ==> #[trigger] d.at(i, j) == narrowed(
            c.at(i, j),
            shift,
        )
}

/// The sum of the numbers of a tile that stand before a place, row by row.
pub open spec fn sum_before(c: &Tile32, i: int, j: int) -> int
    decreases i, j,
{
    if j > 0 {
        sum_before(c, i, j - 1) + c.at(i, j - 1)
    } else if i > 0 {
        sum_before(c, i - 1, c.cols as int)
    } else {
        0
    }
}

/// The sum of the numbers of a tile, on numbers that wrap.
pub open spec fn reduced(c: &Tile32) -> u64 {
    (sum_before(c, c.rows as int, 0) % 0x1_0000_0000_0000_0000) as u64
}

/// The hash of some bytes, from a start on.
pub open spec fn fnv(s: Seq<u8>, n: int) -> u64
    decreases n,
{
    if n <= 0 {
        0xcbf2_9ce4_8422_2325
    } else {
        let mixed = fnv(s, n - 1) ^ (s[n - 1] as u64);
        ((mixed * 0x100_0000_01b3) % 0x1_0000_0000_0000_0000) as u64
    }
}

/// The hash of some bytes.
pub fn fnv1a(s: &[u8]) -> (h: u64)
    ensures
        h == fnv(s@, s@.len() as int),
{
    let mut h: u64 = 0xcbf2_9ce4_8422_2325;
    let mut i: usize = 0;
    while i < s.len()
        invariant
            i <= s@.len(),
            h == fnv(s@, i as int),
        decreases s@.len() - i,
    {
        h = (h ^ (s[i] as u64)).wrapping_mul(0x100_0000_01b3);
        i = i + 1;
    }
    h
}

/// A word with a sign, as one without.
pub open spec fn unsigned(v: int) -> int {
    if v >= 0 {
        v
    } else {
        v + 0x1_0000_0000
    }
}

fn to_unsigned(v: i32) -> (w: u32)
    ensures
        w == unsigned(v as int),
{
    if v >= 0 {
        v as u32
    } else {
        u32::MAX - ((-1 - v as i64) as u32)
    }
}

/// The bytes of the numbers of a tile that stand before a place, row by row.
pub open spec fn bytes_before(c: &Tile32, i: int, j: int) -> Seq<u8>
    decreases i, j,
{
    if j > 0 {
        bytes_before(c, i, j - 1) + bytes::le_bytes(unsigned(c.at(i, j - 1)), 4)
    } else if i > 0 {
        bytes_before(c, i - 1, c.cols as int)
    } else {
        Seq::empty()
    }
}

/// The receipt for what a tile holds: the hash of its numbers, row by row.
pub open spec fn receipt_of(c: &Tile32) -> u64 {
    let s = bytes_before(c, c.rows as int, 0);
    fnv(s, s.len() as int)
}

/// The receipt for what a tile holds.
pub fn receipt(c: &Tile32) -> (h: u64)
    requires
        c.wf(),
    ensures
        h == receipt_of(c),
{
    let mut s: Vec<u8> = Vec::new();
    let mut i: usize = 0;
    while i < c.rows
        invariant
            c.wf(),
            i <= c.rows,
            s@ =~= bytes_before(c, i as int, 0),
        decreases c.rows - i,
    {
        let mut j: usize = 0;
        while j < c.cols
            invariant
                c.wf(),
                i < c.rows,
                j <= c.cols,
                s@ =~= bytes_before(c, i as int, j as int),
            decreases c.cols - j,
        {
            bytes::put_u32(&mut s, to_unsigned(c.get(i, j)));
            j = j + 1;
        }
        assert(bytes_before(c, i + 1, 0) == bytes_before(c, i as int, c.cols as int));
        i = i + 1;
    }
    fnv1a(s.as_slice())
}

/// Two tiles of the same size hold the same numbers.
pub open spec fn holds_same(c: &Tile32, d: &Tile32) -> bool {
    &&& c.rows == d.rows
    &&& c.cols == d.cols
    &&& forall|i: int, j: int|
        0 <= i < c.rows && 0 <= j < c.cols ==> #[trigger] c.at(i, j) == d.at(i, j)
}

proof fn lemma_same_bytes(c: &Tile32, d: &Tile32, i: int, j: int)
    requires
        holds_same(c, d),
        0 <= i <= c.rows,
        0 <= j <= c.cols,
        j > 0 ==> i < c.rows,
    ensures
        bytes_before(c, i, j) == bytes_before(d, i, j),
        sum_before(c, i, j) == sum_before(d, i, j),
    decreases i, j,
{
    if j > 0 {
        lemma_same_bytes(c, d, i, j - 1);
        assert(c.at(i, j - 1) == d.at(i, j - 1));
    } else if i > 0 {
        lemma_same_bytes(c, d, i - 1, c.cols as int);
    }
}

/// Tiles that hold the same numbers have the same receipt and the same sum.
pub proof fn law_receipt_is_of_the_numbers(c: &Tile32, d: &Tile32)
    requires
        holds_same(c, d),
    ensures
        receipt_of(c) == receipt_of(d),
        reduced(c) == reduced(d),
{
    lemma_same_bytes(c, d, c.rows as int, 0);
}

/// Whether two tiles hold the same numbers.
pub fn same_numbers(c: &Tile32, d: &Tile32) -> (b: bool)
    requires
        c.wf(),
        d.wf(),
    ensures
        b == holds_same(c, d),
{
    if c.rows != d.rows || c.cols != d.cols {
        return false;
    }
    let mut i: usize = 0;
    while i < c.rows
        invariant
            c.wf(),
            d.wf(),
            c.rows == d.rows,
            c.cols == d.cols,
            i <= c.rows,
            forall|x: int, y: int|
                0 <= x < i && 0 <= y < c.cols ==> #[trigger] c.at(x, y) == d.at(x, y),
        decreases c.rows - i,
    {
        let mut j: usize = 0;
        while j < c.cols
            invariant
                c.wf(),
                d.wf(),
                c.rows == d.rows,
                c.cols == d.cols,
                i < c.rows,
                j <= c.cols,
                forall|x: int, y: int|
                    0 <= x < i && 0 <= y < c.cols ==> #[trigger] c.at(x, y) == d.at(x, y),
                forall|y: int| 0 <= y < j ==> #[trigger] c.at(i as int, y) == d.at(i as int, y),
            decreases c.cols - j,
        {
            if c.get(i, j) != d.get(i, j) {
                assert(c.at(i as int, j as int) != d.at(i as int, j as int));
                return false;
            }
            j = j + 1;
        }
        i = i + 1;
    }
    true
}

/// A product with the unit leaves a tile as it is: where the second tile has ones on its
/// diagonal and zeros elsewhere, every number of the product is that of the first, and where
/// a row of the first is all zeros, so is that of the product.
pub proof fn law_unit_leaves_a_tile(a: &Tile8, b: &Tile8, i: int, j: int, k: int)
    requires
        0 <= k <= a.cols,
        0 <= i < a.rows,
    ensures
        (forall|l: int| 0 <= l < k ==> #[trigger] b.at(l, j) == (if l == j {
            1int
        } else {
            0
        })) ==> dot(a, b, i, j, k) == (if 0 <= j < k {
            a.at(i, j)
        } else {
            0
        }),
        (forall|l: int| 0 <= l < k ==> #[trigger] a.at(i, l) == 0) ==> dot(a, b, i, j, k) == 0,
    decreases k,
{
    if k > 0 {
        law_unit_leaves_a_tile(a, b, i, j, k - 1);
        let x = a.at(i, k - 1);
        let y = b.at(k - 1, j);
        assert(y == 0 ==> x * y == 0) by (nonlinear_arith);
        assert(y == 1 ==> x * y == x) by (nonlinear_arith);
        assert(x == 0 ==> x * y == 0) by (nonlinear_arith);
    }
}

/// Narrowing keeps the order and the ends: what comes out fits in a byte, a number no less
/// than another narrows to no less, and without a shift a number that fits is kept.
pub proof fn law_narrowing_keeps_the_order(v: i32, w: i32, shift: u32)
    requires
        shift < 32,
        v <= w,
    ensures
        -128 <= narrowed(v as int, shift) <= 127,
        narrowed(v as int, shift) <= narrowed(w as int, shift),
        -128 <= v <= 127 ==> narrowed(v as int, 0) == v,
        v > 127 ==> narrowed(v as int, 0) == 127,
        v < -128 ==> narrowed(v as int, 0) == -128,
        narrowed(0, shift) == 0,
{
    assert(v >> shift <= w >> shift) by (bit_vector)
        requires
            shift < 32,
            v <= w,
    ;
    assert(v >> 0u32 == v) by (bit_vector);
    assert(0i32 >> shift == 0) by (bit_vector)
        requires
            shift < 32,
    ;
}

/// Tiles can be multiplied exactly where the columns of the first are the rows of the second
/// and the third has the rows of the one and the columns of the other.
pub proof fn law_shapes_of_a_product(a: &Tile8, b: &Tile8, c: &Tile32)
    requires
        a.cols <= MAX_DEPTH,
    ensures
        shapes_fit(a, b, c) <==> a.cols == b.rows && c.rows == a.rows && c.cols == b.cols,
{
}

} // verus!
