//! Work in parts: a range is cut into blocks, each strand works on one, and what they
//! found is put together. And work for the kernel's engine: graphs of arithmetic.

use vstd::prelude::*;
use crate::bytes;
use crate::kernel::graph;
use crate::kernel::graph::{GraphNode, Status};

verus! {

/// The ranges follow each other from zero to the end, none of them empty.
pub open spec fn covers(parts: Seq<(usize, usize)>, len: int) -> bool {
    &&& (parts.len() == 0) == (len == 0)
    &&& parts.len() > 0 ==> parts[0].0 == 0 && parts.last().1 == len
    &&& forall|k: int| 0 <= k < parts.len() ==> (#[trigger] parts[k]).0 < parts[k].1 <= len
    &&& forall|j: int, k: int|
        #![trigger parts[j], parts[k]]
        0 <= j && k == j + 1 && k < parts.len() ==> parts[k].0 == parts[j].1
}

/// How long a block is.
pub open spec fn chunk_of(len: int, parts: int) -> int {
    let p = if parts < 1 {
        1
    } else {
        parts
    };
    (len + p - 1) / p
}

/// Block `k` of a range.
pub open spec fn block_at(len: int, parts: int, k: int) -> (int, int) {
    let c = chunk_of(len, parts);
    (
        k * c,
        if (k + 1) * c < len {
            (k + 1) * c
        } else {
            len
        },
    )
}

/// The blocks of a range that is cut for `parts` workers: they cover the range in order,
/// there are no more of them than workers, and each is as long as the others but the
/// last.
pub open spec fn split(blocks: Seq<(usize, usize)>, len: int, parts: int) -> bool {
    &&& covers(blocks, len)
    &&& blocks.len() <= (if parts < 1 {
        1
    } else {
        parts
    })
    &&& forall|k: int|
        0 <= k < blocks.len() ==> ((#[trigger] blocks[k]).0 as int, blocks[k].1 as int) == block_at(
            len,
            parts,
            k,
        )
}

fn ceil_div(len: usize, parts: usize) -> (c: usize)
    requires
        parts >= 1,
    ensures
        c == chunk_of(len as int, parts as int),
        len > 0 ==> c > 0,
        c <= len,
        c * parts >= len,
{
    let q: usize = len / parts;
    let r: usize = len % parts;
    proof {
        let l = len as int;
        let p = parts as int;
        vstd::arithmetic::div_mod::lemma_fundamental_div_mod(l, p);
        vstd::arithmetic::div_mod::lemma_mod_bound(l, p);
        if r == 0 {
            assert((l + p - 1) / p == q) by {
                assert(l + p - 1 == p * q + (p - 1));
                vstd::arithmetic::div_mod::lemma_fundamental_div_mod_converse(
                    l + p - 1,
                    p,
                    q as int,
                    p - 1,
                );
            }
        } else {
            assert((l + p - 1) / p == q + 1) by {
                assert(l + p - 1 == p * (q + 1) + (r - 1)) by (nonlinear_arith)
                    requires
                        l == p * q + r,
                ;
                vstd::arithmetic::div_mod::lemma_fundamental_div_mod_converse(
                    l + p - 1,
                    p,
                    q + 1,
                    r - 1,
                );
            }
        }
        assert(q <= len && (r > 0 ==> q + 1 <= len)) by (nonlinear_arith)
            requires
                len == parts * q + r,
                parts >= 1,
                0 <= r < parts,
                q >= 0,
        ;
        assert(q * parts == parts * q && (q + 1) * parts == parts * q + parts) by (nonlinear_arith);
        if r == 0 && len > 0 {
            assert(q > 0) by (nonlinear_arith)
                requires
                    len == parts * q,
                    len > 0,
            ;
        }
    }
    if r == 0 {
        q
    } else {
        q + 1
    }
}

/// Cut a range into blocks of equal length, the last of which may be shorter. There
/// are no more of them than `parts`, and none is empty.
pub fn partition(len: usize, parts: usize) -> (v: Vec<(usize, usize)>)
    ensures
        covers(v@, len as int),
        v@.len() <= (if parts < 1 {
            1
        } else {
            parts as nat
        }),
        forall|k: int|
            0 <= k < v@.len() ==> ((#[trigger] v@[k]).0 as int, v@[k].1 as int) == block_at(
                len as int,
                parts as int,
                k,
            ),
{
    let p: usize = if parts < 1 { 1 } else { parts };
    let c: usize = ceil_div(len, p);
    let mut v: Vec<(usize, usize)> = Vec::new();
    let mut lo: usize = 0;
    while lo < len
        invariant
            lo <= len,
            c == chunk_of(len as int, parts as int),
            p == (if parts < 1 {
                1
            } else {
                parts
            }),
            p >= 1,
            len > 0 ==> c > 0,
            len > 0 ==> c * p >= len,
            lo < len ==> lo == v@.len() * c,
            v@.len() > 0 ==> v@[0].0 == 0 && v@.last().1 == lo,
            v@.len() == 0 ==> lo == 0,
            v@.len() <= p,
            forall|k: int| 0 <= k < v@.len() ==> (#[trigger] v@[k]).0 < v@[k].1 <= len,
            forall|j: int, k: int|
                #![trigger v@[j], v@[k]]
                0 <= j && k == j + 1 && k < v@.len() ==> v@[k].0 == v@[j].1,
            forall|k: int|
                0 <= k < v@.len() ==> ((#[trigger] v@[k]).0 as int, v@[k].1 as int) == block_at(
                    len as int,
                    parts as int,
                    k,
                ),
        decreases len - lo,
    {
        let hi: usize = if len - lo > c { lo + c } else { len };
        proof {
            let n = v@.len() as int;
            assert((n + 1) * c == n * c + c) by (nonlinear_arith);
            assert(n < p) by (nonlinear_arith)
                requires
                    n * c < len,
                    c * p >= len,
                    c > 0,
                    n >= 0,
            ;
        }
        v.push((lo, hi));
        lo = hi;
    }
    v
}

/// Every place of the range lies in exactly one block.
pub proof fn law_partition_is_exact(parts: Seq<(usize, usize)>, len: int, i: int)
    requires
        covers(parts, len),
        0 <= i < len,
    ensures
        exists|k: int| 0 <= k < parts.len() && (#[trigger] parts[k]).0 <= i < parts[k].1,
        forall|j: int, k: int|
            0 <= j < parts.len() && 0 <= k < parts.len() && (#[trigger] parts[j]).0 <= i
                < parts[j].1 && (#[trigger] parts[k]).0 <= i < parts[k].1 ==> j == k,
{
    lemma_block_holding(parts, len, i, parts.len() as int);
    assert forall|j: int, k: int|
        0 <= j < parts.len() && 0 <= k < parts.len() && (#[trigger] parts[j]).0 <= i < parts[j].1
            && (#[trigger] parts[k]).0 <= i < parts[k].1 implies j == k by {
        if j < k {
            lemma_blocks_ordered(parts, len, j, k);
        }
        if k < j {
            lemma_blocks_ordered(parts, len, k, j);
        }
    }
}

proof fn lemma_block_holding(parts: Seq<(usize, usize)>, len: int, i: int, n: int)
    requires
        covers(parts, len),
        0 < n <= parts.len(),
        0 <= i < parts[n - 1].1,
    ensures
        exists|k: int| 0 <= k < n && (#[trigger] parts[k]).0 <= i < parts[k].1,
    decreases n,
{
    if i < parts[n - 1].0 {
        if n > 1 {
            assert(parts[n - 1].0 == parts[n - 2].1);
            lemma_block_holding(parts, len, i, n - 1);
            let k = choose|k: int| 0 <= k < n - 1 && (#[trigger] parts[k]).0 <= i < parts[k].1;
            assert(parts[k].0 <= i < parts[k].1);
        }
    } else {
        assert(parts[n - 1].0 <= i < parts[n - 1].1);
    }
}

proof fn lemma_blocks_ordered(parts: Seq<(usize, usize)>, len: int, j: int, k: int)
    requires
        covers(parts, len),
        0 <= j < k < parts.len(),
    ensures
        parts[j].1 <= parts[k].0,
    decreases k - j,
{
    assert(parts[k].0 == parts[k - 1].1);
    if j < k - 1 {
        lemma_blocks_ordered(parts, len, j, k - 1);
        assert(parts[k - 1].0 < parts[k - 1].1);
    }
}

/// What putting the parts together goes through: the first value is the identity, and
/// each that follows is what `reduce` may make of the one before and of what `map` may
/// make of a block.
pub open spec fn reduced<R, M: Fn(usize, usize) -> R, F: Fn(R, R) -> R>(
    parts: Seq<(usize, usize)>,
    map: M,
    reduce: F,
    id: R,
    found: Seq<R>,
    accs: Seq<R>,
) -> bool {
    &&& found.len() == parts.len()
    &&& accs.len() == parts.len() + 1
    &&& accs[0] == id
    &&& forall|k: int|
        0 <= k < parts.len() ==> call_ensures(map, (parts[k].0, parts[k].1), #[trigger] found[k])
    &&& forall|k: int|
        0 <= k < parts.len() ==> call_ensures(
            reduce,
            (accs[k], #[trigger] found[k]),
            accs[k + 1],
        )
}

/// Map every block of a range and put what was found together, in the order of the
/// blocks.
pub fn map_reduce<R: Copy, M: Fn(usize, usize) -> R, F: Fn(R, R) -> R>(
    len: usize,
    parts: usize,
    map: M,
    reduce: F,
    id: R,
) -> (r: R)
    requires
        forall|lo: usize, hi: usize| lo < hi <= len ==> call_requires(map, (lo, hi)),
        forall|a: R, b: R| call_requires(reduce, (a, b)),
    ensures
        exists|blocks: Seq<(usize, usize)>, found: Seq<R>, accs: Seq<R>|
            split(blocks, len as int, parts as int) && #[trigger] reduced(
                blocks,
                map,
                reduce,
                id,
                found,
                accs,
            ) && r == accs.last(),
{
    let blocks: Vec<(usize, usize)> = partition(len, parts);
    let mut acc: R = id;
    let ghost mut found: Seq<R> = Seq::empty();
    let ghost mut accs: Seq<R> = seq![id];
    let mut k: usize = 0;
    while k < blocks.len()
        invariant
            k <= blocks@.len(),
            split(blocks@, len as int, parts as int),
            forall|lo: usize, hi: usize| lo < hi <= len ==> call_requires(map, (lo, hi)),
            forall|a: R, b: R| call_requires(reduce, (a, b)),
            reduced(blocks@.take(k as int), map, reduce, id, found, accs),
            acc == accs.last(),
        decreases blocks@.len() - k,
    {
        let (lo, hi) = blocks[k];
        assert(blocks@[k as int].0 < blocks@[k as int].1);
        let part: R = map(lo, hi);
        let ghost before = acc;
        acc = reduce(acc, part);
        proof {
            let found1 = found.push(part);
            let accs1 = accs.push(acc);
            let now = blocks@.take(k + 1);
            assert forall|j: int| 0 <= j < now.len() implies call_ensures(
                map,
                (now[j].0, now[j].1),
                #[trigger] found1[j],
            ) by {
                if j < k {
                    assert(found1[j] == found[j]);
                    assert(now[j] == blocks@.take(k as int)[j]);
                }
            }
            assert forall|j: int| 0 <= j < now.len() implies call_ensures(
                reduce,
                (accs1[j], #[trigger] found1[j]),
                accs1[j + 1],
            ) by {
                if j < k {
                    assert(found1[j] == found[j]);
                }
            }
            found = found1;
            accs = accs1;
        }
        k = k + 1;
    }
    proof {
        assert(blocks@.take(k as int) =~= blocks@);
        assert(reduced(blocks@, map, reduce, id, found, accs));
    }
    acc
}

/// The sum of the numbers from `lo` up to `hi`.
pub open spec fn total(s: Seq<u64>, lo: int, hi: int) -> int
    decreases hi - lo,
{
    if hi <= lo {
        0
    } else {
        total(s, lo, hi - 1) + s[hi - 1]
    }
}

/// The same, on numbers that wrap.
pub open spec fn wrapped_total(s: Seq<u64>, lo: int, hi: int) -> u64 {
    (total(s, lo, hi) % 0x1_0000_0000_0000_0000) as u64
}

proof fn lemma_total_splits(s: Seq<u64>, lo: int, mid: int, hi: int)
    requires
        lo <= mid <= hi,
    ensures
        total(s, lo, hi) == total(s, lo, mid) + total(s, mid, hi),
    decreases hi - mid,
{
    if mid < hi {
        lemma_total_splits(s, lo, mid, hi - 1);
    }
}

proof fn lemma_wrapped_sum(s: Seq<u64>, lo: int, mid: int, hi: int)
    requires
        lo <= mid <= hi,
    ensures
        graph::wrap_add(wrapped_total(s, lo, mid), wrapped_total(s, mid, hi)) == wrapped_total(
            s,
            lo,
            hi,
        ),
{
    lemma_total_splits(s, lo, mid, hi);
    vstd::arithmetic::div_mod::lemma_add_mod_noop(
        total(s, lo, mid),
        total(s, mid, hi),
        0x1_0000_0000_0000_0000,
    );
}

proof fn lemma_wrapped_step(s: Seq<u64>, lo: int, i: int)
    requires
        lo <= i < s.len(),
        0 <= i,
    ensures
        graph::wrap_add(wrapped_total(s, lo, i), s[i]) == wrapped_total(s, lo, i + 1),
{
    lemma_wrapped_sum(s, lo, i, i + 1);
    reveal_with_fuel(total, 2);
    vstd::arithmetic::div_mod::lemma_small_mod(s[i] as nat, 0x1_0000_0000_0000_0000);
}

/// Add up one block in place: each number becomes the sum from the start of the block
/// on. The sum of the block comes back.
fn scan_block(data: &mut Vec<u64>, lo: usize, hi: usize) -> (sum: u64)
    requires
        lo <= hi <= old(data)@.len(),
    ensures
        final(data)@.len() == old(data)@.len(),
        forall|i: int|
            lo <= i < hi ==> #[trigger] final(data)@[i] == wrapped_total(
                old(data)@,
                lo as int,
                i + 1,
            ),
        forall|i: int|
            0 <= i < old(data)@.len() && !(lo <= i < hi) ==> #[trigger] final(data)@[i]
                == old(data)@[i],
        sum == wrapped_total(old(data)@, lo as int, hi as int),
{
    let mut acc: u64 = 0;
    let mut i: usize = lo;
    while i < hi
        invariant
            lo <= i <= hi <= old(data)@.len(),
            data@.len() == old(data)@.len(),
            acc == wrapped_total(old(data)@, lo as int, i as int),
            forall|j: int|
                lo <= j < i ==> #[trigger] data@[j] == wrapped_total(old(data)@, lo as int, j + 1),
            forall|j: int|
                0 <= j < data@.len() && !(lo <= j < i) ==> #[trigger] data@[j] == old(data)@[j],
        decreases hi - i,
    {
        proof {
            lemma_wrapped_step(old(data)@, lo as int, i as int);
        }
        acc = acc.wrapping_add(data[i]);
        data[i] = acc;
        i = i + 1;
    }
    acc
}

/// Add an offset to every number of a block.
fn shift_block(data: &mut Vec<u64>, lo: usize, hi: usize, off: u64)
    requires
        lo <= hi <= old(data)@.len(),
    ensures
        final(data)@.len() == old(data)@.len(),
        forall|i: int|
            lo <= i < hi ==> #[trigger] final(data)@[i] == graph::wrap_add(old(data)@[i], off),
        forall|i: int|
            0 <= i < old(data)@.len() && !(lo <= i < hi) ==> #[trigger] final(data)@[i]
                == old(data)@[i],
{
    let mut i: usize = lo;
    while i < hi
        invariant
            lo <= i <= hi <= old(data)@.len(),
            data@.len() == old(data)@.len(),
            forall|j: int|
                lo <= j < i ==> #[trigger] data@[j] == graph::wrap_add(old(data)@[j], off),
            forall|j: int|
                0 <= j < data@.len() && !(lo <= j < i) ==> #[trigger] data@[j] == old(data)@[j],
        decreases hi - i,
    {
        let x: u64 = data[i];
        data[i] = x.wrapping_add(off);
        i = i + 1;
    }
}

/// Replace every number by the sum of all numbers up to it, block by block: each block
/// is added up on its own, and what all blocks before it add up to is then added to
/// every number of it.
pub fn scan(data: &mut Vec<u64>, parts: usize)
    ensures
        final(data)@.len() == old(data)@.len(),
        forall|i: int|
            0 <= i < old(data)@.len() ==> #[trigger] final(data)@[i] == wrapped_total(
                old(data)@,
                0,
                i + 1,
            ),
{
    let len: usize = data.len();
    let wanted: usize = if parts < len { parts } else { len };
    let blocks: Vec<(usize, usize)> = partition(len, wanted);
    let ghost d0 = data@;
    let mut totals: Vec<u64> = Vec::new();
    let mut k: usize = 0;
    while k < blocks.len()
        invariant
            len == d0.len(),
            data@.len() == len,
            covers(blocks@, len as int),
            k <= blocks@.len(),
            totals@.len() == k,
            forall|j: int|
                0 <= j < k ==> #[trigger] totals@[j] == wrapped_total(
                    d0,
                    blocks@[j].0 as int,
                    blocks@[j].1 as int,
                ),
            forall|j: int, i: int|
                #![trigger blocks@[j], data@[i]]
                0 <= j < k && blocks@[j].0 <= i < blocks@[j].1 ==> data@[i] == wrapped_total(
                    d0,
                    blocks@[j].0 as int,
                    i + 1,
                ),
            forall|i: int|
                0 <= i < len && (k == 0 || blocks@[k - 1].1 <= i) ==> #[trigger] data@[i] == d0[i],
        decreases blocks@.len() - k,
    {
        let (lo, hi) = blocks[k];
        let ghost before = data@;
        proof {
            assert(blocks@[k as int].0 < blocks@[k as int].1 <= len);
            if k > 0 {
                assert(blocks@[k as int].0 == blocks@[k - 1].1);
            }
            lemma_totals_agree(before, d0, lo as int, hi as int);
        }
        let sum: u64 = scan_block(data, lo, hi);
        totals.push(sum);
        proof {
            assert forall|j: int, i: int|
                #![trigger blocks@[j], data@[i]]
                0 <= j < k + 1 && blocks@[j].0 <= i < blocks@[j].1 implies data@[i]
                == wrapped_total(d0, blocks@[j].0 as int, i + 1) by {
                if j < k {
                    lemma_blocks_ordered(blocks@, len as int, j, k as int);
                    assert(data@[i] == before[i]);
                } else {
                    lemma_totals_agree(before, d0, lo as int, i + 1);
                }
            }
        }
        k = k + 1;
    }
    let mut off: u64 = 0;
    let mut p: usize = 0;
    proof {
        assert(wrapped_total(d0, 0, 0) == 0);
    }
    while p < blocks.len()
        invariant
            len == d0.len(),
            data@.len() == len,
            covers(blocks@, len as int),
            p <= blocks@.len(),
            totals@.len() == blocks@.len(),
            off == wrapped_total(
                d0,
                0,
                if p == 0 {
                    0
                } else {
                    blocks@[p - 1].1 as int
                },
            ),
            forall|j: int|
                0 <= j < totals@.len() ==> #[trigger] totals@[j] == wrapped_total(
                    d0,
                    blocks@[j].0 as int,
                    blocks@[j].1 as int,
                ),
            forall|j: int, i: int|
                #![trigger blocks@[j], data@[i]]
                p <= j < blocks@.len() && blocks@[j].0 <= i < blocks@[j].1 ==> data@[i]
                    == wrapped_total(d0, blocks@[j].0 as int, i + 1),
            forall|j: int, i: int|
                #![trigger blocks@[j], data@[i]]
                0 <= j < p && blocks@[j].0 <= i < blocks@[j].1 ==> data@[i] == wrapped_total(
                    d0,
                    0,
                    i + 1,
                ),
        decreases blocks@.len() - p,
    {
        let (lo, hi) = blocks[p];
        let ghost before = data@;
        proof {
            assert(blocks@[p as int].0 < blocks@[p as int].1 <= len);
            if p > 0 {
                assert(blocks@[p as int].0 == blocks@[p - 1].1);
            }
            assert(off == wrapped_total(d0, 0, lo as int));
        }
        if off != 0 {
            shift_block(data, lo, hi, off);
        }
        proof {
            assert forall|j: int, i: int|
                #![trigger blocks@[j], data@[i]]
                p + 1 <= j < blocks@.len() && blocks@[j].0 <= i < blocks@[j].1 implies data@[i]
                == wrapped_total(d0, blocks@[j].0 as int, i + 1) by {
                lemma_blocks_ordered(blocks@, len as int, p as int, j);
                assert(before[i] == wrapped_total(d0, blocks@[j].0 as int, i + 1));
                assert(data@[i] == before[i]);
            }
            assert forall|j: int, i: int|
                #![trigger blocks@[j], data@[i]]
                0 <= j < p + 1 && blocks@[j].0 <= i < blocks@[j].1 implies data@[i]
                == wrapped_total(d0, 0, i + 1) by {
                if j < p {
                    lemma_blocks_ordered(blocks@, len as int, j, p as int);
                    assert(data@[i] == before[i]);
                } else {
                    assert(before[i] == wrapped_total(d0, lo as int, i + 1));
                    lemma_wrapped_sum(d0, 0, lo as int, i + 1);
                }
            }
            lemma_wrapped_sum(d0, 0, lo as int, hi as int);
            assert(totals@[p as int] == wrapped_total(d0, lo as int, hi as int));
        }
        off = off.wrapping_add(totals[p]);
        p = p + 1;
    }
    proof {
        assert forall|i: int| 0 <= i < len implies #[trigger] data@[i] == wrapped_total(
            d0,
            0,
            i + 1,
        ) by {
            law_partition_is_exact(blocks@, len as int, i);
            let j = choose|j: int|
                0 <= j < blocks@.len() && (#[trigger] blocks@[j]).0 <= i < blocks@[j].1;
            assert(blocks@[j].0 <= i < blocks@[j].1);
        }
    }
}

proof fn lemma_totals_agree(a: Seq<u64>, b: Seq<u64>, lo: int, hi: int)
    requires
        0 <= lo,
        hi <= a.len(),
        hi <= b.len(),
        forall|i: int| lo <= i < hi ==> #[trigger] a[i] == b[i],
    ensures
        forall|j: int| lo <= j <= hi ==> total(a, lo, j) == #[trigger] total(b, lo, j),
    decreases hi - lo,
{
    if hi > lo {
        lemma_totals_agree(a, b, lo, hi - 1);
        assert forall|j: int| lo <= j <= hi implies total(a, lo, j) == #[trigger] total(b, lo, j) by {
            if j == hi {
                assert(total(a, lo, hi - 1) == total(b, lo, hi - 1));
            }
        }
    }
}

/// Every block of a range has been worked on.
pub open spec fn worked<B: Fn(usize, usize)>(blocks: Seq<(usize, usize)>, body: B, n: int) -> bool {
    forall|k: int|
        0 <= k < n ==> call_ensures(body, ((#[trigger] blocks[k]).0, blocks[k].1), ())
}

/// Work on every block of a range, for what the work does. No two blocks overlap.
pub fn parallel_for<B: Fn(usize, usize)>(len: usize, parts: usize, body: B)
    requires
        forall|lo: usize, hi: usize| lo < hi <= len ==> call_requires(body, (lo, hi)),
    ensures
        exists|blocks: Seq<(usize, usize)>|
            split(blocks, len as int, parts as int) && #[trigger] worked(
                blocks,
                body,
                blocks.len() as int,
            ),
{
    let blocks: Vec<(usize, usize)> = partition(len, parts);
    let mut k: usize = 0;
    while k < blocks.len()
        invariant
            k <= blocks@.len(),
            split(blocks@, len as int, parts as int),
            forall|lo: usize, hi: usize| lo < hi <= len ==> call_requires(body, (lo, hi)),
            worked(blocks@, body, k as int),
        decreases blocks@.len() - k,
    {
        let (lo, hi) = blocks[k];
        assert(blocks@[k as int].0 < blocks@[k as int].1);
        body(lo, hi);
        k = k + 1;
    }
    assert(worked(blocks@, body, blocks@.len() as int));
}

/// What a cell's compute runs on.
#[derive(Copy, Clone, PartialEq, Eq, Debug, Structural)]
pub enum EngineKind {
    Cpu,
    Gpu,
    Npu,
    Other,
}

/// Where an engine can be interrupted.
#[derive(Copy, Clone, PartialEq, Eq, Debug, Structural)]
pub enum Preemption {
    Instruction,
    OpBoundary,
}

/// What the kernel has measured of an engine.
#[derive(Copy, Clone, PartialEq, Eq, Debug, Structural)]
pub struct EngineInfo {
    pub kind: EngineKind,
    pub measured_cost_ticks: u64,
    pub preemption: Preemption,
    /// The maker of a device, by its number on the bus.
    pub vendor: u16,
}

/// What the kernel writes of an engine.
#[derive(Copy, Clone, PartialEq, Eq, Debug, Structural)]
pub struct RawEngineInfo {
    pub kind: u32,
    pub measured_cost_ticks: u64,
    pub preemption: u32,
    pub vendor: u32,
}

/// What an engine is, from what the kernel wrote.
pub open spec fn decoded(raw: RawEngineInfo) -> EngineInfo {
    EngineInfo {
        kind: if raw.kind == 0 {
            EngineKind::Cpu
        } else if raw.kind == 1 {
            EngineKind::Gpu
        } else if raw.kind == 2 {
            EngineKind::Npu
        } else {
            EngineKind::Other
        },
        measured_cost_ticks: raw.measured_cost_ticks,
        preemption: if raw.preemption == 0 {
            Preemption::Instruction
        } else {
            Preemption::OpBoundary
        },
        vendor: (raw.vendor % 0x1_0000) as u16,
    }
}

fn decode(raw: RawEngineInfo) -> (e: EngineInfo)
    ensures
        e == decoded(raw),
{
    let v: u32 = raw.vendor;
    assert(v as u16 == v % 0x1_0000u32) by (bit_vector);
    EngineInfo {
        kind: match raw.kind {
            0 => EngineKind::Cpu,
            1 => EngineKind::Gpu,
            2 => EngineKind::Npu,
            _ => EngineKind::Other,
        },
        measured_cost_ticks: raw.measured_cost_ticks,
        preemption: if raw.preemption == 0 {
            Preemption::Instruction
        } else {
            Preemption::OpBoundary
        },
        vendor: v as u16,
    }
}

/// The engines of the machine, as the kernel lists them: the first is its CPU.
pub struct Engine {
    pub listed: Vec<RawEngineInfo>,
}

impl Engine {
    /// The first engine.
    pub fn info(&self) -> (e: EngineInfo)
        requires
            self.listed@.len() > 0,
        ensures
            e == decoded(self.listed@[0]),
    {
        decode(self.listed[0])
    }

    pub fn count(&self) -> (n: u64)
        ensures
            n == self.listed@.len(),
    {
        self.listed.len() as u64
    }

    /// An engine by its place in the list, if there is one.
    pub fn info_at(&self, index: u64) -> (e: Option<EngineInfo>)
        ensures
            e == (if index < self.listed@.len() {
                Some(decoded(self.listed@[index as int]))
            } else {
                None
            }),
    {
        if index < self.listed.len() as u64 {
            Some(decode(self.listed[index as usize]))
        } else {
            None
        }
    }
}

/// A node of a graph that is being built.
#[derive(Copy, Clone, PartialEq, Eq, Debug, Structural)]
pub struct NodeRef(pub u64);

/// An input of a node: a value, or the result of an earlier node.
#[derive(Copy, Clone, PartialEq, Eq, Debug, Structural)]
pub enum In {
    Imm(u64),
    Node(NodeRef),
}

impl In {
    /// How an input is written.
    pub open spec fn encoded(self) -> (u32, u64) {
        match self {
            In::Imm(v) => (0, v),
            In::Node(n) => (1, n.0),
        }
    }

    fn encode(self) -> (r: (u32, u64))
        ensures
            r == self.encoded(),
    {
        match self {
            In::Imm(v) => (0, v),
            In::Node(n) => (1, n.0),
        }
    }

    /// Whether an input stands before node `i`.
    pub open spec fn before(self, i: int) -> bool {
        match self {
            In::Imm(_) => true,
            In::Node(n) => n.0 < i,
        }
    }
}

/// The node with an operation and two inputs.
pub open spec fn written(op: u32, a: In, b: In) -> GraphNode {
    GraphNode {
        op,
        a_is_node: a.encoded().0,
        b_is_node: b.encoded().0,
        a: a.encoded().1,
        b: b.encoded().1,
    }
}

/// Builds a graph for the kernel's engine, node after node.
pub struct GraphBuilder {
    pub nodes: Vec<GraphNode>,
}

/// One node is appended, and its place comes back.
pub open spec fn appended(before: Seq<GraphNode>, after: Seq<GraphNode>, n: GraphNode, r: NodeRef) -> bool {
    after == before.push(n) && r.0 == before.len()
}

impl GraphBuilder {
    pub fn new() -> (g: GraphBuilder)
        ensures
            g.nodes@.len() == 0,
    {
        GraphBuilder { nodes: Vec::new() }
    }

    fn push(&mut self, op: u32, a: In, b: In) -> (r: NodeRef)
        ensures
            appended(old(self).nodes@, final(self).nodes@, written(op, a, b), r),
    {
        let (a_is_node, a_val) = a.encode();
        let (b_is_node, b_val) = b.encode();
        let idx: u64 = self.nodes.len() as u64;
        self.nodes.push(GraphNode { op, a_is_node, b_is_node, a: a_val, b: b_val });
        NodeRef(idx)
    }

    /// A value.
    pub fn constant(&mut self, v: u64) -> (r: NodeRef)
        ensures
            appended(
                old(self).nodes@,
                final(self).nodes@,
                written(0, In::Imm(v), In::Imm(0)),
                r,
            ),
    {
        self.push(0, In::Imm(v), In::Imm(0))
    }

    /// The sum of two inputs.
    pub fn add(&mut self, a: In, b: In) -> (r: NodeRef)
        ensures
            appended(old(self).nodes@, final(self).nodes@, written(1, a, b), r),
    {
        self.push(1, a, b)
    }

    /// The product of two inputs.
    pub fn mul(&mut self, a: In, b: In) -> (r: NodeRef)
        ensures
            appended(old(self).nodes@, final(self).nodes@, written(2, a, b), r),
    {
        self.push(2, a, b)
    }

    /// The second input where the first is not zero, and zero where it is.
    pub fn select(&mut self, cond: In, val: In) -> (r: NodeRef)
        ensures
            appended(old(self).nodes@, final(self).nodes@, written(3, cond, val), r),
    {
        self.push(3, cond, val)
    }

    /// The sum of a buffer that is described at an address.
    pub fn buf_reduce(&mut self, desc_va: u64) -> (r: NodeRef)
        ensures
            appended(
                old(self).nodes@,
                final(self).nodes@,
                written(4, In::Imm(desc_va), In::Imm(0)),
                r,
            ),
    {
        self.push(4, In::Imm(desc_va), In::Imm(0))
    }

    /// The product of two matrices that is described at an address.
    pub fn tile_gemm(&mut self, desc_va: u64) -> (r: NodeRef)
        ensures
            appended(
                old(self).nodes@,
                final(self).nodes@,
                written(5, In::Imm(desc_va), In::Imm(0)),
                r,
            ),
    {
        self.push(5, In::Imm(desc_va), In::Imm(0))
    }

    pub fn len(&self) -> (n: usize)
        ensures
            n == self.nodes@.len(),
    {
        self.nodes.len()
    }

    pub fn is_empty(&self) -> (b: bool)
        ensures
            b == (self.nodes@.len() == 0),
    {
        self.nodes.len() == 0
    }

    /// What is handed to the kernel with a graph: where its nodes stand, how many they
    /// are, and where the results go. A graph without nodes is refused at once.
    pub fn submit(&self, nodes_va: u64, results_va: u64) -> (r: Result<Vec<u8>, Status>)
        requires
            self.nodes@.len() <= u32::MAX,
        ensures
            match r {
                Ok(args) => {
                    &&& self.nodes@.len() > 0
                    &&& args@ == bytes::le_bytes(nodes_va as int, 8) + bytes::le_bytes(
                        self.nodes@.len() as int,
                        4,
                    ) + bytes::le_bytes(results_va as int, 8) + seq![0u8, 0u8, 0u8, 0u8]
                },
                Err(s) => self.nodes@.len() == 0 && s == Status::BadOpcode,
            },
    {
        if self.nodes.len() == 0 {
            return Err(Status::BadOpcode);
        }
        let mut args: Vec<u8> = Vec::new();
        bytes::put_u64(&mut args, nodes_va);
        bytes::put_u32(&mut args, self.nodes.len() as u32);
        bytes::put_u64(&mut args, results_va);
        args.push(0);
        args.push(0);
        args.push(0);
        args.push(0);
        assert(args@ =~= bytes::le_bytes(nodes_va as int, 8) + bytes::le_bytes(
            self.nodes@.len() as int,
            4,
        ) + bytes::le_bytes(results_va as int, 8) + seq![0u8, 0u8, 0u8, 0u8]);
        Ok(args)
    }
}

impl Default for GraphBuilder {
    fn default() -> (g: GraphBuilder)
        ensures
            g.nodes@.len() == 0,
    {
        GraphBuilder::new()
    }
}

/// What a graph came to: the result of its last node, or how it was refused.
pub fn submitted(status: Status, results: &Vec<u64>) -> (r: Result<u64, Status>)
    requires
        results@.len() > 0,
    ensures
        r == (if status == Status::Done {
            Ok::<u64, Status>(results@.last())
        } else {
            Err(status)
        }),
{
    if status == Status::Done {
        Ok(results[results.len() - 1])
    } else {
        Err(status)
    }
}

/// A graph that was built node by node, of operations that the engine computes and of
/// inputs that stood before, is never refused for what is in it: appending such a node
/// keeps that.
pub proof fn law_built_graphs_are_accepted(
    before: Seq<GraphNode>,
    after: Seq<GraphNode>,
    op: u32,
    a: In,
    b: In,
    r: NodeRef,
)
    requires
        graph::first_fault(before, 0) is None,
        appended(before, after, written(op, a, b), r),
        op <= 3,
        a.before(before.len() as int),
        b.before(before.len() as int),
    ensures
        graph::first_fault(after, 0) is None,
{
    graph::law_results_only_in_order(before, 0);
    assert forall|j: int| 0 <= j < after.len() implies #[trigger] graph::fault_at(after, j) is None by {
        if j < before.len() {
            assert(graph::fault_at(before, j) is None);
            assert(after[j] == before[j]);
        }
    }
    graph::law_results_only_in_order(after, 0);
}

/// A total is of every number once: that of one number is the number, and that of a range
/// is those of its two parts together, wherever it is parted. So the totals of the parts,
/// on 64 bits, add up to that of the whole.
pub proof fn law_totals_join(s: Seq<u64>, lo: int, mid: int, hi: int)
    requires
        0 <= lo <= mid <= hi <= s.len(),
    ensures
        total(s, lo, lo) == 0,
        lo < hi ==> total(s, lo, lo + 1) == s[lo],
        total(s, lo, mid) + total(s, mid, hi) == total(s, lo, hi),
        (wrapped_total(s, lo, mid) + wrapped_total(s, mid, hi)) % (u64::MAX + 1) == wrapped_total(s, lo, hi),
    decreases hi - mid,
{
    reveal_with_fuel(total, 2);
    if mid < hi {
        law_totals_join(s, lo, mid, hi - 1);
    }
    let m = 0x1_0000_0000_0000_0000int;
    vstd::arithmetic::div_mod::lemma_add_mod_noop(total(s, lo, mid), total(s, mid, hi), m);
}

/// The blocks of a split are as even as whole numbers are: every block has the same
/// length, but for the last one, which has what is left, and that length is the least with
/// which so many blocks reach the end.
pub proof fn law_blocks_are_even(len: int, parts: int, k: int)
    requires
        len >= 1,
        parts >= 1,
        0 <= k,
        k * chunk_of(len, parts) < len,
    ensures
        len <= parts * chunk_of(len, parts) < len + parts,
        block_at(len, parts, k).0 == k * chunk_of(len, parts),
        block_at(len, parts, k).0 < block_at(len, parts, k).1 <= len,
        (k + 1) * chunk_of(len, parts) <= len ==> block_at(len, parts, k).1 - block_at(len, parts, k).0
            == chunk_of(len, parts),
        (k + 1) * chunk_of(len, parts) > len ==> block_at(len, parts, k).1 == len,
{
    let c = chunk_of(len, parts);
    vstd::arithmetic::div_mod::lemma_fundamental_div_mod(len + parts - 1, parts);
    vstd::arithmetic::div_mod::lemma_mod_bound(len + parts - 1, parts);
    assert((k + 1) * c == k * c + c) by (nonlinear_arith);
    assert(c >= 1) by (nonlinear_arith)
        requires
            parts * c >= len,
            len >= 1,
            parts >= 1,
    ;
}

/// What the kernel tells of an engine is read by number: 0 is the CPU, 1 a GPU, 2 an NPU and
/// any other another kind; it is stopped between instructions where it says 0, and else only
/// between operations.
pub proof fn law_engines_are_read_by_number(raw: RawEngineInfo)
    ensures
        raw.kind == 0 <==> decoded(raw).kind == EngineKind::Cpu,
        raw.kind == 1 <==> decoded(raw).kind == EngineKind::Gpu,
        raw.kind == 2 <==> decoded(raw).kind == EngineKind::Npu,
        raw.kind > 2 <==> decoded(raw).kind == EngineKind::Other,
        raw.preemption == 0 <==> decoded(raw).preemption == Preemption::Instruction,
        decoded(raw).measured_cost_ticks == raw.measured_cost_ticks,
        raw.vendor <= u16::MAX ==> decoded(raw).vendor == raw.vendor,
{
}

/// What is built is what the engine is given: an immediate input is written as its value,
/// an earlier node as that node, and the engine reads back the same, so that a node built
/// as a sum, a product or a select of two inputs is computed as that.
pub proof fn law_built_node_is_computed(
    before: Seq<GraphNode>,
    after: Seq<GraphNode>,
    op: u32,
    a: In,
    b: In,
    r: NodeRef,
    results: Seq<u64>,
    va: u64,
    vb: u64,
)
    requires
        graph::first_fault(before, 0) is None,
        appended(before, after, written(op, a, b), r),
        op <= 3,
        a.before(before.len() as int),
        b.before(before.len() as int),
        results.len() == after.len(),
        forall|j: int|
            0 <= j < after.len() ==> #[trigger] results[j] == graph::value(graph::read_nodes(after), j),
        match a {
            In::Imm(v) => va == v,
            In::Node(n) => va == results[n.0 as int],
        },
        match b {
            In::Imm(v) => vb == v,
            In::Node(n) => vb == results[n.0 as int],
        },
    ensures
        r.0 == before.len(),
        op == 1 ==> results[r.0 as int] == (va + vb) % (u64::MAX + 1),
        op == 2 ==> results[r.0 as int] == (va * vb) % (u64::MAX + 1),
        op == 3 && va == 0 ==> results[r.0 as int] == 0,
        op == 3 && va != 0 ==> results[r.0 as int] == vb,
{
    law_built_graphs_are_accepted(before, after, op, a, b, r);
    graph::law_written_node_is_computed(after, results, r.0 as int, va, vb);
}

/// A split leaves nothing out and takes nothing twice: every place lies in a block, the blocks
/// come one behind the other from the first place to the last, there are no more of them than
/// were asked for, and each is as long as the even share or shorter.
pub proof fn law_split_leaves_nothing_out(blocks: Seq<(usize, usize)>, len: int, parts: int, k: int)
    requires
        split(blocks, len, parts),
        len >= 1,
        parts >= 1,
        0 <= k < blocks.len(),
    ensures
        blocks[0].0 == 0,
        blocks.last().1 == len,
        blocks.len() <= parts,
        k + 1 < blocks.len() ==> blocks[k + 1].0 == blocks[k].1,
        blocks[k].0 < blocks[k].1,
        (blocks[k].1 - blocks[k].0 - 1) * parts < len,
{
    let c = chunk_of(len, parts);
    vstd::arithmetic::div_mod::lemma_fundamental_div_mod(len + parts - 1, parts);
    vstd::arithmetic::div_mod::lemma_mod_bound(len + parts - 1, parts);
    assert((k + 1) * c == k * c + c) by (nonlinear_arith);
    let n = blocks[k].1 - blocks[k].0;
    assert(n <= c);
    assert((n - 1) * parts <= (c - 1) * parts) by (nonlinear_arith)
        requires
            n <= c,
            parts >= 1,
    ;
    assert((c - 1) * parts == parts * c - parts) by (nonlinear_arith);
}

/// A reduction is of every part, once and in order: where mapping a part gives what `h` says of
/// it and reducing two gives what `g` says of them, the last of the running results is the first
/// one with every part's taken in, from the first part to the last.
pub proof fn law_reduction_takes_every_part<R, M: Fn(usize, usize) -> R, F: Fn(R, R) -> R>(
    parts: Seq<(usize, usize)>,
    map: M,
    reduce: F,
    id: R,
    found: Seq<R>,
    accs: Seq<R>,
    h: spec_fn(usize, usize) -> R,
    g: spec_fn(R, R) -> R,
    k: nat,
)
    requires
        reduced(parts, map, reduce, id, found, accs),
        forall|lo: usize, hi: usize, y: R| #[trigger] call_ensures(map, (lo, hi), y) ==> y == h(lo, hi),
        forall|x: R, y: R, z: R| #[trigger] call_ensures(reduce, (x, y), z) ==> z == g(x, y),
        k <= parts.len(),
    ensures
        accs.len() == parts.len() + 1,
        accs[0] == id,
        k > 0 ==> accs[k as int] == g(accs[k - 1], h(parts[k - 1].0, parts[k - 1].1)),
        accs[k as int] == parts.take(k as int).fold_left(id, |a: R, p: (usize, usize)| g(a, h(p.0, p.1))),
    decreases k,
{
    let f = |a: R, p: (usize, usize)| g(a, h(p.0, p.1));
    if k > 0 {
        law_reduction_takes_every_part(parts, map, reduce, id, found, accs, h, g, (k - 1) as nat);
        assert(found[k - 1] == h(parts[k - 1].0, parts[k - 1].1));
        assert(parts.take(k as int).drop_last() =~= parts.take(k - 1));
        assert(parts.take(k as int).last() == parts[k - 1]);
    }
}

} // verus!
