//! The heap of the C library: every block stands behind a header that holds its length.

use vstd::prelude::*;
use std::collections::HashMap;

verus! {

broadcast use vstd::std_specs::hash::group_hash_axioms;

/// Bytes of the header.
pub const HDR: u64 = 16;

/// The first piece of memory that the heap is given.
pub const HEAP_SIZE: u64 = 0x80_0000;

/// The most that one block may take, its header included, rounded up to the alignment.
pub const MAX_TOTAL: u64 = 0x7fff_ffff_ffff_fff0;

/// The blocks that are in use, by the addresses that the program knows them by.
pub struct CHeap {
    blocks: HashMap<u64, Vec<u8>>,
}

impl View for CHeap {
    type V = Map<u64, Seq<u8>>;

    closed spec fn view(&self) -> Map<u64, Seq<u8>> {
        self.blocks@.map_values(|v: Vec<u8>| v@)
    }
}

/// How much to ask the allocator for, header included: nothing for an empty block and
/// for one that is too large.
pub open spec fn total_for(size: u64) -> Option<u64> {
    if size == 0 || size + HDR > MAX_TOTAL {
        None
    } else {
        Some((size + HDR) as u64)
    }
}

/// How much to ask the allocator for.
pub fn malloc_total(size: u64) -> (t: Option<u64>)
    ensures
        t == total_for(size),
{
    if size == 0 || size > MAX_TOTAL - HDR {
        None
    } else {
        Some(size + HDR)
    }
}

/// How much `n` things of a size take together, if that is a number.
pub fn calloc_size(n: u64, size: u64) -> (t: Option<u64>)
    ensures
        t is Some <==> n * size <= u64::MAX,
        t matches Some(x) ==> x == n * size,
{
    n.checked_mul(size)
}

/// A block of some bytes.
fn filled(size: u64) -> (v: Option<Vec<u8>>)
    ensures
        v matches Some(x) ==> x@ == Seq::new(size as nat, |i: int| 0u8),
        v is None ==> size > usize::MAX,
{
    if size > usize::MAX as u64 {
        return None;
    }
    let mut x: Vec<u8> = Vec::new();
    let mut i: usize = 0;
    while i < size as usize
        invariant
            i <= size <= usize::MAX,
            x@ =~= Seq::new(i as nat, |j: int| 0u8),
        decreases size - i,
    {
        x.push(0);
        i = i + 1;
    }
    Some(x)
}

impl CHeap {
    /// No block stands at the null pointer.
    pub open spec fn wf(&self) -> bool {
        !self@.contains_key(0)
    }

    pub fn new() -> (h: CHeap)
        ensures
            h.wf(),
            h@ == Map::<u64, Seq<u8>>::empty(),
    {
        let h: CHeap = CHeap { blocks: HashMap::new() };
        assert(h@ =~= Map::<u64, Seq<u8>>::empty());
        h
    }

    /// Take a block of `size` bytes. `got` is where the allocator has found room for it
    /// and its header, zero where it has not. The block begins after the header.
    pub fn malloc(&mut self, size: u64, got: u64) -> (p: u64)
        requires
            old(self).wf(),
            got <= u64::MAX - HDR,
            got != 0 ==> !old(self)@.contains_key((got + HDR) as u64),
            size <= usize::MAX,
        ensures
            final(self).wf(),
            p == (if total_for(size) is None || got == 0 {
                0
            } else {
                (got + HDR) as u64
            }),
            p == 0 ==> final(self)@ == old(self)@,
            p != 0 ==> {
                &&& final(self)@.dom() == old(self)@.dom().insert(p)
                &&& final(self)@[p].len() == size
                &&& forall|q: u64|
                    q != p && old(self)@.contains_key(q) ==> #[trigger] final(self)@[q]
                        == old(self)@[q]
            },
    {
        if malloc_total(size).is_none() || got == 0 {
            return 0;
        }
        let p: u64 = got + HDR;
        match filled(size) {
            None => 0,
            Some(b) => {
                self.blocks.insert(p, b);
                assert(self@.dom() =~= old(self)@.dom().insert(p));
                p
            },
        }
    }

    /// Give a block back. The null pointer is no block.
    pub fn free(&mut self, p: u64)
        requires
            old(self).wf(),
            p == 0 || old(self)@.contains_key(p),
        ensures
            final(self).wf(),
            final(self)@ == (if p == 0 {
                old(self)@
            } else {
                old(self)@.remove(p)
            }),
    {
        if p == 0 {
            return;
        }
        self.blocks.remove(&p);
        assert(self@ =~= old(self)@.remove(p));
    }

    /// Take a block for `n` things of a size, all zero.
    pub fn calloc(&mut self, n: u64, size: u64, got: u64) -> (p: u64)
        requires
            old(self).wf(),
            got <= u64::MAX - HDR,
            got != 0 ==> !old(self)@.contains_key((got + HDR) as u64),
            n * size <= usize::MAX || n * size > u64::MAX,
        ensures
            final(self).wf(),
            p == (if n * size > u64::MAX || total_for((n * size) as u64) is None || got == 0 {
                0
            } else {
                (got + HDR) as u64
            }),
            p == 0 ==> final(self)@ == old(self)@,
            p != 0 ==> final(self)@ == old(self)@.insert(
                p,
                Seq::new((n * size) as nat, |i: int| 0u8),
            ),
    {
        match calloc_size(n, size) {
            None => 0,
            Some(total) => {
                if malloc_total(total).is_none() || got == 0 {
                    return 0;
                }
                let p: u64 = got + HDR;
                match filled(total) {
                    None => 0,
                    Some(b) => {
                        self.blocks.insert(p, b);
                        assert(self@ =~= old(self)@.insert(
                            p,
                            Seq::new((n * size) as nat, |i: int| 0u8),
                        ));
                        p
                    },
                }
            },
        }
    }

    /// Give a block another length: a new block takes what fits of it, and the old one is
    /// given back. Without a block a new one is taken, and without a length the block is
    /// given back. Where there is no room for a new block the old one stays.
    pub fn realloc(&mut self, p: u64, size: u64, got: u64) -> (q: u64)
        requires
            old(self).wf(),
            got <= u64::MAX - HDR,
            got != 0 ==> !old(self)@.contains_key((got + HDR) as u64),
            size <= usize::MAX,
            p == 0 || old(self)@.contains_key(p),
        ensures
            final(self).wf(),
            q == (if total_for(size) is None || got == 0 {
                0
            } else {
                (got + HDR) as u64
            }),
            p != 0 && size == 0 ==> final(self)@ == old(self)@.remove(p),
            size != 0 && q == 0 ==> final(self)@ == old(self)@,
            q != 0 ==> {
                &&& final(self)@.dom() == old(self)@.dom().remove(p).insert(q)
                &&& final(self)@[q].len() == size
                &&& forall|r: u64|
                    r != p && r != q && old(self)@.contains_key(r) ==> #[trigger] final(self)@[r]
                        == old(self)@[r]
            },
            q != 0 && p != 0 ==> {
                let keep = if old(self)@[p].len() < size {
                    old(self)@[p].len() as int
                } else {
                    size as int
                };
                final(self)@[q].take(keep) == old(self)@[p].take(keep)
            },
    {
        if p == 0 {
            let q: u64 = self.malloc(size, got);
            assert(old(self)@.dom().remove(0) =~= old(self)@.dom());
            return q;
        }
        if size == 0 {
            self.free(p);
            return 0;
        }
        if malloc_total(size).is_none() || got == 0 {
            return 0;
        }
        let q: u64 = got + HDR;
        match filled(size) {
            None => 0,
            Some(mut b) => {
                let taken: Option<Vec<u8>> = self.blocks.remove(&p);
                match taken {
                    None => 0,
                    Some(old_block) => {
                        let ghost o = old_block@;
                        let n: usize = if old_block.len() < b.len() {
                            old_block.len()
                        } else {
                            b.len()
                        };
                        let mut i: usize = 0;
                        while i < n
                            invariant
                                i <= n,
                                n <= old_block@.len(),
                                n <= b@.len(),
                                b@.len() == size,
                                forall|j: int| 0 <= j < i ==> #[trigger] b@[j] == old_block@[j],
                            decreases n - i,
                        {
                            b[i] = old_block[i];
                            i = i + 1;
                        }
                        assert(b@.take(n as int) =~= old_block@.take(n as int));
                        self.blocks.insert(q, b);
                        assert(self@.dom() =~= old(self)@.dom().remove(p).insert(q));
                        q
                    },
                }
            },
        }
    }
}

/// Giving a block back that was taken leaves the heap as it was.
pub proof fn law_free_undoes_malloc(
    before: Map<u64, Seq<u8>>,
    during: Map<u64, Seq<u8>>,
    p: u64,
)
    requires
        !before.contains_key(p),
        during.dom() == before.dom().insert(p),
        forall|q: u64| q != p && before.contains_key(q) ==> #[trigger] during[q] == before[q],
    ensures
        during.remove(p) == before,
{
    assert(during.remove(p) =~= before);
}

/// A block is what was asked for and the header before it; nothing, and more than can be
/// had, is refused.
pub proof fn law_blocks_carry_a_header(size: u64)
    ensures
        total_for(0) is None,
        0 < size <= 0x7fff_ffff_ffff_ffe0 <==> total_for(size) is Some,
        total_for(size) matches Some(t) ==> t == size + 16,
{
}

} // verus!
