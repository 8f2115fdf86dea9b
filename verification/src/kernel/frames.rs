//! The physical frame pools that cells draw on.

use vstd::prelude::*;

verus! {

/// Bytes in a page frame.
pub const FRAME_SIZE: u64 = 4096;

/// Frames of the main pool that no cell-driven allocation may dip into, so that
/// the kernel's own allocations always succeed.
pub const USER_RESERVE_FRAMES: usize = 4096;

/// How many of the flags are false.
pub open spec fn count_free(used: Seq<bool>) -> nat
    decreases used.len(),
{
    if used.len() == 0 {
        0
    } else {
        count_free(used.drop_last()) + if used.last() {
            0nat
        } else {
            1nat
        }
    }
}

/// The node of a request that any memory will do for.
pub const NODE_ANY: u8 = 255;

/// A contiguous run of page frames, the memory node of each, which of them are
/// taken, and those that were handed out and are to be filled with zeroes before
/// anyone reads them.
pub struct FramePool {
    base: u64,
    used: Vec<bool>,
    nodes: Vec<u8>,
    clear: Vec<u64>,
}

impl FramePool {
    /// Address of the first frame.
    pub closed spec fn first(&self) -> u64 {
        self.base
    }

    /// Which frames are taken, by position.
    pub closed spec fn taken(&self) -> Seq<bool> {
        self.used@
    }

    /// The memory node of each frame, by position.
    pub closed spec fn homes(&self) -> Seq<u8> {
        self.nodes@
    }

    /// Frames that were handed out and are to be cleared, in that order.
    pub closed spec fn to_clear(&self) -> Seq<u64> {
        self.clear@
    }

    /// Frames that nobody holds.
    pub open spec fn free_count(&self) -> nat {
        count_free(self.taken())
    }

    /// The pool ends inside the address space.
    pub open spec fn wf(&self) -> bool {
        &&& self.first() + FRAME_SIZE * self.taken().len() <= u64::MAX
        &&& self.homes().len() == self.taken().len()
    }

    /// Whether a frame of the node is free.
    pub open spec fn free_on(&self, node: u8) -> bool {
        exists|i: int|
            0 <= i < self.taken().len() && !(#[trigger] self.taken()[i]) && self.homes()[i] == node
    }

    /// Whether the address lies in one of the pool's frames.
    pub open spec fn has(&self, pa: u64) -> bool {
        self.first() <= pa < self.first() + FRAME_SIZE * self.taken().len()
    }

    /// Position of the frame that holds the address.
    pub open spec fn position(&self, pa: u64) -> int {
        (pa - self.first()) / FRAME_SIZE as int
    }

    /// Address of the frame at a position.
    pub open spec fn frame(&self, i: int) -> int {
        self.first() + FRAME_SIZE * i
    }

    /// The same frames, whoever holds them.
    pub open spec fn same_frames(&self, other: &FramePool) -> bool {
        &&& self.first() == other.first()
        &&& self.homes() == other.homes()
        &&& self.taken().len() == other.taken().len()
    }

    /// A pool of free frames from `base` on, one on each of the given nodes, or
    /// `None` when they would not fit in the address space.
    pub fn new(base: u64, nodes: Vec<u8>) -> (r: Option<FramePool>)
        ensures
            r is Some <==> base + FRAME_SIZE * nodes@.len() <= u64::MAX,
            r matches Some(p) ==> {
                &&& p.wf()
                &&& p.first() == base
                &&& p.homes() == nodes@
                &&& p.taken() == Seq::new(nodes@.len(), |i: int| false)
                &&& p.to_clear() == Seq::<u64>::empty()
                &&& p.free_count() == nodes@.len()
            },
    {
        let count: usize = nodes.len();
        let n: u64 = count as u64;
        if n > u64::MAX / FRAME_SIZE {
            return None;
        }
        let bytes: u64 = n * FRAME_SIZE;
        if base.checked_add(bytes).is_none() {
            return None;
        }
        let mut used: Vec<bool> = Vec::new();
        while used.len() < count
            invariant
                used.len() <= count,
                used@ == Seq::new(used.len() as nat, |i: int| false),
                count_free(used@) == used.len(),
            decreases count - used.len(),
        {
            let ghost before = used@;
            used.push(false);
            proof {
                assert(used@.drop_last() =~= before);
                assert(used@ =~= Seq::new(used.len() as nat, |i: int| false));
            }
        }
        Some(FramePool { base, used, nodes, clear: Vec::new() })
    }

    /// Whether the address lies in one of the pool's frames.
    pub fn contains(&self, pa: u64) -> (yes: bool)
        requires
            self.wf(),
        ensures
            yes == self.has(pa),
    {
        let bytes: u64 = self.used.len() as u64 * FRAME_SIZE;
        self.base <= pa && pa - self.base < bytes
    }

    /// Frames that nobody holds.
    pub fn free_frames(&self) -> (n: usize)
        ensures
            n == self.free_count(),
    {
        let mut n: usize = 0;
        let mut i: usize = 0;
        while i < self.used.len()
            invariant
                i <= self.used.len(),
                n <= i,
                n == count_free(self.used@.take(i as int)),
            decreases self.used.len() - i,
        {
            proof {
                assert(self.used@.take(i + 1).drop_last() =~= self.used@.take(i as int));
            }
            if !self.used[i] {
                n = n + 1;
            }
            i = i + 1;
        }
        proof {
            assert(self.used@.take(i as int) =~= self.used@);
        }
        n
    }

    /// Free frames and frames in all.
    pub fn stats(&self) -> (s: (usize, usize))
        ensures
            s.0 == self.free_count(),
            s.1 == self.taken().len(),
    {
        (self.free_frames(), self.used.len())
    }

    /// Frames that cell-driven allocations may still take.
    pub fn user_available(&self) -> (n: usize)
        ensures
            n == user_share(self.free_count()),
    {
        let free: usize = self.free_frames();
        if free > USER_RESERVE_FRAMES {
            free - USER_RESERVE_FRAMES
        } else {
            0
        }
    }

    /// Take a free frame, or `None` when there is none. Which free frame is
    /// taken is not promised. The frame is put on the list of those to be cleared.
    pub fn take_frame(&mut self) -> (pa: Option<u64>)
        requires
            old(self).wf(),
        ensures
            final(self).wf(),
            final(self).same_frames(old(self)),
            took(old(self), final(self), pa),
    {
        self.take_frame_on(NODE_ANY)
    }

    /// Take a free frame, one of `node` while there is one. A full node falls back
    /// to the rest of the pool.
    pub fn take_frame_on(&mut self, node: u8) -> (pa: Option<u64>)
        requires
            old(self).wf(),
        ensures
            final(self).wf(),
            final(self).same_frames(old(self)),
            took(old(self), final(self), pa),
            node != NODE_ANY && old(self).free_on(node) ==> pa is Some && old(
                self,
            ).homes()[old(self).position(pa->0)] == node,
    {
        let mut other: Option<usize> = None;
        let mut i: usize = 0;
        while i < self.used.len()
            invariant
                i <= self.used.len(),
                *self == *old(self),
                self.wf(),
                other is None ==> forall|j: int| 0 <= j < i ==> #[trigger] self.used@[j],
                other matches Some(o) ==> o < i && !self.used@[o as int],
                node != NODE_ANY ==> forall|j: int|
                    0 <= j < i ==> #[trigger] self.used@[j] || self.nodes@[j] != node,
            decreases self.used.len() - i,
        {
            if !self.used[i] {
                if node == NODE_ANY || self.nodes[i] == node {
                    self.used[i] = true;
                    proof {
                        lemma_count_free_update(old(self).used@, i as int, true);
                    }
                    let pa: u64 = self.base + i as u64 * FRAME_SIZE;
                    self.clear.push(pa);
                    return Some(pa);
                }
                if other.is_none() {
                    other = Some(i);
                }
            }
            i = i + 1;
        }
        match other {
            Some(o) => {
                self.used[o] = true;
                proof {
                    lemma_count_free_update(old(self).used@, o as int, true);
                }
                let pa: u64 = self.base + o as u64 * FRAME_SIZE;
                self.clear.push(pa);
                Some(pa)
            },
            None => {
                proof {
                    lemma_count_free_none(self.used@);
                    assert forall|j: int| 0 <= j < self.used@.len() implies self.used@[j] by {}
                }
                None
            },
        }
    }

    /// Return the frame that holds `pa`. False, with nothing done, when the
    /// address is not one of this pool's.
    pub fn free_if_pool(&mut self, pa: u64) -> (mine: bool)
        requires
            old(self).wf(),
        ensures
            final(self).wf(),
            final(self).same_frames(old(self)),
            final(self).to_clear() == old(self).to_clear(),
            mine == old(self).has(pa),
            !mine ==> final(self).taken() == old(self).taken(),
            mine ==> {
                let i = old(self).position(pa);
                &&& 0 <= i < old(self).taken().len()
                &&& final(self).taken() == old(self).taken().update(i, false)
                &&& final(self).free_count() == old(self).free_count() + if old(self).taken()[i] {
                    1int
                } else {
                    0
                }
            },
    {
        if !self.contains(pa) {
            return false;
        }
        let count: usize = self.used.len();
        assert((pa - self.base) / (FRAME_SIZE as int) < count);
        let i: usize = ((pa - self.base) / FRAME_SIZE) as usize;
        proof {
            lemma_count_free_update(self.used@, i as int, false);
        }
        self.used[i] = false;
        true
    }

    /// Whether no address lies in a frame of both pools.
    pub fn is_apart(&self, other: &FramePool) -> (b: bool)
        requires
            self.wf(),
            other.wf(),
        ensures
            b == (forall|pa: u64| !(#[trigger] self.has(pa) && other.has(pa))),
    {
        let a0: u64 = self.base;
        let a1: u64 = self.base + FRAME_SIZE * self.used.len() as u64;
        let b0: u64 = other.base;
        let b1: u64 = other.base + FRAME_SIZE * other.used.len() as u64;
        let apart: bool = a1 <= b0 || b1 <= a0 || a0 == a1 || b0 == b1;
        proof {
            if !apart {
                let pa = if a0 >= b0 {
                    a0
                } else {
                    b0
                };
                assert(self.has(pa) && other.has(pa));
            }
        }
        apart
    }

    /// Hand over the frames that are to be cleared.
    pub fn take_clear_list(&mut self) -> (frames: Vec<u64>)
        ensures
            frames@ == old(self).to_clear(),
            final(self).to_clear() == Seq::<u64>::empty(),
            final(self).same_frames(old(self)),
            final(self).taken() == old(self).taken(),
    {
        let mut frames: Vec<u64> = Vec::new();
        std::mem::swap(&mut frames, &mut self.clear);
        frames
    }
}

/// A free frame was taken, or there was none.
pub open spec fn took(before: &FramePool, after: &FramePool, pa: Option<u64>) -> bool {
    match pa {
        None => before.free_count() == 0 && after.taken() == before.taken() && after.to_clear()
            == before.to_clear(),
        Some(f) => {
            let i = before.position(f);
            &&& before.free_count() > 0
            &&& 0 <= i < before.taken().len()
            &&& f == before.frame(i)
            &&& !before.taken()[i]
            &&& after.taken() == before.taken().update(i, true)
            &&& after.free_count() == before.free_count() - 1
            &&& after.to_clear() == before.to_clear().push(f)
        },
    }
}

/// What is left of `free` frames for cells once the kernel's reserve is set aside.
pub open spec fn user_share(free: nat) -> int {
    if free > USER_RESERVE_FRAMES {
        free - USER_RESERVE_FRAMES
    } else {
        0
    }
}

/// Changing one flag moves the count by at most one.
pub proof fn lemma_count_free_update(used: Seq<bool>, i: int, value: bool)
    requires
        0 <= i < used.len(),
    ensures
        count_free(used.update(i, value)) == count_free(used) + (if used[i] {
            1int
        } else {
            0
        }) - (if value {
            1int
        } else {
            0
        }),
    decreases used.len(),
{
    let after = used.update(i, value);
    if i == used.len() - 1 {
        assert(after.drop_last() =~= used.drop_last());
    } else {
        assert(after.drop_last() =~= used.drop_last().update(i, value));
        lemma_count_free_update(used.drop_last(), i, value);
    }
}

/// No flag is false exactly when the count is zero.
pub proof fn lemma_count_free_none(used: Seq<bool>)
    ensures
        count_free(used) == 0 <==> forall|i: int| 0 <= i < used.len() ==> used[i],
        count_free(used) <= used.len(),
    decreases used.len(),
{
    if used.len() > 0 {
        lemma_count_free_none(used.drop_last());
        if forall|i: int| 0 <= i < used.len() ==> used[i] {
            assert forall|i: int| 0 <= i < used.drop_last().len() implies used.drop_last()[i] by {
                assert(used[i]);
            }
        }
        if count_free(used) == 0 {
            assert forall|i: int| 0 <= i < used.len() implies used[i] by {
                if i < used.len() - 1 {
                    assert(used.drop_last()[i]);
                }
            }
        }
    }
}

/// Taking a frame and returning it leaves the pool as it was.
pub proof fn law_alloc_then_free(before: &FramePool, during: &FramePool, after: &FramePool, pa: u64)
    requires
        before.wf(),
        before.has(pa),
        during.same_frames(before),
        during.taken() == before.taken().update(before.position(pa), true),
        !before.taken()[before.position(pa)],
        after.same_frames(during),
        after.taken() == during.taken().update(during.position(pa), false),
    ensures
        after.taken() == before.taken(),
        after.free_count() == before.free_count(),
{
    assert(after.taken() =~= before.taken());
}

/// A frame that is taken was free: it is one of the pool's, on a frame's boundary, is taken
/// from then on, and is put down to be cleared; no other frame changes. None is taken only
/// where none is free.
pub proof fn law_taken_frame_was_free(before: &FramePool, after: &FramePool, f: u64, j: int)
    requires
        before.wf(),
        took(before, after, Some(f)),
        0 <= j < before.taken().len(),
    ensures
        before.has(f),
        (f - before.first()) % 4096 == 0,
        !before.taken()[(f - before.first()) / 4096],
        after.taken()[(f - before.first()) / 4096],
        j != (f - before.first()) / 4096 ==> after.taken()[j] == before.taken()[j],
        after.free_count() + 1 == before.free_count(),
        after.to_clear().last() == f,
{
}

proof fn lemma_free_counted(used: Seq<bool>)
    ensures
        count_free(used) <= used.len(),
        count_free(used) == 0 <==> forall|i: int| 0 <= i < used.len() ==> #[trigger] used[i],
        count_free(used) == used.len() <==> forall|i: int| 0 <= i < used.len() ==> !#[trigger] used[i],
    decreases used.len(),
{
    if used.len() > 0 {
        let s = used.drop_last();
        lemma_free_counted(s);
        assert(used[used.len() - 1] == used.last());
        assert forall|i: int| 0 <= i < s.len() implies #[trigger] s[i] == used[i] by {}
        if forall|i: int| 0 <= i < used.len() ==> #[trigger] used[i] {
            assert forall|i: int| 0 <= i < s.len() implies #[trigger] s[i] by {
                assert(used[i]);
            }
        }
        if forall|i: int| 0 <= i < used.len() ==> !#[trigger] used[i] {
            assert forall|i: int| 0 <= i < s.len() implies !#[trigger] s[i] by {
                assert(!used[i]);
            }
        }
        if count_free(s) == 0 && used.last() {
            assert forall|i: int| 0 <= i < used.len() implies #[trigger] used[i] by {
                if i < s.len() {
                    assert(s[i]);
                }
            }
        }
        if count_free(s) == s.len() && !used.last() {
            assert forall|i: int| 0 <= i < used.len() implies !#[trigger] used[i] by {
                if i < s.len() {
                    assert(!s[i]);
                }
            }
        }
    }
}

/// A pool has none left exactly where every frame is taken, and cells are never given the
/// last ones: those kept back for the kernel are no part of what they share.
pub proof fn law_kernel_keeps_its_frames(pool: &FramePool)
    ensures
        pool.free_count() <= pool.taken().len(),
        pool.free_count() == 0 <==> forall|i: int| 0 <= i < pool.taken().len() ==> #[trigger] pool.taken()[i],
        pool.free_count() <= 4096 ==> user_share(pool.free_count()) == 0,
        pool.free_count() > 4096 ==> user_share(pool.free_count()) == pool.free_count() - 4096,
{
    lemma_free_counted(pool.taken());
}

} // verus!
