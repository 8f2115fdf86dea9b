//! Page-by-page work on an address space and the frame pools.

use vstd::prelude::*;
use crate::kernel::aspace::{in_pages, page_at, protected, AddressSpace, MapPerm, Page};
use crate::kernel::frames::{FramePool, FRAME_SIZE, NODE_ANY};

verus! {

/// Where the frames of a commit come from first.
#[derive(Copy, Clone, PartialEq, Eq, Debug, Structural)]
pub enum Backing {
    /// Main memory.
    Ddr,
    /// Persistent memory, with main memory behind it.
    Pmem,
}

/// The `k`th page from `base` on.
pub open spec fn nth_page(base: u64, k: int) -> u64 {
    (base + k * FRAME_SIZE) as u64
}

/// `n` pages from `base` on end inside the address space.
pub open spec fn pages_fit(base: u64, n: int) -> bool {
    &&& base % FRAME_SIZE == 0
    &&& 0 <= n
    &&& base + n * FRAME_SIZE <= u64::MAX
}

/// The two pools do not share a frame.
pub open spec fn apart(ddr: &FramePool, pmem: &FramePool) -> bool {
    &&& ddr.wf()
    &&& pmem.wf()
    &&& forall|pa: u64| !(#[trigger] ddr.has(pa) && pmem.has(pa))
}

/// Every page outside the `n` pages from `base` on is as it was.
pub open spec fn outside_same(
    before: Map<u64, Page>,
    after: Map<u64, Page>,
    base: u64,
    n: int,
) -> bool {
    forall|va: u64|
        !in_pages(va, base, n) ==> #[trigger] page_at(after, va) == page_at(before, va)
}

/// Whether some page of the range sits on frame `i` of the pool.
pub open spec fn sits_on(pages: Map<u64, Page>, base: u64, n: int, pool: &FramePool, i: int) -> bool {
    exists|k: int|
        0 <= k < n && #[trigger] pages.dom().contains(nth_page(base, k)) && pool.has(
            pages[nth_page(base, k)].pa,
        ) && pool.position(pages[nth_page(base, k)].pa) == i
}

/// `n` pages from `base` on got a frame each that was free in the pool before,
/// and no two of them the same one. All of the frames are to be cleared.
pub open spec fn mapped_fresh(
    before: Map<u64, Page>,
    after: Map<u64, Page>,
    pool_before: &FramePool,
    pool_after: &FramePool,
    base: u64,
    n: int,
    perm: MapPerm,
) -> bool {
    &&& outside_same(before, after, base, n)
    &&& forall|k: int|
        0 <= k < n ==> {
            let p = after[nth_page(base, k)];
            &&& #[trigger] after.dom().contains(nth_page(base, k))
            &&& p.perm == perm
            &&& pool_before.has(p.pa)
            &&& p.pa == pool_before.frame(pool_before.position(p.pa))
            &&& !pool_before.taken()[pool_before.position(p.pa)]
        }
    &&& forall|k: int, l: int|
        0 <= k < l < n ==> #[trigger] after[nth_page(base, k)].pa != #[trigger] after[nth_page(
            base,
            l,
        )].pa
    &&& pool_after.same_frames(pool_before)
    &&& forall|i: int|
        0 <= i < pool_before.taken().len() ==> #[trigger] pool_after.taken()[i] == (
        pool_before.taken()[i] || sits_on(after, base, n, pool_before, i))
    &&& pool_after.free_count() == pool_before.free_count() - n
    &&& pool_after.to_clear() == pool_before.to_clear() + Seq::new(
        n as nat,
        |k: int| after[nth_page(base, k)].pa,
    )
}

/// The frames under `n` pages from `base` on, all taken from the pool, are of the wanted
/// node, unless the node has run out.
pub open spec fn fresh_near(
    after: Map<u64, Page>,
    pool_before: &FramePool,
    pool_after: &FramePool,
    base: u64,
    n: int,
    node: u8,
) -> bool {
    node == NODE_ANY || !pool_after.free_on(node) || forall|k: int|
        0 <= k < n ==> pool_before.homes()[pool_before.position(
            (#[trigger] after[nth_page(base, k)]).pa,
        )] == node
}

/// Pages of the range are different addresses.
pub proof fn lemma_nth_page(base: u64, n: int)
    requires
        pages_fit(base, n),
    ensures
        forall|k: int|
            0 <= k < n ==> #[trigger] nth_page(base, k) == base + k * FRAME_SIZE && in_pages(
                nth_page(base, k),
                base,
                n,
            ),
        forall|k: int, l: int|
            0 <= k < n && 0 <= l < n && k != l ==> #[trigger] nth_page(base, k) != #[trigger] nth_page(
                base,
                l,
            ),
        forall|va: u64|
            #[trigger] in_pages(va, base, n) ==> va == nth_page(
                base,
                (va - base) / (FRAME_SIZE as int),
            ) && 0 <= (va - base) / (FRAME_SIZE as int) < n,
{
}

/// Map `n` fresh pages from `base` on, with frames of `node` while it has some. The pool
/// covers them.
pub fn map_fresh(
    aspace: &mut AddressSpace,
    pool: &mut FramePool,
    base: u64,
    n: u64,
    perm: MapPerm,
    node: u8,
)
    requires
        old(pool).wf(),
        old(pool).free_count() >= n,
        pages_fit(base, n as int),
    ensures
        final(pool).wf(),
        mapped_fresh(old(aspace)@, final(aspace)@, old(pool), final(pool), base, n as int, perm),
        fresh_near(final(aspace)@, old(pool), final(pool), base, n as int, node),
{
    let mut k: u64 = 0;
    proof {
        assert(pool.to_clear() =~= pool.to_clear() + Seq::new(
            0,
            |l: int| aspace@[nth_page(base, l)].pa,
        ));
    }
    while k < n
        invariant
            k <= n,
            pages_fit(base, n as int),
            old(pool).wf(),
            old(pool).free_count() >= n,
            pool.wf(),
            mapped_fresh(old(aspace)@, aspace@, old(pool), pool, base, k as int, perm),
            fresh_near(aspace@, old(pool), pool, base, k as int, node),
        decreases n - k,
    {
        let ghost mid = aspace@;
        let ghost mid_clear = pool.to_clear();
        let ghost mid_taken = pool.taken();
        let ghost mid_free = pool.free_count();
        let ghost mid_pool = *pool;
        proof {
            lemma_nth_page(base, n as int);
        }
        let va: u64 = base + k * FRAME_SIZE;
        match pool.take_frame_on(node) {
            Some(pa) => {
                let ghost at = old(pool).position(pa);
                proof {
                    assert(!mid_taken[at]);
                    assert(!old(pool).taken()[at]);
                    assert forall|l: int| 0 <= l < k implies #[trigger] mid[nth_page(base, l)].pa
                        != pa by {
                        assert(mid.dom().contains(nth_page(base, l)));
                        if mid[nth_page(base, l)].pa == pa {
                            assert(sits_on(mid, base, k as int, old(pool), at));
                        }
                    }
                }
                aspace.map_user_frame(va, pa, perm);
                proof {
                    let after = aspace@;
                    assert(va == nth_page(base, k as int));
                    assert forall|l: int| 0 <= l < k implies #[trigger] after[nth_page(base, l)]
                        == mid[nth_page(base, l)] && after.dom().contains(nth_page(base, l)) by {
                        assert(mid.dom().contains(nth_page(base, l)));
                    }
                    assert forall|l: int| 0 <= l < k + 1 implies {
                        let p = after[nth_page(base, l)];
                        &&& #[trigger] after.dom().contains(nth_page(base, l))
                        &&& p.perm == perm
                        &&& old(pool).has(p.pa)
                        &&& p.pa == old(pool).frame(old(pool).position(p.pa))
                        &&& !old(pool).taken()[old(pool).position(p.pa)]
                    } by {
                        if l < k {
                            assert(mid.dom().contains(nth_page(base, l)));
                            assert(after[nth_page(base, l)] == mid[nth_page(base, l)]);
                        }
                    }
                    assert forall|i: int| 0 <= i < old(pool).taken().len() implies #[trigger] pool.taken()[i]
                        == (old(pool).taken()[i] || sits_on(after, base, k + 1, old(pool), i)) by {
                        if i == at {
                            assert(after.dom().contains(nth_page(base, k as int)));
                            assert(sits_on(after, base, k + 1, old(pool), i));
                        } else {
                            if sits_on(mid, base, k as int, old(pool), i) {
                                let l = choose|l: int|
                                    0 <= l < k && #[trigger] mid.dom().contains(nth_page(base, l))
                                        && old(pool).has(mid[nth_page(base, l)].pa)
                                        && old(pool).position(mid[nth_page(base, l)].pa) == i;
                                assert(after[nth_page(base, l)] == mid[nth_page(base, l)]);
                                assert(after.dom().contains(nth_page(base, l)));
                            }
                            if sits_on(after, base, k + 1, old(pool), i) {
                                let l = choose|l: int|
                                    0 <= l < k + 1 && #[trigger] after.dom().contains(
                                        nth_page(base, l),
                                    ) && old(pool).has(after[nth_page(base, l)].pa)
                                        && old(pool).position(after[nth_page(base, l)].pa) == i;
                                assert(l < k);
                                assert(after[nth_page(base, l)] == mid[nth_page(base, l)]);
                                assert(mid.dom().contains(nth_page(base, l)));
                                assert(sits_on(mid, base, k as int, old(pool), i));
                            }
                        }
                    }
                    assert forall|a: u64| !in_pages(a, base, k + 1) implies #[trigger] page_at(after, a)
                        == page_at(old(aspace)@, a) by {
                        assert(!in_pages(a, base, k as int));
                        assert(page_at(mid, a) == page_at(old(aspace)@, a));
                        assert(a != va);
                    }
                    assert(pool.to_clear() =~= old(pool).to_clear() + Seq::new(
                        (k + 1) as nat,
                        |l: int| after[nth_page(base, l)].pa,
                    ));
                    if node != NODE_ANY && pool.free_on(node) {
                        let i = choose|i: int|
                            0 <= i < pool.taken().len() && !(#[trigger] pool.taken()[i])
                                && pool.homes()[i] == node;
                        assert(!mid_pool.taken()[i]);
                        assert(mid_pool.free_on(node));
                        assert forall|l: int| 0 <= l < k + 1 implies old(pool).homes()[old(
                            pool,
                        ).position((#[trigger] after[nth_page(base, l)]).pa)] == node by {
                            if l < k {
                                assert(after[nth_page(base, l)] == mid[nth_page(base, l)]);
                            }
                        }
                    }
                }
            },
            None => {
                assert(false);
            },
        }
        k = k + 1;
    }
}


/// How many of the first `n` pages sit on a frame of either pool.
pub open spec fn owned_pages(
    pages: Map<u64, Page>,
    base: u64,
    n: nat,
    ddr: &FramePool,
    pmem: &FramePool,
) -> nat
    decreases n,
{
    if n == 0 {
        0
    } else {
        let va = nth_page(base, n - 1);
        owned_pages(pages, base, (n - 1) as nat, ddr, pmem) + if pages.dom().contains(va) && (
        pmem.has(pages[va].pa) || ddr.has(pages[va].pa)) {
            1nat
        } else {
            0nat
        }
    }
}

/// How many of the first `n` pages are not mapped.
pub open spec fn absent_pages(pages: Map<u64, Page>, base: u64, n: nat) -> nat
    decreases n,
{
    if n == 0 {
        0
    } else {
        absent_pages(pages, base, (n - 1) as nat) + if pages.dom().contains(nth_page(base, n - 1)) {
            0nat
        } else {
            1nat
        }
    }
}

/// The frames of a pool under the pages of the range are free now, and nothing
/// else about the pool changed.
pub open spec fn returned(
    pages: Map<u64, Page>,
    before: &FramePool,
    after: &FramePool,
    base: u64,
    n: int,
) -> bool {
    &&& after.wf()
    &&& after.same_frames(before)
    &&& after.to_clear() == before.to_clear()
    &&& forall|i: int|
        0 <= i < before.taken().len() ==> #[trigger] after.taken()[i] == (before.taken()[i]
            && !sits_on(pages, base, n, before, i))
}

/// Whether a page sits on a frame of either pool.
pub open spec fn is_owned(pages: Map<u64, Page>, va: u64, ddr: &FramePool, pmem: &FramePool) -> bool {
    pages.dom().contains(va) && (pmem.has(pages[va].pa) || ddr.has(pages[va].pa))
}

/// Of the `n` pages from `base` on those that sit on a frame of either pool are
/// unmapped, and every other page is as it was.
pub open spec fn unmapped(
    before: Map<u64, Page>,
    after: Map<u64, Page>,
    ddr: &FramePool,
    pmem: &FramePool,
    base: u64,
    n: int,
) -> bool {
    &&& outside_same(before, after, base, n)
    &&& forall|k: int|
        0 <= k < n ==> #[trigger] page_at(after, nth_page(base, k)) == (if is_owned(
            before,
            nth_page(base, k),
            ddr,
            pmem,
        ) {
            None
        } else {
            page_at(before, nth_page(base, k))
        })
}

/// Extending a range by one page adds at most that page's frame.
proof fn lemma_sits_on_step(pages: Map<u64, Page>, base: u64, n: int, pool: &FramePool, i: int)
    requires
        n >= 0,
    ensures
        sits_on(pages, base, n + 1, pool, i) == (sits_on(pages, base, n, pool, i) || (
        pages.dom().contains(nth_page(base, n)) && pool.has(pages[nth_page(base, n)].pa)
            && pool.position(pages[nth_page(base, n)].pa) == i)),
{
    if sits_on(pages, base, n, pool, i) {
        let k = choose|k: int|
            0 <= k < n && #[trigger] pages.dom().contains(nth_page(base, k)) && pool.has(
                pages[nth_page(base, k)].pa,
            ) && pool.position(pages[nth_page(base, k)].pa) == i;
        assert(pages.dom().contains(nth_page(base, k)));
        assert(sits_on(pages, base, n + 1, pool, i));
    }
    if sits_on(pages, base, n + 1, pool, i) {
        let k = choose|k: int|
            0 <= k < n + 1 && #[trigger] pages.dom().contains(nth_page(base, k)) && pool.has(
                pages[nth_page(base, k)].pa,
            ) && pool.position(pages[nth_page(base, k)].pa) == i;
        if k < n {
            assert(sits_on(pages, base, n, pool, i));
        }
    }
    if pages.dom().contains(nth_page(base, n)) && pool.has(pages[nth_page(base, n)].pa)
        && pool.position(pages[nth_page(base, n)].pa) == i {
        assert(sits_on(pages, base, n + 1, pool, i));
    }
}

/// Unmap `n` pages from `base` on and return their frames to the pools they came
/// from. A page that is not mapped is skipped, and so is one whose frame is of
/// neither pool. Returns how many frames went back.
pub fn unmap_pages(
    aspace: &mut AddressSpace,
    ddr: &mut FramePool,
    pmem: &mut FramePool,
    base: u64,
    n: u64,
) -> (freed: u64)
    requires
        apart(old(ddr), old(pmem)),
        pages_fit(base, n as int),
    ensures
        apart(final(ddr), final(pmem)),
        unmapped(old(aspace)@, final(aspace)@, old(ddr), old(pmem), base, n as int),
        returned(old(aspace)@, old(ddr), final(ddr), base, n as int),
        returned(old(aspace)@, old(pmem), final(pmem), base, n as int),
        freed == owned_pages(old(aspace)@, base, n as nat, old(ddr), old(pmem)),
        freed <= n,
{
    let mut freed: u64 = 0;
    let mut k: u64 = 0;
    while k < n
        invariant
            k <= n,
            pages_fit(base, n as int),
            apart(old(ddr), old(pmem)),
            apart(ddr, pmem),
            unmapped(old(aspace)@, aspace@, old(ddr), old(pmem), base, k as int),
            returned(old(aspace)@, old(ddr), ddr, base, k as int),
            returned(old(aspace)@, old(pmem), pmem, base, k as int),
            freed == owned_pages(old(aspace)@, base, k as nat, old(ddr), old(pmem)),
            freed <= k,
        decreases n - k,
    {
        let ghost before = old(aspace)@;
        let ghost mid = aspace@;
        let ghost ddr_mid = ddr.taken();
        let ghost pmem_mid = pmem.taken();
        proof {
            lemma_nth_page(base, n as int);
        }
        let va: u64 = base + k * FRAME_SIZE;
        assert(va == nth_page(base, k as int));
        assert(page_at(mid, va) == page_at(before, va));
        if let Some(p) = aspace.lookup(va) {
            if pmem.contains(p.pa) {
                let _gone: Option<u64> = aspace.unmap(va);
                pmem.free_if_pool(p.pa);
                freed = freed + 1;
            } else if ddr.free_if_pool(p.pa) {
                let _gone: Option<u64> = aspace.unmap(va);
                freed = freed + 1;
            }
        }
        proof {
            let after = aspace@;
            assert forall|i: int| 0 <= i < old(ddr).taken().len() implies #[trigger] ddr.taken()[i] == (
            old(ddr).taken()[i] && !sits_on(before, base, k + 1, old(ddr), i)) by {
                lemma_sits_on_step(before, base, k as int, old(ddr), i);
                assert(ddr_mid[i] == (old(ddr).taken()[i] && !sits_on(
                    before,
                    base,
                    k as int,
                    old(ddr),
                    i,
                )));
            }
            assert forall|i: int| 0 <= i < old(pmem).taken().len() implies #[trigger] pmem.taken()[i]
                == (old(pmem).taken()[i] && !sits_on(before, base, k + 1, old(pmem), i)) by {
                lemma_sits_on_step(before, base, k as int, old(pmem), i);
                assert(pmem_mid[i] == (old(pmem).taken()[i] && !sits_on(
                    before,
                    base,
                    k as int,
                    old(pmem),
                    i,
                )));
            }
            assert forall|a: u64| !in_pages(a, base, k + 1) implies #[trigger] page_at(after, a)
                == page_at(before, a) by {
                assert(!in_pages(a, base, k as int));
                assert(page_at(mid, a) == page_at(before, a));
                assert(a != va);
            }
            assert forall|l: int| 0 <= l < k + 1 implies #[trigger] page_at(after, nth_page(base, l)) == (
            if is_owned(before, nth_page(base, l), old(ddr), old(pmem)) {
                None
            } else {
                page_at(before, nth_page(base, l))
            }) by {
                if l < k {
                    assert(nth_page(base, l) != va);
                    assert(page_at(after, nth_page(base, l)) == page_at(mid, nth_page(base, l)));
                }
            }
            assert forall|x: u64| !(#[trigger] ddr.has(x) && pmem.has(x)) by {
                assert(!(old(ddr).has(x) && old(pmem).has(x)));
            }
        }
        k = k + 1;
    }
    freed
}

/// The frame was free in the pool.
pub open spec fn was_free(pool: &FramePool, pa: u64) -> bool {
    &&& pool.has(pa)
    &&& pa == pool.frame(pool.position(pa))
    &&& !pool.taken()[pool.position(pa)]
}

/// Whether a page of the range that was not mapped before sits on frame `i`.
pub open spec fn newly_sits_on(
    before: Map<u64, Page>,
    after: Map<u64, Page>,
    base: u64,
    n: int,
    pool: &FramePool,
    i: int,
) -> bool {
    exists|k: int|
        0 <= k < n && !(#[trigger] before.dom().contains(nth_page(base, k))) && pool.has(
            after[nth_page(base, k)].pa,
        ) && pool.position(after[nth_page(base, k)].pa) == i
}

/// How many of `fresh` frames the persistent pool gives.
pub open spec fn from_pmem(backing: Backing, pmem_free: nat, fresh: nat) -> nat {
    if backing == Backing::Ddr {
        0
    } else if fresh <= pmem_free {
        fresh
    } else {
        pmem_free
    }
}

/// The frames of a pool that pages of the range newly sit on, in the order of the
/// pages.
pub open spec fn fresh_frames(
    before: Map<u64, Page>,
    after: Map<u64, Page>,
    pool: &FramePool,
    base: u64,
    n: nat,
) -> Seq<u64>
    decreases n,
{
    if n == 0 {
        Seq::empty()
    } else {
        let rest = fresh_frames(before, after, pool, base, (n - 1) as nat);
        let va = nth_page(base, n - 1);
        if !before.dom().contains(va) && pool.has(after[va].pa) {
            rest.push(after[va].pa)
        } else {
            rest
        }
    }
}

proof fn lemma_fresh_frames_same(
    before: Map<u64, Page>,
    mid: Map<u64, Page>,
    after: Map<u64, Page>,
    pool: &FramePool,
    base: u64,
    n: nat,
)
    requires
        forall|l: int| 0 <= l < n ==> mid[#[trigger] nth_page(base, l)] == after[nth_page(base, l)],
    ensures
        fresh_frames(before, mid, pool, base, n) == fresh_frames(before, after, pool, base, n),
    decreases n,
{
    if n > 0 {
        lemma_fresh_frames_same(before, mid, after, pool, base, (n - 1) as nat);
        assert(mid[nth_page(base, n - 1)] == after[nth_page(base, n - 1)]);
    }
}

/// Taken frames of a pool are those that were, and those that pages of the range
/// newly sit on. Those are to be cleared.
pub open spec fn drawn(
    before: Map<u64, Page>,
    after: Map<u64, Page>,
    pool_before: &FramePool,
    pool_after: &FramePool,
    base: u64,
    n: int,
) -> bool {
    &&& pool_after.wf()
    &&& pool_after.same_frames(pool_before)
    &&& pool_after.to_clear() == pool_before.to_clear() + fresh_frames(
        before,
        after,
        pool_before,
        base,
        n as nat,
    )
    &&& forall|i: int|
        0 <= i < pool_before.taken().len() ==> #[trigger] pool_after.taken()[i] == (
        pool_before.taken()[i] || newly_sits_on(before, after, base, n, pool_before, i))
}

/// Every page of the range is mapped with `perm`: on the frame it had, or else on
/// one that was free, and no two pages newly on the same one.
pub open spec fn committed(
    before: Map<u64, Page>,
    after: Map<u64, Page>,
    ddr: &FramePool,
    pmem: &FramePool,
    base: u64,
    n: int,
    perm: MapPerm,
    backing: Backing,
) -> bool {
    &&& outside_same(before, after, base, n)
    &&& forall|k: int|
        0 <= k < n ==> {
            let va = nth_page(base, k);
            &&& #[trigger] after.dom().contains(nth_page(base, k))
            &&& after[va].perm == perm
            &&& before.dom().contains(va) ==> after[va].pa == before[va].pa
            &&& !before.dom().contains(va) ==> was_free(ddr, after[va].pa) || (backing
                == Backing::Pmem && was_free(pmem, after[va].pa))
        }
    &&& forall|k: int, l: int|
        0 <= k < l < n && !before.dom().contains(nth_page(base, k)) && !before.dom().contains(
            nth_page(base, l),
        ) ==> #[trigger] after[nth_page(base, k)].pa != #[trigger] after[nth_page(base, l)].pa
}

/// Fresh frames of the pool are of the wanted node, unless the node has run out.
pub open spec fn near(
    before: Map<u64, Page>,
    after: Map<u64, Page>,
    pool_before: &FramePool,
    pool_after: &FramePool,
    base: u64,
    n: int,
    node: u8,
) -> bool {
    node == NODE_ANY || !pool_after.free_on(node) || forall|k: int|
        0 <= k < n && !(#[trigger] before.dom().contains(nth_page(base, k))) && pool_before.has(
            after[nth_page(base, k)].pa,
        ) ==> pool_before.homes()[pool_before.position(after[nth_page(base, k)].pa)] == node
}

/// One more page was committed; the pool's frames still add up.
proof fn lemma_drawn_step(
    before: Map<u64, Page>,
    mid: Map<u64, Page>,
    after: Map<u64, Page>,
    pool0: &FramePool,
    taken_mid: Seq<bool>,
    clear_mid: Seq<u64>,
    pool1: &FramePool,
    base: u64,
    k: int,
    n: int,
)
    requires
        pages_fit(base, n),
        0 <= k < n,
        pool1.wf(),
        pool1.same_frames(pool0),
        taken_mid.len() == pool0.taken().len(),
        clear_mid == pool0.to_clear() + fresh_frames(before, mid, pool0, base, k as nat),
        pool1.to_clear() == (if !before.dom().contains(nth_page(base, k)) && pool0.has(
            after[nth_page(base, k)].pa,
        ) {
            clear_mid.push(after[nth_page(base, k)].pa)
        } else {
            clear_mid
        }),
        after == mid.insert(nth_page(base, k), after[nth_page(base, k)]),
        forall|i: int|
            0 <= i < pool0.taken().len() ==> #[trigger] taken_mid[i] == (pool0.taken()[i]
                || newly_sits_on(before, mid, base, k, pool0, i)),
        forall|i: int|
            0 <= i < pool0.taken().len() ==> #[trigger] pool1.taken()[i] == (taken_mid[i] || (
            !before.dom().contains(nth_page(base, k)) && pool0.has(after[nth_page(base, k)].pa)
                && pool0.position(after[nth_page(base, k)].pa) == i)),
    ensures
        drawn(before, after, pool0, pool1, base, k + 1),
{
    lemma_nth_page(base, n);
    assert forall|l: int| 0 <= l < k implies mid[#[trigger] nth_page(base, l)] == after[nth_page(
        base,
        l,
    )] by {
        assert(nth_page(base, l) != nth_page(base, k));
    }
    lemma_fresh_frames_same(before, mid, after, pool0, base, k as nat);
    assert(pool1.to_clear() =~= pool0.to_clear() + fresh_frames(
        before,
        after,
        pool0,
        base,
        (k + 1) as nat,
    ));
    assert forall|i: int| 0 <= i < pool0.taken().len() implies #[trigger] pool1.taken()[i] == (
    pool0.taken()[i] || newly_sits_on(before, after, base, k + 1, pool0, i)) by {
        assert(taken_mid[i] == (pool0.taken()[i] || newly_sits_on(
            before,
            mid,
            base,
            k,
            pool0,
            i,
        )));
        if newly_sits_on(before, mid, base, k, pool0, i) {
            let l = choose|l: int|
                0 <= l < k && !(#[trigger] before.dom().contains(nth_page(base, l)))
                    && pool0.has(mid[nth_page(base, l)].pa) && pool0.position(
                    mid[nth_page(base, l)].pa,
                ) == i;
            assert(nth_page(base, l) != nth_page(base, k));
            assert(after[nth_page(base, l)] == mid[nth_page(base, l)]);
            assert(newly_sits_on(before, after, base, k + 1, pool0, i));
        }
        if newly_sits_on(before, after, base, k + 1, pool0, i) {
            let l = choose|l: int|
                0 <= l < k + 1 && !(#[trigger] before.dom().contains(nth_page(base, l)))
                    && pool0.has(after[nth_page(base, l)].pa) && pool0.position(
                    after[nth_page(base, l)].pa,
                ) == i;
            if l < k {
                assert(nth_page(base, l) != nth_page(base, k));
                assert(after[nth_page(base, l)] == mid[nth_page(base, l)]);
                assert(newly_sits_on(before, mid, base, k, pool0, i));
            }
        }
    }
}

/// A longer range has no fewer pages that are not mapped, and no more than it has pages.
pub proof fn lemma_absent_monotone(pages: Map<u64, Page>, base: u64, k: nat, n: nat)
    requires
        k <= n,
    ensures
        absent_pages(pages, base, k) <= absent_pages(pages, base, n) <= n,
    decreases n,
{
    if k < n {
        lemma_absent_monotone(pages, base, k, (n - 1) as nat);
    } else if n > 0 {
        lemma_absent_monotone(pages, base, (n - 1) as nat, (n - 1) as nat);
    }
}

/// How many of the `n` pages from `base` on are not mapped.
pub fn count_absent(aspace: &AddressSpace, base: u64, n: u64) -> (absent: u64)
    requires
        pages_fit(base, n as int),
    ensures
        absent == absent_pages(aspace@, base, n as nat),
        absent <= n,
{
    let mut absent: u64 = 0;
    let mut k: u64 = 0;
    while k < n
        invariant
            k <= n,
            pages_fit(base, n as int),
            absent == absent_pages(aspace@, base, k as nat),
            absent <= k,
        decreases n - k,
    {
        proof {
            lemma_nth_page(base, n as int);
        }
        if !aspace.is_mapped(base + k * FRAME_SIZE) {
            absent = absent + 1;
        }
        k = k + 1;
    }
    absent
}

/// Back `n` pages from `base` on with frames: a page that has one keeps it, the
/// others get a fresh one. The main pool covers them. Returns how many were fresh.
pub fn commit_pages(
    aspace: &mut AddressSpace,
    ddr: &mut FramePool,
    pmem: &mut FramePool,
    base: u64,
    n: u64,
    perm: MapPerm,
    backing: Backing,
    node: u8,
) -> (fresh: u64)
    requires
        apart(old(ddr), old(pmem)),
        old(ddr).free_count() >= absent_pages(old(aspace)@, base, n as nat),
        pages_fit(base, n as int),
    ensures
        apart(final(ddr), final(pmem)),
        committed(
            old(aspace)@,
            final(aspace)@,
            old(ddr),
            old(pmem),
            base,
            n as int,
            perm,
            backing,
        ),
        drawn(old(aspace)@, final(aspace)@, old(ddr), final(ddr), base, n as int),
        drawn(old(aspace)@, final(aspace)@, old(pmem), final(pmem), base, n as int),
        fresh == absent_pages(old(aspace)@, base, n as nat),
        fresh <= n,
        near(old(aspace)@, final(aspace)@, old(ddr), final(ddr), base, n as int, node),
        final(pmem).free_count() == old(pmem).free_count() - from_pmem(
            backing,
            old(pmem).free_count(),
            fresh as nat,
        ),
        final(ddr).free_count() == old(ddr).free_count() - (fresh - from_pmem(
            backing,
            old(pmem).free_count(),
            fresh as nat,
        )),
{
    let mut fresh: u64 = 0;
    let mut k: u64 = 0;
    proof {
        assert(ddr.to_clear() =~= ddr.to_clear() + Seq::<u64>::empty());
        assert(pmem.to_clear() =~= pmem.to_clear() + Seq::<u64>::empty());
    }
    while k < n
        invariant
            k <= n,
            pages_fit(base, n as int),
            apart(old(ddr), old(pmem)),
            old(ddr).free_count() >= absent_pages(old(aspace)@, base, n as nat),
            apart(ddr, pmem),
            committed(
                old(aspace)@,
                aspace@,
                old(ddr),
                old(pmem),
                base,
                k as int,
                perm,
                backing,
            ),
            drawn(old(aspace)@, aspace@, old(ddr), ddr, base, k as int),
            drawn(old(aspace)@, aspace@, old(pmem), pmem, base, k as int),
            fresh == absent_pages(old(aspace)@, base, k as nat),
            fresh <= k,
            near(old(aspace)@, aspace@, old(ddr), ddr, base, k as int, node),
            pmem.free_count() == old(pmem).free_count() - from_pmem(
                backing,
                old(pmem).free_count(),
                fresh as nat,
            ),
            ddr.free_count() == old(ddr).free_count() - (fresh - from_pmem(
                backing,
                old(pmem).free_count(),
                fresh as nat,
            )),
        decreases n - k,
    {
        let ghost before = old(aspace)@;
        let ghost mid = aspace@;
        let ghost ddr_mid = ddr.taken();
        let ghost pmem_mid = pmem.taken();
        let ghost ddr_clear = ddr.to_clear();
        let ghost pmem_clear = pmem.to_clear();
        let ghost node_full = !ddr.free_on(node);
        proof {
            lemma_nth_page(base, n as int);
            lemma_absent_monotone(before, base, (k + 1) as nat, n as nat);
        }
        let va: u64 = base + k * FRAME_SIZE;
        assert(va == nth_page(base, k as int));
        assert(page_at(mid, va) == page_at(before, va));
        let pa: u64 = match aspace.unmap(va) {
            Some(pa) => pa,
            None => {
                fresh = fresh + 1;
                let first: Option<u64> = match backing {
                    Backing::Pmem => pmem.take_frame(),
                    Backing::Ddr => None,
                };
                match first {
                    Some(pa) => pa,
                    None => match ddr.take_frame_on(node) {
                        Some(pa) => pa,
                        None => {
                            assert(false);
                            0
                        },
                    },
                }
            },
        };
        aspace.map_user_frame(va, pa, perm);
        proof {
            let after = aspace@;
            assert(after =~= mid.insert(va, after[va]));
            assert forall|x: u64| !(#[trigger] ddr.has(x) && pmem.has(x)) by {
                assert(!(old(ddr).has(x) && old(pmem).has(x)));
            }
            let new = !before.dom().contains(va);
            if new {
                assert(ddr.has(pa) || pmem.has(pa));
                assert(!(old(ddr).has(pa) && old(pmem).has(pa)));
            }
            lemma_drawn_step(
                before,
                mid,
                after,
                old(ddr),
                ddr_mid,
                ddr_clear,
                ddr,
                base,
                k as int,
                n as int,
            );
            lemma_drawn_step(
                before,
                mid,
                after,
                old(pmem),
                pmem_mid,
                pmem_clear,
                pmem,
                base,
                k as int,
                n as int,
            );
            assert forall|l: int| 0 <= l < k implies #[trigger] after[nth_page(base, l)]
                == mid[nth_page(base, l)] && after.dom().contains(nth_page(base, l)) by {
                assert(mid.dom().contains(nth_page(base, l)));
            }
            assert forall|l: int| 0 <= l < k + 1 implies {
                let a = nth_page(base, l);
                &&& #[trigger] after.dom().contains(nth_page(base, l))
                &&& after[a].perm == perm
                &&& before.dom().contains(a) ==> after[a].pa == before[a].pa
                &&& !before.dom().contains(a) ==> was_free(old(ddr), after[a].pa) || (backing
                    == Backing::Pmem && was_free(old(pmem), after[a].pa))
            } by {
                if l < k {
                    assert(mid.dom().contains(nth_page(base, l)));
                    assert(after[nth_page(base, l)] == mid[nth_page(base, l)]);
                } else if new {
                    if old(ddr).has(pa) {
                        assert(!ddr_mid[old(ddr).position(pa)]);
                    } else {
                        assert(!pmem_mid[old(pmem).position(pa)]);
                    }
                }
            }
            assert forall|x: int, y: int|
                0 <= x < y < k + 1 && !before.dom().contains(nth_page(base, x))
                    && !before.dom().contains(nth_page(base, y)) implies #[trigger] after[nth_page(
                base,
                x,
            )].pa != #[trigger] after[nth_page(base, y)].pa by {
                assert(after[nth_page(base, x)] == mid[nth_page(base, x)]);
                if y < k {
                    assert(after[nth_page(base, y)] == mid[nth_page(base, y)]);
                } else {
                    let q = mid[nth_page(base, x)].pa;
                    assert(mid.dom().contains(nth_page(base, x)));
                    if q == pa {
                        if old(ddr).has(pa) {
                            assert(newly_sits_on(
                                before,
                                mid,
                                base,
                                k as int,
                                old(ddr),
                                old(ddr).position(pa),
                            ));
                            assert(ddr_mid[old(ddr).position(pa)]);
                        } else {
                            assert(newly_sits_on(
                                before,
                                mid,
                                base,
                                k as int,
                                old(pmem),
                                old(pmem).position(pa),
                            ));
                            assert(pmem_mid[old(pmem).position(pa)]);
                        }
                    }
                }
            }
            assert forall|a: u64| !in_pages(a, base, k + 1) implies #[trigger] page_at(after, a)
                == page_at(before, a) by {
                assert(!in_pages(a, base, k as int));
                assert(page_at(mid, a) == page_at(before, a));
                assert(a != va);
            }
            if ddr.free_on(node) {
                let i = choose|i: int|
                    0 <= i < ddr.taken().len() && !(#[trigger] ddr.taken()[i]) && ddr.homes()[i]
                        == node;
                assert(!ddr_mid[i]);
                assert(!node_full);
                assert forall|l: int|
                    node != NODE_ANY && 0 <= l < k + 1 && !(#[trigger] before.dom().contains(
                        nth_page(base, l),
                    )) && old(ddr).has(after[nth_page(base, l)].pa) implies old(
                    ddr,
                ).homes()[old(ddr).position(after[nth_page(base, l)].pa)] == node by {
                    if l < k {
                        assert(after[nth_page(base, l)] == mid[nth_page(base, l)]);
                    } else {
                        assert(!pmem.has(pa));
                    }
                }
            }
        }
        k = k + 1;
    }
    fresh
}

/// The page map with the permission of `n` pages from `base` on changed, where
/// they are mapped.
pub open spec fn all_protected(
    pages: Map<u64, Page>,
    base: u64,
    n: nat,
    perm: MapPerm,
) -> Map<u64, Page>
    decreases n,
{
    if n == 0 {
        pages
    } else {
        protected(
            all_protected(pages, base, (n - 1) as nat, perm),
            nth_page(base, n - 1),
            perm,
        )
    }
}

/// Change the permission of `n` pages from `base` on, where they are mapped.
pub fn protect_pages(aspace: &mut AddressSpace, base: u64, n: u64, perm: MapPerm)
    requires
        pages_fit(base, n as int),
    ensures
        final(aspace)@ == all_protected(old(aspace)@, base, n as nat, perm),
{
    let mut k: u64 = 0;
    while k < n
        invariant
            k <= n,
            pages_fit(base, n as int),
            aspace@ == all_protected(old(aspace)@, base, k as nat, perm),
        decreases n - k,
    {
        proof {
            lemma_nth_page(base, n as int);
        }
        aspace.protect(base + k * FRAME_SIZE, perm);
        k = k + 1;
    }
}

/// The peer's page map once the mapped pages of the client's range are shared
/// into it, read-only.
pub open spec fn shared_into(
    client: Map<u64, Page>,
    peer: Map<u64, Page>,
    base: u64,
    n: nat,
    peer_base: u64,
) -> Map<u64, Page>
    decreases n,
{
    if n == 0 {
        peer
    } else {
        let rest = shared_into(client, peer, base, (n - 1) as nat, peer_base);
        let va = nth_page(base, n - 1);
        if client.dom().contains(va) {
            rest.insert(
                nth_page(peer_base, n - 1),
                Page { pa: client[va].pa, perm: MapPerm::UserRo },
            )
        } else {
            rest
        }
    }
}

/// Map the frames under `n` pages of `client` from `base` on into `peer`,
/// read-only, from `peer_base` on. Returns how many there were.
pub fn share_ro_into(
    client: &AddressSpace,
    peer: &mut AddressSpace,
    base: u64,
    n: u64,
    peer_base: u64,
) -> (shared: u64)
    requires
        pages_fit(base, n as int),
        pages_fit(peer_base, n as int),
    ensures
        final(peer)@ == shared_into(client@, old(peer)@, base, n as nat, peer_base),
        shared == n - absent_pages(client@, base, n as nat),
{
    let mut shared: u64 = 0;
    let mut k: u64 = 0;
    while k < n
        invariant
            k <= n,
            pages_fit(base, n as int),
            pages_fit(peer_base, n as int),
            peer@ == shared_into(client@, old(peer)@, base, k as nat, peer_base),
            shared == k - absent_pages(client@, base, k as nat),
            shared <= k,
        decreases n - k,
    {
        proof {
            lemma_nth_page(base, n as int);
            lemma_nth_page(peer_base, n as int);
        }
        if let Some(p) = client.lookup(base + k * FRAME_SIZE) {
            peer.map_user_frame(peer_base + k * FRAME_SIZE, p.pa, MapPerm::UserRo);
            shared = shared + 1;
        }
        k = k + 1;
    }
    shared
}

/// Mapping fresh pages and unmapping them again leaves the pool's frames as they were.
pub proof fn law_unmap_undoes_map(
    before: Map<u64, Page>,
    during: Map<u64, Page>,
    pool0: &FramePool,
    pool1: &FramePool,
    pool2: &FramePool,
    base: u64,
    n: int,
    perm: MapPerm,
)
    requires
        pages_fit(base, n),
        mapped_fresh(before, during, pool0, pool1, base, n, perm),
        returned(during, pool1, pool2, base, n),
    ensures
        pool2.taken() == pool0.taken(),
        pool2.free_count() == pool0.free_count(),
{
    assert forall|i: int| 0 <= i < pool0.taken().len() implies #[trigger] pool2.taken()[i]
        == pool0.taken()[i] by {
        assert(pool1.taken()[i] == (pool0.taken()[i] || sits_on(during, base, n, pool0, i)));
        if sits_on(during, base, n, pool0, i) {
            let k = choose|k: int|
                0 <= k < n && #[trigger] during.dom().contains(nth_page(base, k)) && pool0.has(
                    during[nth_page(base, k)].pa,
                ) && pool0.position(during[nth_page(base, k)].pa) == i;
            assert(during.dom().contains(nth_page(base, k)));
            assert(sits_on(during, base, n, pool1, i));
        }
        if sits_on(during, base, n, pool1, i) {
            let k = choose|k: int|
                0 <= k < n && #[trigger] during.dom().contains(nth_page(base, k)) && pool1.has(
                    during[nth_page(base, k)].pa,
                ) && pool1.position(during[nth_page(base, k)].pa) == i;
            assert(during.dom().contains(nth_page(base, k)));
        }
    }
    assert(pool2.taken() =~= pool0.taken());
}

} // verus!
