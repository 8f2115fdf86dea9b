//! What the grant calls do to a cell, page by page and address by address.

use vstd::prelude::*;
use crate::kernel::aspace::{in_pages, page_at, pages_in, MapPerm, Page};
use crate::kernel::capability::{checked, has_room, law_handles_are_given_out_once, resolve, Capability, BUDGET_UNLIMITED, DELEGATE, MAP, READ, REVOKE, WRITE};
use crate::kernel::frames::{user_share, FramePool};
use crate::kernel::grants::{commit_done, create_done, decommit_done, is_own, lemma_slot_of, munmap_outcome, peer_of, seal_done, share_done, slot_from, slot_of, Fallback, GrantInfo, Notice, ShareInfo, Wanted};
use crate::kernel::machine::{Machine, GRANT_BASE, MMAP_BASE, USER_QUEUE_VA};
use crate::kernel::memory::{law_grants_do_not_overlap, mmap_done, mmap_file_done, span_base, span_ok, span_pages, GrantSlot, Memory, PageRead, MAX_CELLS};
use crate::kernel::pages::{absent_pages, all_protected, fresh_frames, mapped_fresh, newly_sits_on, nth_page, owned_pages, shared_into, sits_on};
use crate::kernel::uaccess::may_write;
use crate::kernel::vaspace::{fits, Region, RegionKind};

verus! {

/// The pages that `[at, at + len)` touches are those of its span.
proof fn lemma_page_in_span(at: u64, len: u64, p: u64)
    requires
        len > 0,
        at + len <= u64::MAX,
        p % 4096 == 0,
    ensures
        span_base(at) == at - at % 4096,
        span_pages(at, len) == (at + len - (at - at % 4096) + 4095) / 4096,
        in_pages(p, span_base(at), span_pages(at, len)) <==> p + 4096 > at && p < at + len,
        p + 4096 > at && p < at + len ==> {
            &&& 0 <= (p - span_base(at)) / 4096 < span_pages(at, len)
            &&& nth_page(span_base(at), (p - span_base(at)) / 4096) == p
        },
{
}

/// The first grant that goes by a capability is the one that is found for it.
proof fn lemma_named(grants: Seq<GrantSlot>, cap_id: u32, i: int, from: int)
    requires
        0 <= from <= i < grants.len(),
        grants[i].in_use,
        grants[i].cap_id == cap_id,
        forall|j: int| from <= j < i ==> !((#[trigger] grants[j]).in_use && grants[j].cap_id == cap_id),
    ensures
        slot_from(grants, Wanted::Named(cap_id), from) == Some(i),
    decreases i - from,
{
    if from < i {
        lemma_named(grants, cap_id, i, from + 1);
    }
}

/// A commit that is done backs the range that was named and no other page. Of the grant
/// that goes by the capability, at `base`, every page that `[base + offset, base + offset
/// + len)` touches is mapped for reading and writing once the cell can be charged for
/// those that are missing, each page that had a frame keeps it, and every page outside of
/// the range is as it was. A range that reaches beyond the grant is refused, and so is
/// any range of a sealed grant.
pub proof fn law_commit_backs_its_range(
    m: &Machine,
    before: &Memory,
    after: &Memory,
    cur: int,
    cap_id: u32,
    i: int,
    offset: u64,
    len: u64,
    nvdimm: bool,
    r: (u64, Option<Notice>),
    p: u64,
)
    requires
        m.wf(),
        before.wf(m),
        0 <= cur < MAX_CELLS,
        commit_done(m, before, after, cur, cap_id, offset, len, nvdimm, r),
        0 <= i < before.cell(cur).grants.len(),
        before.cell(cur).grants[i].in_use,
        before.cell(cur).grants[i].cap_id == cap_id,
        forall|j: int|
            0 <= j < i ==> !((#[trigger] before.cell(cur).grants[j]).in_use
                && before.cell(cur).grants[j].cap_id == cap_id),
        p % 4096 == 0,
    ensures
        ({
            let slot = before.cell(cur).grants[i];
            let lo = slot.base + offset;
            let hi = slot.base + offset + len;
            let old_pages = before.cell(cur).pages;
            let new_pages = after.cell(cur).pages;
            let missing = absent_pages(
                old_pages,
                (lo - lo % 4096) as u64,
                ((hi - (lo - lo % 4096) + 4095) / 4096) as nat,
            );
            let paid = before.cell(cur).charged + missing <= 98304 && missing <= user_share(
                before.ddr.free_count(),
            );
            &&& r.0 == 0 || r.0 == u64::MAX
            &&& r.0 == 0 <==> before.cell(cur).tables && checked(
                before.cell(cur).caps,
                before.objects@,
                cap_id,
                MAP,
            ) is Ok && !slot.sealed && offset + len <= slot.len
            &&& r.0 != 0 ==> new_pages == old_pages
            &&& r.0 == 0 && len > 0 && paid && lo < p + 4096 && p < hi ==> {
                &&& new_pages.dom().contains(p)
                &&& new_pages[p].perm == MapPerm::UserRw
                &&& old_pages.dom().contains(p) ==> new_pages[p].pa == old_pages[p].pa
                &&& !old_pages.dom().contains(p) ==> (before.ddr.has(new_pages[p].pa)
                    && !before.ddr.taken()[before.ddr.position(new_pages[p].pa)]) || (before.pmem.has(
                    new_pages[p].pa,
                ) && !before.pmem.taken()[before.pmem.position(new_pages[p].pa)])
            }
            &&& r.0 == 0 && len > 0 && paid ==> after.cell(cur).charged == before.cell(cur).charged
                + missing
            &&& !(len > 0 && lo < p + 4096 && p < hi) ==> {
                &&& new_pages.dom().contains(p) <==> old_pages.dom().contains(p)
                &&& old_pages.dom().contains(p) ==> new_pages[p] == old_pages[p]
            }
            &&& len == 0 || !paid ==> new_pages == old_pages && after.cell(cur).charged == before.cell(
                cur,
            ).charged
            &&& after.cell(cur).grants == before.cell(cur).grants
        }),
{
    let c = before.cells@[cur]@;
    assert(c.wf(m));
    let slot = c.grants[i];
    assert(slot.wf(m));
    lemma_named(c.grants, cap_id, i, 0);
    if r.0 == 0 && len > 0 {
        let at = (slot.base + offset) as u64;
        lemma_page_in_span(at, len, p);
        assert(page_at(after.cell(cur).pages, p) == page_at(c.pages, p) || in_pages(
            p,
            span_base(at),
            span_pages(at, len),
        ));
    }
}

/// A decommit that is done takes the frames from under the range that was named and from
/// under no other page: every page that `[base + offset, base + offset + len)` of the grant
/// touches is gone where it sat on a frame of the machine's pools, and every page outside
/// of the range is as it was.
pub proof fn law_decommit_empties_its_range(
    m: &Machine,
    before: &Memory,
    after: &Memory,
    cur: int,
    cap_id: u32,
    i: int,
    offset: u64,
    len: u64,
    code: u64,
    p: u64,
)
    requires
        m.wf(),
        before.wf(m),
        0 <= cur < MAX_CELLS,
        decommit_done(m, before, after, cur, cap_id, offset, len, code),
        0 <= i < before.cell(cur).grants.len(),
        before.cell(cur).grants[i].in_use,
        before.cell(cur).grants[i].cap_id == cap_id,
        forall|j: int|
            0 <= j < i ==> !((#[trigger] before.cell(cur).grants[j]).in_use
                && before.cell(cur).grants[j].cap_id == cap_id),
        p % 4096 == 0,
    ensures
        ({
            let slot = before.cell(cur).grants[i];
            let lo = slot.base + offset;
            let hi = slot.base + offset + len;
            let old_pages = before.cell(cur).pages;
            let new_pages = after.cell(cur).pages;
            &&& code == 0 || code == u64::MAX
            &&& code == 0 <==> before.cell(cur).tables && checked(
                before.cell(cur).caps,
                before.objects@,
                cap_id,
                MAP,
            ) is Ok && !slot.sealed && offset + len <= slot.len
            &&& code != 0 || len == 0 ==> new_pages == old_pages
            &&& code == 0 && len > 0 && lo < p + 4096 && p < hi && old_pages.dom().contains(p) ==> (
            new_pages.dom().contains(p) <==> !before.ddr.has(old_pages[p].pa) && !before.pmem.has(
                old_pages[p].pa,
            ))
            &&& new_pages.dom().contains(p) ==> old_pages.dom().contains(p) && new_pages[p] == old_pages[p]
            &&& !(len > 0 && lo < p + 4096 && p < hi) && old_pages.dom().contains(p)
                ==> new_pages.dom().contains(p)
            &&& after.cell(cur).charged <= before.cell(cur).charged
            &&& code == 0 && len > 0 ==> {
                let gone = owned_pages(
                    old_pages,
                    (lo - lo % 4096) as u64,
                    ((hi - (lo - lo % 4096) + 4095) / 4096) as nat,
                    &before.ddr,
                    &before.pmem,
                );
                &&& gone <= before.cell(cur).charged ==> after.cell(cur).charged + gone == before.cell(
                    cur,
                ).charged
                &&& gone > before.cell(cur).charged ==> after.cell(cur).charged == 0
            }
            &&& after.cell(cur).grants == before.cell(cur).grants
        }),
{
    let c = before.cells@[cur]@;
    assert(c.wf(m));
    let slot = c.grants[i];
    assert(slot.wf(m));
    lemma_named(c.grants, cap_id, i, 0);
    if code == 0 && len > 0 {
        let at = (slot.base + offset) as u64;
        lemma_page_in_span(at, len, p);
        lemma_owned_bounded(c.pages, span_base(at), span_pages(at, len) as nat, before);
        assert(span_pages(at, len) <= u64::MAX);
        let k = (p - span_base(at)) / 4096;
        assert(page_at(after.cell(cur).pages, p) == page_at(c.pages, p) || in_pages(
            p,
            span_base(at),
            span_pages(at, len),
        ));
        if at < p + 4096 && p < at + len {
            assert(page_at(after.cell(cur).pages, nth_page(span_base(at), k)) == page_at(
                after.cell(cur).pages,
                p,
            ));
        }
    }
}

/// No more pages of a range sit on frames than it has.
proof fn lemma_owned_bounded(pages: Map<u64, Page>, base: u64, n: nat, mem: &Memory)
    ensures
        owned_pages(pages, base, n, &mem.ddr, &mem.pmem) <= n,
    decreases n,
{
    if n > 0 {
        lemma_owned_bounded(pages, base, (n - 1) as nat, mem);
    }
}

/// What protecting a range makes of one page.
proof fn lemma_protected_page(pages: Map<u64, Page>, base: u64, n: nat, perm: MapPerm, p: u64)
    requires
        base % 4096 == 0,
        base + n * 4096 <= u64::MAX,
    ensures
        all_protected(pages, base, n, perm).dom() == pages.dom(),
        pages.dom().contains(p) ==> all_protected(pages, base, n, perm)[p] == (if in_pages(p, base, n as int) {
            Page { pa: pages[p].pa, perm }
        } else {
            pages[p]
        }),
    decreases n,
{
    if n > 0 {
        lemma_protected_page(pages, base, (n - 1) as nat, perm, p);
        lemma_protected_page(pages, base, (n - 1) as nat, perm, nth_page(base, n - 1));
        assert(nth_page(base, n - 1) == base + (n - 1) * 4096);
        assert(all_protected(pages, base, n, perm).dom() =~= pages.dom());
    }
}

/// A seal that is done makes every mapped page of the grant read-only on the frame it
/// had, leaves every page outside of the grant, and marks that grant and no other.
pub proof fn law_seal_protects_the_grant(
    m: &Machine,
    before: &Memory,
    after: &Memory,
    cur: int,
    cap_id: u32,
    i: int,
    code: u64,
    p: u64,
)
    requires
        m.wf(),
        before.wf(m),
        0 <= cur < MAX_CELLS,
        seal_done(m, before, after, cur, cap_id, code),
        0 <= i < before.cell(cur).grants.len(),
        before.cell(cur).grants[i].in_use,
        before.cell(cur).grants[i].cap_id == cap_id,
        forall|j: int|
            0 <= j < i ==> !((#[trigger] before.cell(cur).grants[j]).in_use
                && before.cell(cur).grants[j].cap_id == cap_id),
        p % 4096 == 0,
    ensures
        ({
            let slot = before.cell(cur).grants[i];
            let old_pages = before.cell(cur).pages;
            let new_pages = after.cell(cur).pages;
            &&& code == 0 || code == u64::MAX
            &&& code == 0 <==> before.cell(cur).tables && checked(
                before.cell(cur).caps,
                before.objects@,
                cap_id,
                MAP,
            ) is Ok
            &&& code != 0 ==> new_pages == old_pages && after.cell(cur).grants == before.cell(cur).grants
            &&& new_pages.dom().contains(p) <==> old_pages.dom().contains(p)
            &&& code == 0 && old_pages.dom().contains(p) && slot.base <= p < slot.base + slot.len ==> {
                &&& new_pages[p].pa == old_pages[p].pa
                &&& new_pages[p].perm == MapPerm::UserRo
            }
            &&& old_pages.dom().contains(p) && !(slot.base <= p < slot.base + slot.len) ==> new_pages[p]
                == old_pages[p]
            &&& code == 0 ==> after.cell(cur).grants[i].sealed
            &&& code == 0 ==> after.cell(cur).grants[i] == (GrantSlot { sealed: true, ..slot })
            &&& forall|j: int|
                0 <= j < before.cell(cur).grants.len() && j != i ==> #[trigger] after.cell(cur).grants[j]
                    == before.cell(cur).grants[j]
        }),
{
    let c = before.cells@[cur]@;
    assert(c.wf(m));
    let slot = c.grants[i];
    assert(slot.wf(m));
    lemma_named(c.grants, cap_id, i, 0);
    if code == 0 {
        lemma_page_in_span(slot.base, slot.len, p);
        lemma_protected_page(
            c.pages,
            span_base(slot.base),
            span_pages(slot.base, slot.len) as nat,
            MapPerm::UserRo,
            p,
        );
    }
}

/// What sharing a range makes of one page of the peer.
proof fn lemma_shared_page(
    client: Map<u64, Page>,
    peer: Map<u64, Page>,
    base: u64,
    n: nat,
    peer_base: u64,
    k: int,
    p: u64,
)
    requires
        base % 4096 == 0,
        peer_base % 4096 == 0,
        base + n * 4096 <= u64::MAX,
        peer_base + n * 4096 <= u64::MAX,
    ensures
        0 <= k < n && client.dom().contains((base + k * 4096) as u64) ==> {
            let now = shared_into(client, peer, base, n, peer_base);
            &&& now.dom().contains((peer_base + k * 4096) as u64)
            &&& now[(peer_base + k * 4096) as u64].pa == client[(base + k * 4096) as u64].pa
            &&& now[(peer_base + k * 4096) as u64].perm == MapPerm::UserRo
        },
        !(peer_base <= p < peer_base + n * 4096) ==> page_at(
            shared_into(client, peer, base, n, peer_base),
            p,
        ) == page_at(peer, p),
    decreases n,
{
    if n > 0 {
        lemma_shared_page(client, peer, base, (n - 1) as nat, peer_base, k, p);
        assert(nth_page(base, n - 1) == base + (n - 1) * 4096);
        assert(nth_page(peer_base, n - 1) == peer_base + (n - 1) * 4096);
        if 0 <= k < n - 1 {
            assert((peer_base + k * 4096) as u64 != nth_page(peer_base, n - 1));
        }
    }
}

/// A share that is done puts each mapped page of the sealed grant into the peer, at the
/// same distance from the address that the call gives as from the grant's own, on the
/// same frame and read-only. The sharing cell's pages stay, the peer's other pages stay,
/// and the peer's new capability is on the same object, for reading only.
pub proof fn law_share_maps_the_same_frames(
    m: &Machine,
    before: &Memory,
    after: &Memory,
    cur: int,
    cap_id: u32,
    i: int,
    out_va: u64,
    r: (u64, Option<ShareInfo>),
    k: int,
    p: u64,
)
    requires
        m.wf(),
        before.wf(m),
        0 <= cur < MAX_CELLS,
        share_done(m, before, after, cur, cap_id, out_va, r),
        0 <= i < before.cell(cur).grants.len(),
        before.cell(cur).grants[i].in_use,
        before.cell(cur).grants[i].cap_id == cap_id,
        forall|j: int|
            0 <= j < i ==> !((#[trigger] before.cell(cur).grants[j]).in_use
                && before.cell(cur).grants[j].cap_id == cap_id),
    ensures
        r.0 == 0 || r.0 == u64::MAX,
        r.0 == 0 <==> r.1 is Some,
        after.cell(cur).pages == before.cell(cur).pages,
        after.cell(cur).grants == before.cell(cur).grants,
        r.0 == 0 ==> {
            let slot = before.cell(cur).grants[i];
            let at = (r.1->0).peer_va;
            let peer = if cur % 2 == 0 {
                cur + 1
            } else {
                cur - 1
            };
            let from = before.cell(cur).pages;
            let old_pages = before.cell(peer).pages;
            let new_pages = after.cell(peer).pages;
            let mine = resolve(before.cell(cur).caps, before.objects@, cap_id);
            let theirs = resolve(after.cell(peer).caps, after.objects@, (r.1->0).peer_cap_id as u32);
            &&& slot.sealed
            &&& at % 4096 == 0
            &&& 0 <= k < slot.len as int / 4096 && from.dom().contains((slot.base + k * 4096) as u64) ==> {
                &&& new_pages.dom().contains((at + k * 4096) as u64)
                &&& new_pages[(at + k * 4096) as u64].pa == from[(slot.base + k * 4096) as u64].pa
                &&& new_pages[(at + k * 4096) as u64].perm == MapPerm::UserRo
            }
            &&& !(at <= p < at + slot.len) ==> page_at(new_pages, p) == page_at(old_pages, p)
            &&& mine is Ok
            &&& (mine->Ok_0).rights & 16 == 16
            &&& theirs is Ok
            &&& (theirs->Ok_0).object == (mine->Ok_0).object
            &&& (theirs->Ok_0).rights == 1
        },
        r.0 != 0 ==> after.cell(if cur % 2 == 0 {
            cur + 1
        } else {
            cur - 1
        }) == before.cell(if cur % 2 == 0 {
            cur + 1
        } else {
            cur - 1
        }),
{
    let c = before.cells@[cur]@;
    assert(c.wf(m));
    let slot = c.grants[i];
    assert(slot.wf(m));
    lemma_named(c.grants, cap_id, i, 0);
    if r.0 == 0 {
        let info = r.1->0;
        let peer = peer_of(cur);
        assert(before.cells@[peer]@.wf(m));
        let n = (slot.len as int / 4096) as nat;
        lemma_shared_page(c.pages, before.cell(peer).pages, slot.base, n, info.peer_va, k, p);
        law_handles_are_given_out_once(
            before.cell(peer).caps,
            after.cell(peer).caps,
            before.cell(peer).cap_limit,
            info.peer_cap_id as u32,
            Capability {
                object: checked(c.caps, before.objects@, cap_id, DELEGATE)->Ok_0,
                rights: READ,
                budget: BUDGET_UNLIMITED,
                epoch: before.objects@[checked(c.caps, before.objects@, cap_id, DELEGATE)->Ok_0 as int].epoch,
            },
            cap_id,
        );
    }
}

/// A grant that is made takes whole pages of the grant range that no region of the cell
/// meets, maps and charges nothing yet, and goes by a fresh capability to read, write,
/// map, delegate and revoke it. A request for nothing, or of a kind that has no memory
/// here, is refused; a refusal changes nothing.
pub proof fn law_grant_is_reserved_not_backed(
    m: &Machine,
    before: &Memory,
    after: &Memory,
    cur: int,
    out_va: u64,
    len: u64,
    kind: u64,
    node_hint: u64,
    r: (u64, Option<GrantInfo>),
    j: int,
)
    requires
        m.wf(),
        before.wf(m),
        0 <= cur < MAX_CELLS,
        create_done(m, before, after, cur, out_va, len, kind, node_hint, r),
        0 <= j < before.cell(cur).regions.len(),
    ensures
        r.0 == 0 || r.0 == u64::MAX,
        r.0 == 0 <==> r.1 is Some,
        len == 0 || kind == 4 || kind > 5 ==> r.0 != 0,
        after.cell(cur).pages == before.cell(cur).pages,
        after.cell(cur).charged == before.cell(cur).charged,
        r.0 != 0 ==> after.cell(cur) == before.cell(cur) && after.objects@ == before.objects@,
        r.0 == 0 ==> {
            let at = (r.1->0).base;
            let bytes = (len + 4095) / 4096 * 4096;
            let cap = resolve(after.cell(cur).caps, after.objects@, (r.1->0).cap_id as u32);
            let other = before.cell(cur).regions[j];
            &&& at % 4096 == 0
            &&& GRANT_BASE <= at
            &&& at + bytes <= m.user_va_max
            &&& other.len > 0 ==> other.base + other.len <= at || at + bytes <= other.base
            &&& exists|i: int|
                0 <= i < before.cell(cur).grants.len() && !(#[trigger] before.cell(cur).grants[i]).in_use
                    && after.cell(cur).grants == before.cell(cur).grants.update(
                    i,
                    after.cell(cur).grants[i],
                ) && ({
                    let s = after.cell(cur).grants[i];
                    &&& s.in_use
                    &&& s.base == at
                    &&& s.len == bytes
                    &&& s.kind == kind
                    &&& s.node == (if node_hint < m.nodes_known {
                        node_hint as u8
                    } else {
                        before.cell(cur).node
                    })
                    &&& !s.sealed
                    &&& s.cap_id == (r.1->0).cap_id
                })
            &&& cap is Ok
            &&& (cap->Ok_0).rights == 59
            &&& (cap->Ok_0).object == before.objects@.len()
        },
{
    let c = before.cells@[cur]@;
    assert(c.wf(m));
    if r.0 == 0 {
        lemma_slot_of(c.grants, Wanted::Free, 0);
        let i = slot_of(c.grants, Wanted::Free)->0;
        assert(!before.cell(cur).grants[i].in_use);
        assert(READ | WRITE | MAP | DELEGATE | REVOKE == 59u32) by (bit_vector);
        law_handles_are_given_out_once(
            c.caps,
            after.cell(cur).caps,
            c.cap_limit,
            (r.1->0).cap_id as u32,
            Capability {
                object: before.objects@.len() as u32,
                rights: READ | WRITE | MAP | DELEGATE | REVOKE,
                budget: BUDGET_UNLIMITED,
                epoch: 0,
            },
            0,
        );
        assert(!c.regions[j].meets((r.1->0).base as int, after.cell(cur).grants[i].len as int));
    }
}

/// An anonymous mapping is whole pages of the cell's own range that no region met: each
/// of its pages is mapped for reading and writing on a frame that was free, no two pages
/// on the same frame, and every page outside of it is as it was. The cell is charged for
/// its pages. A mapping that is refused changes nothing.
pub proof fn law_mapping_is_fresh_pages(
    m: &Machine,
    before: &Memory,
    after: &Memory,
    cur: int,
    len: u64,
    base: u64,
    j: int,
    p: u64,
    q: u64,
)
    requires
        m.wf(),
        before.wf(m),
        0 <= cur < MAX_CELLS,
        mmap_done(m, before, after, cur, len, base),
        0 <= j < before.cell(cur).regions.len(),
        p % 4096 == 0,
        q % 4096 == 0,
    ensures
        base == 0 ==> after.cell(cur) == before.cell(cur) && after.ddr.taken() == before.ddr.taken(),
        len == 0 ==> base == 0,
        base != 0 ==> {
            let other = before.cell(cur).regions[j];
            let end = base + (len + 4095) / 4096 * 4096;
            let now = after.cell(cur).pages;
            &&& base % 4096 == 0
            &&& MMAP_BASE <= base
            &&& end <= USER_QUEUE_VA
            &&& other.len > 0 ==> other.base + other.len <= base || end <= other.base
            &&& base <= p < base + len ==> {
                &&& now.dom().contains(p)
                &&& now[p].perm == MapPerm::UserRw
                &&& before.ddr.has(now[p].pa)
                &&& !before.ddr.taken()[before.ddr.position(now[p].pa)]
                &&& base <= q < base + len && q != p ==> now[q].pa != now[p].pa
            }
            &&& !(base <= p < base + len) ==> page_at(now, p) == page_at(before.cell(cur).pages, p)
            &&& after.cell(cur).charged == before.cell(cur).charged + (len + 4095) / 4096
            &&& after.cell(cur).regions == before.cell(cur).regions.push(
                Region { base, len: (end - base) as u64, kind: RegionKind::Anon },
            )
        },
{
    let c = before.cells@[cur]@;
    assert(c.wf(m));
    if base != 0 {
        lemma_placed_page(before, after, cur, base, (pages_in(len as int) * 4096) as u64, p);
        lemma_placed_page(before, after, cur, base, (pages_in(len as int) * 4096) as u64, q);
        assert(!c.regions[j].meets(base as int, pages_in(len as int) * 4096));
        if base <= p < base + len && base <= q < base + len && q != p {
            let k = (p - base) / 4096;
            let l = (q - base) / 4096;
            assert(nth_page(base, k) == p && nth_page(base, l) == q);
            if k < l {
                assert(after.cell(cur).pages[nth_page(base, k)].pa != after.cell(cur).pages[nth_page(
                    base,
                    l,
                )].pa);
            } else {
                assert(after.cell(cur).pages[nth_page(base, l)].pa != after.cell(cur).pages[nth_page(
                    base,
                    k,
                )].pa);
            }
        }
    }
}

/// A page of a mapping that was placed is mapped, and one outside of it is as it was.
proof fn lemma_placed_page(before: &Memory, after: &Memory, cur: int, base: u64, bytes: u64, p: u64)
    requires
        p % 4096 == 0,
        base % 4096 == 0,
        bytes % 4096 == 0,
        base + bytes <= u64::MAX,
    ensures
        forall|perm: MapPerm|
            #[trigger] mapped_fresh(
                before.cell(cur).pages,
                after.cell(cur).pages,
                &before.ddr,
                &after.ddr,
                base,
                bytes as int / 4096,
                perm,
            ) ==> {
                &&& base <= p < base + bytes ==> {
                    &&& after.cell(cur).pages.dom().contains(p)
                    &&& after.cell(cur).pages[p].perm == perm
                    &&& before.ddr.has(after.cell(cur).pages[p].pa)
                    &&& !before.ddr.taken()[before.ddr.position(after.cell(cur).pages[p].pa)]
                }
                &&& !(base <= p < base + bytes) ==> page_at(after.cell(cur).pages, p) == page_at(
                    before.cell(cur).pages,
                    p,
                )
            },
{
    assert forall|perm: MapPerm|
        #[trigger] mapped_fresh(
            before.cell(cur).pages,
            after.cell(cur).pages,
            &before.ddr,
            &after.ddr,
            base,
            bytes as int / 4096,
            perm,
        ) implies {
        &&& base <= p < base + bytes ==> {
            &&& after.cell(cur).pages.dom().contains(p)
            &&& after.cell(cur).pages[p].perm == perm
            &&& before.ddr.has(after.cell(cur).pages[p].pa)
            &&& !before.ddr.taken()[before.ddr.position(after.cell(cur).pages[p].pa)]
        }
        &&& !(base <= p < base + bytes) ==> page_at(after.cell(cur).pages, p) == page_at(
            before.cell(cur).pages,
            p,
        )
    } by {
        if base <= p < base + bytes {
            let k = (p - base) / 4096;
            assert(nth_page(base, k) == p);
            assert(after.cell(cur).pages.dom().contains(nth_page(base, k)));
        } else {
            assert(!in_pages(p, base, bytes as int / 4096));
        }
    }
}

/// A file mapping is read-only pages, and the reads that fill them cover the range of
/// the file once and in order: read `k` fills the frame under page `k` from `offset + 4096
/// * k` on, a whole page but for the last, which ends with the range.
pub proof fn law_file_mapping_covers_its_range(
    m: &Machine,
    before: &Memory,
    after: &Memory,
    cur: int,
    served: bool,
    offset: u64,
    len: u64,
    r: (u64, Vec<PageRead>),
    k: int,
)
    requires
        m.wf(),
        before.wf(m),
        0 <= cur < MAX_CELLS,
        mmap_file_done(m, before, after, cur, served, offset, len, r),
        0 <= k < r.1@.len(),
        offset + len <= u64::MAX,
    ensures
        r.0 != 0,
        served,
        (r.1@.len() - 1) * 4096 < len <= r.1@.len() * 4096,
        r.1@[k].file_off == offset + 4096 * k,
        k < r.1@.len() - 1 ==> r.1@[k].want == 4096,
        k == r.1@.len() - 1 ==> r.1@[k].want == len - 4096 * k,
        after.cell(cur).pages.dom().contains((r.0 + 4096 * k) as u64),
        after.cell(cur).pages[(r.0 + 4096 * k) as u64].pa == r.1@[k].pa,
        after.cell(cur).pages[(r.0 + 4096 * k) as u64].perm == MapPerm::UserRo,
{
    assert(before.cells@[cur]@.wf(m));
    let p = (r.0 + 4096 * k) as u64;
    assert(nth_page(r.0, k) == p);
    assert(r.1@[k].file_off == offset + 4096 * k);
    lemma_placed_page(before, after, cur, r.0, (pages_in(len as int) * 4096) as u64, p);
}

/// An unmapping that is done takes the pages that `[va, va + len)` touches, where they sat
/// on frames of the machine's pools, and no other page; one that is refused takes none.
pub proof fn law_unmapping_takes_its_range(
    m: &Machine,
    before: &Memory,
    after: &Memory,
    cur: int,
    va: u64,
    len: u64,
    code: u64,
    p: u64,
)
    requires
        m.wf(),
        before.wf(m),
        0 <= cur < MAX_CELLS,
        munmap_outcome(m, before, after, cur, va, len, code),
        va >= 4096,
        p % 4096 == 0,
    ensures
        ({
            let old_pages = before.cell(cur).pages;
            let new_pages = after.cell(cur).pages;
            &&& code == 0 || code == u64::MAX
            &&& len == 0 ==> code != 0
            &&& code != 0 ==> new_pages == old_pages
            &&& new_pages.dom().contains(p) ==> old_pages.dom().contains(p) && new_pages[p] == old_pages[p]
            &&& code == 0 && va < p + 4096 && p < va + len && old_pages.dom().contains(p) ==> (
            new_pages.dom().contains(p) <==> !before.ddr.has(old_pages[p].pa) && !before.pmem.has(
                old_pages[p].pa,
            ))
            &&& !(va < p + 4096 && p < va + len) && old_pages.dom().contains(p) ==> new_pages.dom().contains(
                p,
            )
            &&& after.cell(cur).charged <= before.cell(cur).charged
        }),
{
    let c = before.cells@[cur]@;
    assert(c.wf(m));
    if code == 0 {
        lemma_page_in_span(va, len, p);
        let base = span_base(va);
        let end = (va + len) as u64;
        lemma_slot_of(c.grants, Wanted::Covering(base, end), 0);
        if base >= GRANT_BASE {
            let i = slot_of(c.grants, Wanted::Covering(base, end))->0;
            assert(c.grants[i].wf(m));
        } else {
            let i = choose|i: int| is_own(c.regions, i, base, end);
            assert(is_own(c.regions, i, base, end));
            assert(c.regions[i].limit() <= m.user_va_max);
        }
        assert(span_ok(m, base, (end - base) as u64));
        lemma_page_in_span(base, (end - base) as u64, p);
        let k = (p - base) / 4096;
        assert(page_at(after.cell(cur).pages, p) == page_at(c.pages, p) || in_pages(
            p,
            base,
            span_pages(base, (end - base) as u64),
        ));
        if va < p + 4096 && p < va + len {
            assert(page_at(after.cell(cur).pages, nth_page(base, k)) == page_at(after.cell(cur).pages, p));
        }
    }
}

/// That a kind of memory is only stood in for is reported once: the first commit of such a
/// grant that is done tells the kind and why, no later one does, and a commit of memory that
/// is what it is called never does. Persistent memory is stood in for where the machine has
/// none, and the fast, the remote and the pooled kinds always.
pub proof fn law_substitutes_are_reported_once(
    m: &Machine,
    before: &Memory,
    after: &Memory,
    later: &Memory,
    cur: int,
    cap_id: u32,
    i: int,
    offset: u64,
    len: u64,
    again: u64,
    nvdimm: bool,
    r: (u64, Option<Notice>),
    r2: (u64, Option<Notice>),
)
    requires
        m.wf(),
        before.wf(m),
        after.wf(m),
        0 <= cur < MAX_CELLS,
        commit_done(m, before, after, cur, cap_id, offset, len, nvdimm, r),
        commit_done(m, after, later, cur, cap_id, again, len, nvdimm, r2),
        0 <= i < before.cell(cur).grants.len(),
        before.cell(cur).grants[i].in_use,
        before.cell(cur).grants[i].cap_id == cap_id,
        forall|j: int|
            0 <= j < i ==> !((#[trigger] before.cell(cur).grants[j]).in_use
                && before.cell(cur).grants[j].cap_id == cap_id),
        before.cell(cur).grants[i].kind <= 5,
        r.0 == 0,
        r2.0 == 0,
    ensures
        ({
            let kind = before.cell(cur).grants[i].kind;
            let stood_in = (kind == 3 && !nvdimm) || kind == 1 || kind == 2 || kind == 5;
            &&& r2.1 is None
            &&& !stood_in ==> r.1 is None && after.noticed@ == before.noticed@
            &&& stood_in && !before.noticed@[kind as int] ==> r.1 is Some && (r.1->0).kind == kind && (
            (r.1->0).why == Fallback::NoNvdimm <==> kind == 3)
            &&& stood_in && before.noticed@[kind as int] ==> r.1 is None
            &&& stood_in ==> after.noticed@[kind as int]
        }),
{
    let c = before.cells@[cur]@;
    assert(c.wf(m));
    let slot = c.grants[i];
    assert(slot.wf(m));
    lemma_named(c.grants, cap_id, i, 0);
    assert(after.cell(cur).grants == before.cell(cur).grants);
    lemma_named(after.cell(cur).grants, cap_id, i, 0);
}

/// The frames under a fresh page are of the grant's own kind: persistent memory comes from
/// the persistent pool while it lasts, and any other kind never does. They come from the
/// grant's node as long as that has a frame left.
pub proof fn law_frames_are_of_the_kind(
    m: &Machine,
    before: &Memory,
    after: &Memory,
    cur: int,
    cap_id: u32,
    i: int,
    offset: u64,
    len: u64,
    nvdimm: bool,
    r: (u64, Option<Notice>),
    p: u64,
)
    requires
        m.wf(),
        before.wf(m),
        0 <= cur < MAX_CELLS,
        commit_done(m, before, after, cur, cap_id, offset, len, nvdimm, r),
        r.0 == 0,
        0 <= i < before.cell(cur).grants.len(),
        before.cell(cur).grants[i].in_use,
        before.cell(cur).grants[i].cap_id == cap_id,
        forall|j: int|
            0 <= j < i ==> !((#[trigger] before.cell(cur).grants[j]).in_use
                && before.cell(cur).grants[j].cap_id == cap_id),
        p % 4096 == 0,
        !before.cell(cur).pages.dom().contains(p),
        after.cell(cur).pages.dom().contains(p),
    ensures
        ({
            let slot = before.cell(cur).grants[i];
            let pa = after.cell(cur).pages[p].pa;
            &&& before.ddr.has(pa) || before.pmem.has(pa)
            &&& slot.kind != 3 ==> before.ddr.has(pa)
            &&& slot.kind != 3 ==> after.pmem.free_count() == before.pmem.free_count()
            &&& slot.kind == 3 && after.pmem.free_count() > 0 ==> after.ddr.free_count()
                == before.ddr.free_count()
            &&& slot.node != 255 && after.ddr.free_on(slot.node) && before.ddr.has(pa)
                ==> before.ddr.homes()[before.ddr.position(pa)] == slot.node
        }),
{
    let c = before.cells@[cur]@;
    assert(c.wf(m));
    let slot = c.grants[i];
    assert(slot.wf(m));
    lemma_named(c.grants, cap_id, i, 0);
    if len > 0 {
        let at = (slot.base + offset) as u64;
        lemma_page_in_span(at, len, p);
        let k = (p - span_base(at)) / 4096;
        assert(page_at(after.cell(cur).pages, p) == page_at(c.pages, p) || in_pages(
            p,
            span_base(at),
            span_pages(at, len),
        ));
        assert(nth_page(span_base(at), k) == p);
        assert(after.cell(cur).pages.dom().contains(nth_page(span_base(at), k)));
        assert(!before.cell(cur).pages.dom().contains(nth_page(span_base(at), k)));
    }
}

/// Memory is handed out from the bottom up: no lower page-aligned place of its range would
/// have held a grant or a mapping without meeting a region of the cell.
pub proof fn law_lowest_place_is_taken(
    m: &Machine,
    before: &Memory,
    after: &Memory,
    cur: int,
    out_va: u64,
    len: u64,
    kind: u64,
    node_hint: u64,
    r: (u64, Option<GrantInfo>),
    base: u64,
    lower: u64,
)
    requires
        m.wf(),
        before.wf(m),
        0 <= cur < MAX_CELLS,
        lower % 4096 == 0,
        lower + len <= u64::MAX - 4096,
    ensures
        create_done(m, before, after, cur, out_va, len, kind, node_hint, r) && r.0 == 0 && GRANT_BASE <= lower
            < (r.1->0).base ==> exists|j: int|
            0 <= j < before.cell(cur).regions.len() && lower < (#[trigger] before.cell(cur).regions[j]).base
                + before.cell(cur).regions[j].len && before.cell(cur).regions[j].base < lower + (len + 4095)
                / 4096 * 4096,
        mmap_done(m, before, after, cur, len, base) && MMAP_BASE <= lower < base ==> exists|j: int|
            0 <= j < before.cell(cur).regions.len() && lower < (#[trigger] before.cell(cur).regions[j]).base
                + before.cell(cur).regions[j].len && before.cell(cur).regions[j].base < lower + (len + 4095)
                / 4096 * 4096,
{
    let c = before.cells@[cur]@;
    let bytes = pages_in(len as int) * 4096;
    if create_done(m, before, after, cur, out_va, len, kind, node_hint, r) && r.0 == 0 && GRANT_BASE <= lower
        < (r.1->0).base {
        assert(!fits(c.regions, lower as int, bytes, GRANT_BASE as int, m.user_va_max as int));
        let j = choose|j: int| 0 <= j < c.regions.len() && c.regions[j].meets(lower as int, bytes);
        assert(before.cell(cur).regions[j].meets(lower as int, bytes));
    }
    if mmap_done(m, before, after, cur, len, base) && MMAP_BASE <= lower < base {
        assert(!fits(c.regions, lower as int, bytes, MMAP_BASE as int, USER_QUEUE_VA as int));
        let j = choose|j: int| 0 <= j < c.regions.len() && c.regions[j].meets(lower as int, bytes);
        assert(before.cell(cur).regions[j].meets(lower as int, bytes));
    }
}

/// A cell can unmap only what is its own: from the grant range on, a part of a grant that goes
/// by a good capability of the cell with the right to map it, and below it a part of one
/// anonymous or file region of the cell. A grant that is unmapped whole is a grant no more, and
/// nothing else leaves the cell's grants.
pub proof fn law_only_own_memory_is_unmapped(
    m: &Machine,
    before: &Memory,
    after: &Memory,
    cur: int,
    va: u64,
    len: u64,
    code: u64,
    k: int,
)
    requires
        m.wf(),
        before.wf(m),
        0 <= cur < MAX_CELLS,
        munmap_outcome(m, before, after, cur, va, len, code),
        code == 0,
        0 <= k < before.cell(cur).grants.len(),
    ensures
        va - va % 4096 >= GRANT_BASE ==> exists|i: int|
            0 <= i < before.cell(cur).grants.len() && (#[trigger] before.cell(cur).grants[i]).in_use
                && before.cell(cur).grants[i].base <= va && va + len <= before.cell(cur).grants[i].base
                + before.cell(cur).grants[i].len && checked(
                before.cell(cur).caps,
                before.objects@,
                before.cell(cur).grants[i].cap_id,
                MAP,
            ) is Ok,
        va - va % 4096 < GRANT_BASE ==> exists|i: int|
            0 <= i < before.cell(cur).regions.len() && (#[trigger] before.cell(cur).regions[i]).base <= va
                && va + len <= before.cell(cur).regions[i].base + before.cell(cur).regions[i].len && (
            before.cell(cur).regions[i].kind == RegionKind::Anon || before.cell(cur).regions[i].kind
                == RegionKind::File),
        after.cell(cur).grants[k] == before.cell(cur).grants[k] || (!after.cell(cur).grants[k].in_use
            && before.cell(cur).grants[k].base == va - va % 4096),
{
    let c = before.cells@[cur]@;
    assert(c.wf(m));
    lemma_page_in_span(va, len, 0);
    let base = span_base(va);
    let end = (va + len) as u64;
    lemma_slot_of(c.grants, Wanted::Covering(base, end), 0);
    if base >= GRANT_BASE {
        let i = slot_of(c.grants, Wanted::Covering(base, end))->0;
        assert(before.cell(cur).grants[i].in_use);
        lemma_slot_of(c.grants, Wanted::At(base), 0);
    } else {
        let i = choose|i: int| is_own(c.regions, i, base, end);
        assert(is_own(c.regions, i, base, end));
        assert(before.cell(cur).regions[i].base <= va);
    }
}

/// The frames of the pages that are newly mapped are all on the list.
proof fn lemma_fresh_listed(
    before: Map<u64, Page>,
    after: Map<u64, Page>,
    pool: &FramePool,
    base: u64,
    n: nat,
    k: int,
)
    requires
        0 <= k < n,
        !before.dom().contains(nth_page(base, k)),
        pool.has(after[nth_page(base, k)].pa),
    ensures
        fresh_frames(before, after, pool, base, n).contains(after[nth_page(base, k)].pa),
    decreases n,
{
    let pa = after[nth_page(base, k)].pa;
    let all = fresh_frames(before, after, pool, base, n);
    let rest = fresh_frames(before, after, pool, base, (n - 1) as nat);
    if k == n - 1 {
        assert(all[all.len() - 1] == pa);
    } else {
        lemma_fresh_listed(before, after, pool, base, (n - 1) as nat, k);
        let j = choose|j: int| 0 <= j < rest.len() && rest[j] == pa;
        assert(all[j] == pa);
    }
}

/// A frame that comes under a page is taken: it was free in the pool it is of, is not free any
/// more, and is put down to be cleared before the cell sees it.
pub proof fn law_committed_frames_are_taken(
    m: &Machine,
    before: &Memory,
    after: &Memory,
    cur: int,
    cap_id: u32,
    i: int,
    offset: u64,
    len: u64,
    nvdimm: bool,
    r: (u64, Option<Notice>),
    p: u64,
)
    requires
        m.wf(),
        before.wf(m),
        0 <= cur < MAX_CELLS,
        commit_done(m, before, after, cur, cap_id, offset, len, nvdimm, r),
        r.0 == 0,
        0 <= i < before.cell(cur).grants.len(),
        before.cell(cur).grants[i].in_use,
        before.cell(cur).grants[i].cap_id == cap_id,
        forall|j: int|
            0 <= j < i ==> !((#[trigger] before.cell(cur).grants[j]).in_use
                && before.cell(cur).grants[j].cap_id == cap_id),
        p % 4096 == 0,
        !before.cell(cur).pages.dom().contains(p),
        after.cell(cur).pages.dom().contains(p),
    ensures
        ({
            let pa = after.cell(cur).pages[p].pa;
            &&& before.ddr.has(pa) ==> {
                &&& !before.ddr.taken()[(pa - before.ddr.first()) / 4096]
                &&& after.ddr.taken()[(pa - before.ddr.first()) / 4096]
                &&& after.ddr.to_clear().contains(pa)
            }
            &&& before.pmem.has(pa) ==> {
                &&& !before.pmem.taken()[(pa - before.pmem.first()) / 4096]
                &&& after.pmem.taken()[(pa - before.pmem.first()) / 4096]
                &&& after.pmem.to_clear().contains(pa)
            }
        }),
{
    let c = before.cells@[cur]@;
    assert(c.wf(m));
    let slot = c.grants[i];
    assert(slot.wf(m));
    lemma_named(c.grants, cap_id, i, 0);
    if len > 0 {
        let at = (slot.base + offset) as u64;
        lemma_page_in_span(at, len, p);
        let base = span_base(at);
        let n = span_pages(at, len);
        let k = (p - base) / 4096;
        let now = after.cell(cur).pages;
        assert(page_at(now, p) == page_at(c.pages, p) || in_pages(p, base, n));
        assert(nth_page(base, k) == p);
        assert(now.dom().contains(nth_page(base, k)));
        assert(!c.pages.dom().contains(nth_page(base, k)));
        let pa = now[p].pa;
        if before.ddr.has(pa) {
            assert(!before.pmem.has(pa)) by {
                assert(!(before.ddr.has(pa) && before.pmem.has(pa)));
            }
            let x = before.ddr.position(pa);
            assert(newly_sits_on(c.pages, now, base, n, &before.ddr, x));
            assert(after.ddr.taken()[x] == (before.ddr.taken()[x] || newly_sits_on(
                c.pages,
                now,
                base,
                n,
                &before.ddr,
                x,
            )));
            lemma_fresh_listed(c.pages, now, &before.ddr, base, n as nat, k);
            lemma_listed_behind(before.ddr.to_clear(), fresh_frames(c.pages, now, &before.ddr, base, n as nat), pa);
        }
        if before.pmem.has(pa) {
            assert(!before.ddr.has(pa)) by {
                assert(!(before.ddr.has(pa) && before.pmem.has(pa)));
            }
            let x = before.pmem.position(pa);
            assert(newly_sits_on(c.pages, now, base, n, &before.pmem, x));
            assert(after.pmem.taken()[x] == (before.pmem.taken()[x] || newly_sits_on(
                c.pages,
                now,
                base,
                n,
                &before.pmem,
                x,
            )));
            lemma_fresh_listed(c.pages, now, &before.pmem, base, n as nat, k);
            lemma_listed_behind(before.pmem.to_clear(), fresh_frames(c.pages, now, &before.pmem, base, n as nat), pa);
        }
    }
}

proof fn lemma_listed_behind(a: Seq<u64>, b: Seq<u64>, x: u64)
    requires
        b.contains(x),
    ensures
        (a + b).contains(x),
{
    let j = choose|j: int| 0 <= j < b.len() && b[j] == x;
    assert((a + b)[a.len() + j] == x);
}

/// A frame that leaves a page goes back: a page that a decommit takes away sat on a frame of
/// one of the pools, and that frame is free in its pool afterwards.
pub proof fn law_frames_go_back(
    m: &Machine,
    before: &Memory,
    after: &Memory,
    cur: int,
    cap_id: u32,
    i: int,
    offset: u64,
    len: u64,
    code: u64,
    p: u64,
)
    requires
        m.wf(),
        before.wf(m),
        0 <= cur < MAX_CELLS,
        decommit_done(m, before, after, cur, cap_id, offset, len, code),
        0 <= i < before.cell(cur).grants.len(),
        before.cell(cur).grants[i].in_use,
        before.cell(cur).grants[i].cap_id == cap_id,
        forall|j: int|
            0 <= j < i ==> !((#[trigger] before.cell(cur).grants[j]).in_use
                && before.cell(cur).grants[j].cap_id == cap_id),
        p % 4096 == 0,
        before.cell(cur).pages.dom().contains(p),
        !after.cell(cur).pages.dom().contains(p),
    ensures
        ({
            let pa = before.cell(cur).pages[p].pa;
            &&& before.ddr.has(pa) || before.pmem.has(pa)
            &&& before.ddr.has(pa) ==> !after.ddr.taken()[(pa - before.ddr.first()) / 4096]
            &&& before.pmem.has(pa) ==> !after.pmem.taken()[(pa - before.pmem.first()) / 4096]
        }),
{
    let c = before.cells@[cur]@;
    assert(c.wf(m));
    let slot = c.grants[i];
    assert(slot.wf(m));
    lemma_named(c.grants, cap_id, i, 0);
    if code == 0 && len > 0 {
        let at = (slot.base + offset) as u64;
        lemma_page_in_span(at, len, p);
        let base = span_base(at);
        let n = span_pages(at, len);
        let k = (p - base) / 4096;
        let now = after.cell(cur).pages;
        assert(page_at(now, p) == page_at(c.pages, p) || in_pages(p, base, n));
        assert(nth_page(base, k) == p);
        assert(page_at(now, nth_page(base, k)) == page_at(now, p));
        assert(c.pages.dom().contains(nth_page(base, k)));
        let pa = c.pages[p].pa;
        if before.ddr.has(pa) {
            let x = before.ddr.position(pa);
            assert(sits_on(c.pages, base, n, &before.ddr, x));
            assert(after.ddr.taken()[x] == (before.ddr.taken()[x] && !sits_on(c.pages, base, n, &before.ddr, x)));
        }
        if before.pmem.has(pa) {
            let x = before.pmem.position(pa);
            assert(sits_on(c.pages, base, n, &before.pmem, x));
            assert(after.pmem.taken()[x] == (before.pmem.taken()[x] && !sits_on(
                c.pages,
                base,
                n,
                &before.pmem,
                x,
            )));
        }
    }
}

/// A share that nothing speaks against is done: where the reply can be written, both cells have
/// their tables and the peer is there, the capability is good and carries the right to delegate,
/// the grant is sealed and has a page to share, and the peer has a handle, a record and a place
/// for it. A grant without a mapped page has nothing to share, and is refused.
pub proof fn law_share_is_owed(
    m: &Machine,
    before: &Memory,
    after: &Memory,
    cur: int,
    cap_id: u32,
    i: int,
    out_va: u64,
    r: (u64, Option<ShareInfo>),
    k: int,
    place: int,
)
    requires
        m.wf(),
        before.wf(m),
        0 <= cur < MAX_CELLS,
        share_done(m, before, after, cur, cap_id, out_va, r),
        0 <= i < before.cell(cur).grants.len(),
        before.cell(cur).grants[i].in_use,
        before.cell(cur).grants[i].cap_id == cap_id,
        forall|j: int|
            0 <= j < i ==> !((#[trigger] before.cell(cur).grants[j]).in_use
                && before.cell(cur).grants[j].cap_id == cap_id),
    ensures
        ({
            let slot = before.cell(cur).grants[i];
            let peer = before.cell(if cur % 2 == 0 {
                cur + 1
            } else {
                cur - 1
            });
            &&& out_va % 8 == 0 && may_write(m, out_va, 16) && before.cell(cur).tables && peer.present
                && peer.tables && checked(before.cell(cur).caps, before.objects@, cap_id, DELEGATE) is Ok
                && slot.sealed && 0 <= k < slot.len as int / 4096 && before.cell(cur).pages.dom().contains(
                (slot.base + k * 4096) as u64,
            ) && has_room(peer.caps, peer.cap_limit) && peer.regions.len() < peer.records && fits(
                peer.regions,
                place,
                slot.len as int,
                GRANT_BASE as int,
                m.user_va_max as int,
            ) ==> r.0 == 0
            &&& (forall|l: int|
                0 <= l < slot.len as int / 4096 ==> !before.cell(cur).pages.dom().contains(
                    #[trigger] nth_page(slot.base, l),
                )) ==> r.0 != 0
        }),
{
    let c = before.cells@[cur]@;
    assert(c.wf(m));
    let slot = c.grants[i];
    assert(slot.wf(m));
    lemma_named(c.grants, cap_id, i, 0);
    let n = (slot.len as int / 4096) as nat;
    if 0 <= k < n && c.pages.dom().contains((slot.base + k * 4096) as u64) {
        assert(nth_page(slot.base, k) == (slot.base + k * 4096) as u64);
        lemma_some_present(c.pages, slot.base, n, k);
    }
    if forall|l: int| 0 <= l < n ==> !c.pages.dom().contains(#[trigger] nth_page(slot.base, l)) {
        lemma_none_present(c.pages, slot.base, n);
    }
}

proof fn lemma_some_present(pages: Map<u64, Page>, base: u64, n: nat, k: int)
    requires
        0 <= k < n,
        pages.dom().contains(nth_page(base, k)),
    ensures
        absent_pages(pages, base, n) < n,
    decreases n,
{
    lemma_absent_bounded(pages, base, (n - 1) as nat);
    if k < n - 1 {
        lemma_some_present(pages, base, (n - 1) as nat, k);
    }
}

proof fn lemma_absent_bounded(pages: Map<u64, Page>, base: u64, n: nat)
    ensures
        absent_pages(pages, base, n) <= n,
    decreases n,
{
    if n > 0 {
        lemma_absent_bounded(pages, base, (n - 1) as nat);
    }
}

proof fn lemma_none_present(pages: Map<u64, Page>, base: u64, n: nat)
    requires
        forall|l: int| 0 <= l < n ==> !pages.dom().contains(#[trigger] nth_page(base, l)),
    ensures
        absent_pages(pages, base, n) == n,
    decreases n,
{
    if n > 0 {
        lemma_none_present(pages, base, (n - 1) as nat);
        assert(!pages.dom().contains(nth_page(base, n - 1)));
    }
}

/// A grant that is unmapped whole is forgotten, and one that is unmapped in part is kept with
/// its place: the slot is free afterwards exactly where the range begins with the grant and
/// reaches into its last page.
pub proof fn law_whole_grant_is_forgotten(
    m: &Machine,
    before: &Memory,
    after: &Memory,
    cur: int,
    va: u64,
    len: u64,
    code: u64,
    i: int,
)
    requires
        m.wf(),
        before.wf(m),
        0 <= cur < MAX_CELLS,
        munmap_outcome(m, before, after, cur, va, len, code),
        code == 0,
        0 <= i < before.cell(cur).grants.len(),
        before.cell(cur).grants[i].in_use,
        before.cell(cur).grants[i].base <= va - va % 4096,
        va + len <= before.cell(cur).grants[i].base + before.cell(cur).grants[i].len,
    ensures
        ({
            let slot = before.cell(cur).grants[i];
            let whole = va - va % 4096 == slot.base && va + len > slot.base + slot.len - 4096;
            &&& whole ==> !after.cell(cur).grants[i].in_use
            &&& !whole ==> after.cell(cur).grants == before.cell(cur).grants && after.cell(cur).regions
                == before.cell(cur).regions
        }),
{
    let c = before.cells@[cur]@;
    assert(c.wf(m));
    let slot = c.grants[i];
    assert(slot.wf(m));
    lemma_page_in_span(va, len, 0);
    let base = span_base(va);
    let end = (va + len) as u64;
    lemma_slot_of(c.grants, Wanted::Covering(base, end), 0);
    let j = slot_of(c.grants, Wanted::Covering(base, end))->0;
    assert(c.grants[j].in_use);
    if i != j {
        if i < j {
            law_grants_do_not_overlap(m, c, i, j);
        } else {
            law_grants_do_not_overlap(m, c, j, i);
        }
    }
    assert(c.grants[j].wf(m));
    lemma_page_in_span(base, (end - base) as u64, 0);
    lemma_slot_of(c.grants, Wanted::At(base), 0);
    if base == slot.base {
        let at = slot_of(c.grants, Wanted::At(base))->0;
        if at < i {
            assert(c.grants[at].base != c.grants[i].base);
        } else if at > i {
            assert(c.grants[i].base != c.grants[at].base);
        }
    }
}

} // verus!
