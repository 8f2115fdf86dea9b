//! Memory that a cell asks the kernel for: grants of a declared kind, an arena over
//! one, files that are mapped, and the heap that grows.

use vstd::prelude::*;

verus! {

/// The size of a page.
pub const PAGE: u64 = 4096;

/// The arena that the heap starts with.
pub const INIT_ARENA: u64 = 0x10_0000;

/// The least that the heap grows by.
pub const GROW: u64 = 0x20_0000;

/// A length in whole pages.
pub open spec fn page_ceil(len: int) -> int {
    (len + PAGE - 1) / (PAGE as int) * PAGE
}

fn round_to_pages(len: u64) -> (r: u64)
    requires
        len <= u64::MAX - 4095,
    ensures
        r == page_ceil(len as int),
        r >= len,
        r % 4096 == 0,
{
    (len + 4095) / 4096 * 4096
}

/// The kind of memory behind a grant.
#[derive(Copy, Clone, PartialEq, Eq, Debug, Structural)]
pub enum MemKind {
    Ddr,
    Hbm,
    Cxl,
    Pmem,
    DeviceBar,
    Remote,
}

impl MemKind {
    /// The number that the kernel knows the kind by.
    pub open spec fn number(self) -> u64 {
        match self {
            MemKind::Ddr => 0,
            MemKind::Hbm => 1,
            MemKind::Cxl => 2,
            MemKind::Pmem => 3,
            MemKind::DeviceBar => 4,
            MemKind::Remote => 5,
        }
    }

    pub fn code(self) -> (n: u64)
        ensures
            n == self.number(),
    {
        match self {
            MemKind::Ddr => 0,
            MemKind::Hbm => 1,
            MemKind::Cxl => 2,
            MemKind::Pmem => 3,
            MemKind::DeviceBar => 4,
            MemKind::Remote => 5,
        }
    }
}

/// What the kernel is asked for.
#[derive(Copy, Clone, PartialEq, Eq, Debug, Structural)]
pub struct GrantRequest {
    pub len: u64,
    pub kind: u64,
    /// The node that the memory should be near.
    pub node: u64,
}

/// What the kernel answered: zero and what it gave, or why it gave nothing.
#[derive(Copy, Clone, PartialEq, Eq, Debug, Structural)]
pub struct GrantAnswer {
    pub ret: u64,
    pub base: u64,
    pub cap_id: u32,
}

/// Address space of a declared kind, backed page by page.
#[derive(PartialEq, Eq, Debug, Structural)]
pub struct Grant {
    pub base: u64,
    pub len: u64,
    pub cap_id: u32,
    pub sealed: bool,
}

/// The grant that an answer stands for.
pub open spec fn granted(len: u64, a: GrantAnswer) -> Option<Grant> {
    if a.ret != 0 {
        None
    } else {
        Some(
            Grant {
                base: a.base,
                len: page_ceil(len as int) as u64,
                cap_id: a.cap_id,
                sealed: false,
            },
        )
    }
}

impl Grant {
    /// The request for a grant near a node.
    pub fn request(kind: MemKind, len: u64, node: u32) -> (q: GrantRequest)
        ensures
            q == (GrantRequest { len, kind: kind.number(), node: node as u64 }),
    {
        GrantRequest { len, kind: kind.code(), node: node as u64 }
    }

    /// The grant that the kernel's answer to a request stands for, in whole pages.
    pub fn answered(len: u64, a: GrantAnswer) -> (g: Option<Grant>)
        requires
            len <= u64::MAX - 4095,
        ensures
            g == granted(len, a),
    {
        if a.ret != 0 {
            return None;
        }
        Some(Grant { base: a.base, len: round_to_pages(len), cap_id: a.cap_id, sealed: false })
    }

    /// A grant near a node: the request for it, and the grant that the kernel's answer to
    /// the request stands for.
    pub fn reserve_on(kind: MemKind, len: u64, node: u32, a: GrantAnswer) -> (r: (
        GrantRequest,
        Option<Grant>,
    ))
        requires
            len <= u64::MAX - 4095,
        ensures
            r.0 == (GrantRequest { len, kind: kind.number(), node: node as u64 }),
            r.1 == granted(len, a),
    {
        (Grant::request(kind, len, node), Grant::answered(len, a))
    }

    /// The same, near the default node.
    pub fn reserve(kind: MemKind, len: u64, a: GrantAnswer) -> (r: (GrantRequest, Option<Grant>))
        requires
            len <= u64::MAX - 4095,
        ensures
            r.0 == (GrantRequest { len, kind: kind.number(), node: 0 }),
            r.1 == granted(len, a),
    {
        Grant::reserve_on(kind, len, 0, a)
    }

    /// Begin to get a grant near the default node and have all of it backed.
    pub fn allocate(kind: MemKind, len: u64) -> (at: Allocating)
        requires
            len <= u64::MAX - 4095,
        ensures
            at == (Allocating { kind, len, at: AllocAt::Begun }),
            at.wf(),
    {
        Allocating { kind, len, at: AllocAt::Begun }
    }

    /// Have a part of the grant backed: what the kernel is asked, and whether its answer
    /// says that it has.
    pub fn commit(&self, offset: u64, len: u64, ret: u64) -> (r: (BackCall, Result<(), ()>))
        ensures
            r.0 == (BackCall { cap_id: self.cap_id, offset, len }),
            r.1 is Ok <==> ret == 0,
    {
        (BackCall { cap_id: self.cap_id, offset, len }, done(ret))
    }

    /// Give back what is behind a part of the grant: what the kernel is asked, and
    /// whether its answer says that it has taken it.
    pub fn decommit(&self, offset: u64, len: u64, ret: u64) -> (r: (BackCall, Result<(), ()>))
        ensures
            r.0 == (BackCall { cap_id: self.cap_id, offset, len }),
            r.1 is Ok <==> ret == 0,
    {
        (BackCall { cap_id: self.cap_id, offset, len }, done(ret))
    }

    /// Note that the kernel has sealed the grant, if it has.
    pub fn seal(&mut self, ret: u64) -> (r: Result<(), ()>)
        ensures
            r is Ok <==> ret == 0,
            *final(self) == (Grant { sealed: old(self).sealed || ret == 0, ..*old(self) }),
    {
        if ret == 0 {
            self.sealed = true;
            Ok(())
        } else {
            Err(())
        }
    }

    pub fn is_sealed(&self) -> (b: bool)
        ensures
            b == self.sealed,
    {
        self.sealed
    }

    pub fn base(&self) -> (b: u64)
        ensures
            b == self.base,
    {
        self.base
    }

    pub fn len(&self) -> (n: u64)
        ensures
            n == self.len,
    {
        self.len
    }

    pub fn is_empty(&self) -> (b: bool)
        ensures
            b == (self.len == 0),
    {
        self.len == 0
    }

    /// The capability that stands for the grant.
    pub fn cap_id(&self) -> (c: u32)
        ensures
            c == self.cap_id,
    {
        self.cap_id
    }

    /// What is given back when the grant goes: its base and its length.
    pub fn release(self) -> (r: (u64, u64))
        ensures
            r == (self.base, self.len),
    {
        (self.base, self.len)
    }
}

fn done(ret: u64) -> (r: Result<(), ()>)
    ensures
        r is Ok <==> ret == 0,
{
    if ret == 0 {
        Ok(())
    } else {
        Err(())
    }
}

/// A part of a grant, by its capability: what the kernel is asked to back, or to take
/// back what is behind it.
#[derive(Copy, Clone, PartialEq, Eq, Debug, Structural)]
pub struct BackCall {
    pub cap_id: u32,
    pub offset: u64,
    pub len: u64,
}

/// Where an allocation is.
#[derive(Copy, Clone, PartialEq, Eq, Debug, Structural)]
pub enum AllocAt {
    Begun,
    /// The kernel was asked for the grant.
    Asked,
    /// The kernel gave this, and was asked to back all of it.
    Backing(GrantAnswer),
    /// It could not be backed, and goes back.
    Releasing,
    Over,
}

/// What the kernel answered.
#[derive(Copy, Clone, PartialEq, Eq, Debug, Structural)]
pub enum AllocEvent {
    Go,
    Granted(GrantAnswer),
    /// Whether all of it is backed: zero where it is.
    Backed(u64),
    Released,
}

/// What an allocation does next.
#[derive(PartialEq, Eq, Debug, Structural)]
pub enum AllocAction {
    Ask(GrantRequest),
    Back(BackCall),
    /// Give the address space back: its base and its length.
    Release(u64, u64),
    /// Over: the grant, if there is one.
    Done(Option<Grant>),
}

/// A grant that is reserved and then backed as a whole.
#[derive(Copy, Clone, PartialEq, Eq, Debug, Structural)]
pub struct Allocating {
    pub kind: MemKind,
    pub len: u64,
    pub at: AllocAt,
}

impl Allocating {
    pub open spec fn wf(&self) -> bool {
        self.len <= u64::MAX - 4095
    }

    /// Whether an event is what the allocation waits for.
    pub open spec fn expects(&self, e: AllocEvent) -> bool {
        match self.at {
            AllocAt::Begun => e is Go,
            AllocAt::Asked => e is Granted,
            AllocAt::Backing(_) => e is Backed,
            AllocAt::Releasing => e is Released,
            AllocAt::Over => false,
        }
    }

    /// Where the allocation is after an event, and what it does.
    pub open spec fn after(&self, e: AllocEvent) -> (AllocAt, AllocAction) {
        match (self.at, e) {
            (AllocAt::Asked, AllocEvent::Granted(a)) => match granted(self.len, a) {
                None => (AllocAt::Over, AllocAction::Done(None)),
                Some(g) => (
                    AllocAt::Backing(a),
                    AllocAction::Back(BackCall { cap_id: g.cap_id, offset: 0, len: g.len }),
                ),
            },
            (AllocAt::Backing(a), AllocEvent::Backed(ret)) => if ret == 0 {
                (AllocAt::Over, AllocAction::Done(granted(self.len, a)))
            } else {
                (AllocAt::Releasing, AllocAction::Release(a.base, page_ceil(self.len as int) as u64))
            },
            (AllocAt::Releasing, _) => (AllocAt::Over, AllocAction::Done(None)),
            _ => (
                AllocAt::Asked,
                AllocAction::Ask(
                    GrantRequest { len: self.len, kind: self.kind.number(), node: 0 },
                ),
            ),
        }
    }

    /// Take the allocation one step on. What could not be backed goes back.
    pub fn step(&mut self, e: AllocEvent) -> (action: AllocAction)
        requires
            old(self).wf(),
            old(self).expects(e),
        ensures
            final(self).wf(),
            *final(self) == (Allocating { at: old(self).after(e).0, ..*old(self) }),
            action == old(self).after(e).1,
    {
        match (self.at, e) {
            (AllocAt::Asked, AllocEvent::Granted(a)) => match Grant::answered(self.len, a) {
                None => {
                    self.at = AllocAt::Over;
                    AllocAction::Done(None)
                },
                Some(g) => {
                    self.at = AllocAt::Backing(a);
                    AllocAction::Back(BackCall { cap_id: g.cap_id, offset: 0, len: g.len })
                },
            },
            (AllocAt::Backing(a), AllocEvent::Backed(ret)) => {
                if ret == 0 {
                    self.at = AllocAt::Over;
                    AllocAction::Done(Grant::answered(self.len, a))
                } else {
                    self.at = AllocAt::Releasing;
                    AllocAction::Release(a.base, round_to_pages(self.len))
                }
            },
            (AllocAt::Releasing, _) => {
                self.at = AllocAt::Over;
                AllocAction::Done(None)
            },
            _ => {
                self.at = AllocAt::Asked;
                AllocAction::Ask(Grant::request(self.kind, self.len, 0))
            },
        }
    }
}

/// An allocation asks for its kind on the default node, then has all of what it was given
/// backed, and ends with a grant exactly where both were done.
pub proof fn law_allocation_backs_the_whole_grant(
    kind: MemKind,
    len: u64,
    a: GrantAnswer,
    ret: u64,
)
    requires
        len <= u64::MAX - 4095,
    ensures
        ({
            let s0 = Allocating { kind, len, at: AllocAt::Begun };
            let s1 = Allocating { at: s0.after(AllocEvent::Go).0, ..s0 };
            let s2 = Allocating { at: s1.after(AllocEvent::Granted(a)).0, ..s1 };
            let asked = s0.after(AllocEvent::Go).1;
            let backed = s1.after(AllocEvent::Granted(a)).1;
            let ended = s2.after(AllocEvent::Backed(ret)).1;
            &&& asked == AllocAction::Ask(GrantRequest { len, kind: kind.number(), node: 0 })
            &&& a.ret != 0 ==> backed == AllocAction::Done(None)
            &&& a.ret == 0 ==> backed == AllocAction::Back(
                BackCall { cap_id: a.cap_id, offset: 0, len: page_ceil(len as int) as u64 },
            )
            &&& a.ret == 0 && ret == 0 ==> ended == AllocAction::Done(granted(len, a))
            &&& a.ret == 0 && ret != 0 ==> ended == AllocAction::Release(
                a.base,
                page_ceil(len as int) as u64,
            )
        }),
{
}

/// Hands out parts of a grant, one after the other.
pub struct Arena {
    pub grant: Grant,
    /// How much has been handed out.
    pub next: u64,
}

/// The first multiple of `a` that is not below `x`.
pub open spec fn aligned_up(x: int, a: int) -> int {
    if x % a == 0 {
        x
    } else {
        x + a - x % a
    }
}

/// Where in the grant the next part of an arena stands.
pub open spec fn carve_at(arena: &Arena, align: u64) -> int {
    aligned_up(arena.grant.base + arena.next, align as int) - arena.grant.base
}

/// What carving does to an arena: the part stands at the next multiple of its
/// alignment, if it fits there.
pub open spec fn carved(before: &Arena, after: &Arena, len: u64, align: u64, at: Option<u64>) -> bool {
    &&& after.grant == before.grant
    &&& if carve_at(before, align) + len <= before.grant.len {
        at is Some && at->0 == carve_at(before, align) && after.next == at->0 + len
    } else {
        at is None && after.next == before.next
    }
}

impl Arena {
    pub open spec fn wf(&self) -> bool {
        &&& self.next <= self.grant.len
        &&& self.grant.base + self.grant.len <= u64::MAX
    }

    /// Begin to get the memory for an arena.
    pub fn begin(len: u64) -> (at: Allocating)
        requires
            len <= u64::MAX - 4095,
        ensures
            at == (Allocating { kind: MemKind::Ddr, len, at: AllocAt::Begun }),
    {
        Grant::allocate(MemKind::Ddr, len)
    }

    /// An arena over a grant that is backed as a whole.
    pub fn new(grant: Option<Grant>) -> (a: Option<Arena>)
        ensures
            match grant {
                None => a is None,
                Some(g) => a == Some(Arena { grant: g, next: 0 }),
            },
    {
        match grant {
            None => None,
            Some(g) => Some(Arena { grant: g, next: 0 }),
        }
    }

    /// Carve out `len` bytes at a multiple of `align`: where they stand in the grant,
    /// if they fit.
    pub fn carve(&mut self, len: u64, align: u64) -> (at: Option<u64>)
        requires
            old(self).wf(),
            align > 0,
            old(self).grant.base + old(self).next + align <= u64::MAX,
        ensures
            final(self).wf(),
            carved(old(self), final(self), len, align, at),
            at matches Some(off) ==> (old(self).grant.base + off) % (align as int) == 0,
    {
        let x: u64 = self.grant.base + self.next;
        let r: u64 = x % align;
        proof {
            vstd::arithmetic::div_mod::lemma_mod_bound(x as int, align as int);
            if r != 0 {
                lemma_next_multiple(x as int, align as int);
            }
        }
        let start: u64 = if r == 0 { x } else { x + (align - r) };
        let off: u64 = start - self.grant.base;
        if off > self.grant.len || len > self.grant.len - off {
            return None;
        }
        self.next = off + len;
        Some(off)
    }

    /// Start again from the beginning.
    pub fn reset(&mut self)
        ensures
            *final(self) == (Arena { next: 0, ..*old(self) }),
    {
        self.next = 0;
    }
}

proof fn lemma_next_multiple(x: int, a: int)
    requires
        x >= 0,
        a > 0,
    ensures
        (x + a - x % a) % a == 0,
{
    vstd::arithmetic::div_mod::lemma_fundamental_div_mod(x, a);
    let q = x / a;
    assert(x + a - x % a == a * (q + 1)) by (nonlinear_arith)
        requires
            x == a * q + x % a,
    ;
    vstd::arithmetic::div_mod::lemma_mod_multiples_basic(q + 1, a);
    assert(a * (q + 1) == (q + 1) * a) by (nonlinear_arith);
}

/// No two parts of an arena overlap, and all lie within the grant: what is carved out
/// later begins where everything carved out before has ended.
pub proof fn law_parts_are_disjoint(
    before: &Arena,
    between: &Arena,
    after: &Arena,
    first: (u64, u64),
    second: (u64, u64),
    at1: u64,
    at2: u64,
)
    requires
        first.1 > 0,
        second.1 > 0,
        carved(before, between, first.0, first.1, Some(at1)),
        carved(between, after, second.0, second.1, Some(at2)),
    ensures
        before.next <= at1,
        at1 + first.0 <= at2,
        at2 + second.0 <= after.grant.len,
        after.grant == before.grant,
{
    vstd::arithmetic::div_mod::lemma_mod_bound(before.grant.base + before.next, first.1 as int);
    vstd::arithmetic::div_mod::lemma_mod_bound(between.grant.base + between.next, second.1 as int);
}

/// A file, or a part of one, in memory.
#[derive(PartialEq, Eq, Debug, Structural)]
pub struct Mapping {
    pub base: u64,
    pub len: u64,
}

impl Mapping {
    /// The mapping that the kernel has made at an address, if it has made one.
    pub fn file(base: u64, len: u64) -> (m: Option<Mapping>)
        ensures
            m == (if base == 0 {
                None
            } else {
                Some(Mapping { base, len })
            }),
    {
        if base == 0 {
            return None;
        }
        Some(Mapping { base, len })
    }

    pub fn base(&self) -> (b: u64)
        ensures
            b == self.base,
    {
        self.base
    }

    pub fn len(&self) -> (n: u64)
        ensures
            n == self.len,
    {
        self.len
    }

    pub fn is_empty(&self) -> (b: bool)
        ensures
            b == (self.len == 0),
    {
        self.len == 0
    }

    /// What is given back when the mapping goes: whole pages.
    pub fn release(self) -> (r: (u64, u64))
        requires
            self.len <= u64::MAX - 4095,
        ensures
            r.0 == self.base,
            r.1 == page_ceil(self.len as int),
    {
        (self.base, round_to_pages(self.len))
    }
}

/// The heap of a cell: the regions that it has been given.
pub struct GrowHeap {
    pub regions: Vec<(u64, u64)>,
}

impl GrowHeap {
    pub fn new() -> (h: GrowHeap)
        ensures
            h.regions@.len() == 0,
    {
        GrowHeap { regions: Vec::new() }
    }

    /// Take the first arena, if the kernel has given one.
    pub fn init(&mut self, base: u64)
        ensures
            final(self).regions@ == (if base != 0 {
                old(self).regions@.push((base, INIT_ARENA))
            } else {
                old(self).regions@
            }),
    {
        if base != 0 {
            self.regions.push((base, INIT_ARENA));
        }
    }

    /// How much to ask for when an allocation did not fit: the allocation, its alignment
    /// and the least growth, in whole pages.
    pub fn grow_by(&self, size: u64, align: u64) -> (want: u64)
        requires
            size + align + GROW <= u64::MAX - 4095,
        ensures
            want == page_ceil(size + align + GROW),
            want >= size + align,
    {
        round_to_pages(size + align + GROW)
    }

    /// Take a region that the kernel has given for growth. Without one the allocation
    /// fails.
    pub fn grow(&mut self, base: u64, want: u64) -> (again: bool)
        ensures
            again == (base != 0),
            final(self).regions@ == (if base != 0 {
                old(self).regions@.push((base, want))
            } else {
                old(self).regions@
            }),
    {
        if base == 0 {
            return false;
        }
        self.regions.push((base, want));
        true
    }
}

impl Default for GrowHeap {
    fn default() -> (h: GrowHeap)
        ensures
            h.regions@.len() == 0,
    {
        GrowHeap::new()
    }
}

/// A grant is whole pages: the length asked for, rounded up to the next page and no
/// further.
pub proof fn law_grants_are_whole_pages(len: int)
    requires
        0 <= len,
    ensures
        page_ceil(len) % 4096 == 0,
        len <= page_ceil(len) < len + 4096,
        len % 4096 == 0 ==> page_ceil(len) == len,
{
}

/// The kinds of memory go by the numbers that the kernel knows them by, no two by one.
pub proof fn law_kinds_are_numbered(a: MemKind, b: MemKind)
    ensures
        MemKind::Ddr.number() == 0,
        MemKind::Hbm.number() == 1,
        MemKind::Cxl.number() == 2,
        MemKind::Pmem.number() == 3,
        MemKind::DeviceBar.number() == 4,
        MemKind::Remote.number() == 5,
        a.number() == b.number() ==> a == b,
{
}

/// A grant that cannot be backed is given back whole, and the allocation then fails: it
/// never ends with a grant that has no memory.
pub proof fn law_unbacked_grant_is_given_back(kind: MemKind, len: u64, a: GrantAnswer, ret: u64)
    requires
        len <= u64::MAX - 4095,
        a.ret == 0,
        ret != 0,
    ensures
        ({
            let s2 = Allocating { kind, len, at: AllocAt::Backing(a) };
            let s3 = Allocating { at: s2.after(AllocEvent::Backed(ret)).0, ..s2 };
            &&& s2.after(AllocEvent::Backed(ret)).1 matches AllocAction::Release(base, n)
            &&& base == a.base
            &&& n % 4096 == 0
            &&& len <= n < len + 4096
            &&& s3.after(AllocEvent::Released).1 == AllocAction::Done(None)
        }),
{
}

/// A part of an arena stands where it was asked to: its address is a multiple of the
/// alignment, it lies in the grant behind all earlier parts, and no more than the
/// alignment asks for is skipped. Where no part is given, no place behind the earlier
/// parts would have held one.
pub proof fn law_part_is_aligned_and_inside(
    before: &Arena,
    after: &Arena,
    len: u64,
    align: u64,
    at: Option<u64>,
    other: int,
)
    requires
        before.wf(),
        align > 0,
        carved(before, after, len, align, at),
        other >= before.next,
        (before.grant.base + other) % (align as int) == 0,
    ensures
        at matches Some(x) ==> {
            &&& (before.grant.base + x) % (align as int) == 0
            &&& before.next <= x < before.next + align
            &&& x + len <= before.grant.len
            &&& after.next == x + len
            &&& x <= other
        },
        at is None ==> other + len > before.grant.len && after.next == before.next,
        after.grant == before.grant,
{
    let x = before.grant.base + before.next;
    let a = align as int;
    vstd::arithmetic::div_mod::lemma_mod_bound(x, a);
    vstd::arithmetic::div_mod::lemma_fundamental_div_mod(x, a);
    let up = aligned_up(x, a);
    let y = before.grant.base + other;
    vstd::arithmetic::div_mod::lemma_fundamental_div_mod(y, a);
    let q = x / a;
    let p = y / a;
    if x % a != 0 {
        assert(up == a * (q + 1)) by (nonlinear_arith)
            requires
                x == a * q + x % a,
                up == x + a - x % a,
        ;
        vstd::arithmetic::div_mod::lemma_mod_multiples_basic(q + 1, a);
        assert((q + 1) * a == a * (q + 1)) by (nonlinear_arith);
        assert(p >= q + 1) by (nonlinear_arith)
            requires
                a * p >= a * q + x % a,
                x % a > 0,
                a > 0,
        ;
        assert(a * p >= a * (q + 1)) by (nonlinear_arith)
            requires
                p >= q + 1,
                a > 0,
        ;
    }
}

} // verus!
