//! Which cell-supplied addresses the kernel may touch.
//!
//! Two questions are kept apart: whether a range may be addressed at all
//! ([`readable`], [`writable`]), and whether its pages are ready for what the
//! kernel is about to do (a lazily mapped page is filled first, and a shared
//! page is made private before a write).

use vstd::prelude::*;
use crate::kernel::aspace::{page_base, page_floor};
use crate::kernel::frames::FRAME_SIZE;
use crate::kernel::machine::Machine;

verus! {

/// What the kernel is about to do with a range.
#[derive(Copy, Clone, PartialEq, Eq, Debug, Structural)]
pub enum Access {
    Read,
    Write,
}

/// What the pager answers for one page of a lazily mapped cell.
#[derive(Copy, Clone, PartialEq, Eq, Debug, Structural)]
pub struct PageAnswer {
    /// The page is shared until the first write.
    pub cow: bool,
    /// A shared page could be made private.
    pub unshared: bool,
    /// The page is there.
    pub mapped: bool,
    /// A page that was not there could be filled.
    pub filled: bool,
}

impl PageAnswer {
    /// Whether the page is ready for the access.
    pub open spec fn usable(&self, how: Access) -> bool {
        &&& how == Access::Write && self.cow ==> self.unshared
        &&& self.mapped || self.filled
    }
}

/// How the calling cell's pages come to be present.
pub enum Paging {
    /// A native cell, or no cell: everything is mapped from the start.
    Eager,
    /// A lazily mapped cell, with the pager's answer for each page of the range,
    /// in order.
    Lazy(Vec<PageAnswer>),
}

/// Pages the kernel has filled on cells' behalf.
pub struct Prefaults {
    count: u64,
}

impl Prefaults {
    pub closed spec fn filled(&self) -> u64 {
        self.count
    }

    pub fn new() -> (p: Prefaults)
        ensures
            p.filled() == 0,
    {
        Prefaults { count: 0 }
    }
}

/// How many pages have been filled so far, modulo the counter's range.
pub fn prefaults(p: &Prefaults) -> (n: u64)
    ensures
        n == p.filled(),
{
    p.count
}

/// Pages that `[va, va + len)` touches.
pub open spec fn touched_pages(va: int, len: int) -> int {
    if len <= 0 {
        0
    } else {
        (page_floor(va + len - 1) - page_floor(va)) / (FRAME_SIZE as int) + 1
    }
}

/// The first of `n` pages that is not ready, or `n`.
pub open spec fn ready_pages(answers: Seq<PageAnswer>, how: Access, n: nat) -> nat
    decreases n,
{
    if n == 0 {
        0
    } else {
        let before = ready_pages(answers, how, (n - 1) as nat);
        if before < n - 1 {
            before
        } else if answers[n - 1].usable(how) {
            n
        } else {
            before
        }
    }
}

/// How many of the first `n` pages had to be filled.
pub open spec fn filled_pages(answers: Seq<PageAnswer>, n: nat) -> nat
    decreases n,
{
    if n == 0 {
        0
    } else {
        filled_pages(answers, (n - 1) as nat) + if answers[n - 1].mapped {
            0nat
        } else {
            1nat
        }
    }
}

/// The bytes of `[va, va + len)` that lie before page number `k` of the range.
pub open spec fn bytes_before(va: int, len: int, k: int) -> int {
    let at = page_floor(va) + k * FRAME_SIZE;
    if k >= touched_pages(va, len) {
        len
    } else if at <= va {
        0
    } else {
        at - va
    }
}

/// Leading bytes of `[va, va + len)` that are usable once everything that can be
/// made ready has been.
pub open spec fn usable_prefix(paging: &Paging, va: u64, len: u64, how: Access) -> int {
    if len == 0 || va == 0 {
        0
    } else {
        match paging {
            Paging::Eager => len as int,
            Paging::Lazy(answers) => if va + len - 1 > u64::MAX {
                0
            } else {
                bytes_before(
                    va as int,
                    len as int,
                    ready_pages(answers@, how, touched_pages(va as int, len as int) as nat) as int,
                )
            },
        }
    }
}

/// Pages filled to make the prefix usable.
pub open spec fn pages_filled(paging: &Paging, va: u64, len: u64, how: Access) -> int {
    if len == 0 || va == 0 {
        0
    } else {
        match paging {
            Paging::Eager => 0,
            Paging::Lazy(answers) => if va + len - 1 > u64::MAX {
                0
            } else {
                filled_pages(
                    answers@,
                    ready_pages(answers@, how, touched_pages(va as int, len as int) as nat),
                ) as int
            },
        }
    }
}

/// The pager has answered for every page of the range. An empty range has none.
pub open spec fn answered(paging: &Paging, va: u64, len: u64) -> bool {
    match paging {
        Paging::Eager => true,
        Paging::Lazy(answers) => len == 0 || {
            &&& va + len <= u64::MAX - FRAME_SIZE
            &&& answers@.len() >= touched_pages(va as int, len as int)
        },
    }
}

/// The fill counter moved by `n`.
pub open spec fn fills_counted(before: &Prefaults, after: &Prefaults, n: int) -> bool {
    after.filled() as int == (before.filled() + n) % 0x1_0000_0000_0000_0000
}

/// Whether all of `[va, va + len)` is usable.
pub open spec fn ready(paging: &Paging, va: u64, len: u64, how: Access) -> bool {
    usable_prefix(paging, va, len, how) == len
}

proof fn lemma_ready_pages(answers: Seq<PageAnswer>, how: Access, k: nat, n: nat)
    requires
        k < n,
        ready_pages(answers, how, k) == k,
        !answers[k as int].usable(how),
    ensures
        ready_pages(answers, how, n) == k,
    decreases n,
{
    if k + 1 < n {
        lemma_ready_pages(answers, how, k, (n - 1) as nat);
    }
}

/// Leading bytes of `[va, va + len)` that are usable for `how` after filling,
/// and for a write making private, what can be.
fn present_prefix(
    counter: &mut Prefaults,
    paging: &Paging,
    va: u64,
    len: u64,
    how: Access,
) -> (n: u64)
    requires
        answered(paging, va, len),
    ensures
        n == usable_prefix(paging, va, len, how),
        fills_counted(old(counter), final(counter), pages_filled(paging, va, len, how)),
{
    if len == 0 || va == 0 {
        return 0;
    }
    match paging {
        Paging::Eager => len,
        Paging::Lazy(answers) => {
            let first: u64 = page_base(va);
            let last: u64 = page_base(va + (len - 1));
            let ghost total = touched_pages(va as int, len as int);
            let mut page: u64 = first;
            let mut k: usize = 0;
            proof {
                assert(first as int % (FRAME_SIZE as int) == 0);
                assert(last as int % (FRAME_SIZE as int) == 0);
                assert(last == first + (total - 1) * FRAME_SIZE);
            }
            while page <= last
                invariant
                    paging matches Paging::Lazy(a) && a == answers,
                    answered(paging, va, len),
                    len > 0,
                    va != 0,
                    first == page_floor(va as int),
                    first <= va < first + FRAME_SIZE,
                    total == touched_pages(va as int, len as int),
                    last == first + (total - 1) * FRAME_SIZE,
                    last <= va + len - 1,
                    page == first + k * FRAME_SIZE,
                    k <= total,
                    ready_pages(answers@, how, k as nat) == k,
                    fills_counted(old(counter), counter, filled_pages(answers@, k as nat) as int),
                decreases last + FRAME_SIZE - page,
            {
                let have: usize = answers.len();
                assert(k < have);
                let a: PageAnswer = answers[k];
                if how == Access::Write && a.cow && !a.unshared {
                    proof {
                        lemma_ready_pages(answers@, how, k as nat, total as nat);
                    }
                    return if page <= va { 0 } else { page - va };
                }
                if !a.mapped {
                    if !a.filled {
                        proof {
                            lemma_ready_pages(answers@, how, k as nat, total as nat);
                        }
                        return if page <= va { 0 } else { page - va };
                    }
                    counter.count = counter.count.wrapping_add(1);
                }
                page = page + FRAME_SIZE;
                k = k + 1;
            }
            len
        },
    }
}

/// Whether `[va, va + len)` may be read: it is empty, or it is not at null, does
/// not wrap, and lies below the top of the user range or in the user window.
pub open spec fn may_read(m: &Machine, va: u64, len: u64) -> bool {
    len == 0 || {
        &&& va != 0
        &&& va + len <= u64::MAX
        &&& va + len <= m.user_va_max || (m.window_start <= va && va + len <= m.window_end)
    }
}

/// Whether `[va, va + len)` may be written: as for reading, but only in the data
/// part of the user window.
pub open spec fn may_write(m: &Machine, va: u64, len: u64) -> bool {
    len == 0 || {
        &&& va != 0
        &&& va + len <= u64::MAX
        &&& va + len <= m.user_va_max || (m.data_start <= va && va + len <= m.window_end)
    }
}

/// Whether the kernel may write `[va, va + len)` of the calling cell.
pub fn writable(m: &Machine, va: u64, len: u64) -> (yes: bool)
    ensures
        yes == may_write(m, va, len),
{
    if len == 0 {
        return true;
    }
    if va == 0 {
        return false;
    }
    match va.checked_add(len) {
        None => false,
        Some(end) => {
            if end <= m.user_va_max {
                true
            } else {
                va >= m.data_start && end <= m.window_end
            }
        },
    }
}

/// Whether the kernel may read `[va, va + len)` of the calling cell.
pub fn readable(m: &Machine, va: u64, len: u64) -> (yes: bool)
    ensures
        yes == may_read(m, va, len),
{
    if len == 0 {
        return true;
    }
    if va == 0 {
        return false;
    }
    match va.checked_add(len) {
        None => false,
        Some(end) => {
            if end <= m.user_va_max {
                true
            } else {
                va >= m.window_start && end <= m.window_end
            }
        },
    }
}

/// The address for a value of `size` bytes that the kernel writes at `va`, or
/// `None` when it is misaligned, out of bounds or cannot be made ready.
pub fn out_ptr(
    m: &Machine,
    counter: &mut Prefaults,
    paging: &Paging,
    va: u64,
    size: u64,
    align: u64,
) -> (p: Option<u64>)
    requires
        m.wf(),
        align > 0,
        may_write(m, va, size) ==> answered(paging, va, size),
    ensures
        p == (if va % align == 0 && may_write(m, va, size) && ready(
            paging,
            va,
            size,
            Access::Write,
        ) {
            Some(va)
        } else {
            None
        }),
        fills_counted(
            old(counter),
            final(counter),
            if va % align == 0 && may_write(m, va, size) {
                pages_filled(paging, va, size, Access::Write)
            } else {
                0
            },
        ),
{
    if va % align != 0 {
        return None;
    }
    if !writable(m, va, size) {
        return None;
    }
    if present_prefix(counter, paging, va, size, Access::Write) != size {
        return None;
    }
    Some(va)
}

/// The address of a value of `size` bytes that the kernel reads at `va`, or
/// `None` when it is misaligned, out of bounds or cannot be made ready.
pub fn in_ptr(
    m: &Machine,
    counter: &mut Prefaults,
    paging: &Paging,
    va: u64,
    size: u64,
    align: u64,
) -> (p: Option<u64>)
    requires
        m.wf(),
        align > 0,
        may_read(m, va, size) ==> answered(paging, va, size),
    ensures
        p == (if va % align == 0 && may_read(m, va, size) && ready(paging, va, size, Access::Read) {
            Some(va)
        } else {
            None
        }),
        fills_counted(
            old(counter),
            final(counter),
            if va % align == 0 && may_read(m, va, size) {
                pages_filled(paging, va, size, Access::Read)
            } else {
                0
            },
        ),
{
    if va % align != 0 {
        return None;
    }
    if !readable(m, va, size) {
        return None;
    }
    if present_prefix(counter, paging, va, size, Access::Read) != size {
        return None;
    }
    Some(va)
}

/// A byte buffer that the kernel may read: its address, or `None`.
pub fn buf(m: &Machine, counter: &mut Prefaults, paging: &Paging, va: u64, len: u64) -> (p: Option<
    u64,
>)
    requires
        may_read(m, va, len) ==> answered(paging, va, len),
    ensures
        p == (if may_read(m, va, len) && ready(paging, va, len, Access::Read) {
            Some(va)
        } else {
            None
        }),
        fills_counted(
            old(counter),
            final(counter),
            if may_read(m, va, len) {
                pages_filled(paging, va, len, Access::Read)
            } else {
                0
            },
        ),
{
    if readable(m, va, len) && present_prefix(counter, paging, va, len, Access::Read) == len {
        Some(va)
    } else {
        None
    }
}

/// A byte buffer that the kernel may write: its address, or `None`.
pub fn buf_mut(
    m: &Machine,
    counter: &mut Prefaults,
    paging: &Paging,
    va: u64,
    len: u64,
) -> (p: Option<u64>)
    requires
        may_write(m, va, len) ==> answered(paging, va, len),
    ensures
        p == (if may_write(m, va, len) && ready(paging, va, len, Access::Write) {
            Some(va)
        } else {
            None
        }),
        fills_counted(
            old(counter),
            final(counter),
            if may_write(m, va, len) {
                pages_filled(paging, va, len, Access::Write)
            } else {
                0
            },
        ),
{
    if writable(m, va, len) && present_prefix(counter, paging, va, len, Access::Write) == len {
        Some(va)
    } else {
        None
    }
}

/// Bytes from `va` to the end of the user range it lies in, at most `max`.
pub open spec fn room_at(m: &Machine, va: u64, max: u64) -> int {
    let room = if va == 0 {
        0
    } else if va < m.user_va_max {
        m.user_va_max - va
    } else if m.window_start <= va < m.window_end {
        m.window_end - va
    } else {
        0
    };
    if room < max {
        room
    } else {
        max as int
    }
}

/// The largest `n <= max` for which `[va, va + n)` may be read, for a string
/// whose length the caller does not state.
pub fn read_span(
    m: &Machine,
    counter: &mut Prefaults,
    paging: &Paging,
    va: u64,
    max: u64,
) -> (n: u64)
    requires
        va < m.user_va_max ==> answered(paging, va, room_at(m, va, max) as u64),
    ensures
        n == (if 0 < va < m.user_va_max {
            usable_prefix(paging, va, room_at(m, va, max) as u64, Access::Read)
        } else {
            room_at(m, va, max)
        }),
        fills_counted(
            old(counter),
            final(counter),
            if 0 < va < m.user_va_max {
                pages_filled(paging, va, room_at(m, va, max) as u64, Access::Read)
            } else {
                0
            },
        ),
{
    if va == 0 {
        return 0;
    }
    if va < m.user_va_max {
        let room: u64 = m.user_va_max - va;
        let span: u64 = if room < max { room } else { max };
        return present_prefix(counter, paging, va, span, Access::Read);
    }
    if va >= m.window_start && va < m.window_end {
        let room: u64 = m.window_end - va;
        return if room < max { room } else { max };
    }
    0
}

/// What a whole access comes to.
#[derive(Copy, Clone, PartialEq, Eq, Debug, Structural)]
pub enum Touch {
    /// There is nothing to touch, and that is fine.
    Nothing,
    /// The access is refused.
    Refused,
    /// The access may go ahead at this address.
    At(u64),
}

/// Whether `len` bytes may be copied in from `va`.
pub fn copy_in(m: &Machine, counter: &mut Prefaults, paging: &Paging, len: u64, va: u64) -> (t:
    Touch)
    requires
        may_read(m, va, len) ==> answered(paging, va, len),
    ensures
        t == (if len == 0 {
            Touch::Nothing
        } else if may_read(m, va, len) && ready(paging, va, len, Access::Read) {
            Touch::At(va)
        } else {
            Touch::Refused
        }),
        fills_counted(
            old(counter),
            final(counter),
            if may_read(m, va, len) {
                pages_filled(paging, va, len, Access::Read)
            } else {
                0
            },
        ),
{
    if len == 0 {
        return Touch::Nothing;
    }
    match buf(m, counter, paging, va, len) {
        Some(at) => Touch::At(at),
        None => Touch::Refused,
    }
}

/// Whether `len` bytes may be copied out to `va`.
pub fn copy_out(m: &Machine, counter: &mut Prefaults, paging: &Paging, va: u64, len: u64) -> (t:
    Touch)
    requires
        may_write(m, va, len) ==> answered(paging, va, len),
    ensures
        t == (if len == 0 {
            Touch::Nothing
        } else if may_write(m, va, len) && ready(paging, va, len, Access::Write) {
            Touch::At(va)
        } else {
            Touch::Refused
        }),
        fills_counted(
            old(counter),
            final(counter),
            if may_write(m, va, len) {
                pages_filled(paging, va, len, Access::Write)
            } else {
                0
            },
        ),
{
    if len == 0 {
        return Touch::Nothing;
    }
    match buf_mut(m, counter, paging, va, len) {
        Some(at) => Touch::At(at),
        None => Touch::Refused,
    }
}

/// Whether `len` bytes at `va` may be filled with one value.
pub fn fill(m: &Machine, counter: &mut Prefaults, paging: &Paging, va: u64, len: u64) -> (t: Touch)
    requires
        may_write(m, va, len) ==> answered(paging, va, len),
    ensures
        t == (if len == 0 {
            Touch::Nothing
        } else if may_write(m, va, len) && ready(paging, va, len, Access::Write) {
            Touch::At(va)
        } else {
            Touch::Refused
        }),
        fills_counted(
            old(counter),
            final(counter),
            if may_write(m, va, len) {
                pages_filled(paging, va, len, Access::Write)
            } else {
                0
            },
        ),
{
    copy_out(m, counter, paging, va, len)
}

/// Whatever may be written may be read.
pub proof fn law_writable_is_readable(m: &Machine, va: u64, len: u64)
    requires
        m.wf(),
        may_write(m, va, len),
    ensures
        may_read(m, va, len),
{
}

/// A part of a readable range is readable, and a part of a writable range is
/// writable.
pub proof fn law_part_of_range(m: &Machine, va: u64, len: u64, part_va: u64, part_len: u64)
    requires
        m.wf(),
        va <= part_va,
        part_va + part_len <= va + len,
    ensures
        may_read(m, va, len) ==> may_read(m, part_va, part_len),
        may_write(m, va, len) ==> may_write(m, part_va, part_len),
{
}

/// The bytes that [`read_span`] reports may all be read.
pub proof fn law_span_is_readable(m: &Machine, va: u64, max: u64)
    requires
        m.wf(),
    ensures
        0 <= room_at(m, va, max) <= max,
        may_read(m, va, room_at(m, va, max) as u64),
{
}

/// No more of a range is ever reported usable than it has bytes.
pub proof fn law_prefix_is_bounded(paging: &Paging, va: u64, len: u64, how: Access)
    ensures
        0 <= usable_prefix(paging, va, len, how) <= len,
{
    if let Paging::Lazy(answers) = paging {
        if len > 0 && va > 0 && va + len - 1 <= u64::MAX {
            let total = touched_pages(va as int, len as int);
            lemma_ready_bounded(answers@, how, total as nat);
            let k = ready_pages(answers@, how, total as nat) as int;
            assert(page_floor(va as int) + k * FRAME_SIZE <= page_floor(va + len - 1) + FRAME_SIZE);
        }
    }
}

proof fn lemma_ready_bounded(answers: Seq<PageAnswer>, how: Access, n: nat)
    ensures
        ready_pages(answers, how, n) <= n,
    decreases n,
{
    if n > 0 {
        lemma_ready_bounded(answers, how, (n - 1) as nat);
    }
}

/// Only a cell's own memory can be reached: every byte of a range that may be read lies
/// below the end of user memory or in the window, never at 0, and every byte that may be
/// written lies there from the window's data on. A range inside user memory is reachable.
pub proof fn law_only_user_memory_is_reached(m: &Machine, va: u64, len: u64, x: int)
    requires
        len > 0,
        va <= x < va + len,
    ensures
        may_read(m, va, len) ==> x != 0 && (x < m.user_va_max || (m.window_start <= x && x < m.window_end)),
        may_write(m, va, len) ==> x != 0 && (x < m.user_va_max || (m.data_start <= x && x < m.window_end)),
        va != 0 && va + len <= m.user_va_max ==> may_read(m, va, len) && may_write(m, va, len),
        va != 0 && m.window_start <= va && va + len <= m.window_end ==> may_read(m, va, len),
        va == 0 ==> !may_read(m, va, len) && !may_write(m, va, len),
        va + len > u64::MAX ==> !may_read(m, va, len) && !may_write(m, va, len),
{
}

proof fn lemma_ready_shape(answers: Seq<PageAnswer>, how: Access, n: nat)
    ensures
        ready_pages(answers, how, n) <= n,
        forall|k: int| 0 <= k < ready_pages(answers, how, n) ==> #[trigger] answers[k].usable(how),
        ready_pages(answers, how, n) < n ==> !answers[ready_pages(answers, how, n) as int].usable(how),
    decreases n,
{
    if n > 0 {
        lemma_ready_shape(answers, how, (n - 1) as nat);
    }
}

/// The usable prefix of a lazily filled range ends at the first page that is not usable,
/// and nowhere else: every byte before it lies in a page that can be used as asked, and
/// the byte after it, where there is one, lies in a page that cannot.
pub proof fn law_prefix_ends_at_the_first_hole(answers: &Vec<PageAnswer>, va: u64, len: u64, how: Access, x: int)
    requires
        va > 0,
        len > 0,
        va + len <= u64::MAX,
    ensures
        ({
            let n = usable_prefix(&Paging::Lazy(*answers), va, len, how);
            let first = va as int / 4096;
            &&& 0 <= n <= len
            &&& va <= x < va + n ==> answers@[x / 4096 - first].usable(how)
            &&& n < len ==> !answers@[(va + n) / 4096 - first].usable(how)
        }),
{
    let t = touched_pages(va as int, len as int);
    lemma_ready_shape(answers@, how, t as nat);
    let k = ready_pages(answers@, how, t as nat) as int;
    let n = usable_prefix(&Paging::Lazy(*answers), va, len, how);
    if va <= x < va + n {
        assert(0 <= x / 4096 - va as int / 4096 < k);
        assert(answers@[x / 4096 - va as int / 4096].usable(how));
    }
    if n < len {
        assert((va + n) / 4096 - va as int / 4096 == k);
    }
}

/// A page is filled only where it was missing, and only as far as the range can be used: no
/// page is filled of memory that is always there, and each page before the first that cannot
/// be used is filled exactly where it was not mapped.
pub proof fn law_only_missing_pages_are_filled(answers: Seq<PageAnswer>, n: nat, va: u64, len: u64, how: Access)
    requires
        n > 0,
    ensures
        pages_filled(&Paging::Eager, va, len, how) == 0,
        filled_pages(answers, n) <= n,
        answers[n - 1].mapped ==> filled_pages(answers, n) == filled_pages(answers, (n - 1) as nat),
        !answers[n - 1].mapped ==> filled_pages(answers, n) == filled_pages(answers, (n - 1) as nat) + 1,
        filled_pages(answers, 0) == 0,
    decreases n,
{
    reveal_with_fuel(filled_pages, 2);
    if n > 1 {
        law_only_missing_pages_are_filled(answers, (n - 1) as nat, va, len, how);
    }
}

/// What was filled is counted.
pub proof fn law_fills_are_counted(before: &Prefaults, after: &Prefaults, n: int)
    requires
        fills_counted(before, after, n),
        0 <= n,
        before.filled() + n <= u64::MAX,
    ensures
        after.filled() == before.filled() + n,
{
}

/// A span is as long as it was asked for, or ends where the memory does: nothing of user memory
/// or of the window that was asked for is left out, and outside of both there is none.
pub proof fn law_span_is_as_long_as_can_be(m: &Machine, va: u64, max: u64)
    ensures
        0 <= room_at(m, va, max) <= max,
        0 < va < m.user_va_max ==> room_at(m, va, max) == max || va + room_at(m, va, max) == m.user_va_max,
        va >= m.user_va_max && va > 0 && m.window_start <= va < m.window_end ==> room_at(m, va, max) == max || va
            + room_at(m, va, max) == m.window_end,
        va == 0 ==> room_at(m, va, max) == 0,
        va >= m.user_va_max && !(m.window_start <= va < m.window_end) ==> room_at(m, va, max) == 0,
{
}

} // verus!
