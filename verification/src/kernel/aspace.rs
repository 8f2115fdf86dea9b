//! A cell's page map, as far as the kernel's bookkeeping reads it.

use std::collections::HashMap;
use vstd::prelude::*;
use crate::kernel::frames::FRAME_SIZE;

verus! {

broadcast use vstd::std_specs::hash::group_hash_axioms;

/// What a cell may do with a page.
#[derive(Copy, Clone, PartialEq, Eq, Debug, Structural)]
pub enum MapPerm {
    UserRo,
    UserRw,
}

/// One mapped page: its frame and what the cell may do with it.
#[derive(Copy, Clone, PartialEq, Eq, Debug, Structural)]
pub struct Page {
    pub pa: u64,
    pub perm: MapPerm,
}

/// The pages a cell has mapped, by page address.
pub struct AddressSpace {
    pages: HashMap<u64, Page>,
}

impl View for AddressSpace {
    type V = Map<u64, Page>;

    closed spec fn view(&self) -> Map<u64, Page> {
        self.pages@
    }
}

impl AddressSpace {
    /// An address space with nothing mapped.
    pub fn new() -> (a: AddressSpace)
        ensures
            a@ == Map::<u64, Page>::empty(),
    {
        AddressSpace { pages: HashMap::new() }
    }

    /// Whether the page at `va` is mapped.
    pub fn is_mapped(&self, va: u64) -> (yes: bool)
        ensures
            yes == self@.dom().contains(va),
    {
        self.pages.contains_key(&va)
    }

    /// The page at `va`, if it is mapped.
    pub fn lookup(&self, va: u64) -> (p: Option<Page>)
        ensures
            p == page_at(self@, va),
    {
        match self.pages.get(&va) {
            Some(p) => Some(*p),
            None => None,
        }
    }

    /// Map the page at `va` onto the frame `pa`.
    pub fn map_user_frame(&mut self, va: u64, pa: u64, perm: MapPerm)
        ensures
            final(self)@ == old(self)@.insert(va, (Page { pa, perm })),
    {
        self.pages.insert(va, Page { pa, perm });
    }

    /// Unmap the page at `va` and hand its frame back.
    pub fn unmap(&mut self, va: u64) -> (pa: Option<u64>)
        ensures
            final(self)@ == old(self)@.remove(va),
            pa == (match page_at(old(self)@, va) {
                Some(p) => Some(p.pa),
                None => None,
            }),
    {
        match self.pages.remove(&va) {
            Some(p) => Some(p.pa),
            None => {
                assert(self@ =~= old(self)@.remove(va));
                None
            },
        }
    }

    /// Change what the cell may do with the page at `va`, if it is mapped.
    pub fn protect(&mut self, va: u64, perm: MapPerm)
        ensures
            final(self)@ == protected(old(self)@, va, perm),
    {
        if let Some(p) = self.lookup(va) {
            self.pages.insert(va, Page { pa: p.pa, perm });
        }
    }
}

/// The page at `va`, if it is mapped.
pub open spec fn page_at(pages: Map<u64, Page>, va: u64) -> Option<Page> {
    if pages.dom().contains(va) {
        Some(pages[va])
    } else {
        None
    }
}

/// The page map with the permission of one page changed.
pub open spec fn protected(pages: Map<u64, Page>, va: u64, perm: MapPerm) -> Map<u64, Page> {
    if pages.dom().contains(va) {
        pages.insert(va, Page { pa: pages[va].pa, perm })
    } else {
        pages
    }
}

/// The start of the page that holds `va`.
pub open spec fn page_floor(va: int) -> int {
    va - va % (FRAME_SIZE as int)
}

/// The start of the page that holds `va`.
pub fn page_base(va: u64) -> (base: u64)
    ensures
        base == page_floor(va as int),
        base <= va < base + FRAME_SIZE,
        base % FRAME_SIZE == 0,
{
    va - va % FRAME_SIZE
}

/// Pages needed for `len` bytes.
pub open spec fn pages_in(len: int) -> int {
    (len + FRAME_SIZE - 1) / FRAME_SIZE as int
}

/// Pages needed for `len` bytes.
pub fn page_count(len: u64) -> (n: u64)
    ensures
        n == pages_in(len as int),
        n <= len,
        len <= n * FRAME_SIZE,
        n * FRAME_SIZE < len + FRAME_SIZE,
{
    if len == 0 {
        0
    } else {
        (len - 1) / FRAME_SIZE + 1
    }
}

/// Whether `va` is one of the `n` pages from `base` on.
pub open spec fn in_pages(va: u64, base: u64, n: int) -> bool {
    &&& base <= va < base + n * FRAME_SIZE
    &&& (va - base) % (FRAME_SIZE as int) == 0
}

} // verus!
