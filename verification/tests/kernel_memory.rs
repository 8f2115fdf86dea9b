use rheo::kernel::admission::{Admission, AdmitError, Reservation};
use rheo::kernel::aspace::{page_base, page_count, AddressSpace, MapPerm, Page};
use rheo::kernel::capability::{
    CapError, CapTable, ObjectKind, ObjectTable, ALL, BUDGET_UNLIMITED, DELEGATE, MAP, READ, REVOKE,
    WRITE,
};
use rheo::kernel::frames::{FramePool, USER_RESERVE_FRAMES};
use rheo::kernel::grants::{
    grant_commit, grant_create, grant_decommit, grant_seal, grant_share, kind_name, sys_munmap, Fallback,
    Notice,
};
use rheo::kernel::machine::{Machine, FILEMMAP_BASE, GRANT_BASE, MMAP_BASE};
use rheo::kernel::memory::{
    alloc_user_frame, cell_frames_charged, commit_range, free_user_frame, map_anon_at, mmap_anon,
    mmap_file, protect_range, unmap_range, Memory, MAX_GRANTS_PER_CELL, REFUSED,
};
use rheo::kernel::pages::{map_fresh, unmap_pages};
use rheo::kernel::reserve::{reserve_admit, reserve_release, BAD_PARAMS, MEMORY_FLOOR, OVERCOMMIT};
use rheo::kernel::uaccess::{
    buf, buf_mut, copy_in, copy_out, fill, in_ptr, out_ptr, prefaults, read_span, readable, writable,
    PageAnswer, Paging, Prefaults, Touch,
};
use rheo::kernel::vaspace::{RegionKind, VaError, VaSpace};

fn machine() -> Machine {
    Machine {
        user_va_max: 0x40_0000_0000,
        window_start: 0xffff_8000_0000_0000,
        data_start: 0xffff_8000_0000_4000,
        window_end: 0xffff_8000_0000_8000,
        nodes_known: 1,
        queue_region: 0x4000,
        channels: 4,
    }
}

fn memory(frames: usize, pmem: usize) -> Memory {
    let ddr = FramePool::new(0x1000_0000, vec![0; frames]).unwrap();
    let pool = FramePool::new(0x80_0000_0000, vec![0; pmem]).unwrap();
    let mut mem = Memory::new(ddr, pool, 256, 64, 64);
    for c in 0..4 {
        mem.cells[c].present = true;
        mem.cells[c].tables = true;
    }
    mem
}

const OUT: u64 = 0x10_0000;

#[test]
fn reservations_are_admitted_up_to_the_whole() {
    let mut a = Admission::new();
    assert_eq!(a.try_admit(3, 10, 10), Ok(Reservation { ppm: 300_000 }));
    assert_eq!(a.try_admit(8, 10, 10), Err(AdmitError::Overcommit));
    assert_eq!(a.committed_ppm(), 300_000);
    assert_eq!(a.try_admit(7, 10, 10), Ok(Reservation { ppm: 700_000 }));
    assert_eq!(a.committed_ppm(), 1_000_000);
    assert_eq!(a.try_admit(1, 1_000_000, 10), Err(AdmitError::Overcommit));
}

#[test]
fn reservations_that_make_no_sense_are_refused() {
    let mut a = Admission::new();
    assert_eq!(a.try_admit(20, 10, 20), Err(AdmitError::BadParams));
    assert_eq!(a.try_admit(0, 10, 10), Err(AdmitError::BadParams));
    assert_eq!(a.try_admit(1, 0, 10), Err(AdmitError::BadParams));
    assert_eq!(a.try_admit(5, 10, 4), Err(AdmitError::BadParams));
    assert_eq!(a.committed_ppm(), 0);
}

#[test]
fn releasing_a_reservation_undoes_it() {
    let mut a = Admission::new();
    a.try_admit(1, 4, 4).unwrap();
    let before = a.committed_ppm();
    let r = a.try_admit(1, 3, 3).unwrap();
    assert_eq!(r.ppm, 333_333);
    a.release(&r);
    assert_eq!(a.committed_ppm(), before);
}

#[test]
fn pages_are_mapped_looked_up_and_unmapped() {
    let mut a = AddressSpace::new();
    assert!(!a.is_mapped(0x1000));
    a.map_user_frame(0x1000, 0x7000, MapPerm::UserRw);
    assert_eq!(a.lookup(0x1000), Some(Page { pa: 0x7000, perm: MapPerm::UserRw }));
    a.protect(0x1000, MapPerm::UserRo);
    assert_eq!(a.lookup(0x1000), Some(Page { pa: 0x7000, perm: MapPerm::UserRo }));
    assert_eq!(a.unmap(0x1000), Some(0x7000));
    assert_eq!(a.unmap(0x1000), None);
    a.protect(0x1000, MapPerm::UserRo);
    assert!(!a.is_mapped(0x1000));
}

#[test]
fn pages_are_rounded() {
    assert_eq!(page_base(0x1fff), 0x1000);
    assert_eq!(page_base(0x2000), 0x2000);
    assert_eq!(page_count(0), 0);
    assert_eq!(page_count(1), 1);
    assert_eq!(page_count(4096), 1);
    assert_eq!(page_count(4097), 2);
}

#[test]
fn frames_are_taken_and_freed() {
    let mut p = FramePool::new(0x1000, vec![0, 1, 0]).unwrap();
    assert_eq!(p.stats(), (3, 3));
    assert_eq!(p.take_frame(), Some(0x1000));
    assert_eq!(p.take_frame_on(0), Some(0x3000));
    // Another node's frame is better than none.
    assert_eq!(p.take_frame_on(0), Some(0x2000));
    assert_eq!(p.take_frame_on(1), None);
    assert_eq!(p.take_frame(), None);
    assert_eq!(p.free_frames(), 0);
    assert!(p.free_if_pool(0x2000));
    assert_eq!(p.free_frames(), 1);
    assert!(!p.free_if_pool(0x9000));
    assert!(p.contains(0x3fff));
    assert!(!p.contains(0x4000));
    assert_eq!(p.take_frame(), Some(0x2000));
}

#[test]
fn frames_beyond_the_address_space_are_no_pool() {
    assert!(FramePool::new(u64::MAX - 4095, vec![0]).is_none());
    assert!(FramePool::new(u64::MAX - 4096, vec![0]).is_some());
}

#[test]
fn cells_leave_the_kernel_its_reserve() {
    let p = FramePool::new(0, vec![0; USER_RESERVE_FRAMES + 3]).unwrap();
    assert_eq!(p.user_available(), 3);
    let p = FramePool::new(0, vec![0; 10]).unwrap();
    assert_eq!(p.user_available(), 0);
}

#[test]
fn capabilities_are_minted_and_inspected() {
    let mut objects = ObjectTable::new(4);
    let o = objects.create(ObjectKind::Queue).unwrap();
    let mut caps = CapTable::new(2);
    let h = caps.mint(&objects, o, READ | WRITE, 5).unwrap();
    let c = caps.inspect_low32(&objects, h).unwrap();
    assert_eq!((c.object, c.rights, c.budget), (o, READ | WRITE, 5));
    assert_eq!(caps.inspect_low32(&objects, 9), Err(CapError::BadHandle));
    assert_eq!(caps.live_count(), 1);
    caps.mint(&objects, o, READ, 1).unwrap();
    assert_eq!(caps.mint(&objects, o, READ, 1), Err(CapError::TableFull));
}

#[test]
fn objects_run_out() {
    let mut objects = ObjectTable::new(1);
    assert_eq!(objects.create(ObjectKind::Cell), Ok(0));
    assert_eq!(objects.create(ObjectKind::Cell), Err(CapError::TooManyObjects));
    assert_eq!(objects.kind(0), ObjectKind::Cell);
}

#[test]
fn derived_capabilities_never_widen() {
    let mut objects = ObjectTable::new(4);
    let o = objects.create(ObjectKind::MemoryGrant).unwrap();
    let mut caps = CapTable::new(8);
    let all = caps.mint(&objects, o, ALL, BUDGET_UNLIMITED).unwrap();
    let ro = caps.derive_subset_low32(&objects, all, READ, 7).unwrap();
    let c = caps.inspect_low32(&objects, ro).unwrap();
    assert_eq!((c.rights, c.budget), (READ, 7));
    // It may not be handed on.
    assert_eq!(caps.derive_subset_low32(&objects, ro, READ, 7), Err(CapError::NotDelegatable));
    let rd = caps.derive_subset_low32(&objects, all, READ | DELEGATE, 7).unwrap();
    assert_eq!(caps.derive_subset_low32(&objects, rd, READ | WRITE, 7), Err(CapError::WidenAttempt));
}

#[test]
fn revoking_kills_every_copy_of_one_object() {
    let mut objects = ObjectTable::new(4);
    let o = objects.create(ObjectKind::MemoryGrant).unwrap();
    let p = objects.create(ObjectKind::Queue).unwrap();
    let mut caps = CapTable::new(8);
    let a = caps.mint(&objects, o, ALL, 1).unwrap();
    let b = caps.derive_subset_low32(&objects, a, READ, 1).unwrap();
    let c = caps.mint(&objects, p, ALL, 1).unwrap();
    objects.revoke_epoch(o);
    assert_eq!(caps.inspect_low32(&objects, a), Err(CapError::Revoked));
    assert_eq!(caps.inspect_low32(&objects, b), Err(CapError::Revoked));
    assert!(caps.inspect_low32(&objects, c).is_ok());
}

#[test]
fn a_capability_is_dropped_once() {
    let mut objects = ObjectTable::new(4);
    let o = objects.create(ObjectKind::Queue).unwrap();
    let mut caps = CapTable::new(8);
    let a = caps.mint(&objects, o, ALL, 1).unwrap();
    assert_eq!(caps.free_low32(&objects, a), Ok(()));
    assert_eq!(caps.free_low32(&objects, a), Err(CapError::BadHandle));
    // The slot is used again, under another handle.
    let b = caps.mint(&objects, o, ALL, 1).unwrap();
    assert_ne!(a, b);
    assert_eq!(caps.inspect_low32(&objects, a), Err(CapError::BadHandle));
    assert_eq!(caps.free_low32(&objects, a), Err(CapError::BadHandle));
    assert!(caps.inspect_low32(&objects, b).is_ok());
}

#[test]
fn checking_a_right_spends_the_budget() {
    let mut objects = ObjectTable::new(4);
    let o = objects.create(ObjectKind::MemoryGrant).unwrap();
    let mut caps = CapTable::new(8);
    let a = caps.mint(&objects, o, MAP | READ, 1).unwrap();
    assert_eq!(caps.grant_check_low32(&objects, a, WRITE), Err(CapError::InsufficientRights));
    assert_eq!(caps.grant_check_low32(&objects, a, MAP), Ok(o));
    assert_eq!(caps.grant_check_low32(&objects, a, MAP), Err(CapError::Exhausted));
}

#[test]
fn a_table_can_be_copied_and_cleared() {
    let mut objects = ObjectTable::new(4);
    let o = objects.create(ObjectKind::Queue).unwrap();
    let mut a = CapTable::new(8);
    let h = a.mint(&objects, o, READ | REVOKE, 1).unwrap();
    let mut b = CapTable::new(8);
    b.copy_from(&a);
    assert_eq!(b.inspect_low32(&objects, h), a.inspect_low32(&objects, h));
    a.clear();
    assert_eq!(a.live_count(), 0);
    assert_eq!(b.live_count(), 1);
    assert_ne!(a.mint(&objects, o, READ, 1).unwrap(), h);
}

#[test]
fn testing_a_right_spends_nothing() {
    let mut objects = ObjectTable::new(4);
    let o = objects.create(ObjectKind::MemoryGrant).unwrap();
    let mut caps = CapTable::new(1);
    assert!(caps.has_space() && objects.has_space());
    let a = caps.mint(&objects, o, MAP, 1).unwrap();
    assert!(!caps.has_space());
    assert_eq!(caps.test_low32(&objects, a, MAP), Ok(o));
    assert_eq!(caps.test_low32(&objects, a, MAP), Ok(o));
    assert_eq!(caps.test_low32(&objects, a, WRITE), Err(CapError::InsufficientRights));
    assert_eq!(caps.grant_check_low32(&objects, a, MAP), Ok(o));
    assert_eq!(caps.test_low32(&objects, a, MAP), Err(CapError::Exhausted));
}

#[test]
fn user_ranges_are_told_from_the_kernels() {
    let m = machine();
    assert!(writable(&m, 0x1000, 16));
    assert!(!writable(&m, 0, 16));
    assert!(writable(&m, 0, 0));
    assert!(!writable(&m, u64::MAX, 2));
    assert!(writable(&m, m.user_va_max - 8, 8));
    assert!(!writable(&m, m.user_va_max - 8, 9));
    // The window of the kernel image is readable, its data writable.
    assert!(readable(&m, m.window_start, 0x8000));
    assert!(!writable(&m, m.window_start, 0x8000));
    assert!(writable(&m, m.data_start, 0x4000));
    assert!(!readable(&m, m.window_start, 0x8001));
}

#[test]
fn pointers_to_cells_are_checked() {
    let m = machine();
    let mut c = Prefaults::new();
    assert_eq!(out_ptr(&m, &mut c, &Paging::Eager, 0x1000, 8, 8), Some(0x1000));
    assert_eq!(out_ptr(&m, &mut c, &Paging::Eager, 0x1004, 8, 8), None);
    assert_eq!(in_ptr(&m, &mut c, &Paging::Eager, m.window_start, 8, 8), Some(m.window_start));
    assert_eq!(out_ptr(&m, &mut c, &Paging::Eager, m.window_start, 8, 8), None);
    assert_eq!(buf(&m, &mut c, &Paging::Eager, 0, 4), None);
    assert_eq!(buf_mut(&m, &mut c, &Paging::Eager, 0x2000, 4), Some(0x2000));
    assert_eq!(prefaults(&c), 0);
}

#[test]
fn missing_pages_are_filled_before_they_are_touched() {
    let m = machine();
    let mut c = Prefaults::new();
    let there = PageAnswer { cow: false, unshared: false, mapped: true, filled: false };
    let filled = PageAnswer { cow: false, unshared: false, mapped: false, filled: true };
    let gone = PageAnswer { cow: false, unshared: false, mapped: false, filled: false };
    assert_eq!(buf(&m, &mut c, &Paging::Lazy(vec![there, filled]), 0x1ff0, 32), Some(0x1ff0));
    assert_eq!(prefaults(&c), 1);
    assert_eq!(buf(&m, &mut c, &Paging::Lazy(vec![there, gone]), 0x1ff0, 32), None);
    assert_eq!(read_span(&m, &mut c, &Paging::Lazy(vec![there, gone]), 0x1ff0, 32), 16);
    // Nothing is asked of the pager for an empty range, wherever it stands.
    assert_eq!(buf(&m, &mut c, &Paging::Lazy(vec![]), u64::MAX, 0), Some(u64::MAX));
}

#[test]
fn copies_check_their_ranges() {
    let m = machine();
    let mut c = Prefaults::new();
    assert_eq!(copy_in(&m, &mut c, &Paging::Eager, 0, 0), Touch::Nothing);
    assert_eq!(copy_in(&m, &mut c, &Paging::Eager, 4, 0), Touch::Refused);
    assert_eq!(copy_in(&m, &mut c, &Paging::Eager, 4, 0x1000), Touch::At(0x1000));
    assert_eq!(copy_out(&m, &mut c, &Paging::Eager, m.window_start, 4), Touch::Refused);
    assert_eq!(fill(&m, &mut c, &Paging::Eager, m.data_start, 4), Touch::At(m.data_start));
}

#[test]
fn regions_are_reserved_at_the_first_hole() {
    let mut v = VaSpace::new(3);
    assert_eq!(v.reserve_in(0x1000, 0x9000, 0x2000, RegionKind::Anon), Ok(0x1000));
    assert_eq!(v.reserve_fixed(0x4000, 0x1000, 0x9000, RegionKind::Fixed), Ok(()));
    assert_eq!(v.reserve_in(0x1000, 0x9000, 0x2000, RegionKind::Anon), Ok(0x5000));
    assert_eq!(v.reserve_in(0x1000, 0x9000, 0x1000, RegionKind::Anon), Err(VaError::NoRecord));
    assert!(v.release_at(0x4000));
    assert!(!v.release_at(0x4000));
    assert_eq!(v.reserve_in(0x1000, 0x9000, 0x9000, RegionKind::Anon), Err(VaError::NoSpace));
    assert_eq!(v.find(0x2fff).unwrap().base, 0x1000);
    assert_eq!(v.find(0x3000), None);
    assert_eq!(v.len(), 2);
}

#[test]
fn regions_may_not_overlap_or_be_empty() {
    let mut v = VaSpace::new(4);
    let top = 0x9000;
    assert_eq!(v.reserve_fixed(0x4000, 0x2000, top, RegionKind::Image), Ok(()));
    assert_eq!(v.reserve_fixed(0x5000, 0x1000, top, RegionKind::Fixed), Err(VaError::NoSpace));
    assert_eq!(v.reserve_fixed(0x8000, 0, top, RegionKind::Fixed), Err(VaError::BadRange));
    assert_eq!(v.reserve_fixed(0x8000, 0x1001, top, RegionKind::Fixed), Err(VaError::OutOfRange));
    assert_eq!(v.reserve_fixed(0x8000, 0x1000, top, RegionKind::Fixed), Ok(()));
    v.clear();
    assert_eq!(v.len(), 0);
}

#[test]
fn unmapping_undoes_mapping() {
    let mut a = AddressSpace::new();
    let mut ddr = FramePool::new(0x10_0000, vec![0; 4]).unwrap();
    let mut pmem = FramePool::new(0x20_0000, vec![]).unwrap();
    map_fresh(&mut a, &mut ddr, 0x4000, 3, MapPerm::UserRw, 0);
    assert_eq!(ddr.free_frames(), 1);
    assert!(a.is_mapped(0x6000));
    assert_eq!(unmap_pages(&mut a, &mut ddr, &mut pmem, 0x4000, 3), 3);
    assert_eq!(ddr.free_frames(), 4);
    assert!(!a.is_mapped(0x4000));
}

#[test]
fn fresh_memory_lies_near_the_cell() {
    let mut a = AddressSpace::new();
    let mut ddr = FramePool::new(0x10_0000, vec![0, 1, 0, 1]).unwrap();
    map_fresh(&mut a, &mut ddr, 0x4000, 3, MapPerm::UserRw, 1);
    let at = |va: u64| a.lookup(va).unwrap().pa;
    let mut near = [at(0x4000), at(0x5000)];
    near.sort();
    assert_eq!(near, [0x10_1000, 0x10_3000]);
    // The node has run out: the rest comes from elsewhere.
    assert!(at(0x6000) == 0x10_0000 || at(0x6000) == 0x10_2000);
}

#[test]
fn a_frame_of_no_pool_stays_mapped() {
    let mut a = AddressSpace::new();
    let mut ddr = FramePool::new(0x10_0000, vec![0; 4]).unwrap();
    let mut pmem = FramePool::new(0x20_0000, vec![]).unwrap();
    map_fresh(&mut a, &mut ddr, 0x4000, 1, MapPerm::UserRw, 0);
    a.map_user_frame(0x5000, 0x99_0000, MapPerm::UserRo);
    assert_eq!(unmap_pages(&mut a, &mut ddr, &mut pmem, 0x4000, 3), 1);
    assert!(!a.is_mapped(0x4000));
    assert_eq!(a.lookup(0x5000), Some(Page { pa: 0x99_0000, perm: MapPerm::UserRo }));
}

#[test]
fn fresh_frames_are_to_be_cleared() {
    let m = machine();
    let mut mem = memory(USER_RESERVE_FRAMES + 8, 4);
    assert!(map_anon_at(&m, &mut mem, 0, 0x20_0000, 4096, MapPerm::UserRw));
    let first = mem.cells[0].aspace.lookup(0x20_0000).unwrap().pa;
    assert!(commit_range(&m, &mut mem, 0, 0x20_0000, 8192, MapPerm::UserRw));
    let second = mem.cells[0].aspace.lookup(0x20_1000).unwrap().pa;
    let third = alloc_user_frame(&m, &mut mem, 0).unwrap();
    assert_eq!(mem.ddr.take_clear_list(), [first, second, third]);
    assert!(mem.ddr.take_clear_list().is_empty());
    let (_, info) = grant_create(&m, &mut mem, 0, OUT, 4096, 3, 0);
    let g = info.unwrap();
    grant_commit(&m, &mut mem, 0, g.cap_id as u32, 0, 4096, true);
    assert_eq!(mem.pmem.take_clear_list(), [mem.cells[0].aspace.lookup(g.base).unwrap().pa]);
}

#[test]
fn only_pages_without_a_frame_are_charged() {
    let m = machine();
    let mut mem = memory(USER_RESERVE_FRAMES + 2, 0);
    assert!(map_anon_at(&m, &mut mem, 0, 0x20_0000, 8192, MapPerm::UserRw));
    // The budget is used up, and nothing more is needed.
    assert!(commit_range(&m, &mut mem, 0, 0x20_0000, 8192, MapPerm::UserRo));
    assert_eq!(cell_frames_charged(&mem, 0), 2);
    assert_eq!(mem.cells[0].aspace.lookup(0x20_1000).unwrap().perm, MapPerm::UserRo);
    assert!(!commit_range(&m, &mut mem, 0, 0x20_0000, 3 * 4096, MapPerm::UserRw));
    assert_eq!(mem.cells[0].aspace.lookup(0x20_1000).unwrap().perm, MapPerm::UserRo);
}

#[test]
fn anonymous_memory_comes_and_goes() {
    let m = machine();
    let mut mem = memory(USER_RESERVE_FRAMES + 8, 0);
    let base = mmap_anon(&m, &mut mem, 0, 8192);
    assert_eq!(base, MMAP_BASE);
    assert_eq!(cell_frames_charged(&mem, 0), 2);
    assert!(mem.cells[0].aspace.is_mapped(base + 4096));
    // What is left does not do.
    assert_eq!(mmap_anon(&m, &mut mem, 0, 7 * 4096), 0);
    assert_eq!(cell_frames_charged(&mem, 0), 2);
    assert_eq!(sys_munmap(&m, &mut mem, 0, base, 8192), 0);
    assert_eq!(cell_frames_charged(&mem, 0), 0);
    assert!(!mem.cells[0].aspace.is_mapped(base));
    assert_eq!(mem.ddr.free_frames(), USER_RESERVE_FRAMES + 8);
}

#[test]
fn a_cell_cannot_unmap_what_it_did_not_map() {
    let m = machine();
    let mut mem = memory(USER_RESERVE_FRAMES + 8, 0);
    mmap_anon(&m, &mut mem, 0, 4096);
    assert_ne!(sys_munmap(&m, &mut mem, 1, MMAP_BASE, 4096), 0);
    assert!(mem.cells[0].aspace.is_mapped(MMAP_BASE));
}

#[test]
fn single_frames_are_charged() {
    let m = machine();
    let mut mem = memory(USER_RESERVE_FRAMES + 1, 0);
    let pa = alloc_user_frame(&m, &mut mem, 2).unwrap();
    assert_eq!(cell_frames_charged(&mem, 2), 1);
    assert_eq!(alloc_user_frame(&m, &mut mem, 2), None);
    free_user_frame(&m, &mut mem, 2, pa);
    assert_eq!(cell_frames_charged(&mem, 2), 0);
}

#[test]
fn ranges_are_mapped_committed_and_protected() {
    let m = machine();
    let mut mem = memory(USER_RESERVE_FRAMES + 16, 0);
    assert!(map_anon_at(&m, &mut mem, 0, 0x20_0000, 8192, MapPerm::UserRw));
    assert!(commit_range(&m, &mut mem, 0, 0x20_0000, 3 * 4096, MapPerm::UserRw));
    assert_eq!(cell_frames_charged(&mem, 0), 3);
    protect_range(&m, &mut mem, 0, 0x20_0000, 4096, MapPerm::UserRo);
    assert_eq!(mem.cells[0].aspace.lookup(0x20_0000).unwrap().perm, MapPerm::UserRo);
    assert_eq!(unmap_range(&m, &mut mem, 0, 0x20_0000, 3 * 4096), 3);
    assert_eq!(cell_frames_charged(&mem, 0), 0);
}

#[test]
fn file_mappings_say_what_to_read() {
    let m = machine();
    let mut mem = memory(USER_RESERVE_FRAMES + 16, 0);
    let (base, reads) = mmap_file(&m, &mut mem, 0, true, 100, 5000);
    assert_eq!(base, FILEMMAP_BASE);
    assert_eq!(reads.len(), 2);
    assert_eq!((reads[0].file_off, reads[0].want), (100, 4096));
    assert_eq!((reads[1].file_off, reads[1].want), (4196, 904));
    assert_eq!(mem.cells[0].aspace.lookup(base).unwrap().perm, MapPerm::UserRo);
    let (none, reads) = mmap_file(&m, &mut mem, 0, false, 0, 4096);
    assert_eq!((none, reads.len()), (0, 0));
}

#[test]
fn grants_are_created_committed_and_sealed() {
    let m = machine();
    let mut mem = memory(USER_RESERVE_FRAMES + 16, 0);
    let (code, info) = grant_create(&m, &mut mem, 0, OUT, 8192, 0, u64::MAX);
    assert_eq!(code, 0);
    let g = info.unwrap();
    assert_eq!(g.base, GRANT_BASE);
    let cap = g.cap_id as u32;
    assert!(!mem.cells[0].aspace.is_mapped(g.base));
    assert_eq!(grant_commit(&m, &mut mem, 0, cap, 0, 8192, false), (0, None));
    assert!(mem.cells[0].aspace.is_mapped(g.base + 4096));
    assert_eq!(grant_decommit(&m, &mut mem, 0, cap, 4096, 4096), 0);
    assert!(!mem.cells[0].aspace.is_mapped(g.base + 4096));
    assert_eq!(grant_seal(&m, &mut mem, 0, cap), 0);
    assert_eq!(mem.cells[0].aspace.lookup(g.base).unwrap().perm, MapPerm::UserRo);
    // A sealed grant does not change any more.
    assert_eq!(grant_commit(&m, &mut mem, 0, cap, 4096, 4096, false).0, REFUSED);
    assert_eq!(grant_decommit(&m, &mut mem, 0, cap, 0, 4096), REFUSED);
}

#[test]
fn grants_are_refused_without_changing_anything() {
    let m = machine();
    let mut mem = memory(USER_RESERVE_FRAMES + 16, 0);
    // No place for the answer, no length, too long, a kind that there is not.
    assert_eq!(grant_create(&m, &mut mem, 0, 0, 4096, 0, 0), (REFUSED, None));
    assert_eq!(grant_create(&m, &mut mem, 0, OUT, 0, 0, 0), (REFUSED, None));
    assert_eq!(grant_create(&m, &mut mem, 0, OUT, u64::MAX, 0, 0), (REFUSED, None));
    assert_eq!(grant_create(&m, &mut mem, 0, OUT, 4096, 6, 0).0, REFUSED);
    assert_eq!(mem.cells[0].caps.live_count(), 0);
    assert_eq!(mem.cells[0].va.len(), 0);
    assert_eq!(grant_commit(&m, &mut mem, 0, 7, 0, 4096, false), (REFUSED, None));
    assert_eq!(grant_seal(&m, &mut mem, 0, 7), REFUSED);
}

#[test]
fn memory_that_is_not_there_is_reported_once() {
    let m = machine();
    let mut mem = memory(USER_RESERVE_FRAMES + 16, 0);
    let (_, info) = grant_create(&m, &mut mem, 0, OUT, 8192, 3, u64::MAX);
    let cap = info.unwrap().cap_id as u32;
    let (code, notice) = grant_commit(&m, &mut mem, 0, cap, 0, 4096, false);
    assert_eq!(code, 0);
    assert_eq!(notice, Some(Notice { kind: 3, why: Fallback::NoNvdimm }));
    let (code, notice) = grant_commit(&m, &mut mem, 0, cap, 4096, 4096, false);
    assert_eq!((code, notice), (0, None));
}

#[test]
fn persistent_memory_is_used_where_there_is_some() {
    let m = machine();
    let mut mem = memory(USER_RESERVE_FRAMES + 16, 4);
    let (_, info) = grant_create(&m, &mut mem, 0, OUT, 8192, 3, u64::MAX);
    let g = info.unwrap();
    assert_eq!(grant_commit(&m, &mut mem, 0, g.cap_id as u32, 0, 8192, true), (0, None));
    assert_eq!(mem.pmem.free_frames(), 2);
    assert!(mem.pmem.contains(mem.cells[0].aspace.lookup(g.base).unwrap().pa));
    // A kind that is only played is reported as such.
    let (_, info) = grant_create(&m, &mut mem, 0, OUT, 4096, 1, u64::MAX);
    let (code, notice) = grant_commit(&m, &mut mem, 0, info.unwrap().cap_id as u32, 0, 4096, true);
    assert_eq!((code, notice), (0, Some(Notice { kind: 1, why: Fallback::Emulated })));
    // A device is no memory.
    assert_eq!(grant_create(&m, &mut mem, 0, OUT, 4096, 4, u64::MAX), (REFUSED, None));
}

#[test]
fn kinds_of_memory_have_names() {
    let names: Vec<&str> = (0u8..6).map(kind_name).collect();
    assert_eq!(names, ["Ddr", "Hbm", "Cxl", "Pmem", "Ddr", "Remote"]);
}

#[test]
fn only_sealed_grants_are_shared_and_only_for_reading() {
    let m = machine();
    let mut mem = memory(USER_RESERVE_FRAMES + 16, 0);
    let (_, info) = grant_create(&m, &mut mem, 0, OUT, 4096, 0, u64::MAX);
    let cap = info.unwrap().cap_id as u32;
    grant_commit(&m, &mut mem, 0, cap, 0, 4096, false);
    assert_eq!(grant_share(&m, &mut mem, 0, cap, OUT), (REFUSED, None));
    grant_seal(&m, &mut mem, 0, cap);
    let (code, share) = grant_share(&m, &mut mem, 0, cap, OUT);
    assert_eq!(code, 0);
    let s = share.unwrap();
    let mine = mem.cells[0].aspace.lookup(info.unwrap().base).unwrap();
    let theirs = mem.cells[1].aspace.lookup(s.peer_va).unwrap();
    assert_eq!(mine.pa, theirs.pa);
    assert_eq!(theirs.perm, MapPerm::UserRo);
    // It is not the other cell's to give back.
    assert_ne!(sys_munmap(&m, &mut mem, 1, s.peer_va, 4096), 0);
    // And revoking reaches it.
    let c = mem.cells[0].caps.inspect_low32(&mem.objects, cap).unwrap();
    mem.objects.revoke_epoch(c.object);
    assert_eq!(
        mem.cells[1].caps.inspect_low32(&mem.objects, s.peer_cap_id as u32),
        Err(CapError::Revoked)
    );
}

#[test]
fn a_grant_without_room_takes_nothing() {
    let m = machine();
    let mut mem = memory(USER_RESERVE_FRAMES + 4, 0);
    for _ in 0..MAX_GRANTS_PER_CELL {
        assert_eq!(grant_create(&m, &mut mem, 0, OUT, 4096, 0, 0).0, 0);
    }
    let live = mem.cells[0].caps.live_count();
    assert_eq!(grant_create(&m, &mut mem, 0, OUT, 4096, 0, 0), (REFUSED, None));
    assert_eq!(mem.cells[0].caps.live_count(), live);
    assert_eq!(mem.objects.create(ObjectKind::Queue), Ok(MAX_GRANTS_PER_CELL as u32));
    // The cell's layout is too small for the other.
    assert_eq!(grant_create(&m, &mut mem, 1, OUT, m.user_va_max, 0, 0), (REFUSED, None));
    assert_eq!(mem.cells[1].caps.live_count(), 0);
}

#[test]
fn a_refused_share_leaves_both_cells_alone() {
    let m = machine();
    let mut mem = memory(USER_RESERVE_FRAMES + 16, 0);
    let (_, info) = grant_create(&m, &mut mem, 0, OUT, 4096, 0, 0);
    let g = info.unwrap();
    let cap = g.cap_id as u32;
    let c = mem.cells[0].caps.inspect_low32(&mem.objects, cap).unwrap();
    grant_commit(&m, &mut mem, 0, cap, 0, 4096, false);
    grant_seal(&m, &mut mem, 0, cap);
    // The peer's table is full.
    while mem.cells[1].caps.has_space() {
        mem.cells[1].caps.mint(&mem.objects, c.object, READ, 1).unwrap();
    }
    let regions = mem.cells[1].va.len();
    assert_eq!(grant_share(&m, &mut mem, 0, cap, OUT), (REFUSED, None));
    assert_eq!(mem.cells[1].va.len(), regions);
    assert!(!mem.cells[1].aspace.is_mapped(GRANT_BASE));
    assert_eq!(mem.cells[0].caps.inspect_low32(&mem.objects, cap), Ok(c));
}

#[test]
fn a_grant_unmapped_in_part_stays_a_grant() {
    let m = machine();
    let mut mem = memory(USER_RESERVE_FRAMES + 16, 0);
    let (_, info) = grant_create(&m, &mut mem, 0, OUT, 8192, 0, 0);
    let g = info.unwrap();
    let cap = g.cap_id as u32;
    grant_commit(&m, &mut mem, 0, cap, 0, 8192, false);
    assert_eq!(sys_munmap(&m, &mut mem, 0, g.base, 4096), 0);
    assert!(!mem.cells[0].aspace.is_mapped(g.base));
    assert!(mem.cells[0].aspace.is_mapped(g.base + 4096));
    assert_eq!(mem.cells[0].va.len(), 1);
    assert_eq!(grant_commit(&m, &mut mem, 0, cap, 0, 4096, false).0, 0);
    assert_eq!(sys_munmap(&m, &mut mem, 0, g.base, 8192), 0);
    assert_eq!(mem.cells[0].va.len(), 0);
    assert_eq!(grant_commit(&m, &mut mem, 0, cap, 0, 4096, false).0, REFUSED);
}

#[test]
fn a_grant_slot_is_free_again_after_unmapping() {
    let m = machine();
    let mut mem = memory(USER_RESERVE_FRAMES + 4, 0);
    for _ in 0..MAX_GRANTS_PER_CELL * 2 {
        let (code, info) = grant_create(&m, &mut mem, 0, OUT, 4096, 0, u64::MAX);
        assert_eq!(code, 0);
        assert_eq!(sys_munmap(&m, &mut mem, 0, info.unwrap().base, 4096), 0);
        let cap = info.unwrap().cap_id as u32;
        let _ = mem.cells[0].caps.free_low32(&mem.objects, cap);
        mem.objects = rheo::kernel::capability::ObjectTable::new(256);
        mem.cells[0].caps.clear();
    }
}

#[test]
fn reservations_take_from_both_ledgers() {
    let m = machine();
    let mut mem = memory(USER_RESERVE_FRAMES + 16, 0);
    let (code, info) = reserve_admit(&m, &mut mem, 0, OUT, 3, 10, 10, 2);
    assert_eq!(code, 0);
    let r = info.unwrap();
    assert_eq!(r.committed_ppm, 300_000);
    assert_eq!(mem.system.committed_ppm(), 300_000);
    // The system's ledger refuses what another cell's would take.
    assert_eq!(reserve_admit(&m, &mut mem, 1, OUT, 8, 10, 10, 0), (OVERCOMMIT, None));
    assert_eq!(mem.cells[1].admission.committed_ppm(), 0);
    assert_eq!(reserve_admit(&m, &mut mem, 0, OUT, 20, 10, 10, 0), (BAD_PARAMS, None));
    assert_eq!(reserve_admit(&m, &mut mem, 0, OUT, 1, 10, 10, 1 << 40), (MEMORY_FLOOR, None));
    assert_eq!(reserve_release(&m, &mut mem, 0, r.handle as u32), 0);
    assert_eq!(mem.system.committed_ppm(), 0);
    assert_eq!(mem.cells[0].admission.committed_ppm(), 0);
    assert_eq!(reserve_release(&m, &mut mem, 0, r.handle as u32), REFUSED);
    // Neither a new reservation nor a new capability brings the old handle back.
    mem.cells[0].caps.free_low32(&mem.objects, r.handle as u32).unwrap();
    let again = reserve_admit(&m, &mut mem, 0, OUT, 3, 10, 10, 0).1.unwrap();
    assert_ne!(again.handle, r.handle);
    assert_eq!(reserve_release(&m, &mut mem, 0, r.handle as u32), REFUSED);
    assert_eq!(mem.system.committed_ppm(), 300_000);
}

#[test]
fn a_reservation_without_a_handle_takes_nothing() {
    let m = machine();
    let mut mem = memory(USER_RESERVE_FRAMES + 16, 0);
    let o = mem.objects.create(ObjectKind::Queue).unwrap();
    while mem.cells[0].caps.has_space() {
        mem.cells[0].caps.mint(&mem.objects, o, READ, 1).unwrap();
    }
    assert_eq!(reserve_admit(&m, &mut mem, 0, OUT, 3, 10, 10, 0), (BAD_PARAMS, None));
    assert_eq!((mem.system.committed_ppm(), mem.cells[0].admission.committed_ppm()), (0, 0));
    assert_eq!(mem.objects.create(ObjectKind::Queue), Ok(1));
}

