use rheo::kernel::aspace::{AddressSpace, MapPerm};
use rheo::kernel::capability::{CapError, ObjectKind, ALL, BUDGET_UNLIMITED, DELEGATE, READ, REVOKE, WRITE};
use rheo::kernel::cells::{
    affinity_skips, cell_caps, cell_count, cell_cpu, cell_is_native, cell_on_this_cpu, cell_present, cell_vcores,
    claim_cell, claim_vcore, current_cell, current_vcore, deadlock_finish, double_entries, enter_vcore,
    entity_of, entity_pair, finish, fp_swaps, live_vcores, next_home_node, restore_native_fp_vcore,
    retire_vcore, run, run_inner, run_vcore, save_native_fp_vcore, set_current_vcore, set_personality,
    switch_native_cell, switch_native_vcore, top_cell, vcore_cpu, vcore_live, vcore_on_this_cpu, CellTable,
    Outcome, Personality, NO_CPU,
};
use rheo::kernel::frames::{FramePool, USER_RESERVE_FRAMES};
use rheo::kernel::install::{
    cell_chan_count, cell_chan_slot, current_caps_live, free_cell, install, install_forked,
    install_spawned, install_vcore, kernel_owned_overlap, mint_into, reset, set_channel_slot,
    set_queue_info,
};
use rheo::kernel::machine::{Machine, MMAP_BASE, USER_CHANNEL_VA, USER_QUEUE_VA};
use rheo::kernel::memory::{mmap_anon, Memory, REFUSED};
use rheo::kernel::trap::{
    cap_errno, on_answer, on_preempt_tried, on_user_interrupt, on_user_trap, Action, Answer, Ask,
    FaultCause, Preempt, Reply, Services, SpawnArgs, Syscall, Trap, EFAULT, EINVAL, ENOENT, EPERM,
};

const OUT: u64 = 0x10_0000;
const CAPS: u64 = 0xCA;
const OBJS: u64 = 0x0B;

fn machine() -> Machine {
    Machine {
        user_va_max: 0x40_0000_0000,
        window_start: 0xffff_8000_0000_0000,
        data_start: 0xffff_8000_0000_4000,
        window_end: 0xffff_8000_0000_8000,
        nodes_known: 1,
        queue_region: 0x4000,
        channels: 4,
    }
}

fn kernel(cells: usize) -> (Machine, CellTable, Memory) {
    let m = machine();
    let ddr = FramePool::new(0x1000_0000, vec![0; USER_RESERVE_FRAMES + 64]).unwrap();
    let pmem = FramePool::new(0x80_0000_0000, vec![]).unwrap();
    let mut mem = Memory::new(ddr, pmem, 256, 64, 64);
    let mut t = CellTable::new(m.channels);
    for i in 0..cells {
        install(
            &m, &mut t, &mut mem, i, 0x100 + i as u64, AddressSpace::new(), CAPS, OBJS, 0x200 + i as u64,
            0x300 + i as u64,
        );
    }
    (m, t, mem)
}

const ENV: Services = Services { files: false, nvdimm: false };

fn call(m: &Machine, t: &mut CellTable, mem: &mut Memory, c: Syscall) -> (u64, Reply) {
    match on_user_trap(m, ENV, t, mem, 0, Trap::Call(c)) {
        Action::Return(r, reply) => (r, reply),
        _ => panic!("the call is not settled at once"),
    }
}

fn negated(e: u64) -> u64 {
    0u64.wrapping_sub(e)
}

#[test]
fn entities_are_numbered_without_gaps() {
    assert_eq!(entity_of(0, 0), 0);
    assert_eq!(entity_of(2, 3), 11);
    assert_eq!(entity_pair(11), Some((2, 3)));
    assert_eq!(entity_pair(64), None);
}

#[test]
fn installed_cells_are_there() {
    let (m, mut t, mut mem) = kernel(2);
    assert!(cell_present(&t, 1));
    assert!(!cell_present(&t, 2));
    assert!(cell_is_native(&t, 0));
    assert_eq!(cell_vcores(&t, 0), 1);
    assert_eq!(cell_count(&t), 2);
    set_personality(&mut t, 1, Personality::Linux);
    assert!(!cell_is_native(&t, 1));
    free_cell(&m, &mut t, &mut mem, 1);
    assert!(!cell_present(&t, 1));
    assert_eq!(cell_count(&t), 1);
}

#[test]
fn vcores_are_added_up_to_four_and_retired() {
    let (_, mut t, _) = kernel(1);
    assert_eq!(install_vcore(&mut t, 0, 0x900, 0x901), 1);
    assert_eq!(install_vcore(&mut t, 0, 0x910, 0x911), 2);
    assert_eq!(live_vcores(&t, 0), 3);
    retire_vcore(&mut t, 0, 1, Outcome::Exited(0));
    assert_eq!(live_vcores(&t, 0), 2);
    assert!(!vcore_live(&t, 0, 1));
    assert!(vcore_live(&t, 0, 2));
    assert!(!vcore_live(&t, 0, 3));
}

#[test]
fn homes_are_handed_out_in_turn() {
    let (_, mut t, _) = kernel(0);
    let homes: Vec<u8> = (0..5).map(|_| next_home_node(&mut t, 2)).collect();
    assert_eq!(homes, [0, 1, 0, 1, 0]);
    assert_eq!(next_home_node(&mut t, 1), 255);
}

#[test]
fn a_claimed_cell_is_passed_over_elsewhere() {
    let (_, mut t, _) = kernel(2);
    claim_cell(&mut t, 1, 3);
    assert_eq!(cell_cpu(&t, 1), 3);
    assert!(cell_on_this_cpu(&mut t, 1, 3));
    assert!(!cell_on_this_cpu(&mut t, 1, 2));
    assert_eq!(affinity_skips(&t), 1);
    // A cell that nobody claimed is anyone's.
    assert!(cell_on_this_cpu(&mut t, 0, 2));
    claim_vcore(&mut t, 0, 0, 5);
    assert_eq!(vcore_cpu(&t, 0, 0), 5);
    assert!(vcore_on_this_cpu(&t, 0, 0, 5));
    assert!(!vcore_on_this_cpu(&t, 0, 0, 6));
}

#[test]
fn two_cpus_are_never_inside_one_vcore() {
    let (_, mut t, _) = kernel(1);
    assert_eq!(enter_vcore(&mut t, 0, 0, 0), Ok(()));
    assert_eq!(enter_vcore(&mut t, 1, 0, 0), Err(0));
    assert_eq!(double_entries(&t), 1);
    assert_eq!(enter_vcore(&mut t, 0, 0, 0), Ok(()));
}

#[test]
fn a_run_reports_the_vcore_that_ended() {
    let (_, mut t, _) = kernel(2);
    let plan = run_inner(&mut t, 0, 1, 0).unwrap();
    assert_eq!((plan.aspace, plan.load, plan.frame), (0x101, 4, 0x301));
    assert_eq!(current_cell(&t, 0), 1);
    assert_eq!(top_cell(&t, 0), 1);
    finish(&mut t, 0, Outcome::Exited(7));
    assert_eq!(run_vcore(&mut t, 0), (1, 0, Outcome::Exited(7)));
    let plan = run_inner(&mut t, 0, 0, 0).unwrap();
    assert_eq!(plan.frame, 0x300);
    deadlock_finish(&mut t, 0, 0x99);
    assert_eq!(run(&mut t, 0), (0, Outcome::Exited(0x99)));
}

#[test]
fn a_vcore_that_another_cpu_runs_is_not_entered() {
    let (_, mut t, _) = kernel(1);
    run_inner(&mut t, 2, 0, 0).unwrap();
    assert_eq!(run_inner(&mut t, 1, 0, 0), Err(2));
}

#[test]
fn switching_cells_saves_and_loads_registers() {
    let (_, mut t, _) = kernel(2);
    run_inner(&mut t, 0, 0, 0).unwrap();
    let swaps = fp_swaps(&t);
    let p = switch_native_cell(&mut t, 0, 0, 1);
    assert_eq!((p.save, p.load, p.aspace, p.frame), (0, 4, 0x101, 0x301));
    assert_eq!(current_cell(&t, 0), 1);
    assert_eq!(fp_swaps(&t), swaps + 1);
    assert_eq!(save_native_fp_vcore(1, 2), 6);
    assert_eq!(restore_native_fp_vcore(&mut t, 1, 2), 6);
}

#[test]
fn switching_vcores_stays_in_the_cell() {
    let (_, mut t, _) = kernel(1);
    install_vcore(&mut t, 0, 0x777, 0x778);
    run_inner(&mut t, 0, 0, 0).unwrap();
    let p = switch_native_vcore(&mut t, 0, 0, 0, 1).unwrap();
    assert_eq!((p.save, p.load, p.frame), (0, 1, 0x777));
    assert_eq!(current_vcore(&t, 0), 1);
    set_current_vcore(&mut t, 0, 0);
    assert_eq!(current_vcore(&t, 0), 0);
}

#[test]
fn queues_and_channels_are_wired() {
    let (m, mut t, mut mem) = kernel(2);
    set_queue_info(&m, &mut t, &mut mem, 0, USER_QUEUE_VA, 3);
    set_channel_slot(&m, &mut t, &mut mem, 0, 0, USER_CHANNEL_VA, 4, 1);
    set_channel_slot(&m, &mut t, &mut mem, 0, 2, USER_CHANNEL_VA + 0x8000, 5, 0);
    assert_eq!(cell_chan_slot(&m, &t, 0, 0), (USER_CHANNEL_VA, 1));
    assert_eq!(cell_chan_slot(&m, &t, 0, 1), (0, 0));
    // Only the ends without a gap before them are counted.
    assert_eq!(cell_chan_count(&t, 0), 1);
    // The kernel's own parts of a cell are told from the cell's.
    assert!(kernel_owned_overlap(&m, &mem, 0, USER_QUEUE_VA + 0x1000, 4096).is_some());
    assert!(kernel_owned_overlap(&m, &mem, 0, MMAP_BASE, 4096).is_none());
    // What lies above the addresses that a cell may be handed is not on record.
    set_queue_info(&m, &mut t, &mut mem, 1, m.user_va_max - 0x1000, 3);
    assert!(kernel_owned_overlap(&m, &mem, 1, m.user_va_max - 0x1000, 4096).is_none());
    set_queue_info(&m, &mut t, &mut mem, 1, m.user_va_max - 0x4000, 3);
    assert!(kernel_owned_overlap(&m, &mem, 1, m.user_va_max - 0x1000, 4096).is_some());
}

#[test]
fn grants_do_not_overlap() {
    let (m, mut t, mut mem) = kernel(1);
    let mut ends = Vec::new();
    for len in [1u64, 8192, 4096, 5000] {
        let (r, reply) = call(&m, &mut t, &mut mem, Syscall::Grant { out: OUT, len, kind: 0, node: 0 });
        assert_eq!(r, 0);
        match reply {
            Reply::Grant(g) => {
                assert!(kernel_owned_overlap(&m, &mem, 0, g.base, 1).is_some());
                ends.push((g.base, g.base + len));
            }
            _ => panic!("no grant"),
        }
    }
    ends.sort();
    assert!(ends.windows(2).all(|w| w[0].1 <= w[1].0));
}

#[test]
fn a_spawned_cell_has_none_of_its_parents_capabilities() {
    let (m, mut t, mut mem) = kernel(1);
    mint_into(&m, &mut mem, 0, ObjectKind::Cell, ALL).unwrap();
    install_spawned(
        &m, &mut t, &mut mem, 3, 0x103, AddressSpace::new(), 0x203, 0x303, 0, USER_QUEUE_VA, 0,
    );
    assert_eq!(current_caps_live(&mem, 0), 1);
    assert_eq!(current_caps_live(&mem, 3), 0);
    assert!(cell_present(&t, 3));
    assert_ne!(cell_caps(&t, 3), cell_caps(&t, 0));
    // A fork has all of them.
    install_forked(&m, &mut t, &mut mem, 4, 0x104, AddressSpace::new(), 0x304, 0);
    assert_eq!(current_caps_live(&mem, 4), 1);
    assert_ne!(cell_caps(&t, 4), cell_caps(&t, 0));
    assert_ne!(cell_caps(&t, 4), cell_caps(&t, 3));
    // The kernel's windows are kept in both, though nothing is mapped there.
    for cell in [3, 4] {
        assert!(kernel_owned_overlap(&m, &mem, cell, USER_QUEUE_VA, 1).is_some());
        assert!(kernel_owned_overlap(&m, &mem, cell, USER_CHANNEL_VA - 1, 2).is_some());
        assert!(kernel_owned_overlap(&m, &mem, cell, MMAP_BASE, 4096).is_none());
    }
}

#[test]
fn the_cause_of_a_fault_is_kept() {
    for cause in [FaultCause::Bus, FaultCause::Ill, FaultCause::Fpe] {
        let (m, mut t, mut mem) = kernel(1);
        set_personality(&mut t, 0, Personality::Linux);
        let a = on_user_trap(&m, ENV, &mut t, &mut mem, 0, Trap::Fault { cause, addr: 0x44 });
        match a {
            Action::Perform(ask) => assert_eq!(ask, Ask::LinuxFault { cause, addr: 0x44 }),
            _ => panic!("nothing is asked for"),
        }
    }
}

#[test]
fn resetting_forgets_every_cell() {
    let (m, mut t, mut mem) = kernel(3);
    reset(&m, &mut t, &mut mem);
    assert_eq!(cell_count(&t), 0);
    assert_eq!(t.cpus[0].inside, NO_CPU);
}

#[test]
fn information_is_written_only_where_the_cell_may_write() {
    let (m, mut t, mut mem) = kernel(1);
    set_queue_info(&m, &mut t, &mut mem, 0, USER_QUEUE_VA, 3);
    let (r, reply) = call(&m, &mut t, &mut mem, Syscall::QueueInfo { out: OUT });
    assert_eq!(r, 0);
    assert!(matches!(reply, Reply::Queue { qp_va: USER_QUEUE_VA, cap_id: 3 }));
    let (r, reply) = call(&m, &mut t, &mut mem, Syscall::QueueInfo { out: 0 });
    assert_eq!(r, REFUSED);
    assert!(matches!(reply, Reply::Nothing));
    let (r, reply) = call(&m, &mut t, &mut mem, Syscall::VcoreInfo { out: OUT });
    assert!(r == 0 && matches!(reply, Reply::Vcore { index: 0, count: 1 }));
    assert_eq!(call(&m, &mut t, &mut mem, Syscall::VcoreInfo { out: 4 + OUT }).0, negated(EFAULT));
    assert_eq!(call(&m, &mut t, &mut mem, Syscall::Connect { out: OUT, slot: 0 }).0, REFUSED);
    assert_eq!(call(&m, &mut t, &mut mem, Syscall::Connect { out: OUT, slot: 99 }).0, REFUSED);
}

#[test]
fn capability_calls_answer_with_error_numbers() {
    let (m, mut t, mut mem) = kernel(1);
    let all = mint_into(&m, &mut mem, 0, ObjectKind::MemoryGrant, ALL).unwrap();
    let (r, reply) = call(
        &m, &mut t, &mut mem, Syscall::CapDerive { parent: all, rights: READ, budget: 5, out: OUT },
    );
    assert_eq!(r, 0);
    let kid = match reply {
        Reply::Derived(h) => h,
        _ => panic!("nothing was derived"),
    };
    // Wider than the parent, beyond the rights there are, without a place, without a parent.
    let e = |c| -> u64 {
        let (m, mut t, mut mem) = kernel(1);
        mint_into(&m, &mut mem, 0, ObjectKind::Queue, READ | DELEGATE).unwrap();
        call(&m, &mut t, &mut mem, c).0
    };
    assert_eq!(e(Syscall::CapDerive { parent: 0, rights: WRITE, budget: 1, out: OUT }), negated(EPERM));
    assert_eq!(e(Syscall::CapDerive { parent: 0, rights: 64, budget: 1, out: OUT }), negated(EINVAL));
    assert_eq!(e(Syscall::CapDerive { parent: 0, rights: READ, budget: 1, out: 0 }), negated(EFAULT));
    assert_eq!(e(Syscall::CapDerive { parent: 9, rights: READ, budget: 1, out: OUT }), negated(ENOENT));
    assert_eq!(e(Syscall::CapRevoke { cap: 0 }), negated(EPERM));
    let (r, reply) = call(&m, &mut t, &mut mem, Syscall::CapInfo { cap: kid, out: OUT });
    assert_eq!(r, 0);
    match reply {
        Reply::Cap(i) => assert_eq!((i.rights, i.budget, i.kind), (READ, 5, ObjectKind::MemoryGrant)),
        _ => panic!("nothing is known of it"),
    }
    assert_eq!(call(&m, &mut t, &mut mem, Syscall::CapRevoke { cap: all }).0, 0);
    assert_eq!(call(&m, &mut t, &mut mem, Syscall::CapInfo { cap: kid, out: OUT }).0, negated(EINVAL));
    assert_eq!(BUDGET_UNLIMITED, u64::MAX);
    assert_eq!(REVOKE, 32);
}

#[test]
fn a_capability_is_dropped_once_by_a_call() {
    let (m, mut t, mut mem) = kernel(1);
    let c = mint_into(&m, &mut mem, 0, ObjectKind::Queue, READ).unwrap();
    assert_eq!(call(&m, &mut t, &mut mem, Syscall::CapDrop { cap: c }).0, 0);
    assert_eq!(call(&m, &mut t, &mut mem, Syscall::CapDrop { cap: c }).0, negated(ENOENT));
}

#[test]
fn refusals_have_their_error_numbers() {
    let all = [
        CapError::BadHandle,
        CapError::InsufficientRights,
        CapError::WidenAttempt,
        CapError::NotDelegatable,
        CapError::Revoked,
        CapError::Exhausted,
        CapError::TableFull,
        CapError::TooManyObjects,
    ];
    let numbers: Vec<u64> = all.into_iter().map(cap_errno).collect();
    assert_eq!(numbers, [2, 1, 1, 1, 22, 28, 28, 28]);
}

#[test]
fn memory_calls_go_through_the_trap() {
    let (m, mut t, mut mem) = kernel(1);
    let (base, _) = call(&m, &mut t, &mut mem, Syscall::Mmap { len: 4096 });
    assert_eq!(base, MMAP_BASE);
    assert_eq!(mem.cells[0].aspace.lookup(base).unwrap().perm, MapPerm::UserRw);
    assert_eq!(call(&m, &mut t, &mut mem, Syscall::Munmap { va: base, len: 4096 }).0, 0);
    let (r, reply) = call(&m, &mut t, &mut mem, Syscall::Grant { out: OUT, len: 4096, kind: 0, node: 0 });
    assert_eq!(r, 0);
    let g = match reply {
        Reply::Grant(g) => g,
        _ => panic!("no grant"),
    };
    let cap = g.cap_id as u32;
    assert_eq!(call(&m, &mut t, &mut mem, Syscall::Commit { cap, offset: 0, len: 4096 }).0, 0);
    assert_eq!(call(&m, &mut t, &mut mem, Syscall::Seal { cap }).0, 0);
    assert_eq!(call(&m, &mut t, &mut mem, Syscall::Decommit { cap, offset: 0, len: 4096 }).0, REFUSED);
    // Without a file service there is no file to map.
    assert_eq!(call(&m, &mut t, &mut mem, Syscall::MmapFile { fd: 3, offset: 0, len: 4096 }).0, 0);
    let (r, _) = call(
        &m, &mut t, &mut mem, Syscall::ReserveAdmit { out: OUT, budget: 1, period: 4, deadline: 4, floor: 0 },
    );
    assert_eq!(r, 0);
    assert_eq!(call(&m, &mut t, &mut mem, Syscall::ReserveQuery).0, 250_000);
}

#[test]
fn a_call_stays_in_its_cell() {
    let (m, mut t, mut mem) = kernel(2);
    mmap_anon(&m, &mut mem, 1, 8192);
    let charged = mem.cells[1].charged;
    call(&m, &mut t, &mut mem, Syscall::Mmap { len: 4096 });
    assert_eq!(mem.cells[1].charged, charged);
    assert!(mem.cells[1].aspace.is_mapped(MMAP_BASE + 4096));
}

#[test]
fn outside_work_is_asked_for_and_answered() {
    let (m, mut t, mut mem) = kernel(2);
    let a = on_user_trap(&m, ENV, &mut t, &mut mem, 0, Trap::Call(Syscall::Doorbell));
    assert!(matches!(a, Action::Perform(Ask::Process { qp: 0x200 })));
    let a = on_answer(&mut t, 0, Ask::Process { qp: 0x200 }, Answer::Value(3));
    assert!(matches!(a, Action::Return(3, Reply::Nothing)));
    let a = on_user_trap(&m, ENV, &mut t, &mut mem, 0, Trap::Call(Syscall::Cycles));
    assert!(matches!(a, Action::Perform(Ask::Cycles)));
    let args = SpawnArgs { path_va: 1, path_len: 2, argv: 3, envp: 4, channel: 5 };
    let a = on_user_trap(&m, ENV, &mut t, &mut mem, 0, Trap::Call(Syscall::Spawn { args }));
    assert!(matches!(a, Action::Perform(Ask::Spawn { .. })));
    // Waiting switches away, or returns.
    let a = on_answer(&mut t, 0, Ask::Wait { handle: 1 }, Answer::Frame(0x55));
    assert!(matches!(a, Action::Continue(0x55)));
    let a = on_answer(&mut t, 0, Ask::Wait { handle: 1 }, Answer::Value(9));
    assert!(matches!(a, Action::Return(9, Reply::Nothing)));
}

#[test]
fn an_exit_ends_the_vcore_when_nobody_takes_it() {
    let (m, mut t, mut mem) = kernel(1);
    run_inner(&mut t, 0, 0, 0).unwrap();
    let a = on_user_trap(&m, ENV, &mut t, &mut mem, 0, Trap::Call(Syscall::Exit { code: 4 }));
    assert!(matches!(a, Action::Perform(Ask::Retire { code: 4 })));
    let a = on_answer(&mut t, 0, Ask::Retire { code: 4 }, Answer::Declined);
    assert!(matches!(a, Action::Perform(Ask::Leave { code: 4 })));
    let a = on_answer(&mut t, 0, Ask::Leave { code: 4 }, Answer::Declined);
    assert!(matches!(a, Action::Leave));
    assert_eq!(run(&mut t, 0), (0, Outcome::Exited(4)));
}

#[test]
fn a_fault_that_nobody_serves_ends_the_vcore() {
    let (m, mut t, mut mem) = kernel(1);
    run_inner(&mut t, 0, 0, 0).unwrap();
    let fault = Trap::Fault { cause: FaultCause::Segv, addr: 0xdead };
    let a = on_user_trap(&m, ENV, &mut t, &mut mem, 0, fault);
    assert!(matches!(a, Action::Perform(Ask::NativeFault { addr: 0xdead })));
    let a = on_answer(&mut t, 0, Ask::NativeFault { addr: 0xdead }, Answer::Declined);
    assert!(matches!(a, Action::Leave));
    assert_eq!(run(&mut t, 0), (0, Outcome::Faulted(0xdead)));
}

#[test]
fn an_unknown_call_ends_the_vcore() {
    let (m, mut t, mut mem) = kernel(1);
    run_inner(&mut t, 0, 0, 0).unwrap();
    let a = on_user_trap(&m, ENV, &mut t, &mut mem, 0, Trap::Call(Syscall::Service));
    assert!(matches!(a, Action::Perform(Ask::Service)));
    let a = on_answer(&mut t, 0, Ask::Service, Answer::Declined);
    assert!(matches!(a, Action::Leave));
    assert_eq!(run(&mut t, 0), (0, Outcome::Faulted(0)));
}

#[test]
fn a_linux_cell_goes_to_its_personality() {
    let (m, mut t, mut mem) = kernel(1);
    set_personality(&mut t, 0, Personality::Linux);
    let a = on_user_trap(&m, ENV, &mut t, &mut mem, 0, Trap::Call(Syscall::Yield));
    assert!(matches!(a, Action::Perform(Ask::LinuxCall)));
    let fault = Trap::Fault { cause: FaultCause::Segv, addr: 0x44 };
    let a = on_user_trap(&m, ENV, &mut t, &mut mem, 0, fault);
    assert!(matches!(a, Action::Perform(Ask::LinuxFill { addr: 0x44 })));
    assert!(matches!(
        on_answer(&mut t, 0, Ask::LinuxFill { addr: 0x44 }, Answer::Done(true)),
        Action::Resume
    ));
    assert!(matches!(
        on_answer(&mut t, 0, Ask::LinuxFill { addr: 0x44 }, Answer::Done(false)),
        Action::Perform(Ask::LinuxFault { cause: FaultCause::Segv, addr: 0x44 })
    ));
}

#[test]
fn a_switch_goes_to_the_other_of_a_pair() {
    let (m, mut t, mut mem) = kernel(2);
    run_inner(&mut t, 0, 0, 0).unwrap();
    match on_user_trap(&m, ENV, &mut t, &mut mem, 0, Trap::Call(Syscall::Switch)) {
        Action::Switch(p) => assert_eq!(p.frame, 0x301),
        _ => panic!("no switch"),
    }
    assert_eq!(current_cell(&t, 0), 1);
}

#[test]
fn waiting_for_input_needs_a_place_for_it() {
    let (m, mut t, mut mem) = kernel(1);
    let bad = Syscall::WaitInput { va: 0, len: 8 };
    assert_eq!(call(&m, &mut t, &mut mem, bad).0, 0);
    let a = on_user_trap(
        &m, ENV, &mut t, &mut mem, 0, Trap::Call(Syscall::WaitNet { va: OUT, len: 8, timeout_ns: 5 }),
    );
    assert!(matches!(a, Action::Perform(Ask::BlockNet { va: OUT, len: 8, timeout_ns: 5 })));
    let a = on_answer(&mut t, 0, Ask::BlockNet { va: OUT, len: 8, timeout_ns: 5 }, Answer::Declined);
    assert!(matches!(a, Action::Perform(Ask::ReadNet { va: OUT, len: 8, timeout_ns: 5 })));
}

#[test]
fn preemption_looks_for_a_sibling_and_then_for_a_cell() {
    let (_, t, _) = kernel(1);
    assert_eq!(on_user_interrupt(&t, 0, false), Preempt::Resume);
    let first = on_user_interrupt(&t, 0, true);
    assert!(matches!(first, Preempt::TrySibling | Preempt::TryCell));
    let found = on_preempt_tried(first, Some(0x88));
    assert!(matches!(found, Preempt::Rearm { frame: Some(0x88), .. }));
}
