use rheo::kernel::cells::{vcore_cpu, CellTable, Outcome};
use rheo::kernel::errands::{
    errand_step, product_step, secondary_work_loop, Errand, ErrandAction, ErrandAt, HelperAction, HelperAt,
    ProductAction, ProductAt,
};
use rheo::kernel::frames::NODE_ANY;
use rheo::kernel::drain::{begin_run, drain_cells, finish_one, join, leave, DrainStep, Held, Worker};
use rheo::kernel::placement::{claim_matching_tier, claim_next, steal, Round, ThreadClass, TierSuits};
use rheo::kernel::rounds::{
    avoidable_crossings, await_round, cells_taken, clear_classes, code_of, dbg_code, node_claims,
    nodes_of, open_round, place_cells, place_cells_classed, place_cells_preemptive, place_vcores_inner, quiesce, report, set_node_affinity, steals, tier_claims,
    PlacingAction, PlacingAt, Wait, NO_CODE,
};
use rheo::kernel::smp::{
    bring_up_one, bring_up_target, cpu_hw_id_of, cpu_index, enable_preemption_here, init, multicore, online_count, secondaries_up,
    secondary_run, set_online, shared_value, start_all, start_result, this_node, Cpus, PerCpu, Sighting,
    StartAnswer, StartError, StartPlan, SECONDARY_MARK,
};
use rheo::kernel::spinlock::{LockStep, LockWindows, SpinLock};
use rheo::kernel::work::{
    arrive, await_cell, await_fn, await_gemm, block_finished, blocks_done, cell_finished, deadline_after,
    drain_blocks, fn_finished, gemm_rows, rendezvous, rendezvous_timed_out, run_cell_on_secondary,
    look_for_work, run_cells_on_both, run_fn_with_secondary, run_gemm_with_secondary, Board, GemmJob, Side, Work,
};

const ANY: TierSuits = TierSuits { compute: true, bursty: true, unknown: true };

fn worker(cpu: usize, node: Option<u8>) -> Worker {
    Worker { cpu, node, hybrid: false, tier: ANY }
}

#[test]
fn a_round_lays_its_cells_out_by_node() {
    let mut r = Round::new();
    open_round(&mut r, &vec![40, 41, 42, 43], &vec![1, 0, 1, 0], 2, 8, false);
    assert_eq!(r.count, 4);
    assert_eq!(&r.cells[..4], &[41, 43, 40, 42]);
    assert_eq!(r.group_end, [2, 4]);
    assert!(r.open);
}

#[test]
fn claims_stay_on_their_node_as_long_as_they_can() {
    let mut r = Round::new();
    set_node_affinity(&mut r, true);
    open_round(&mut r, &vec![40, 41, 42, 43], &vec![1, 0, 1, 0], 2, 8, false);
    let slots: Vec<usize> = (0..4).map(|_| claim_next(&mut r, Some(1)).unwrap()).collect();
    let got: Vec<usize> = slots.iter().map(|&s| r.cells[s]).collect();
    assert_eq!(got, [40, 42, 41, 43]);
    assert_eq!(claim_next(&mut r, Some(1)), None);
    assert_eq!(avoidable_crossings(&r), 0);
}

#[test]
fn two_cpus_run_every_cell_once() {
    let mut r = Round::new();
    place_cells(&mut r, &vec![5, 1, 2, 7, 3], &vec![0; 5], 1, 5);
    let w = [worker(0, None), worker(1, None)];
    let mut batches: [Vec<Held>; 2] = [Vec::new(), Vec::new()];
    let mut runs = Vec::new();
    let mut left = [false; 2];
    while !left[0] || !left[1] {
        for c in 0..2 {
            match drain_cells(&mut r, &mut batches[c], w[c]) {
                DrainStep::Run(pos) => {
                    let h = batches[c][pos];
                    runs.push(h.slot);
                    assert!(finish_one(&mut r, &mut batches[c], h.vid, 9, c));
                }
                DrainStep::Claimed => {}
                DrainStep::Leave => left[c] = true,
            }
        }
    }
    runs.sort();
    assert_eq!(runs, [0, 1, 2, 3, 4]);
    assert_eq!(cells_taken(&r, 0) + cells_taken(&r, 1), 5);
    assert_eq!(await_round(&mut r, 0, 10), Wait::Done);
}

#[test]
fn every_cell_is_run_once_and_reported_where_it_came_from() {
    let mut r = Round::new();
    place_cells(&mut r, &vec![3, 1, 2], &vec![0, 0, 0], 1, 3);
    let w = worker(0, None);
    join(&mut r);
    let mut batch: Vec<Held> = Vec::new();
    let mut ran = Vec::new();
    loop {
        match drain_cells(&mut r, &mut batch, w) {
            DrainStep::Run(pos) => {
                let vid = batch[pos].vid;
                ran.push(vid);
                assert!(finish_one(&mut r, &mut batch, vid, 100 + vid as u64, 0));
            }
            DrainStep::Claimed => {}
            DrainStep::Leave => break,
        }
        assert!(ran.len() <= 3);
    }
    leave(&mut r);
    ran.sort();
    // A cell is placed as its first context.
    assert_eq!(ran, [4, 8, 12]);
    assert_eq!(await_round(&mut r, 0, 10), Wait::Done);
    assert_eq!(quiesce(&r, 0, 10), Wait::Done);
    let mut out = vec![(NO_CODE, 0); 3];
    report(&r, &mut out);
    assert_eq!(out.iter().map(|x| x.0).collect::<Vec<_>>(), [112, 104, 108]);
    assert_eq!(cells_taken(&r, 0), 3);
}

#[test]
fn a_vcore_is_given_to_the_cpu_that_runs_it() {
    let mut t = CellTable::new(1);
    let before = vcore_cpu(&t, 1, 0);
    assert_ne!(before, 3);
    let mut r = Round::new();
    place_cells(&mut r, &vec![1, 2], &vec![0, 0], 1, 2);
    let mut batch: Vec<Held> = Vec::new();
    while !matches!(drain_cells(&mut r, &mut batch, worker(3, Some(NODE_ANY))), DrainStep::Run(0)) {}
    assert_eq!(begin_run(&mut r, &mut t, &batch, 0, worker(3, Some(NODE_ANY))), (1, 0));
    assert_eq!(vcore_cpu(&t, 1, 0), 3);
    assert_eq!(vcore_cpu(&t, 2, 0), before);
    assert_eq!(node_claims(&r), (1, 0));
    assert_eq!(begin_run(&mut r, &mut t, &batch, 1, worker(3, Some(0))), (2, 0));
    assert_eq!(node_claims(&r), (1, 1));
}

#[test]
fn in_slices_the_whole_batch_goes_to_the_cpu() {
    let mut t = CellTable::new(1);
    let mut r = Round::new();
    place_cells_preemptive(&mut r, &vec![1, 2], &vec![0, 0], 1, 2);
    let mut batch: Vec<Held> = Vec::new();
    while !matches!(drain_cells(&mut r, &mut batch, worker(3, None)), DrainStep::Run(0)) {}
    assert_eq!(begin_run(&mut r, &mut t, &batch, 0, worker(3, None)), (1, 0));
    assert_eq!(vcore_cpu(&t, 1, 0), 3);
    assert_eq!(vcore_cpu(&t, 2, 0), 3);
    assert_ne!(vcore_cpu(&t, 0, 0), 3);
    assert_eq!(node_claims(&r), (0, 0));
}

#[test]
fn in_slices_a_claimed_vcore_is_not_stolen() {
    let mut r = Round::new();
    place_cells_preemptive(&mut r, &vec![1, 2], &vec![0, 0], 1, 2);
    let mut mine: Vec<Held> = Vec::new();
    assert_eq!(drain_cells(&mut r, &mut mine, worker(0, None)), DrainStep::Claimed);
    assert_eq!(mine.len(), 2);
    // Neither was started, and yet nobody else may have them.
    let mut other: Vec<Held> = Vec::new();
    assert_eq!(drain_cells(&mut r, &mut other, worker(1, None)), DrainStep::Leave);
    assert_eq!(steals(&r), 0);
    // The second ends first; the first is entered again and ends too.
    let vids = [mine[0].vid, mine[1].vid];
    assert_eq!(drain_cells(&mut r, &mut mine, worker(0, None)), DrainStep::Run(0));
    assert!(finish_one(&mut r, &mut mine, vids[1], 5, 0));
    assert_eq!(drain_cells(&mut r, &mut mine, worker(0, None)), DrainStep::Run(0));
    assert!(finish_one(&mut r, &mut mine, vids[0], 6, 0));
    assert_eq!(drain_cells(&mut r, &mut mine, worker(0, None)), DrainStep::Leave);
    assert_eq!(cells_taken(&r, 0), 2);
}

#[test]
fn the_end_of_a_stranger_gives_the_batch_up() {
    let mut r = Round::new();
    place_cells(&mut r, &vec![1, 2], &vec![0, 0], 1, 2);
    let mut batch: Vec<Held> = Vec::new();
    while !matches!(drain_cells(&mut r, &mut batch, worker(0, None)), DrainStep::Run(_)) {}
    assert_eq!(batch.len(), 2);
    assert!(!finish_one(&mut r, &mut batch, 60, 0, 0));
    assert!(batch.is_empty());
    assert_eq!(cells_taken(&r, 0), 0);
}

#[test]
fn a_round_that_is_not_done_times_out() {
    let mut r = Round::new();
    place_cells(&mut r, &vec![3], &vec![0], 1, 1);
    assert_eq!(await_round(&mut r, 5, 10), Wait::Again);
    assert_eq!(await_round(&mut r, 11, 10), Wait::TimedOut);
    let mut out = vec![(7, 7); 1];
    report(&r, &mut out);
    assert_eq!(out[0].0, NO_CODE);
}

#[test]
fn what_another_holds_but_has_not_started_can_be_taken() {
    let mut r = Round::new();
    place_cells(&mut r, &vec![1, 2], &vec![0, 0], 1, 2);
    let mut batch: Vec<Held> = Vec::new();
    // One CPU claims both and starts one.
    while !matches!(drain_cells(&mut r, &mut batch, worker(0, None)), DrainStep::Run(_)) {}
    let mut other: Vec<Held> = Vec::new();
    while !matches!(drain_cells(&mut r, &mut other, worker(1, None)), DrainStep::Run(_)) {}
    assert_eq!(steals(&r), 1);
    assert_eq!(other.len(), 1);
    assert!(steal(&mut r, 2).is_none());
    assert!(matches!(drain_cells(&mut r, &mut Vec::new(), worker(2, None)), DrainStep::Leave));
}

#[test]
fn classes_go_to_the_cores_that_suit_them() {
    let mut r = Round::new();
    place_cells_classed(
        &mut r, &vec![1, 2], &vec![ThreadClass::Bursty, ThreadClass::Compute], &vec![0, 0], 1, 2,
    );
    let big = TierSuits { compute: true, bursty: false, unknown: false };
    assert!(big.fits(ThreadClass::Compute));
    let s = claim_matching_tier(&mut r, 0, true, big).unwrap();
    assert_eq!(r.cells[s], 8);
    assert_eq!(tier_claims(&r), 1);
    assert_eq!(claim_matching_tier(&mut r, 0, false, big), None);
    clear_classes(&mut r);
    assert_eq!(r.class[0], ThreadClass::Unknown);
    assert_eq!(node_claims(&r), (0, 0));
}

#[test]
fn outcomes_have_codes() {
    assert_eq!(code_of(Outcome::Exited(5)), 5);
    assert_ne!(code_of(Outcome::Faulted(5)), 5);
    assert_eq!(dbg_code(Outcome::Exited(5)), 5);
}

#[test]
fn one_cpu_holds_a_lock_at_a_time() {
    let mut l = SpinLock::named(7u64, 3);
    let on = LockWindows { contention: true, hold: true };
    let g = l.try_lock(0, on, 100).unwrap();
    assert!(l.try_lock(1, on, 100).is_none());
    let w = match l.lock(1, on, 110) {
        LockStep::Spin(w) => w,
        LockStep::Held(..) => panic!("held twice"),
    };
    let w = match l.lock_contended(1, w, on, 120) {
        LockStep::Spin(w) => w,
        LockStep::Held(..) => panic!("held twice"),
    };
    assert_eq!(*l.get(g), 7);
    l.set(g, 8);
    assert_eq!(l.unlock(g, 150), Some((3, 50)));
    match l.lock_contended(1, w, on, 160) {
        LockStep::Held(g, Some(c)) => {
            assert_eq!((c.id, c.wait_ns), (3, 50));
            assert_eq!(*l.get(g), 8);
        }
        _ => panic!("not held"),
    }
}

#[test]
fn a_lock_that_nobody_watches_reports_nothing() {
    let mut l = SpinLock::new(0u8);
    let off = LockWindows { contention: false, hold: false };
    match l.lock(0, off, 5) {
        LockStep::Held(g, None) => assert_eq!(l.unlock(g, 9), None),
        _ => panic!("not held"),
    }
}

#[test]
fn every_cpu_has_its_own_slot() {
    let mut p = PerCpu::new(0u32);
    *p.this_mut(3) = 9;
    assert_eq!(*p.get(3), 9);
    assert_eq!(*p.this(2), 0);
    *p.get_mut(2) = 4;
    assert_eq!(*p.this(2), 4);
    assert_eq!(cpu_index(5), 5);
    assert!(cpu_index(1000) < 64);
}

#[test]
fn cpus_come_up_and_are_counted() {
    let mut c = Cpus::new();
    init(&mut c, 40);
    assert_eq!(online_count(&c), 1);
    assert!(!multicore(&c));
    let i = secondary_run(&mut c, 41);
    assert_eq!(i, 1);
    assert_eq!(online_count(&c), 2);
    assert_eq!(cpu_hw_id_of(&c, 1), 41);
    assert_eq!(secondaries_up(&c), 1);
    assert_eq!(shared_value(&c), SECONDARY_MARK);
    set_online(&mut c, 5, 45);
    assert_eq!(online_count(&c), 3);
}

#[test]
fn bringing_a_cpu_up_can_fail() {
    let mut c = Cpus::new();
    init(&mut c, 0);
    let before = Sighting::of(&c);
    assert_eq!(bring_up_one(&c, &before, StartAnswer::Refused("no")), Err(StartError::Blocked("no")));
    assert_eq!(bring_up_one(&c, &before, StartAnswer::Accepted), Err(StartError::Timeout));
    assert_eq!(online_count(&c), 1);
    secondary_run(&mut c, 1);
    assert_eq!(bring_up_one(&c, &before, StartAnswer::Accepted), Ok(1));
    // The next one is another one.
    let before = Sighting::of(&c);
    assert_eq!(bring_up_one(&c, &before, StartAnswer::Accepted), Err(StartError::Timeout));
    secondary_run(&mut c, 2);
    assert_eq!(bring_up_one(&c, &before, StartAnswer::Accepted), Ok(2));
    assert_eq!(online_count(&c), 3);
    assert_eq!(bring_up_target(&vec![0, 4, 9], 0), 4);
    assert_eq!(bring_up_target(&vec![], 0), 1);
}

#[test]
fn all_listed_cpus_are_started() {
    let mut c = Cpus::new();
    init(&mut c, 0);
    let listed = vec![0, 4, 9];
    let mut p = StartPlan::new();
    let mut tried = Vec::new();
    while let Some(hw) = start_all(&c, &mut p, &listed, 0) {
        tried.push(hw);
        start_result(&mut p, listed.len(), hw <= 9);
        assert!(tried.len() < 20);
    }
    assert_eq!(&tried[..2], &[4, 9]);
    assert!(p.started >= 2);
}

#[test]
fn a_machine_with_one_node_has_none_to_prefer() {
    assert_eq!(this_node(1, Some(0)), None);
    assert_eq!(this_node(2, Some(1)), Some(1));
    assert_eq!(this_node(2, None), None);
}

#[test]
fn two_sides_meet_or_time_out() {
    let mut b = Board::new();
    arrive(&mut b, Side::Primary);
    assert_eq!(rendezvous(&mut b, Side::Primary, 0, 10), Wait::Again);
    arrive(&mut b, Side::Secondary);
    assert_eq!(rendezvous(&mut b, Side::Primary, 0, 10), Wait::Done);
    assert!(!rendezvous_timed_out(&b));
    let mut b = Board::new();
    arrive(&mut b, Side::Primary);
    assert_eq!(rendezvous(&mut b, Side::Primary, 11, 10), Wait::TimedOut);
    assert!(rendezvous_timed_out(&b));
}

#[test]
fn work_is_handed_to_the_other_cpu() {
    let mut b = Board::new();
    run_fn_with_secondary(&mut b, 0x1234);
    assert!(matches!(look_for_work(&mut b, false, 1, 0, 10), Work::Function(0x1234)));
    assert_eq!(await_fn(&b, 0, 10), Wait::Again);
    fn_finished(&mut b);
    assert_eq!(await_fn(&b, 0, 10), Wait::Done);
    run_cell_on_secondary(&mut b, 3, false);
    assert!(matches!(look_for_work(&mut b, false, 1, 0, 10), Work::Cell(3)));
    assert_eq!(await_cell(&b, 0, 10).0, Wait::Again);
    cell_finished(&mut b, Some(77));
    assert_eq!(await_cell(&b, 0, 10), (Wait::Done, 77));
    assert!(matches!(look_for_work(&mut b, true, 1, 0, 10), Work::Drain));
    assert_eq!(deadline_after(5, 10), 15);
}

#[test]
fn blocks_of_a_product_cover_its_rows_once() {
    let mut c = Cpus::new();
    init(&mut c, 0);
    let job = GemmJob { a: 0x1000, b: 0, c: 0x9000, as_: 8, bs: 8, cs: 8, lo: 0, hi: 10, n: 8, k: 8 };
    let mut b = Board::new();
    run_gemm_with_secondary(&mut b, &c, job);
    let mut rows = Vec::new();
    while let Some((lo, hi)) = drain_blocks(&mut b, &job) {
        rows.extend(lo..hi);
        block_finished(&mut b, 0);
    }
    assert_eq!(rows, (0..10).collect::<Vec<_>>());
    assert_eq!(blocks_done(&b, 0), 3);
    let _ = await_gemm(&mut b, &job, 0, 10);
    // Rows before the first of the product are not the product's.
    let part = GemmJob { lo: 6, ..job };
    run_gemm_with_secondary(&mut b, &c, part);
    assert_eq!(drain_blocks(&mut b, &part), Some((6, 10)));
    assert_eq!(drain_blocks(&mut b, &part), None);
    assert_eq!(await_gemm(&mut b, &part, 0, 10), Wait::Again);
    block_finished(&mut b, 0);
    assert_eq!(await_gemm(&mut b, &part, 0, 10), Wait::Done);
    let s = gemm_rows(&job, 4, 8).unwrap();
    assert_eq!((s.a, s.c, s.rows), (0x1000 + 32, 0x9000 + 128, 4));
    assert!(gemm_rows(&job, 4, 4).is_none());
}

#[test]
fn a_function_is_run_where_the_two_meet() {
    let mut b = Board::new();
    run_fn_with_secondary(&mut b, 0x1234);
    let (mut first, mut other) = (ErrandAt::Given, HelperAt::Fresh);
    let e = Errand::Function;
    assert_eq!(errand_step(&mut b, &mut first, e, 0), ErrandAction::Look);
    assert_eq!(errand_step(&mut b, &mut first, e, 1), ErrandAction::Spin);
    assert_eq!(secondary_work_loop(&mut b, &mut other, false, 1, 1, 0), HelperAction::Look);
    assert_eq!(secondary_work_loop(&mut b, &mut other, false, 1, 2, 0), HelperAction::Look);
    assert_eq!(secondary_work_loop(&mut b, &mut other, false, 1, 3, 0), HelperAction::Look);
    assert_eq!(
        secondary_work_loop(&mut b, &mut other, false, 1, 4, 0),
        HelperAction::RunFunction(0x1234)
    );
    assert_eq!(errand_step(&mut b, &mut first, e, 4), ErrandAction::RunOwn);
    assert_eq!(errand_step(&mut b, &mut first, e, 5), ErrandAction::Look);
    assert_eq!(errand_step(&mut b, &mut first, e, 6), ErrandAction::Spin);
    assert_eq!(secondary_work_loop(&mut b, &mut other, false, 1, 7, 0), HelperAction::Look);
    assert_eq!(other, HelperAt::Fresh);
    assert_eq!(errand_step(&mut b, &mut first, e, 8), ErrandAction::Return(true, true, 0));
    assert_eq!(first, ErrandAt::Over);
}

#[test]
fn a_cell_that_nobody_meets_is_reported_missed() {
    let late = 20_000_000_000;
    let mut b = Board::new();
    let mut t = CellTable::new(1);
    t.cells[2].nvcores = 1;
    let mut ready = PerCpu::new(false);
    assert!(run_cells_on_both(&mut b, &mut t, &mut ready, 2, 3, true, 1));
    // The cell that stays is this processor's, and its timer is set up once.
    assert_eq!(vcore_cpu(&t, 2, 0), 1);
    assert!(*ready.get(1));
    assert!(!run_cells_on_both(&mut b, &mut t, &mut ready, 2, 3, true, 1));
    let mut other = HelperAt::Fresh;
    for now in 0..3 {
        assert_eq!(secondary_work_loop(&mut b, &mut other, false, 1, now, 0), HelperAction::Look);
    }
    assert_eq!(secondary_work_loop(&mut b, &mut other, false, 1, 3, 0), HelperAction::Spin);
    assert_eq!(secondary_work_loop(&mut b, &mut other, false, 1, late, 0), HelperAction::Look);
    assert_eq!(b.user_cell_done, 1);
    assert!(rendezvous_timed_out(&b));
    // The first comes late, finds the other's mark, and no code.
    let mut first = ErrandAt::Given;
    assert_eq!(errand_step(&mut b, &mut first, Errand::Both, late), ErrandAction::Look);
    assert_eq!(errand_step(&mut b, &mut first, Errand::Both, late), ErrandAction::RunOwn);
    assert_eq!(errand_step(&mut b, &mut first, Errand::Both, late), ErrandAction::Look);
    assert_eq!(errand_step(&mut b, &mut first, Errand::Both, late), ErrandAction::Return(true, true, 0));
}

#[test]
fn a_cell_on_another_cpu_has_longer_and_its_code_comes_back() {
    let mut b = Board::new();
    run_cell_on_secondary(&mut b, 3, true);
    let (mut first, mut other) = (ErrandAt::Given, HelperAt::Fresh);
    errand_step(&mut b, &mut first, Errand::Cell, 0);
    for now in 0..3 {
        secondary_work_loop(&mut b, &mut other, false, 1, now, 0);
    }
    assert_eq!(secondary_work_loop(&mut b, &mut other, false, 1, 3, 0), HelperAction::RunCell(3, true));
    assert_eq!(errand_step(&mut b, &mut first, Errand::Cell, 4), ErrandAction::Look);
    assert_eq!(errand_step(&mut b, &mut first, Errand::Cell, 4), ErrandAction::Look);
    assert_eq!(first, ErrandAt::Waiting(true, 100_000_000_004));
    let mut gave_up = first;
    assert_eq!(
        errand_step(&mut b, &mut gave_up, Errand::Cell, 100_000_000_004),
        ErrandAction::Return(false, false, 0)
    );
    assert_eq!(secondary_work_loop(&mut b, &mut other, false, 1, 5, 77), HelperAction::Look);
    assert_eq!(errand_step(&mut b, &mut first, Errand::Cell, 6), ErrandAction::Return(true, true, 77));
}

#[test]
fn a_cpu_without_work_parks_and_one_with_an_open_round_drains() {
    let mut b = Board::new();
    let mut at = HelperAt::Fresh;
    assert_eq!(secondary_work_loop(&mut b, &mut at, false, 1, 0, 0), HelperAction::Look);
    assert_eq!(at, HelperAt::Idle(10_000_000_000));
    assert_eq!(secondary_work_loop(&mut b, &mut at, false, 1, 9, 0), HelperAction::Spin);
    assert_eq!(secondary_work_loop(&mut b, &mut at, true, 1, 10, 0), HelperAction::Drain);
    assert_eq!(secondary_work_loop(&mut b, &mut at, false, 1, 11, 0), HelperAction::Look);
    assert_eq!(secondary_work_loop(&mut b, &mut at, false, 1, 10_000_000_011, 0), HelperAction::Park);
    assert_eq!(at, HelperAt::Parked);
}

#[test]
fn two_cpus_share_the_rows_of_a_product() {
    let mut c = Cpus::new();
    init(&mut c, 0);
    secondary_run(&mut c, 1);
    let job = GemmJob { a: 0, b: 0, c: 0, as_: 8, bs: 8, cs: 8, lo: 0, hi: 10, n: 8, k: 8 };
    let mut b = Board::new();
    run_gemm_with_secondary(&mut b, &c, job);
    let (mut first, mut other) = (ProductAt::Given, HelperAt::Fresh);
    assert_eq!(product_step(&mut b, &mut first, &job, 0, 0), ProductAction::Look);
    assert_eq!(product_step(&mut b, &mut first, &job, 0, 1), ProductAction::Spin);
    for now in 0..4 {
        assert_eq!(secondary_work_loop(&mut b, &mut other, false, 1, now, 0), HelperAction::Look);
    }
    assert_eq!(product_step(&mut b, &mut first, &job, 0, 4), ProductAction::Look);
    assert_eq!(product_step(&mut b, &mut first, &job, 0, 4), ProductAction::Rows(0, 4));
    assert_eq!(secondary_work_loop(&mut b, &mut other, false, 1, 4, 0), HelperAction::Rows(job, 4, 8));
    assert_eq!(product_step(&mut b, &mut first, &job, 0, 5), ProductAction::Rows(8, 10));
    assert_eq!(product_step(&mut b, &mut first, &job, 0, 6), ProductAction::Look);
    assert_eq!(product_step(&mut b, &mut first, &job, 0, 7), ProductAction::Spin);
    assert_eq!(secondary_work_loop(&mut b, &mut other, false, 1, 8, 0), HelperAction::Look);
    assert_eq!((b.jobs_done, other), (1, HelperAt::Fresh));
    assert_eq!((blocks_done(&b, 0), blocks_done(&b, 1)), (2, 1));
    assert_eq!(product_step(&mut b, &mut first, &job, 0, 9), ProductAction::Return(true, true));
    assert_eq!(b.job, None);
}

#[test]
fn the_cpu_that_opens_a_round_waits_for_it_and_reports() {
    let t = CellTable::new(1);
    assert_eq!(nodes_of(&t, &vec![4, 1000]), vec![NODE_ANY, NODE_ANY]);
    let mut r = Round::new();
    place_cells(&mut r, &vec![1], &vec![0], 1, 1);
    let mut at = PlacingAt::Opened;
    let mut out = vec![(5, 5)];
    assert_eq!(place_vcores_inner(&mut r, &mut at, 0, &mut out), PlacingAction::Drain);
    let mut late = at;
    join(&mut r);
    let mut batch: Vec<Held> = Vec::new();
    while !matches!(drain_cells(&mut r, &mut batch, worker(2, None)), DrainStep::Run(0)) {}
    assert_eq!(place_vcores_inner(&mut r, &mut at, 1, &mut out), PlacingAction::Look);
    assert_eq!(place_vcores_inner(&mut r, &mut at, 2, &mut out), PlacingAction::Spin);
    finish_one(&mut r, &mut batch, 4, 9, 2);
    assert_eq!(place_vcores_inner(&mut r, &mut at, 3, &mut out), PlacingAction::Look);
    assert!(!r.open);
    assert_eq!(place_vcores_inner(&mut r, &mut at, 4, &mut out), PlacingAction::Look);
    assert_eq!(place_vcores_inner(&mut r, &mut at, 5, &mut out), PlacingAction::Spin);
    leave(&mut r);
    assert_eq!(place_vcores_inner(&mut r, &mut at, 6, &mut out), PlacingAction::Return(true));
    assert_eq!(out, [(9, 2)]);
    // A round that is not done in time hands nothing out.
    let mut r = Round::new();
    place_cells(&mut r, &vec![1], &vec![0], 1, 1);
    let mut out = vec![(5, 5)];
    assert_eq!(place_vcores_inner(&mut r, &mut late, 0, &mut out), PlacingAction::Look);
    assert_eq!(place_vcores_inner(&mut r, &mut late, 10_000_000_000, &mut out), PlacingAction::Look);
    assert_eq!(place_vcores_inner(&mut r, &mut late, 10_000_000_001, &mut out), PlacingAction::Look);
    assert_eq!(place_vcores_inner(&mut r, &mut late, 10_000_000_002, &mut out), PlacingAction::Return(false));
    assert_eq!(out, [(5, 5)]);
}

#[test]
fn timer_interrupts_are_set_up_once_per_cpu() {
    let mut ready = PerCpu::new(false);
    assert!(enable_preemption_here(&mut ready, 2));
    assert!(!enable_preemption_here(&mut ready, 2));
    assert!(enable_preemption_here(&mut ready, 3));
}
