use rheo::kernel::telemetry::{Level, Record, Ring, Rings, MAX_RING_CPUS, PAYLOAD_MAX, SLOTS};

#[test]
fn records_come_out_as_they_went_in() {
    let mut r = Ring::empty();
    assert!(r.push(Level::Info, 1, 10, b"one"));
    assert!(r.push(Level::Warn, 1, 20, b"two"));
    assert_eq!(r.pending(), 2);
    let a = r.pop().unwrap();
    assert_eq!((a.ts_ns, a.cpu, a.level, a.bytes()), (10, 1, Level::Info, &b"one"[..]));
    assert_eq!(r.peek().unwrap().bytes(), b"two");
    assert_eq!(r.pop().unwrap().ts_ns, 20);
    assert!(r.pop().is_none());
    assert_eq!(Record::empty().bytes(), b"");
}

#[test]
fn long_records_are_cut_and_say_so() {
    let mut r = Ring::empty();
    r.push(Level::Error, 0, 1, &[7u8; 200]);
    let a = r.pop().unwrap();
    assert_eq!(a.bytes().len(), PAYLOAD_MAX);
    assert!(a.truncated);
    // A record can claim to have been longer than what is left of it.
    r.push_claimed(Level::Error, 0, 1, b"abc", 200);
    assert!(r.pop().unwrap().truncated);
}

#[test]
fn repeated_records_are_counted_in_one() {
    let mut r = Ring::empty();
    r.push(Level::Info, 0, 1, b"same");
    r.push(Level::Info, 0, 2, b"same");
    r.push(Level::Info, 0, 3, b"same");
    assert_eq!(r.pending(), 1);
    let a = r.pop().unwrap();
    assert_eq!(a.repeats, 2);
    let (_, _, coalesced) = r.counters();
    assert_eq!(coalesced, 2);
}

#[test]
fn a_full_ring_counts_what_it_loses() {
    let mut r = Ring::empty();
    for i in 0..SLOTS {
        assert!(r.push(Level::Info, 0, i as u64, &[i as u8]));
    }
    assert!(!r.push(Level::Info, 0, 99, b"x"));
    assert!(!r.push(Level::Info, 0, 100, b"y"));
    assert_eq!(r.pending(), SLOTS);
    // The older records are still there, and the loss stands where it happened.
    assert_eq!(r.pop().unwrap().ts_ns, 0);
    assert!(r.push(Level::Info, 0, 101, b"z"));
    let mut all = Vec::new();
    while let Some(x) = r.pop() {
        all.push((x.ts_ns, x.lost));
    }
    assert_eq!(all[all.len() - 2], (SLOTS as u64 - 1, 2));
    assert_eq!(all[all.len() - 1], (101, 0));
    assert_eq!(r.counters().1, 2);
}

#[test]
fn counters_wrap() {
    let mut r = Ring::empty();
    r.seek_for_test(u32::MAX, u32::MAX);
    r.push(Level::Info, 0, 1, b"a");
    r.push(Level::Info, 0, 2, b"b");
    assert_eq!(r.pending(), 2);
    assert_eq!(r.pop().unwrap().bytes(), b"a");
    assert_eq!(r.pop().unwrap().bytes(), b"b");
    r.reset();
    assert_eq!(r.pending(), 0);
}

#[test]
fn the_oldest_of_all_cpus_comes_first() {
    let mut r = Rings::empty();
    assert!(!r.push(Level::Info, 1, 1, b"before anyone listens"));
    assert_eq!(r.counters(), (0, 0, 0, 1));
    r.set_buffered(true);
    r.push(Level::Info, 1, 30, b"c");
    r.push(Level::Info, 0, 10, b"a");
    r.push(Level::Info, 2, 20, b"b");
    assert_eq!(r.pending(), 3);
    let order: Vec<u64> = (0..3).map(|_| r.pop_oldest().unwrap().ts_ns).collect();
    assert_eq!(order, [10, 20, 30]);
    assert!(r.pop_oldest().is_none());
}

#[test]
fn a_threshold_keeps_the_unimportant_out() {
    let mut r = Rings::empty();
    assert!(!r.wants(Level::Error));
    r.set_buffered(true);
    r.set_threshold(Level::Warn);
    assert!(r.wants(Level::Error));
    assert!(r.wants(Level::Warn));
    assert!(!r.wants(Level::Info));
    assert!(Level::Error.rank() < Level::Trace.rank());
    assert!(!r.push(Level::Info, 0, 1, b"x"));
    assert!(r.push(Level::Warn, 0, 1, b"x"));
    // A CPU without a ring counts as a loss.
    assert!(!r.push(Level::Warn, 40, 1, b"x"));
    assert_eq!(r.counters(), (1, 1, 0, 0));
    r.reset();
    assert!(!r.buffered());
    assert_eq!(r.pending(), 0);
    assert_eq!(MAX_RING_CPUS, 8);
}

#[test]
fn every_slot_of_a_new_ring_is_empty() {
    let mut r = Ring::empty();
    r.seek_for_test(64, 0);
    for _ in 0..64 {
        let rec = r.pop().unwrap();
        assert_eq!(rec.bytes(), b"");
        assert_eq!((rec.ts_ns, rec.cpu, rec.repeats, rec.lost, rec.truncated), (0, 0, 0, 0, false));
        assert!(rec.level == Level::Info);
    }
    assert!(r.pop().is_none());
}

#[test]
fn what_is_drained_is_what_was_pushed_in_order() {
    let mut r = Rings::empty();
    assert_eq!(r.counters(), (0, 0, 0, 0));
    r.set_buffered(true);
    for (cpu, ts) in [(0u16, 10u64), (1, 5), (1, 30), (0, 20), (2, 7)] {
        assert!(r.push(Level::Info, cpu, ts, &[cpu as u8, ts as u8]));
    }
    let mut seen = Vec::new();
    while let Some(rec) = r.pop_oldest() {
        assert_eq!(rec.len as usize, rec.bytes().len());
        seen.push(rec.ts_ns);
    }
    assert_eq!(seen, [5, 7, 10, 20, 30]);
}

#[test]
fn records_account_for_every_message() {
    let mut r = Ring::empty();
    let mut kept = 0;
    let mut lost = 0;
    for i in 0..300u64 {
        if r.push(Level::Info, 0, i, &[(i / 2) as u8]) {
            kept += 1;
        } else {
            lost += 1;
        }
    }
    let (mut told, mut missed) = (0, 0);
    while let Some(rec) = r.pop() {
        told += 1 + rec.repeats as u32;
        missed += rec.lost as u32;
    }
    assert_eq!((told, missed), (kept, lost));
}
