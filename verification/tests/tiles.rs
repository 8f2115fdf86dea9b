use rheo::programs::battle;
use rheo::programs::battle::{BattleAction, BattleAt, BattleEvent, Fill, Product};
use rheo::programs::runs::{Buffer, Executor, Marks, Program, Ran, Report, TileOp};
use rheo::programs::tile::{dot_from, fnv1a, receipt, same_numbers, Tile32, Tile8};
use rheo::programs::tilework;
use rheo::programs::tilework::{
    ContractFacts, GemmShape, Part, SimCounts, TileAction, TileAsk, TileAt, TileEvent, TuneKey,
};

fn bytes(t: &Buffer) -> &Tile8 {
    match t {
        Buffer::Bytes(t) => t,
        Buffer::Words(_) => panic!("words"),
    }
}

fn words(t: &Buffer) -> &Tile32 {
    match t {
        Buffer::Words(t) => t,
        Buffer::Bytes(_) => panic!("bytes"),
    }
}

fn blank8(t: &Tile8) -> Tile8 {
    Tile8::new(t.rows, t.cols, t.stride)
}

fn blank32(t: &Tile32) -> Tile32 {
    Tile32::new(t.rows, t.cols, t.stride)
}

/// The product of two tiles, block by block.
fn gemm(a: &Tile8, b: &Tile8, c: &mut Tile32, block: usize) {
    for i0 in (0..c.rows).step_by(block) {
        for j0 in (0..c.cols).step_by(block) {
            for i in i0..c.rows.min(i0 + block) {
                for j in j0..c.cols.min(j0 + block) {
                    let v = (0..a.cols).map(|k| a.get(i, k) as i32 * b.get(k, j) as i32).sum();
                    c.set(i, j, v);
                }
            }
        }
    }
}

fn narrow(c: &Tile32, d: &mut Tile8, shift: u32) {
    for i in 0..d.rows {
        for j in 0..d.cols {
            d.set(i, j, (c.get(i, j) >> shift).clamp(-128, 127) as i8);
        }
    }
}

fn reduce(c: &Tile32) -> u64 {
    (0..c.rows).flat_map(|i| (0..c.cols).map(move |j| (i, j))).map(|(i, j)| c.get(i, j) as i64).sum::<i64>() as u64
}

fn copied(c: &Tile32) -> Tile32 {
    let mut d = blank32(c);
    for i in 0..c.rows {
        for j in 0..c.cols {
            d.set(i, j, c.get(i, j));
        }
    }
    d
}

/// Run a program step by step.
fn run(p: Program) -> Report {
    let mut tiles = p.tiles;
    let mut checksums = Vec::new();
    let mut reduced = 0;
    for op in p.ops {
        match op {
            TileOp::Gemm { a, b, c, block } | TileOp::GemmOr { a, b, c, block, .. } => {
                let mut out = blank32(words(&tiles[c]));
                gemm(bytes(&tiles[a]), bytes(&tiles[b]), &mut out, block);
                checksums.push(receipt(&out));
                tiles[c] = Buffer::Words(out);
            }
            TileOp::ShiftClamp { from, to, shift } => {
                let mut out = blank8(bytes(&tiles[to]));
                narrow(words(&tiles[from]), &mut out, shift);
                tiles[to] = Buffer::Bytes(out);
            }
            TileOp::Duplicate { from, to } => tiles[to] = Buffer::Words(copied(words(&tiles[from]))),
            TileOp::Reduce { of } => {
                reduced = match &tiles[of] {
                    Buffer::Words(t) => reduce(t),
                    Buffer::Bytes(_) => 0,
                }
            }
        }
    }
    Report { checksums, reduced, tiles }
}

fn filled(rows: usize, cols: usize, seed: u64) -> Tile8 {
    let mut t = Tile8::new(rows, cols, cols);
    battle::fill_i8(&mut t, seed);
    t
}

#[test]
fn a_product_is_the_product() {
    let mut a = Tile8::new(2, 3, 3);
    let mut b = Tile8::new(3, 2, 2);
    for i in 0..2 {
        for j in 0..3 {
            a.set(i, j, (i * 3 + j) as i8 + 1);
            b.set(j, i, -(j as i8));
        }
    }
    let c = tilework::reference(&a, &b);
    assert_eq!((c.get(0, 0), c.get(1, 1)), (-8, -17));
    assert_eq!(dot_from(&a, &b, 1, 1, 0, 2, 0), -5);
    assert!(battle::matches_naive(&a, &b, &c));
    let mut d = copied(&c);
    d.set(1, 0, 0);
    assert!(!battle::matches_naive(&a, &b, &d));
    assert!(!same_numbers(&c, &d));
}

#[test]
fn blocks_do_not_show() {
    let a = filled(13, 5, 21);
    let b = filled(5, 17, 22);
    let plain = tilework::reference(&a, &b);
    for block in [1, 3, 16, 100] {
        let mut c = Tile32::new(13, 17, 20);
        gemm(&a, &b, &mut c, block);
        assert!(same_numbers(&c, &plain));
        assert!(battle::matches_naive(&a, &b, &c));
        assert_eq!(receipt(&c), receipt(&plain));
    }
    let seeded = |seed: u64| Fill { ci: seed + 3, cj: 2 * seed + 7, c0: seed };
    let g = Product {
        m: 13,
        k: 5,
        n: 17,
        b_stride: 17,
        c_stride: 20,
        a: seeded(21),
        b: seeded(22),
        block: 16,
    };
    assert!(battle::holds_naive(g, &plain));
    assert!(!battle::holds_naive(Product { a: seeded(20), ..g }, &plain));
    let report = run(battle::forming(g));
    assert_eq!(report.checksums, [receipt(&plain)]);
    assert!(same_numbers(words(&report.tiles[2]), &plain));
}

#[test]
fn a_receipt_is_the_published_hash() {
    assert_eq!(fnv1a(b""), 0xcbf2_9ce4_8422_2325);
    assert_eq!(fnv1a(b"a"), 0xaf63_dc4c_8601_ec8c);
    assert_eq!(fnv1a(b"foobar"), 0x8594_4171_f739_67e8);
    let mut c = Tile32::new(1, 2, 3);
    c.set(0, 0, 1);
    c.set(0, 1, -1);
    assert_eq!(receipt(&c), fnv1a(&[1, 0, 0, 0, 255, 255, 255, 255]));
}

#[test]
fn places_are_counted() {
    let c = battle::counted(64, 64);
    assert_eq!((c.get(0, 17), c.get(63, 63)), (17, 4095));
    assert_eq!(reduce(&c), tilework::PLACES_SUM);
    assert_eq!(tilework::PLACES_SUM, 4095 * 4096 / 2);
    assert_eq!(reduce(&battle::counted(256, 256)), battle::COLUMN_SUM);
}

#[test]
fn fills_are_bytes_of_a_linear_form() {
    let t = filled(4, 4, 2);
    for i in 0..4usize {
        for j in 0..4usize {
            assert_eq!(t.get(i, j), ((i * 5 + j * 11 + 2) & 0xFF) as u8 as i8);
        }
    }
    let mut t = Tile8::new(9, 40, 40);
    battle::fill_linear(&mut t, 31, 7, 0);
    assert_eq!(t.get(8, 39), ((8 * 31 + 39 * 7) & 0xFF) as u8 as i8);
}

#[test]
fn shared_pages_score_the_same() {
    let mut pool = Tile8::new(48, 128, 128);
    battle::fill_i8(&mut pool, 3);
    let scores = |table: Vec<usize>| run(battle::paged_kv_scores(&pool, &table));
    let (a, b) = (scores(vec![0, 2]), scores(vec![0, 1]));
    let (a, b) = (words(&a.tiles[2]), words(&b.tiles[2]));
    for r in 0..16 {
        for c in 0..16 {
            assert_eq!(a.get(r, c), b.get(r, c));
        }
    }
    assert!(!same_numbers(a, b));
    let kt = battle::gather(&pool, &vec![2]);
    assert_eq!(kt.get(3, 5), pool.get(37, 3));
}

/// Fight, with what the program that is run as the `n`th becomes.
fn fight(change: impl FnMut(usize, Executor, Report) -> Ran, had: bool, quant: i32) -> (i32, usize, u32) {
    fight_with(brief, change, had, quant)
}

/// The receipts of the large programs are made up: nothing looks at their tiles.
fn brief(p: Program) -> Report {
    let large = bytes_or_words(&p) == (256, 256) && p.ops.len() == 1 && p.tiles.len() == 3;
    if large || p.tiles.len() == 11 {
        return Report { checksums: vec![p.tiles.len() as u64], reduced: 9, tiles: vec![] };
    }
    run(p)
}

fn bytes_or_words(p: &Program) -> (usize, usize) {
    match &p.tiles[0] {
        Buffer::Bytes(t) => (t.rows, t.cols),
        Buffer::Words(t) => (t.rows, t.cols),
    }
}

fn fight_with(
    mut exec: impl FnMut(Program) -> Report,
    mut change: impl FnMut(usize, Executor, Report) -> Ran,
    had: bool,
    quant: i32,
) -> (i32, usize, u32) {
    let mut at = BattleAt::Begun;
    let mut event = BattleEvent::Go;
    let (mut runs, mut churns) = (0, 0);
    loop {
        assert!(battle::fits(&at, &event));
        let (next, action) = battle::work(at, event);
        at = next;
        event = match action {
            BattleAction::Run(who, p) => {
                let report = exec(p);
                runs += 1;
                BattleEvent::Ran(change(runs - 1, who, report))
            }
            BattleAction::HaveAndGiveBack => {
                churns += 1;
                BattleEvent::Had(had)
            }
            BattleAction::Quantize => BattleEvent::Quantized(quant),
            BattleAction::Done(code) => return (code, runs, churns),
        };
    }
}

/// Fight until the program that is run as the `n`th, which comes to this.
fn lose(n: usize, what: impl Fn(Report) -> Ran) -> i32 {
    let (code, runs, _) = fight(|i, _, r| if i == n { what(r) } else { Ran::Done(r) }, true, 0);
    assert_eq!(runs, n + 1);
    code
}

fn forged(mut r: Report) -> Ran {
    r.checksums[0] ^= 1;
    Ran::Done(r)
}

#[test]
fn a_battle_that_is_won() {
    let mut who = Vec::new();
    let end = fight_with(
        run,
        |_, x, r| {
            who.push(x);
            Ran::Done(r)
        },
        true,
        0,
    );
    assert_eq!(end, (0, 115, 20));
    assert_eq!(who[7..11], [
        Executor::Processor(4),
        Executor::Processor(4),
        Executor::Processor(8),
        Executor::Engine(0)
    ]);
    assert_eq!(who[114], Executor::Engine(0));
}

#[test]
fn products_of_layers_have_codes() {
    assert_eq!(lose(0, |_| Ran::Refused(0)), 10);
    assert_eq!(lose(1, |_| Ran::Failed), 11);
    assert_eq!(lose(1, forged), 12);
    assert_eq!(lose(2, |_| Ran::Refused(0)), 13);
    assert_eq!(lose(3, |_| Ran::Failed), 14);
    assert_eq!(lose(3, forged), 15);
    assert_eq!(lose(4, |_| Ran::Refused(0)), 16);
    assert_eq!(lose(4, |_| Ran::Failed), 17);
    let wrong = |mut r: Report| {
        let Buffer::Words(t) = &mut r.tiles[2] else { panic!("bytes") };
        let v = t.get(0, 0);
        t.set(0, 0, v + 1);
        Ran::Done(r)
    };
    assert_eq!(lose(4, wrong), 18);
}

#[test]
fn attention_does_not_drift() {
    assert_eq!(lose(5, |_| Ran::Refused(3)), 20);
    assert_eq!(lose(5, |_| Ran::Failed), 21);
    assert_eq!(lose(6, |_| Ran::Failed), 21);
    assert_eq!(lose(6, forged), 22);
    let summed = |mut r: Report| {
        r.reduced += 1;
        Ran::Done(r)
    };
    assert_eq!(lose(6, summed), 22);
    assert_eq!(lose(11, |_| Ran::Failed), 50);
    assert_eq!(lose(110, forged), 51);
}

fn column_is(sum: u64) -> impl Fn(Report) -> Ran {
    move |mut r: Report| {
        r.reduced = sum;
        Ran::Done(r)
    }
}

#[test]
fn pages_and_columns_have_codes() {
    assert_eq!(lose(7, |_| Ran::Failed), 30);
    assert_eq!(lose(8, |_| Ran::Failed), 31);
    let at = |r: usize, c: usize| {
        move |mut rep: Report| {
            let Buffer::Words(t) = &mut rep.tiles[2] else { panic!("bytes") };
            let v = t.get(r, c);
            t.set(r, c, v + 1);
            Ran::Done(rep)
        }
    };
    assert_eq!(lose(8, at(15, 63)), 32);
    let mut kept = None;
    let (code, runs, _) = fight(
        |i, _, r| {
            if i == 7 {
                kept = Some(copied(words(&r.tiles[2])));
            }
            if i == 8 {
                let tiles = vec![
                    Buffer::Words(Tile32::new(0, 0, 0)),
                    Buffer::Words(Tile32::new(0, 0, 0)),
                    Buffer::Words(kept.take().unwrap()),
                ];
                return Ran::Done(Report { tiles, ..r });
            }
            Ran::Done(r)
        },
        true,
        0,
    );
    assert_eq!((code, runs), (33, 9));
    assert_eq!(lose(9, |_| Ran::Refused(0)), 40);
    assert_eq!(lose(9, |_| Ran::Failed), 41);
    assert_eq!(lose(10, |_| Ran::Unavailable), 42);
    assert_eq!(lose(10, column_is(1)), 43);
    assert_eq!(battle::COLUMN_SUM, 65536 * 65535 / 2);
}

#[test]
fn the_end_of_the_battle_has_codes() {
    assert_eq!(fight(|_, _, r| Ran::Done(r), false, 0), (55, 111, 1));
    assert_eq!(lose(111, |_| Ran::Refused(0)), 60);
    assert_eq!(lose(111, |_| Ran::Failed), 61);
    assert_eq!(lose(112, |_| Ran::Refused(0)), 63);
    assert_eq!(lose(112, |_| Ran::Failed), 64);
    assert_eq!(fight(|_, _, r| Ran::Done(r), true, 68), (68, 113, 20));
    assert_eq!(lose(113, |_| Ran::Refused(4)), 70);
    assert_eq!(lose(113, |_| Ran::Refused(5)), 71);
    assert_eq!(lose(113, |_| Ran::Failed), 72);
    assert_eq!(lose(114, |_| Ran::Refused(0)), 73);
    assert_eq!(lose(114, |_| Ran::Unavailable), 74);
}

#[test]
fn odd_products_are_compared() {
    let off = |mut r: Report| {
        let Buffer::Words(t) = &mut r.tiles[2] else { panic!("bytes") };
        t.set(0, 0, 1 << 20);
        Ran::Done(r)
    };
    assert_eq!(lose(111, off), 62);
    assert_eq!(lose(112, off), 65);
}

fn counts() -> SimCounts {
    SimCounts {
        mac_ops: 128 * 128 * 128,
        mma_tiles: 512,
        tile_trips: 512,
        yields: 64,
        bytes_in: 2 * 128 * 128,
        bytes_out: 128 * 128 * 4,
        bytes_staged: 512 * 512 + 64 * 1024,
    }
}

#[test]
fn simulations_count_the_closed_forms() {
    assert_eq!(tilework::sim_code(counts(), counts()), 0);
    let other = SimCounts { yields: 65, ..counts() };
    assert_eq!(tilework::sim_code(counts(), other), 31);
    assert_eq!(tilework::sim_code(other, other), 32);
}

fn facts() -> ContractFacts {
    ContractFacts { is_cpu: true, measured: true, multiplies_bytes: true }
}

fn ends(at: TileAt, event: TileEvent) -> i32 {
    assert!(tilework::fits(&at, &event));
    match tilework::work(at, event) {
        (TileAt::Over, TileAction::Done(code)) => code,
        _ => panic!("it goes on"),
    }
}

#[test]
fn the_tile_program_has_codes() {
    let key = |program, shape_class| TuneKey { program, shape_class };
    let other = SimCounts { yields: 65, ..counts() };
    let without: Vec<i32> = (0..14).map(|k| ends(TileAt::Having(k), TileEvent::Had(false))).collect();
    assert_eq!(without, [10, 11, 12, 40, 41, 42, 50, 51, 52, 53, 60, 61, 62, 80]);
    assert_eq!(ends(TileAt::Parts, TileEvent::Parts(false, false)), 13);
    assert_eq!(ends(TileAt::Parts, TileEvent::Parts(true, true)), 14);
    assert_eq!(ends(TileAt::Product, TileEvent::Ran(Ran::Refused(0))), 20);
    assert_eq!(ends(TileAt::Product, TileEvent::Ran(Ran::Failed)), 21);
    assert_eq!(ends(TileAt::Contract, TileEvent::Contract(None)), 30);
    let sim = TileAt::Simulated;
    assert_eq!(ends(sim(facts()), TileEvent::Counted(counts(), other)), 31);
    assert_eq!(ends(sim(facts()), TileEvent::Counted(other, other)), 32);
    let cold = ContractFacts { measured: false, ..facts() };
    assert_eq!(ends(sim(cold), TileEvent::Counted(counts(), counts())), 33);
    let words_only = ContractFacts { multiplies_bytes: false, ..facts() };
    assert_eq!(ends(sim(words_only), TileEvent::Counted(counts(), counts())), 34);
    assert_eq!(ends(TileAt::Keys, TileEvent::Keys(None)), 35);
    assert_eq!(ends(TileAt::Keys, TileEvent::Keys(Some((key(1, 7), key(1, 7))))), 36);
    assert_eq!(ends(TileAt::Keys, TileEvent::Keys(Some((key(1, 7), key(2, 8))))), 37);
    assert_eq!(ends(TileAt::Sums, TileEvent::Ran(Ran::Refused(2))), 43);
    assert_eq!(ends(TileAt::Sums, TileEvent::Ran(Ran::Unavailable)), 44);
    assert_eq!(ends(TileAt::Quant, TileEvent::Code(56)), 56);
    assert_eq!(ends(TileAt::Small, TileEvent::Ran(Ran::Refused(1))), 63);
    assert_eq!(ends(TileAt::Small, TileEvent::Ran(Ran::Failed)), 64);
    let marks = || Marks { checksums: vec![5, 6], reduced: 7 };
    let report = |checksums, reduced| Ran::Done(Report { checksums, reduced, tiles: vec![] });
    let engine = |r| ends(TileAt::Engine(marks()), TileEvent::Ran(r));
    assert_eq!(engine(Ran::Unavailable), 65);
    assert_eq!(engine(report(vec![5], 7)), 66);
    assert_eq!(engine(report(vec![5, 8], 7)), 66);
    assert_eq!(engine(report(vec![5, 6], 8)), 66);
    assert_eq!(ends(TileAt::Missing, TileEvent::Ran(Ran::Failed)), 67);
    assert_eq!(ends(TileAt::Missing, TileEvent::Ran(report(vec![], 0))), 67);
    for i in 0..3 {
        assert_eq!(ends(TileAt::Denied(i), TileEvent::Refused(false)), 68 + i as i32);
    }
    assert_eq!(ends(TileAt::Formats, TileEvent::Code(83)), 83);
    assert!(!tilework::fits(&TileAt::Product, &TileEvent::Ran(report(vec![], 0))));
    assert_eq!(tilework::exit_code(0, true, false), 90);
    assert_eq!(tilework::exit_code(0, true, true), 0x42);
    assert_eq!(tilework::exit_code(5, false, true), 5);
}

#[test]
fn a_trial_of_the_tiles_that_goes_well() {
    let key = |program, shape_class| TuneKey { program, shape_class };
    let mut at = TileAt::Begun;
    let mut event = TileEvent::Go;
    let (mut asked, mut denied, mut who) = (Vec::new(), Vec::new(), Vec::new());
    let code = loop {
        let (next, action) = tilework::work(at, event);
        at = next;
        event = match action {
            TileAction::Have(ask) => {
                asked.push(ask);
                TileEvent::Had(true)
            }
            TileAction::Parts(inner, outer) => {
                assert_eq!(outer, Part { row: 120, col: 120, rows: 16, cols: 16 });
                TileEvent::Parts(inner.fits(128, 128), outer.fits(128, 128))
            }
            TileAction::Run(x, p) => {
                who.push(x);
                TileEvent::Ran(if x == Executor::Engine(999) { Ran::Unavailable } else { Ran::Done(run(p)) })
            }
            TileAction::Contract(0) => TileEvent::Contract(Some(facts())),
            TileAction::Simulate(16) => TileEvent::Counted(counts(), counts()),
            TileAction::Keys(16, 32) => TileEvent::Keys(Some((key(1, 7), key(2, 7)))),
            TileAction::Quantize => TileEvent::Code(0),
            TileAction::Deny(shape) => {
                denied.push(shape);
                TileEvent::Refused(true)
            }
            TileAction::Formats => TileEvent::Code(0),
            TileAction::Done(code) => break code,
            _ => panic!("something else is asked for"),
        };
    };
    assert_eq!(code, 0);
    assert_eq!(asked.len(), 14);
    assert_eq!(asked[2], TileAsk { rows: 128, cols: 128, width: 4 });
    assert_eq!(asked[5], TileAsk { rows: 64, cols: 64, width: 1 });
    assert_eq!(asked[8], TileAsk { rows: 1, cols: 16, width: 4 });
    let eight = Executor::Processor(8);
    assert_eq!(who, [eight, eight, eight, Executor::Engine(0), Executor::Engine(999)]);
    let shape = GemmShape { m: 64, n: 64, k: 0, stride: 64, dtype_in: 0, dtype_acc: 2 };
    assert_eq!(denied, [Some(shape), Some(GemmShape { k: 64, dtype_acc: 3, ..shape }), None]);
}

#[test]
fn what_ran_is_judged() {
    let product = || {
        let (_, action) = tilework::work(TileAt::Parts, TileEvent::Parts(true, false));
        let TileAction::Run(_, p) = action else { panic!("no program") };
        run(p)
    };
    let mut r = product();
    assert_eq!(tilework::judge_product(&r), 0);
    r.checksums[0] ^= 1;
    assert_eq!(tilework::judge_product(&r), 23);
    r.checksums.clear();
    assert_eq!(tilework::judge_product(&r), 23);
    if let Buffer::Words(t) = &mut r.tiles[2] {
        let v = t.get(127, 127);
        t.set(127, 127, v - 1);
    }
    assert_eq!(tilework::judge_product(&r), 22);
    let (_, action) = tilework::work(TileAt::Having(5), TileEvent::Had(true));
    let TileAction::Run(_, p) = action else { panic!("no program") };
    let mut r = run(p);
    assert_eq!(tilework::judge_sums(&r), 0);
    if let Buffer::Bytes(t) = &mut r.tiles[2] {
        t.set(63, 63, -1);
    }
    assert_eq!(tilework::judge_sums(&r), 46);
    r.reduced -= 1;
    assert_eq!(tilework::judge_sums(&r), 45);
}
