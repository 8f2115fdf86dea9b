use rheo::programs::aggregate::{
    answer_graph, counted_column, fill_blocks, odd_total, run as run_compute, scan_of_ones,
    ComputeAction, ComputeAt, ComputeEvent, Reserved, Share,
};
use rheo::programs::coreutils::{child_code, echo, echo_inherited};
use rheo::programs::data::{
    aggregate, check_header, check_table, column_pieces, fits, grants, holds_pattern, pattern_bytes, scan,
    Aggregate, GrantAction, GrantAt, GrantEvent, ScanAction, ScanAt, ScanEvent, MAGIC,
};
use rheo::programs::drawing::{
    card_code, card_pattern, card_picture, client_code, frame_pattern, frame_picture, server_code,
};
use rheo::programs::fpcheck::{all_preserved, check, fp_phase, pattern, Buf, FpReport, Verdict};
use rheo::programs::frames::{
    build_arp_request, build_tcp_syn, checksum, is_gateway_arp_reply, is_gateway_tcp_answer, sum16,
};
use rheo::programs::lrsh::{complete, outcome, run_line, Step, EOF_CODE};
use rheo::programs::netwait::{poll_run, run, NetAction, NetAt, NetEvent, PollAt, OK_CODE};
use rheo::programs::streams::{
    acknowledge, byte, ipc_code, ipc_message, payload, pipe_code, pipe_message, IPC_N, PIPE_N,
};
use rheo::programs::trials::{
    demo, echo_word, embed_code, json_code, libc_step, pmem_code, rows_code, rows_given, salted,
    sum_below, sum_text, term_code, u32_arg, vcore0, vcore1, vcore_role, word, words_written, DemoAction,
    DemoAt, DemoEvent, LibcAction, LibcAt, LibcEvent, Orchestra, VcoreStep,
};
use rheo::programs::words::{join, parse_i32, parse_u64, words};
use rheo::user::cap::QueueCap;
use rheo::user::compute::EngineKind;
use rheo::user::ipc::Message;
use rheo::user::mem::MemKind;
use rheo::user::proc::{has_args, Image};

fn chars(s: &str) -> Vec<char> {
    s.chars().collect()
}

fn text(v: &[char]) -> String {
    v.iter().collect()
}

fn table(rows: u32) -> Vec<u8> {
    let mut t = Vec::new();
    for w in [MAGIC, rows, 2, 0] {
        t.extend(w.to_le_bytes());
    }
    for i in 0..rows {
        t.extend(i.to_le_bytes());
    }
    for i in 0..rows {
        t.extend((i & 1).to_le_bytes());
    }
    t
}

#[test]
fn the_query_comes_to_its_closed_form() {
    let t = table(64);
    assert_eq!(check_header(&t[..16].to_vec()), Ok(64));
    let want = Aggregate { sum: 1024, count: 32, max: 63 };
    assert_eq!(aggregate(&t, 64), want);
    let column = t[16..16 + 256].to_vec();
    assert_eq!(check_table(&column, &t, 64), Ok(want));
    let mut other = column.clone();
    other[4] = 9;
    assert_eq!(check_table(&other, &t, 64), Err(28));
    let mut wrong = t.clone();
    wrong[16 + 4 * 63] = 62;
    let column = wrong[16..16 + 256].to_vec();
    assert_eq!(check_table(&column, &wrong, 64), Err(29));
}

#[test]
fn a_header_is_checked() {
    let t = table(64);
    let mut h = t[..16].to_vec();
    h[0] = 0;
    assert_eq!(check_header(&h), Err(24));
    let mut h = t[..16].to_vec();
    h[4] = 7;
    assert_eq!(check_header(&h), Err(24));
}

#[test]
fn the_trial_of_the_grants_has_codes() {
    let done = GrantEvent::Done;
    let read = || GrantEvent::Read(pattern_bytes(8192));
    let good = || {
        vec![done(true), read(), done(true), done(true), done(true), done(false), done(true), done(false)]
    };
    let (code, asked) = try_grants(good());
    assert_eq!((code, asked), (0, 8));
    let bad = [
        (0, done(false), 10),
        (1, GrantEvent::Read(vec![0, 7, 15]), 11),
        (2, done(false), 12),
        (3, done(false), 12),
        (4, done(false), 13),
        (5, done(true), 13),
        (6, done(false), 14),
        (7, done(true), 15),
    ];
    for (n, event, code) in bad {
        let mut answers: Vec<GrantEvent> = good().into_iter().take(n).collect();
        answers.push(event);
        assert_eq!(try_grants(answers), (code, n + 1));
    }
    assert!(holds_pattern(&(0..600).map(|i| (i * 7) as u8).collect()));
    assert!(!holds_pattern(&vec![1]));
    assert!(holds_pattern(&pattern_bytes(600)));
    assert_eq!(pattern_bytes(3), [0, 7, 14]);
}

/// Hands the trial of the grants its answers in turn: its code, and how much it asked for.
fn try_grants(answers: Vec<GrantEvent>) -> (i32, usize) {
    let mut at = GrantAt::Begun;
    let mut action = grants(&mut at, GrantEvent::Go);
    let mut asked = 0;
    for e in answers {
        match (asked, &action) {
            (0, GrantAction::Allocate(MemKind::Ddr, 8192)) => {}
            (1, GrantAction::WriteAndRead(b)) => assert!(holds_pattern(b) && b.len() == 8192),
            (2, GrantAction::Decommit(4096, 4096)) | (3, GrantAction::Commit(4096, 4096)) => {}
            (4, GrantAction::Seal) | (5, GrantAction::Commit(0, 4096)) => {}
            (6, GrantAction::Reserve(MemKind::Hbm, 4096)) => {}
            (7, GrantAction::Reserve(MemKind::DeviceBar, 4096)) => {}
            _ => panic!("something else is asked for"),
        }
        asked += 1;
        action = grants(&mut at, e);
    }
    match action {
        GrantAction::Over(code) => (code, asked),
        _ => panic!("it goes on"),
    }
}

/// Hands the scan its answers in turn, and gives what it asked for last.
fn scan_with(answers: Vec<ScanEvent>) -> (ScanAt, ScanAction) {
    let mut at = ScanAt::Start;
    let mut last = scan(&mut at, ScanEvent::Begin);
    for e in answers {
        assert!(fits(&at, &e));
        last = scan(&mut at, e);
    }
    (at, last)
}

fn ended(answers: Vec<ScanEvent>) -> Result<Aggregate, i32> {
    match scan_with(answers) {
        (ScanAt::Over, ScanAction::Done(r)) => r,
        (at, a) => panic!("not over: {at:?} {a:?}"),
    }
}

fn up_to(n: usize, t: &[u8]) -> Vec<ScanEvent> {
    let all = vec![
        ScanEvent::Opened(Some(t.len() as u64)),
        ScanEvent::Granted(true),
        ScanEvent::Header(Some(t[..16].to_vec())),
        ScanEvent::Granted(true),
        ScanEvent::Column(vec![true; 8], t[16..16 + 256].to_vec()),
        ScanEvent::Mapped(Some(t.to_vec())),
        ScanEvent::Said(true),
    ];
    all.into_iter().take(n).collect()
}

fn then_only(n: usize, e: ScanEvent) -> Result<Aggregate, i32> {
    let mut v = up_to(n, &table(64));
    v.push(e);
    ended(v)
}

#[test]
fn a_scan_that_goes_well_comes_to_the_query() {
    let t = table(64);
    assert_eq!(ended(up_to(7, &t)), Ok(Aggregate { sum: 1024, count: 32, max: 63 }));
    assert_eq!(scan_with(vec![]).1, ScanAction::Open);
    assert_eq!(scan_with(up_to(1, &t)).1, ScanAction::Grant(16));
    assert_eq!(scan_with(up_to(3, &t)).1, ScanAction::Grant(256));
    assert_eq!(scan_with(up_to(4, &t)).1, ScanAction::Read(column_pieces(64)));
    assert_eq!(scan_with(up_to(6, &t)).1, ScanAction::Say(b"[scan ok]\n".to_vec()));
    let p = column_pieces(64);
    assert_eq!(p.len(), 8);
    assert_eq!((p[1].into, p[1].from, p[1].len), (32, 48, 32));
    assert_eq!(p[7].into + p[7].len as u64, 256);
}

#[test]
fn every_failure_of_a_scan_has_its_code() {
    assert_eq!(then_only(0, ScanEvent::Opened(None)), Err(20));
    assert_eq!(then_only(0, ScanEvent::Opened(Some(15))), Err(21));
    assert_eq!(then_only(1, ScanEvent::Granted(false)), Err(22));
    assert_eq!(then_only(2, ScanEvent::Header(None)), Err(23));
    assert_eq!(then_only(2, ScanEvent::Header(Some(vec![0; 16]))), Err(24));
    assert_eq!(then_only(3, ScanEvent::Granted(false)), Err(25));
    let mut whole = vec![true; 8];
    whole[5] = false;
    assert_eq!(then_only(4, ScanEvent::Column(whole, vec![0; 256])), Err(26));
    assert_eq!(then_only(5, ScanEvent::Mapped(None)), Err(27));
    let mut t = table(64);
    t[16] = 1;
    assert_eq!(then_only(5, ScanEvent::Mapped(Some(t.clone()))), Err(28));
    t[16 + 12] = 9;
    assert_eq!(ended(up_to(6, &t)), Err(29));
    assert_eq!(then_only(6, ScanEvent::Said(false)), Err(30));
    assert!(!fits(&ScanAt::Start, &ScanEvent::Said(true)));
}

#[test]
fn sums_of_words_are_folded() {
    // The example of the internet checksum.
    assert_eq!(sum16(&[0x00, 0x01, 0xf2, 0x03, 0xf4, 0xf5, 0xf6, 0xf7], 0), 0x2ddf0);
    assert_eq!(checksum(&[0x00, 0x01, 0xf2, 0x03, 0xf4, 0xf5, 0xf6, 0xf7], 0), !0xddf2);
    assert_eq!(sum16(&[0x12], 0), 0x1200);
}

#[test]
fn a_segment_checks() {
    let f = build_tcp_syn(&[2, 0, 0, 0, 0, 1], &[0x52, 0x55, 10, 0, 2, 2]);
    assert_eq!(checksum(&f[14..34], 0), 0);
    assert_eq!(&f[..6], &[0x52, 0x55, 10, 0, 2, 2]);
    // The pseudo-header: both addresses, the protocol and the length.
    let tcp = &f[34..54];
    let pseudo = sum16(&f[26..34], 0) + 6 + 20;
    assert_eq!(checksum(tcp, pseudo), 0);
    assert!(!is_gateway_tcp_answer(&f));
}

#[test]
fn the_gateways_answers_are_recognised() {
    let f = build_arp_request(&[2, 0, 0, 0, 0, 1]);
    assert_eq!(&f[..6], &[0xff; 6]);
    assert!(!is_gateway_arp_reply(&f));
    let mut r = f.clone();
    r[21] = 2;
    r[28..32].copy_from_slice(&[10, 0, 2, 2]);
    assert!(is_gateway_arp_reply(&r));
    assert!(!is_gateway_arp_reply(&r[..20]));
}

#[test]
fn a_program_that_hears_nothing_gives_up() {
    let mut at = NetAt::Start;
    assert!(matches!(run(&mut at, NetEvent::Begin), NetAction::AskMac));
    match run(&mut at, NetEvent::Mac(None)) {
        NetAction::Exit(c) => assert_ne!(c, OK_CODE),
        _ => panic!("it goes on without an address"),
    }
    let mut at = PollAt::Start;
    assert!(matches!(poll_run(&mut at, NetEvent::Begin), NetAction::AskMac));
    assert!(matches!(poll_run(&mut at, NetEvent::Mac(Some([2; 6]))), NetAction::Send(_)));
    assert!(matches!(poll_run(&mut at, NetEvent::Sent(true)), NetAction::Receive));
    let nothing = NetEvent::Received { frame: Some(vec![0; 60]), wakeups: 0, witness: 0 };
    assert!(matches!(poll_run(&mut at, nothing), NetAction::Receive));
}

#[test]
fn a_line_is_cut_at_its_blanks() {
    let w = words(&chars("  one\ttwo \u{a0} three\n"));
    let got: Vec<String> = w.iter().map(|x| text(x)).collect();
    assert_eq!(got, ["one", "two", "three"]);
    assert!(words(&chars(" \u{3000}\u{2003} ")).is_empty());
    let std: Vec<&str> = "a\u{85}b\u{1680}c d".split_whitespace().collect();
    let ours: Vec<String> = words(&chars("a\u{85}b\u{1680}c d")).iter().map(|x| text(x)).collect();
    assert_eq!(ours, std);
}

#[test]
fn joined_words_are_found_again() {
    let w = vec![chars("ab"), chars("c"), chars("def")];
    let line = join(&w, 0, ' ');
    assert_eq!(text(&line), "ab c def");
    assert_eq!(words(&line), w);
    assert_eq!(text(&join(&w, 1, ' ')), "c def");
    assert_eq!(join(&w, 3, ' '), []);
    assert_eq!(join(&w, 9, ' '), []);
}

#[test]
fn numbers_are_read_as_std_reads_them() {
    for s in ["0", "+7", "18446744073709551615", "18446744073709551616", "", "+", "-1", "1x", "007", "9 "] {
        assert_eq!(parse_u64(&chars(s)), s.parse::<u64>().ok(), "{}", s);
    }
    for s in ["0", "-0", "-2147483648", "-2147483649", "2147483647", "2147483648", "-", "+5", "--1", ""] {
        assert_eq!(parse_i32(&chars(s)), s.parse::<i32>().ok(), "{}", s);
    }
}

#[test]
fn commands_are_completed_when_there_is_one() {
    let c = |s: &str| complete(&chars(s)).map(|x| text(&x));
    assert_eq!(c("ec"), Some("echo".into()));
    assert_eq!(c("ch"), Some("child".into()));
    assert_eq!(c("ex"), Some("exit".into()));
    assert_eq!(c("c"), None);
    assert_eq!(c("e"), None);
    assert_eq!(c(""), None);
    assert_eq!(c("ec "), None);
    assert_eq!(c("zz"), None);
    assert_eq!(c("echo"), Some("echo".into()));
}

#[test]
fn lines_ask_for_something() {
    assert!(matches!(run_line(&chars("   ")), Step::Nothing));
    assert!(matches!(run_line(&chars("cd /tmp")), Step::Nothing));
    assert!(matches!(run_line(&chars("exit")), Step::Exit(EOF_CODE)));
    assert!(matches!(run_line(&chars("exit 7")), Step::Exit(7)));
    assert!(matches!(run_line(&chars("exit seven")), Step::Exit(EOF_CODE)));
    match run_line(&chars("echo  a   b")) {
        Step::Say(t) => assert_eq!(text(&t), "a b"),
        _ => panic!("nothing is said"),
    }
    match run_line(&chars("child 5 x")) {
        Step::Spawn { path, argv } => {
            assert_eq!(text(&path), "/bin/child");
            assert_eq!(argv, [chars("child"), chars("5"), chars("x")]);
        }
        _ => panic!("nothing is run"),
    }
    assert_eq!(text(&outcome(&chars("ls"), Some(42))), "[exit 42]");
    assert_eq!(text(&outcome(&chars("ls"), None)), "lrsh: ls: not found");
}

#[test]
fn small_programs_use_their_arguments() {
    let a = |v: &[&str]| v.iter().map(|s| s.to_string()).collect::<Vec<_>>();
    assert_eq!(text(&echo(&a(&["echo", "hello", "w\u{f6}rld"]))), "hello w\u{f6}rld\n");
    assert_eq!(text(&echo(&a(&["echo"]))), "\n");
    assert_eq!(text(&echo(&a(&[]))), "\n");
    // One argument behind the name, with a byte that is no text.
    let mut b = Vec::new();
    for w in [2u64, 0x1000 + 32, 0x1000 + 37, 0] {
        b.extend(w.to_le_bytes());
    }
    b.extend(b"echo\0a\xffb\0");
    let img = Image { va: 0x1000, bytes: b };
    assert!(has_args(&img, 0x1000));
    assert_eq!(text(&echo_inherited(&img, 0x1000)), "a\u{fffd}b\n");
    assert_eq!(text(&echo_inherited(&img, 0)), "\n");
    assert_eq!(child_code(&a(&["child", "5"])), 5);
    assert_eq!(child_code(&a(&["child", "-3"])), -3);
    assert_eq!(child_code(&a(&["child", "x"])), 0);
    assert_eq!(child_code(&a(&["child"])), 0);
}

#[test]
fn registers_are_told_apart() {
    let mine = pattern(0, 2, 256);
    let theirs = pattern(1, 2, 256);
    assert!((0..256).all(|i| mine.0[i] != theirs.0[i]));
    assert_eq!(mine.0[0], 2u8.wrapping_mul(0x4D).wrapping_add(0x1F));
    assert_eq!(check(0, 1, 2, &mine), Verdict::Preserved);
    assert_eq!(check(0, 1, 2, &theirs), Verdict::PeerPattern);
    let mut bad = pattern(0, 2, 256);
    bad.0[200] ^= 1;
    assert_eq!(check(0, 1, 2, &bad), Verdict::Corrupted);
    assert_eq!(check(0, 1, 2, &Buf::zeroed(256)), Verdict::Corrupted);
}

#[test]
fn rounds_are_counted() {
    let good: Vec<Buf> = (0..4).map(|r| pattern(1, r, 128)).collect();
    let r = fp_phase(false, &good);
    assert_eq!(r, FpReport { preserved: 4, peer_seen: 0, corrupted: 0 });
    assert!(all_preserved(r));
    let r = fp_phase(true, &vec![pattern(0, 0, 128), pattern(1, 1, 128), Buf::zeroed(128), pattern(0, 3, 128)]);
    assert_eq!(r, FpReport { preserved: 2, peer_seen: 1, corrupted: 1 });
    assert!(!all_preserved(r));
}

#[test]
fn streams_are_checked() {
    let mut ms: Vec<Message> = (0..PIPE_N).map(pipe_message).collect();
    let (code, got) = pipe_code(&ms, 0);
    assert_eq!((code, &got[..]), (0x42, &b"ABCDEFGHIJKL"[..]));
    assert_eq!(pipe_code(&ms, 1).0, 1);
    ms[3].tag = 9;
    assert_eq!(pipe_code(&ms, 0).0, 1);
    assert_eq!(byte(27), b'B' as u32);
    let mut ms: Vec<Message> = (0..IPC_N).map(ipc_message).collect();
    assert_eq!(ipc_code(&ms, true, 8), 0x42);
    assert_eq!(ipc_code(&ms, false, 8), 1);
    assert_eq!(ipc_code(&ms, true, 7), 1);
    ms.swap(0, 1);
    assert_eq!(ipc_code(&ms, true, 8), 1);
    assert_eq!(payload(0), 0x5A5A_1234);
    assert_eq!(payload(1), 0x9E37_79B1 ^ 0x5A5A_1234);
    assert_ne!(payload(2), payload(3));
    assert_eq!(acknowledge(5), Message { tag: 5, val: 1 });
}

#[test]
fn pictures_have_their_patterns() {
    assert_eq!(card_pattern(0), 0x1234_5678);
    assert_eq!(card_pattern(1), 0x9E37_79B1 ^ 0x1234_5678);
    for (i, f) in [(1u32, 1u32), (7, 0), (9, 31), (5, 33)] {
        let want = i.wrapping_mul(0x9E37_79B1).rotate_left(f & 31) ^ 0x1234_5678;
        assert_eq!(frame_pattern(i, f), want);
    }
    assert_eq!(frame_picture(9, 1), frame_picture(9, 33));
    assert_eq!(card_picture(3).len(), 3);
    assert_eq!((card_code(false, false), card_code(true, false), card_code(true, true)), (10, 11, 0x42));
    assert_eq!((client_code(5, 5), client_code(5, 6)), (0x42, 1));
    assert_eq!(server_code(&vec![1, 1, 1], 5, 5), 0);
    assert_eq!(server_code(&vec![1, 0, 1], 5, 5), 2);
    assert_eq!(server_code(&vec![1, 1, 1], 5, 6), 3);
}

#[test]
fn the_first_program_has_codes() {
    assert_eq!(u32_arg(0x0403_0201)[..6], [1, 2, 3, 4, 0, 0]);
    assert_eq!(u32_arg(0).len(), 24);
    assert_eq!(echo_word(3), 0xA000_0003);
    assert_eq!(sum_below(1000), 499_500);
    assert_eq!(sum_below(0), 0);
    assert_eq!(sum_text(499_500), b"sum=499500");
    let queue = |rights| DemoEvent::Held(QueueCap { handle: 9, rights });
    let code = |answers: &[DemoEvent]| {
        let mut at = DemoAt::Begun;
        let mut action = demo(&mut at, DemoEvent::Go);
        for e in answers {
            if let DemoAction::Echo(ws) = &action {
                assert_eq!(ws[..], (0..8).map(echo_word).collect::<Vec<_>>()[..]);
            }
            action = demo(&mut at, *e);
        }
        match action {
            DemoAction::Done(code) => code,
            _ => panic!("it goes on"),
        }
    };
    let drawn = DemoEvent::Drawn(1, 2);
    assert_eq!(code(&[drawn, queue(3), DemoEvent::Echoed(8, 0)]), 0x42);
    assert_eq!(code(&[DemoEvent::Drawn(1, 1)]), 12);
    assert_eq!(code(&[drawn, queue(1)]), 13);
    assert_eq!(code(&[drawn, queue(3), DemoEvent::Echoed(7, 0)]), 15);
    assert_eq!(code(&[drawn, queue(3), DemoEvent::Echoed(8, 1)]), 15);
    assert_eq!(embed_code(false, (true, 0)), 31);
    assert_eq!(embed_code(true, (true, 0xBEEF_1234)), 0x42);
    assert_eq!(embed_code(true, (false, 0xBEEF_1234)), 30);
}

#[test]
fn memory_that_persists_keeps_its_words() {
    assert_eq!(word(0), 0xA5A5_5A5A_DEAD_BEEF);
    assert_eq!(word(2), 2u64.wrapping_mul(0x9E37_79B9_7F4A_7C15) ^ 0xA5A5_5A5A_DEAD_BEEF);
    let mut w = words_written(100);
    assert_eq!(pmem_code(Some(w.clone())), 0x42);
    w[99] = 0;
    assert_eq!(pmem_code(Some(w)), 2);
    assert_eq!(pmem_code(None), 1);
}

#[test]
fn programs_that_leave_with_their_numbers_add_up() {
    let mut o = Orchestra::new();
    o.hear(true, Some(0));
    for n in [3, 4, 5] {
        o.hear(false, Some(n));
    }
    assert_eq!(o.code(), 20);
    o.woke(9);
    assert_eq!(o.code(), 0x42);
    o.hear(false, None);
    assert_eq!(o.code(), 20);
    let mut p = Orchestra::new();
    p.hear(true, Some(1));
    assert_eq!(p.failed, 1);
}

#[test]
fn contexts_of_a_cell_know_their_part() {
    assert_eq!(vcore_role(None), VcoreStep::Leave(31));
    assert_eq!(vcore_role(Some((0, 1))), VcoreStep::Leave(32));
    assert_eq!(vcore_role(Some((0, 2))), VcoreStep::HandOut);
    assert_eq!(vcore_role(Some((1, 2))), VcoreStep::Run);
    let ran = vec![1; 32];
    assert_eq!(vcore0(31, 3, &ran, 0, 0), VcoreStep::Yield);
    assert_eq!(vcore0(31, 200_001, &ran, 0, 0), VcoreStep::Leave(33));
    assert_eq!(vcore0(32, 200_001, &ran, 0, 32), VcoreStep::Leave(33));
    assert_eq!(vcore0(32, 200_000, &ran, 0, 32), VcoreStep::End(0x42));
    assert_eq!(vcore0(32, 0, &vec![1, 2], 0, 32), VcoreStep::Leave(34));
    assert_eq!(vcore0(32, 0, &ran, 1, 32), VcoreStep::Leave(35));
    assert_eq!(vcore0(32, 0, &ran, 0, 31), VcoreStep::Leave(36));
    assert_eq!(vcore1(0, 200_000), VcoreStep::Yield);
    assert_eq!(vcore1(0, 200_001), VcoreStep::Leave(37));
    assert_eq!(vcore1(1, 7), VcoreStep::Run);
}

#[test]
fn programs_on_the_small_library_have_codes() {
    let code = |answers: Vec<LibcEvent>| {
        let mut at = LibcAt::Begun;
        let mut action = libc_step(&mut at, LibcEvent::Go);
        let mut said = Vec::new();
        for e in answers {
            if let LibcAction::Print(t) | LibcAction::Write(1, t) = &action {
                said.push(t.clone());
            }
            action = libc_step(&mut at, e);
        }
        match action {
            LibcAction::Exit(code) => (code, said),
            _ => panic!("it goes on"),
        }
    };
    let line = b"libcdemo: sum=1225 (50 items)\n".to_vec();
    let byte = LibcEvent::Byte;
    let (opened, done) = (LibcEvent::Opened, || LibcEvent::Done);
    let read = |t: &[u8]| LibcEvent::Read(t.len() as i64, t.to_vec());
    let all = vec![done(), byte(Some(0xAB)), opened(3), read(b"hello"), done(), done()];
    assert_eq!(code(all), (5, vec![line.clone(), b"hello".to_vec()]));
    assert_eq!(code(vec![done(), byte(None)]), (1, vec![line]));
    assert_eq!(code(vec![done(), byte(Some(0))]).0, 2);
    assert_eq!(code(vec![done(), byte(Some(0xAB)), opened(-2)]).0, 3);
    let lost = vec![done(), byte(Some(0xAB)), opened(3), LibcEvent::Read(-5, vec![])];
    assert_eq!(code(lost).0, 4);
    assert_eq!(json_code(true, Some(4), 3), 7);
    assert_eq!(json_code(true, None, 3), 3);
    assert_eq!(json_code(false, None, 0), 1);
    assert_eq!(json_code(true, Some(0xFFFF_FFFF), 3), 2);
}

#[test]
fn rows_are_attended_to_in_slices() {
    assert_eq!(rows_given(8, 16), Ok(8));
    assert_eq!(rows_given(8, 33), Err(2));
    assert_eq!(rows_given(9, 8), Err(2));
    let h = 7u32.wrapping_mul(2_654_435_761).wrapping_add(2 * 97) ^ 0x9E37_79B9;
    assert_eq!(salted(7, 2), (h >> 20) as i32 - 2048);
    let v = vec![1, 2];
    assert_eq!(rows_code(8, 8, (true, true), 32, &v, &v), 9);
    assert_eq!(rows_code(8, 8, (false, true), 32, &v, &v), 3);
    assert_eq!(rows_code(8, 8, (true, false), 32, &v, &v), 4);
    assert_eq!(rows_code(8, 8, (true, true), 31, &v, &v), 5);
    assert_eq!(rows_code(8, 8, (true, true), 32, &v, &vec![1, 3]), 6);
    assert_eq!(rows_code(8, 8, (true, true), 32, &v, &vec![]), 6);
}

#[test]
fn odd_numbers_make_a_square() {
    let data = counted_column(4096);
    for parts in [1, 7, 8, 5000] {
        assert_eq!(odd_total(&data, parts), 2048 * 2048);
    }
    assert_eq!(scan_of_ones(4, 3), [1, 2, 3, 4]);
    assert_eq!(fill_blocks(5, 2), [0, 1, 2, 3, 4]);
    let g = answer_graph();
    assert_eq!(rheo::kernel::graph::graph_submit(&g.nodes, 16).1, [6, 7, 42]);
}

/// The answers to what the program that computes asks for, one after the other.
fn compute(answers: &[ComputeEvent]) -> (i32, Vec<Share>) {
    let mut at = ComputeAt::Begun;
    let mut event = ComputeEvent::Go;
    let mut rest = answers.iter();
    let mut shares = Vec::new();
    loop {
        match run_compute(&mut at, event) {
            ComputeAction::Done(code) => {
                assert_eq!(rest.next(), None, "something was not asked for");
                return (code, shares);
            }
            ComputeAction::Submit(g) => assert_eq!(g.nodes, answer_graph().nodes),
            ComputeAction::Reserve(s) | ComputeAction::Describe(s) => shares.push(s),
            _ => {}
        }
        event = *rest.next().expect("nothing more is asked for");
    }
}

#[test]
fn the_computing_program_has_codes() {
    let granted = |ppm| ComputeEvent::Answered(Reserved::Granted(ppm));
    let good = [
        ComputeEvent::Computed(Some(42)),
        granted(300_000),
        ComputeEvent::Committed(300_000),
        ComputeEvent::Answered(Reserved::BadParams),
        ComputeEvent::Answered(Reserved::Overcommit),
        ComputeEvent::Kept(true),
        granted(100_000),
        ComputeEvent::Committed(0),
        ComputeEvent::Engine(EngineKind::Cpu),
    ];
    let share = |budget, period, floor| Share { budget, period, deadline: period, floor };
    let asked = vec![share(3, 10, 16), share(20, 10, 0), share(8, 10, 0), share(2, 20, 0)];
    assert_eq!(compute(&good), (0x42, asked));
    // Each answer that is not as it should be ends the program at once.
    let bad = [
        (0, ComputeEvent::Computed(None), 32),
        (0, ComputeEvent::Computed(Some(41)), 41),
        (1, ComputeEvent::Answered(Reserved::Refused), 50),
        (1, granted(0), 51),
        (2, ComputeEvent::Committed(1), 52),
        (3, ComputeEvent::Answered(Reserved::Overcommit), 53),
        (4, granted(1), 54),
        (5, ComputeEvent::Kept(false), 55),
        (6, ComputeEvent::Answered(Reserved::Refused), 56),
        (7, ComputeEvent::Committed(1), 57),
        (8, ComputeEvent::Engine(EngineKind::Gpu), 60),
    ];
    for (n, event, code) in bad {
        let mut answers = good[..n].to_vec();
        answers.push(event);
        assert_eq!(compute(&answers).0, code);
    }
}

#[test]
fn the_lines_of_a_terminal_are_compared() {
    let lines = |v: &[&str]| v.iter().map(|s| s.as_bytes().to_vec()).collect::<Vec<_>>();
    assert_eq!(term_code(&lines(&["world", "hello", "world"])), 0x42);
    assert_eq!(term_code(&lines(&["world", "hello"])), 20);
    assert_eq!(term_code(&lines(&["world", "hello", "world", ""])), 20);
    assert_eq!(term_code(&lines(&["world", "helo", "world"])), 21);
    assert_eq!(term_code(&lines(&["world", "hello", "hello"])), 21);
}

