use rheo::kernel::calls::{call_trap, decode, service, CallNumbers, ServiceNumbers};
use rheo::kernel::graph::{graph_submit, run_demo_graph, Graph, GraphNode, Input, Op, Status};
use rheo::kernel::probes::{
    order_append, user_blocker, user_cap_probe, user_peer, user_prober, user_spinner, user_worker, Access,
    BlockOn, CapProbe, Measured, PeerStep, ProbeAnswer, ProbeCall,
};
use rheo::kernel::reports::{
    engine_label, print_cpuinfo, print_lspci, print_numa, EngineKind, Inventory, PciDevice,
};
use rheo::kernel::shell::{dispatch, respond, user_shell, Action, At, Call, Command, Event};
use rheo::kernel::svc::{
    file_ops, handle, init, read_line, set_file_ops, set_socket_ops, socket_ops, CallArgs, EventKind,
    FileCall, FileOp, Preemption, Served, Service, Surroundings,
};
use rheo::kernel::time::{
    arm_timer, arm_timer_as, mark_timer_idle, monotonic, timer_did_idle, timer_step, uptime_ticks, wall,
    Clock, TimerAction, TimerAt, TimerClient, TimerEvent,
};
use rheo::kernel::trace::{counters, dump, emit, enable, enabled, reset, Kind, Subsys, Trace};
use rheo::kernel::trap::{SpawnArgs, Syscall, Trap};

fn inventory() -> Inventory {
    Inventory {
        vendor: b"GenuineIntel\0\0".to_vec(),
        features: 0b101,
        feature_names: vec!["sse2", "avx2", "fma"],
        cpu_nodes: vec![0, 0, 1],
        pci: vec![PciDevice {
            bus: 0,
            dev: 3,
            func: 1,
            vendor: 0x1af4,
            device: 0x1000,
            engine: EngineKind::Nic,
        }],
        node_ram: vec![1 << 20, 2 << 20],
    }
}

fn around() -> Surroundings {
    Surroundings {
        uptime: 11,
        random: 22,
        frames_free: 33,
        frames_total: 44,
        cells: 55,
        caps_live: 66,
        lease_token: 77,
        engine_cost_ticks: 88,
        engine_preemption: Preemption::OpBoundary,
    }
}

#[test]
fn lines_are_told_apart() {
    assert_eq!(dispatch(b""), Command::Nothing);
    assert_eq!(dispatch(b"help"), Command::Help);
    assert_eq!(dispatch(b"uptime"), Command::Uptime);
    assert_eq!(dispatch(b"exit"), Command::Exit);
    assert_eq!(dispatch(b"graph 7"), Command::Graph(7));
    assert_eq!(dispatch(b"event 12"), Command::Event(12));
    assert_eq!(dispatch(b"nonsense"), Command::Unknown);
    assert_eq!(dispatch(b"helpx"), Command::Unknown);
    assert!(matches!(dispatch(b"echo hi there"), Command::Echo(5)));
}

#[test]
fn an_echo_says_the_rest_of_the_line() {
    let line = b"echo hi there";
    let out = respond(dispatch(line), line, 0, 256);
    assert_eq!(out, b"hi there\r\n");
    // What does not fit is cut.
    assert!(respond(dispatch(line), line, 0, 4).len() <= 4);
}

#[test]
fn the_shell_prompts_reads_and_leaves() {
    let mut at = At::Start;
    assert!(matches!(user_shell(&mut at, Event::Done, 256), Action::Write(_)));
    assert!(matches!(user_shell(&mut at, Event::Done, 256), Action::Write(_)));
    assert!(matches!(user_shell(&mut at, Event::Done, 256), Action::ReadLine));
    let a = user_shell(&mut at, Event::Line(Some(b"uptime".to_vec())), 256);
    assert!(matches!(a, Action::Call(Call::EventEmit(_)) | Action::Call(Call::Uptime)));
    let mut steps = 0;
    let mut at = At::Reading;
    let mut a = user_shell(&mut at, Event::Line(Some(b"exit".to_vec())), 256);
    while !matches!(a, Action::Exit) && steps < 5 {
        a = match a {
            Action::Call(_) => user_shell(&mut at, Event::Answer(0), 256),
            _ => user_shell(&mut at, Event::Done, 256),
        };
        steps += 1;
    }
    assert!(matches!(a, Action::Exit));
}

#[test]
fn graphs_are_run_in_order() {
    let mut g = Graph::new(4);
    assert_eq!(g.push(Op::Const(6), Input::Imm(0), Input::Imm(0)), Ok(0));
    assert_eq!(g.push(Op::Add, Input::Node(0), Input::Imm(1)), Ok(1));
    assert_eq!(g.push(Op::Mul, Input::Node(1), Input::Node(0)), Ok(2));
    // A node may only look back.
    assert_eq!(g.push(Op::Add, Input::Node(3), Input::Imm(1)), Err(()));
    assert_eq!(g.push(Op::Select, Input::Node(2), Input::Imm(9)), Ok(3));
    assert_eq!(g.push(Op::Add, Input::Imm(1), Input::Imm(1)), Err(()));
    assert_eq!(g.run(), [6, 7, 42, 9]);
}

#[test]
fn submitted_graphs_are_checked() {
    let n = |op, an, a, bn, b| GraphNode { op, a_is_node: an, b_is_node: bn, a, b };
    let (s, r) = graph_submit(&vec![n(0, 0, 5, 0, 0), n(2, 1, 0, 0, 4)], 8);
    assert_eq!((s, r), (Status::Done, vec![5, 20]));
    let (s, _) = graph_submit(&vec![n(9, 0, 5, 0, 0)], 8);
    assert_eq!(s, Status::BadOpcode);
    let (s, _) = graph_submit(&vec![n(1, 1, 0, 0, 4)], 8);
    assert_ne!(s, Status::Done);
    let (s, _) = graph_submit(&vec![n(0, 0, 5, 0, 0); 3], 2);
    assert_ne!(s, Status::Done);
}

#[test]
fn the_demonstration_graph_has_one_result() {
    assert_eq!(run_demo_graph(6), run_demo_graph(6));
    assert_ne!(run_demo_graph(6), run_demo_graph(7));
}

#[test]
fn uptime_survives_a_wrapping_counter() {
    let mut c = Clock { boot_ticks: 0, idled: false, timer_irq: true };
    rheo::kernel::time::init(&mut c, u64::MAX - 4);
    assert_eq!(uptime_ticks(&c, u64::MAX), 4);
    assert_eq!(uptime_ticks(&c, 5), 10);
    assert_eq!(monotonic(77), 77);
    assert_eq!(wall(&c, 5).center, 10);
    assert!(!timer_did_idle(&c));
    mark_timer_idle(&mut c);
    assert!(timer_did_idle(&c));
    assert!(rheo::kernel::time::timer_interrupt_driven(&c));
}

#[test]
fn a_timer_waits_until_it_has_expired() {
    let mut c = Clock { boot_ticks: 0, idled: false, timer_irq: true };
    let (mut at, a) = arm_timer(&mut c, 500);
    assert_eq!(a, TimerAction::Register(TimerClient::CellSleep, 500));
    assert_eq!(arm_timer_as(&mut c, 500, TimerClient::Pacer).1, TimerAction::Register(TimerClient::Pacer, 500));
    let client = TimerClient::CellSleep;
    assert_eq!(timer_step(&mut c, &mut at, client, TimerEvent::Done), TimerAction::Look(client));
    assert_eq!(timer_step(&mut c, &mut at, client, TimerEvent::Expired(false)), TimerAction::Park);
    timer_step(&mut c, &mut at, client, TimerEvent::Halted(true));
    assert!(timer_did_idle(&c));
    let mut a = timer_step(&mut c, &mut at, client, TimerEvent::Expired(true));
    for _ in 0..2 {
        if a != TimerAction::Return {
            a = timer_step(&mut c, &mut at, client, TimerEvent::Done);
        }
    }
    assert_eq!(a, TimerAction::Return);
}

#[test]
fn idling_is_told_of_the_last_wait() {
    let mut c = Clock { boot_ticks: 0, idled: false, timer_irq: true };
    let client = TimerClient::CellSleep;
    let (mut at, _) = arm_timer(&mut c, 500);
    timer_step(&mut c, &mut at, client, TimerEvent::Done);
    timer_step(&mut c, &mut at, client, TimerEvent::Expired(false));
    timer_step(&mut c, &mut at, client, TimerEvent::Halted(true));
    timer_step(&mut c, &mut at, client, TimerEvent::Expired(true));
    assert!(timer_did_idle(&c));
    assert_eq!(arm_timer(&mut c, 0), (TimerAt::Over, TimerAction::Return));
    assert!(timer_did_idle(&c));
    let (mut at, _) = arm_timer(&mut c, 20);
    timer_step(&mut c, &mut at, client, TimerEvent::Done);
    timer_step(&mut c, &mut at, client, TimerEvent::Expired(false));
    assert_eq!(timer_step(&mut c, &mut at, client, TimerEvent::Halted(false)), TimerAction::Spin);
    assert!(!timer_did_idle(&c));
}

#[test]
fn a_trace_keeps_the_newest() {
    let mut t = Trace::new(2);
    assert!(!enabled(&t));
    emit(&mut t, 0, Subsys::Cell, Kind::Note, 1, 2, 3);
    assert_eq!(counters(&t), (0, 0));
    assert!(!enable(&mut t, false));
    assert!(enable(&mut t, true));
    for i in 0..3 {
        emit(&mut t, 0, Subsys::Frames, Kind::Acquire, 1, i, 0);
    }
    assert_eq!(counters(&t), (3, 1));
    let kept: Vec<u64> = dump(&t).iter().map(|e| e.a).collect();
    assert_eq!(kept, [1, 2]);
    reset(&mut t);
    assert_eq!(counters(&t), (0, 0));
}

#[test]
fn subsystems_have_names() {
    let names: Vec<&str> = Subsys::all().into_iter().map(|s| s.name()).collect();
    assert_eq!(names.len(), 6);
    for i in 0..6 {
        for j in 0..i {
            assert_ne!(names[i], names[j]);
        }
    }
}

#[test]
fn reports_are_lines_of_text() {
    let inv = inventory();
    let cpu = print_cpuinfo(&inv);
    assert_eq!(cpu, b"cpu vendor: GenuineIntel\r\ncpu cores: 3\r\ncpu features: sse2 fma\r\n");
    let pci = print_lspci(&inv);
    let text = String::from_utf8(pci).unwrap();
    assert!(text.contains("1af4") && text.contains("1000"));
    assert!(text.contains(engine_label(EngineKind::Nic)));
    let numa = String::from_utf8(print_numa(&inv)).unwrap();
    assert!(numa.ends_with("\r\n"));
}

fn with(a0: u64) -> CallArgs {
    CallArgs { a0, a1: 0, a2: 0, a3: 0 }
}

#[test]
fn services_answer_from_their_surroundings() {
    let mut s = init(4, inventory());
    let e = around();
    assert!(matches!(handle(&mut s, Service::Uptime, with(0), 0, e), Served::Return(11)));
    assert!(matches!(handle(&mut s, Service::Random, with(0), 0, e), Served::Return(22)));
    assert!(matches!(handle(&mut s, Service::Ps, with(0), 0, e), Served::Return(55)));
    assert!(matches!(handle(&mut s, Service::Caps, with(0), 0, e), Served::Return(66)));
    assert!(matches!(handle(&mut s, Service::Lease, with(0), 0, e), Served::Return(_)));
    assert!(matches!(handle(&mut s, Service::Unknown, with(0), 0, e), Served::NotMine));
    assert!(matches!(handle(&mut s, Service::ReadLine, with(0), 0, e), Served::ReadLine(0)));
    assert!(matches!(handle(&mut s, Service::Cpuinfo, with(0), 0, e), Served::Print(_, 0)));
}

#[test]
fn events_are_counted() {
    let mut s = init(2, inventory());
    let e = around();
    for i in 0..3 {
        handle(&mut s, Service::EventEmit, with(i), 0, e);
    }
    // The kept ones stand in the upper half.
    let both = (2u64 << 32) | 3;
    match handle(&mut s, Service::EventCount, with(0), 0, e) {
        Served::Return(n) => assert_eq!(n, both),
        _ => panic!("no count"),
    }
    match handle(&mut s, Service::Meminfo, with(0), 0, e) {
        Served::Return(n) => assert_eq!(n, (33u64 << 32) | 44),
        _ => panic!("no memory"),
    }
    assert_eq!(s.events.records.len(), 2);
    let mut stream = s.events;
    stream.emit(EventKind::Numbered(4), 9);
    assert_eq!(stream.total, 4);
}

#[test]
fn files_are_served_only_when_there_is_a_file_service() {
    let mut s = init(2, inventory());
    let e = around();
    assert!(!file_ops(&s) && !socket_ops(&s));
    let before = handle(&mut s, Service::File(FileOp::Open), with(0), 0, e);
    assert!(!matches!(before, Served::File(_)));
    set_file_ops(&mut s);
    set_socket_ops(&mut s);
    assert!(file_ops(&s) && socket_ops(&s));
    let args = CallArgs { a0: 1, a1: u64::MAX, a2: 3, a3: 4 };
    let calls = [
        (FileOp::Open, FileCall::Open(1, u64::MAX, 3)),
        (FileOp::Close, FileCall::Close(1)),
        (FileOp::Read, FileCall::Read(1, u64::MAX, 3)),
        (FileOp::Write, FileCall::Write(1, u64::MAX, 3)),
        (FileOp::Seek, FileCall::Seek(1, -1, 3)),
        (FileOp::Stat, FileCall::Stat(1, u64::MAX, 3)),
        (FileOp::Fstat, FileCall::Fstat(1, u64::MAX)),
        (FileOp::Getdents, FileCall::Getdents(1, u64::MAX, 3, 4)),
    ];
    for (op, want) in calls {
        match handle(&mut s, Service::File(op), args, 0, e) {
            Served::File(c) => assert_eq!(c, want),
            _ => panic!("not served"),
        }
    }
    assert!(matches!(handle(&mut s, Service::Write, with(0x40), 0, e), Served::Write(0x40)));
    assert!(matches!(handle(&mut s, Service::DebugWrite, with(0x40), 9, e), Served::DebugWrite(0x40, 9)));
    assert!(matches!(handle(&mut s, Service::EngineInfo, with(0x40), 0, e), Served::Engine(0x40, _)));
}

#[test]
fn services_never_promise_more_than_there_is() {
    let mut s = init(2, inventory());
    let e = around();
    let three_in_ten = (3u64 << 32) | 10;
    for want in [300_000, 600_000, 900_000, u64::MAX, u64::MAX] {
        match handle(&mut s, Service::Reserve, with(three_in_ten), 0, e) {
            Served::Return(n) => assert_eq!(n, want),
            _ => panic!("no answer"),
        }
    }
    assert_eq!(s.admission.committed_ppm(), 900_000);
}

#[test]
fn lines_and_writes_are_bounded() {
    assert_eq!(rheo::kernel::svc::write(10, 256), 10);
    assert_eq!(rheo::kernel::svc::write(1000, 256), 256);
    assert_eq!(read_line(Some(5)), (5, 1));
    let (n, _) = read_line(None);
    assert_eq!(n, 0);
}

#[test]
fn the_capability_probe_goes_through_its_steps() {
    let mut p = CapProbe::new();
    let mut calls = 0;
    loop {
        match p.next_call(1) {
            ProbeCall::Finish => break,
            _ => {
                user_cap_probe(&mut p, ProbeAnswer { ret: 0, object: 0, rights: 0, handle: 5 });
                calls += 1;
            }
        }
        assert!(calls < 32);
    }
    assert!(calls > 3);
}

#[test]
fn the_capability_probe_wants_the_same_object() {
    for (object, marks) in [(7, 7), (8, 3)] {
        let mut p = CapProbe::new();
        user_cap_probe(&mut p, ProbeAnswer { ret: 0, object: 7, rights: 51, handle: 0 });
        user_cap_probe(&mut p, ProbeAnswer { ret: 0, object: 0, rights: 0, handle: 5 });
        assert_eq!(p.next_call(1), ProbeCall::Info(5));
        user_cap_probe(&mut p, ProbeAnswer { ret: 0, object, rights: 1, handle: 0 });
        assert_eq!((p.ok, p.kid, p.kid_rights), (marks, 5, 1));
    }
}

#[test]
fn marks_keep_their_order() {
    let mut shared = vec![0u8; 64];
    order_append(&mut shared, b'C');
    order_append(&mut shared, b'D');
    let text: Vec<u8> = shared.iter().copied().filter(|c| c.is_ascii_uppercase()).collect();
    assert_eq!(text, b"CD");
}

#[test]
fn probes_choose_what_to_do() {
    assert_eq!(user_blocker(0, 9, 0x1000), BlockOn::Timer(9));
    assert!(matches!(user_blocker(1, 9, 0x1000), BlockOn::Console(_)));
    assert!(matches!(user_blocker(2, 9, 0x1000), BlockOn::Net(..)));
    assert_eq!(user_prober(0), Some(Access::Read));
    assert_eq!(user_prober(1), Some(Access::Write));
    assert_eq!(user_prober(2), Some(Access::Execute));
    assert_eq!(user_prober(3), None);
    assert!(matches!(user_peer(0, 3), PeerStep::Round(_)));
    assert_eq!(user_peer(3, 3), PeerStep::Rest);
    assert_eq!(user_spinner(1), user_spinner(1));
    assert_eq!(user_worker(4, 10, 25), Measured { ticks: 15, ops: 4, status: 0 });
}

fn call_numbers() -> CallNumbers {
    CallNumbers {
        doorbell: 100,
        queue_info: 101,
        cap_derive: 102,
        cap_revoke: 103,
        cap_info: 104,
        cap_drop: 105,
        vcore_info: 106,
        connect: 107,
        grant_share: 108,
        cycles: 109,
        switch: 110,
        exit: 111,
        exit_group: 112,
        spawn: 113,
        wait: 114,
        yield_cell: 115,
        arm_timer: 116,
        mmap: 117,
        grant: 118,
        commit: 119,
        decommit: 120,
        seal: 121,
        munmap: 122,
        mmap_file: 123,
        reserve_admit: 124,
        reserve_query: 125,
        reserve_release: 126,
        wait_input: 127,
        wait_net: 128,
        pacer: 1,
    }
}

fn service_numbers() -> ServiceNumbers {
    ServiceNumbers {
        read_line: 0,
        write: 1,
        uptime: 2,
        random: 3,
        meminfo: 4,
        ps: 5,
        caps: 6,
        event_emit: 7,
        event_count: 8,
        graph: 9,
        reserve: 10,
        lease: 11,
        engine_info: 12,
        cpuinfo: 13,
        lspci: 14,
        numa: 15,
        debug_write: 16,
        open: 17,
        close: 18,
        read: 19,
        write_fd: 20,
        lseek: 21,
        stat: 22,
        fstat: 23,
        getdents: 24,
    }
}

#[test]
fn trace_numbers_are_kept() {
    assert_eq!(Subsys::all().map(|s| s.to_u8()), [0, 1, 2, 3, 4, 5]);
    let kinds = [Kind::Acquire, Kind::Release, Kind::Transfer, Kind::Refuse, Kind::Note];
    assert_eq!(kinds.map(|k| k.to_u8()), [0, 1, 2, 3, 4]);
}

#[test]
fn numbers_stand_for_calls() {
    let n = call_numbers();
    let high = 0x1_0000_0000u64;
    let a = [high + 11, 12, 13, 14, 15, 16];
    let d = |nr| decode(&n, nr, &a);
    assert_eq!(d(n.doorbell), Syscall::Doorbell);
    assert_eq!(d(n.cap_derive), Syscall::CapDerive { parent: 11, rights: 12, budget: 13, out: 14 });
    assert_eq!(d(n.cap_info), Syscall::CapInfo { cap: 11, out: 12 });
    assert_eq!(d(n.connect), Syscall::Connect { out: high + 11, slot: 12 });
    assert_eq!(d(n.grant), Syscall::Grant { out: high + 11, len: 12, kind: 13, node: 14 });
    assert_eq!(d(n.commit), Syscall::Commit { cap: 11, offset: 12, len: 13 });
    assert_eq!(d(n.munmap), Syscall::Munmap { va: high + 11, len: 12 });
    let args = SpawnArgs { path_va: high + 11, path_len: 12, argv: 13, envp: 14, channel: 15 };
    assert_eq!(d(n.spawn), Syscall::Spawn { args });
    let reserve = Syscall::ReserveAdmit { out: high + 11, budget: 12, period: 13, deadline: 14, floor: 15 };
    assert_eq!(d(n.reserve_admit), reserve);
    assert_eq!(d(n.wait_net), Syscall::WaitNet { va: high + 11, len: 12, timeout_ns: 13 });
    let timer = |word| decode(&n, n.arm_timer, &[7, word, 0, 0, 0, 0]);
    assert_eq!(timer(1), Syscall::ArmTimer { deadline_ns: 7, pacer: true });
    assert_eq!(timer(2), Syscall::ArmTimer { deadline_ns: 7, pacer: false });
    assert_eq!(d(5), Syscall::Service);
    assert_eq!(call_trap(&n, n.cycles, &a), Trap::Call(Syscall::Cycles));
    let s = service_numbers();
    assert_eq!(service(&s, s.uptime), Service::Uptime);
    assert_eq!(service(&s, s.write), Service::Write);
    assert_eq!(service(&s, s.write_fd), Service::File(FileOp::Write));
    assert_eq!(service(&s, s.getdents), Service::File(FileOp::Getdents));
    assert_eq!(service(&s, 99), Service::Unknown);
}
