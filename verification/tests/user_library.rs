use rheo::kernel::graph::{graph_submit, Status};
use rheo::user::cap::{cap_set, install, CapSet};
use rheo::user::compute::{
    map_reduce, parallel_for, partition, scan, submitted, Engine, EngineKind, GraphBuilder, In, NodeRef,
    Preemption, RawEngineInfo,
};
use rheo::user::display::{
    begin_surface, checksum, surface_len, CommitAction, CommitAt, CommitEvent, Compositor, Frame, Gpu,
    Scanout, Surface,
};
use rheo::user::io::{finish, Completion, Contract, Durability, File, IoOp, Progress, Stream, WriteAll};
use rheo::user::ipc::{
    share, share_request, Channel, ConnectInfo, Message, Rings, ShareAnswer, SharedBuffer, ROLE_CLIENT,
    ROLE_SERVER,
};
use rheo::user::mem::{
    AllocAction, AllocEvent, Arena, BackCall, Grant, GrantAnswer, GrowHeap, Mapping, MemKind, GROW, INIT_ARENA,
};
use rheo::user::net::{
    connect, listen, mac, mac_answer, moved, recv, recv_timeout, send, try_recv, Mac, NetError, SocketAddr,
    Unsupported,
};
use rheo::user::proc::{
    arg_bytes, args, decoded, env_args, env_bytes, env_get, env_set, env_vars, has_args, has_env, identity, piped, pointer_array, spawn, spawn_on_channel,
    spawn_piped, spawned, Env, Image, SpawnError,
};
use rheo::user::rng;

const GOOD: GrantAnswer = GrantAnswer { ret: 0, base: 0x8_0000_0000, cap_id: 7 };
const REFUSED: GrantAnswer = GrantAnswer { ret: u64::MAX, base: 0, cap_id: 0 };

#[test]
fn the_stream_cipher_gives_the_published_block() {
    let mut key = [0u8; 32];
    for i in 0..32 {
        key[i] = i as u8;
    }
    let nonce = [0, 0, 0, 9, 0, 0, 0, 0x4a, 0, 0, 0, 0];
    let want: [u8; 64] = [
        0x10, 0xf1, 0xe7, 0xe4, 0xd1, 0x3b, 0x59, 0x15, 0x50, 0x0f, 0xdd, 0x1f, 0xa3, 0x20, 0x71, 0xc4,
        0xc7, 0xd1, 0xf4, 0xc7, 0x33, 0xc0, 0x68, 0x03, 0x04, 0x22, 0xaa, 0x9a, 0xc3, 0xd4, 0x6c, 0x4e,
        0xd2, 0x82, 0x64, 0x46, 0x07, 0x9f, 0xaa, 0x09, 0x14, 0xc2, 0xd7, 0x05, 0xd9, 0x8b, 0x02, 0xa2,
        0xb5, 0x12, 0x9c, 0xd1, 0xde, 0x16, 0x4e, 0xb9, 0xcb, 0xd0, 0x83, 0xe8, 0xa2, 0x50, 0x3c, 0x4e,
    ];
    assert_eq!(rng::block(&key, 1, &nonce), want);
}

#[test]
fn random_draws_join() {
    let mut a = rng::init([1, 2, 3, 4]);
    let mut b = rng::init([1, 2, 3, 4]);
    let mut whole = vec![0u8; 700];
    rng::fill_bytes(&mut a, &mut whole);
    let mut parts = Vec::new();
    for n in [1usize, 255, 256, 188] {
        let mut p = vec![0u8; n];
        b.fill_bytes(&mut p);
        parts.extend(p);
    }
    assert_eq!(whole, parts);
    let mut c = rng::init([1, 2, 3, 5]);
    assert_ne!(rng::next_u64(&mut a), rng::next_u64(&mut c));
}

#[test]
fn seeds_make_different_streams() {
    let mut a = rng::Drbg::from_key([0; 32]);
    let mut b = rng::Drbg::from_key([1; 32]);
    let x = rng::next_u64(&mut a);
    let y = rng::next_u64(&mut a);
    assert_ne!(x, y);
    assert_ne!(x, rng::next_u64(&mut b));
}

#[test]
fn ranges_are_cut_into_blocks() {
    assert_eq!(partition(10, 4), [(0, 3), (3, 6), (6, 9), (9, 10)]);
    assert_eq!(partition(2, 8), [(0, 1), (1, 2)]);
    assert_eq!(partition(0, 4), []);
    assert_eq!(partition(5, 0), [(0, 5)]);
}

#[test]
fn blocks_are_mapped_and_put_together() {
    let total = map_reduce(100, 7, |lo, hi| (lo..hi).sum::<usize>(), |a, b| a + b, 0);
    assert_eq!(total, 4950);
    parallel_for(10, 3, |lo, hi| assert!(lo < hi));
}

#[test]
fn running_sums_do_not_depend_on_the_blocks() {
    for parts in [1, 3, 16, 40] {
        let mut v = vec![3u64, 1, 4, 1, 5, 9, 2, 6];
        scan(&mut v, parts);
        assert_eq!(v, [3, 4, 8, 9, 14, 23, 25, 31]);
    }
    let mut v = vec![u64::MAX, 2];
    scan(&mut v, 2);
    assert_eq!(v, [u64::MAX, 1]);
}

#[test]
fn engines_are_decoded() {
    let e = Engine {
        listed: vec![
            RawEngineInfo { kind: 0, measured_cost_ticks: 9, preemption: 0, vendor: 0 },
            RawEngineInfo { kind: 1, measured_cost_ticks: 0, preemption: 1, vendor: 0x10de },
        ],
    };
    assert_eq!(e.count(), 2);
    assert_eq!(e.info().kind, EngineKind::Cpu);
    let gpu = e.info_at(1).unwrap();
    assert_eq!(gpu.vendor, 0x10de);
    assert_eq!(gpu.preemption, Preemption::OpBoundary);
    assert!(e.info_at(2).is_none());
}

#[test]
fn built_graphs_are_run_by_the_kernel() {
    let mut g = GraphBuilder::default();
    assert!(g.is_empty());
    let n0 = g.constant(6);
    let n1 = g.add(In::Node(n0), In::Imm(1));
    let n2 = g.mul(In::Node(n1), In::Node(n0));
    let n3 = g.select(In::Node(n2), In::Imm(5));
    assert_eq!((n0, n3), (NodeRef(0), NodeRef(3)));
    let (status, results) = graph_submit(&g.nodes, 16);
    assert_eq!(results, [6, 7, 42, 5]);
    assert_eq!(submitted(status, &results), Ok(5));
    assert_eq!(submitted(Status::Denied, &results), Err(Status::Denied));
    let args = g.submit(0x1000, 0x2000).unwrap();
    assert_eq!(args.len(), 24);
    assert_eq!(&args[..12], &[0, 0x10, 0, 0, 0, 0, 0, 0, 4, 0, 0, 0]);
    assert_eq!(GraphBuilder::new().submit(0, 0), Err(Status::BadOpcode));
    let mut d = GraphBuilder::new();
    d.buf_reduce(9);
    d.tile_gemm(9);
    assert_eq!(d.len(), 2);
}

#[test]
fn grants_are_asked_for_in_pages() {
    let q = Grant::request(MemKind::Pmem, 5000, 1);
    assert_eq!((q.len, q.kind, q.node), (5000, 3, 1));
    let (q, g) = Grant::reserve(MemKind::Hbm, 5000, GOOD);
    assert_eq!((q.len, q.kind, q.node), (5000, 1, 0));
    let g = g.unwrap();
    assert_eq!((g.base(), g.len(), g.cap_id()), (0x8_0000_0000, 8192, 7));
    assert!(!g.is_empty() && !g.is_sealed());
    assert!(Grant::reserve(MemKind::Ddr, 5000, REFUSED).1.is_none());
    let (q, g) = Grant::reserve_on(MemKind::Ddr, 5000, 2, GOOD);
    assert_eq!((q.kind, q.node), (0, 2));
    let mut g = g.unwrap();
    assert_eq!(g.commit(0, 8192, 0), (BackCall { cap_id: 7, offset: 0, len: 8192 }, Ok(())));
    assert_eq!(g.decommit(4096, 1, u64::MAX), (BackCall { cap_id: 7, offset: 4096, len: 1 }, Err(())));
    assert_eq!(g.seal(0), Ok(()));
    assert!(g.is_sealed());
    assert_eq!(g.release(), (0x8_0000_0000, 8192));
}

#[test]
fn an_allocation_is_backed_or_given_back() {
    let ask = AllocAction::Ask(Grant::request(MemKind::Pmem, 5000, 0));
    let back = AllocAction::Back(BackCall { cap_id: 7, offset: 0, len: 8192 });
    let mut a = Grant::allocate(MemKind::Pmem, 5000);
    assert_eq!(a.step(AllocEvent::Go), ask);
    assert_eq!(a.step(AllocEvent::Granted(GOOD)), back);
    assert_eq!(a.step(AllocEvent::Backed(0)), AllocAction::Done(Grant::answered(5000, GOOD)));
    let mut a = Grant::allocate(MemKind::Pmem, 5000);
    a.step(AllocEvent::Go);
    assert_eq!(a.step(AllocEvent::Granted(REFUSED)), AllocAction::Done(None));
    let mut a = Arena::begin(5000);
    a.step(AllocEvent::Go);
    assert_eq!(a.step(AllocEvent::Granted(GOOD)), back);
    assert_eq!(a.step(AllocEvent::Backed(1)), AllocAction::Release(0x8_0000_0000, 8192));
    assert_eq!(a.step(AllocEvent::Released), AllocAction::Done(None));
}

#[test]
fn kinds_of_memory_have_their_codes() {
    let kinds = [MemKind::Ddr, MemKind::Hbm, MemKind::Cxl, MemKind::Pmem, MemKind::DeviceBar, MemKind::Remote];
    let codes: Vec<u64> = kinds.into_iter().map(|k| k.code()).collect();
    assert_eq!(codes, [0, 1, 2, 3, 4, 5]);
}

#[test]
fn parts_of_an_arena_are_aligned_and_disjoint() {
    let mut a = Arena::new(Grant::answered(4096, GOOD)).unwrap();
    let x = a.carve(10, 8).unwrap();
    let y = a.carve(100, 64).unwrap();
    assert_eq!((x, y), (0, 0x40));
    assert_eq!(a.carve(5000, 8), None);
    a.reset();
    assert_eq!(a.carve(4096, 1), Some(0));
    assert!(Arena::new(None).is_none());
}

#[test]
fn mappings_and_heaps_grow_by_pages() {
    assert!(Mapping::file(0, 10).is_none());
    let m = Mapping::file(0x5000, 10).unwrap();
    assert_eq!((m.base(), m.len(), m.is_empty()), (0x5000, 10, false));
    assert_eq!(m.release(), (0x5000, 4096));
    let mut h = GrowHeap::default();
    h.init(0x1000);
    assert_eq!(h.regions, [(0x1000, INIT_ARENA)]);
    let want = h.grow_by(100, 8);
    assert!(want >= GROW && want % 4096 == 0);
    assert!(h.grow(0x9000_0000, want));
    assert!(!h.grow(0, want));
    assert_eq!(h.regions.len(), 2);
}

fn pair() -> (Channel, Channel) {
    let end = |role| {
        Channel::open(Some(ConnectInfo { chan_va: 0x6_0000_0000, cap_id: 5, role, count: 1 })).unwrap()
    };
    (end(ROLE_CLIENT), end(ROLE_SERVER))
}

#[test]
fn messages_arrive_in_order() {
    let (c, s) = pair();
    assert!(c.is_client() && !s.is_client());
    let mut r = Rings::new(2);
    let (tx, rx) = c.split();
    let (stx, srx) = s.split();
    assert!(tx.send(&mut r, Message { tag: 1, val: 10 }));
    assert!(tx.send(&mut r, Message { tag: 2, val: 20 }));
    // A full ring takes no more.
    assert!(!tx.send(&mut r, Message { tag: 3, val: 30 }));
    assert_eq!(srx.recv(&mut r), Some(Message { tag: 1, val: 10 }));
    assert_eq!(srx.recv(&mut r), Some(Message { tag: 2, val: 20 }));
    assert_eq!(srx.recv(&mut r), None);
    // The other way goes over the other ring.
    assert!(stx.send(&mut r, Message { tag: 1, val: 1 }));
    assert_eq!(rx.recv(&mut r), Some(Message { tag: 1, val: 1 }));
}

#[test]
fn requests_are_completed() {
    let (c, s) = pair();
    let mut r = Rings::new(4);
    assert!(c.send(&mut r, 9, 77, b"hello"));
    let m = s.recv(&mut r).unwrap();
    assert_eq!((m.opcode, m.user_data, m.cap_id), (9, 77, 5));
    assert_eq!(&m.payload[..5], b"hello");
    assert_eq!(m.payload.len(), 24);
    assert!(s.complete(&mut r, 77, 0, 123));
    let d = c.await_completion(&mut r).unwrap();
    assert_eq!((d.user_data, d.status, d.result), (77, 0, 123));
    assert!(c.try_reap(&mut r).is_none());
    assert!(s.try_recv(&mut r).is_none());
}

#[test]
fn channels_that_are_not_wired_do_not_open() {
    assert!(Channel::open(None).is_none());
    assert_eq!(Channel::count(None), 0);
    let info = ConnectInfo { chan_va: 0x6_0000_4000, cap_id: 5, role: ROLE_SERVER, count: 3 };
    let c = Channel::open_slot(2, Some(info)).unwrap();
    assert_eq!((c.slot(), c.peer_count(), c.role(), c.cap_id()), (2, 3, ROLE_SERVER, 5));
    assert_eq!(Channel::count(Some(info)), 3);
}

#[test]
fn buffers_are_shared_when_the_kernel_says_so() {
    let g = Grant::answered(4096, GOOD).unwrap();
    assert_eq!(share_request(&g), 7);
    let a = ShareAnswer { ret: 0, peer_va: 0x9000, peer_cap_id: 4 };
    assert_eq!(share(a), Some(SharedBuffer { peer_va: 0x9000, peer_cap_id: 4 }));
    assert_eq!(share(ShareAnswer { ret: u64::MAX, ..a }), None);
}

fn backing(w: u32, h: u32) -> Option<Grant> {
    let mut at = begin_surface(w, h);
    assert_eq!(at.step(AllocEvent::Go), AllocAction::Ask(Grant::request(MemKind::Ddr, surface_len(w, h), 0)));
    at.step(AllocEvent::Granted(GOOD));
    match at.step(AllocEvent::Backed(0)) {
        AllocAction::Done(g) => g,
        _ => None,
    }
}

#[test]
fn a_frame_reaches_the_compositor() {
    let mut s = Surface::new(4, 2, backing(4, 2), vec![0; 8]).unwrap();
    assert_eq!((s.width(), s.height(), surface_len(4, 2)), (4, 2, 32));
    for i in 0..8 {
        s.draw(i, i as u32 * 3);
    }
    let sum = s.checksum();
    assert_eq!(sum, checksum(s.pixels()));
    let mut at = CommitAt::Begun;
    assert!(matches!(s.commit(&mut at, CommitEvent::Go), CommitAction::Seal(7)));
    assert!(matches!(s.commit(&mut at, CommitEvent::Sealed(0)), CommitAction::Share(7)));
    let buf = SharedBuffer { peer_va: 0x7000, peer_cap_id: 1 };
    let m = match s.commit(&mut at, CommitEvent::Shared(Some(buf))) {
        CommitAction::Send(m) => m,
        _ => panic!("nothing was sent"),
    };
    assert_eq!(Compositor::decode(&m.payload), Frame { peer_va: 0x7000, frame_id: 1, w: 4, h: 2 });
    let mut c = Compositor::new(4, 2, backing(4, 2), vec![0; 8]).unwrap();
    let (id, seen) = c.present(&m.payload, s.pixels());
    assert_eq!((id, seen), (1, sum));
    assert_eq!(c.framebuffer(), s.pixels());
    assert!(matches!(s.commit(&mut at, CommitEvent::Sent(true)), CommitAction::Await));
    match s.commit(&mut at, CommitEvent::Shown(Some(seen))) {
        CommitAction::Done(shown) => assert_eq!(shown, Some(sum)),
        _ => panic!("it goes on"),
    }
    // A surface is committed once, and nothing is asked for the second time.
    let mut again = CommitAt::Begun;
    assert!(matches!(s.commit(&mut again, CommitEvent::Go), CommitAction::Done(None)));
    assert_eq!((s.frame_id, again), (1, CommitAt::Over));
}

#[test]
fn a_surface_that_cannot_be_sealed_is_not_committed() {
    let mut s = Surface::new(1, 1, backing(1, 1), vec![0]).unwrap();
    let mut at = CommitAt::Begun;
    s.commit(&mut at, CommitEvent::Go);
    assert!(matches!(s.commit(&mut at, CommitEvent::Sealed(1)), CommitAction::Done(None)));
    assert!(!s.committed && !s.grant.is_sealed());
    assert!(Surface::new(1, 1, None, vec![0]).is_none());
    let mut at = CommitAt::Begun;
    s.commit(&mut at, CommitEvent::Go);
    s.commit(&mut at, CommitEvent::Sealed(0));
    assert!(matches!(s.commit(&mut at, CommitEvent::Shared(None)), CommitAction::Done(None)));
    assert!(!s.committed);
}

#[test]
fn a_frame_that_is_not_shown_gives_nothing() {
    let buf = SharedBuffer { peer_va: 0x7000, peer_cap_id: 1 };
    for told in [false, true] {
        let mut s = Surface::new(1, 1, backing(1, 1), vec![9]).unwrap();
        let mut at = CommitAt::Begun;
        s.commit(&mut at, CommitEvent::Go);
        s.commit(&mut at, CommitEvent::Sealed(0));
        assert!(matches!(s.commit(&mut at, CommitEvent::Shared(Some(buf))), CommitAction::Send(_)));
        let next = s.commit(&mut at, CommitEvent::Sent(told));
        if told {
            assert!(matches!(next, CommitAction::Await));
            assert!(matches!(s.commit(&mut at, CommitEvent::Shown(None)), CommitAction::Done(None)));
        } else {
            assert!(matches!(next, CommitAction::Done(None)));
        }
        assert_eq!(at, CommitAt::Over);
        assert!(s.committed);
    }
}

#[test]
fn a_picture_is_handed_to_the_card() {
    let s = Scanout::new(2, 1, backing(2, 1), vec![5, 6]).unwrap();
    assert_eq!((s.width(), s.height()), (2, 1));
    assert_eq!(s.checksum(), checksum(&[5, 6]));
    assert_eq!(s.present().args, Gpu::present(0x8_0000_0000, 2, 1).args);
    let p = Gpu::present(0x0807_0605_0403_0201, 2, 1);
    assert_eq!(p.op, IoOp::GpuPresent);
    assert_eq!(&p.args[..16], &[1, 2, 3, 4, 5, 6, 7, 8, 2, 0, 0, 0, 1, 0, 0, 0]);
}

#[test]
fn submissions_carry_their_arguments() {
    let f = File::from_fd(3);
    let s = f.read_at(0x1122, 64, 512);
    assert_eq!(s.op, IoOp::Read);
    assert_eq!(s.args.len(), 24);
    assert!(!s.inline);
    assert_eq!(s.durability, Durability::WriteBack);
    let s = File::open(0x1000, 5);
    assert_eq!(s.op, IoOp::Open);
    assert_eq!(File::opened(Completion::Done(4)).map(|f| f.fd()), Ok(4));
    assert_eq!(File::opened(Completion::Failed(2)).map(|f| f.fd()), Err(2));
    assert_eq!(finish(Completion::Done(9)), Ok(9));
    assert_eq!(f.size(0x2000).op, IoOp::Fstat);
    assert_eq!(File::size_answer(Completion::Done(0), 4711), Ok(4711));
    assert_eq!(File::size_answer(Completion::Failed(2), 4711), Err(2));
    assert_eq!(f.close().op, IoOp::Close);
}

#[test]
fn short_writes_travel_with_their_submission() {
    let f = File::from_fd(1);
    let s = f.write_at(b"short", 0x1000, 0);
    assert!(s.inline);
    assert_eq!(s.offset, 0);
    // A short write at a place rides along, and names the place.
    let s = f.write_at(b"short", 0x1000, 512);
    assert!(s.inline);
    assert_eq!(s.offset, 512);
    assert_eq!(&s.args[..13], b"\x01\0\0\0\x05\0\0\0short");
    let long = vec![7u8; 100];
    let s = f.write_at(&long, 0x1000, 512);
    assert!(!s.inline);
    assert_eq!(s.offset, 512);
    assert_eq!(&s.args[8..16], &[0, 2, 0, 0, 0, 0, 0, 0]);
    let durable = Contract { durability: Durability::Fua, latency_us: 0 };
    let s = f.write_contract(&long, 0x1000, 0, durable);
    assert!(!s.inline);
    assert_eq!(s.durability, Durability::Fua);
    assert_eq!(Contract::default().durability, Durability::WriteBack);
    let out = Stream::stdout();
    assert_eq!(out.file.fd(), 1);
    assert_eq!(out.write(b"x", 0).op, IoOp::Write);
    let g = Grant::answered(4096, GOOD).unwrap();
    assert_eq!(f.read_into(&g, 16, 8, 0).args, f.read_at(0x8_0000_0010, 8, 0).args);
}

#[test]
fn writing_all_goes_on_until_it_is_done() {
    let mut w = WriteAll::new(10);
    assert_eq!(w.next(), Progress::From(0));
    assert_eq!(w.wrote(4), Progress::From(4));
    assert_eq!(w.wrote(6), Progress::Done);
    let mut w = WriteAll::new(10);
    assert_eq!(w.wrote(-5), Progress::Failed);
    let mut w = WriteAll::new(10);
    assert_eq!(w.wrote(0), Progress::Failed);
    assert_eq!(WriteAll::new(0).next(), Progress::Done);
}

#[test]
fn the_network_answers_or_not() {
    assert_eq!(mac_answer(Completion::Done(6), [1, 2, 3, 4, 5, 6]), Ok(Mac([1, 2, 3, 4, 5, 6])));
    assert_eq!(mac_answer(Completion::Failed(1), [0; 6]), Err(NetError));
    assert_eq!(moved(Completion::Done(60)), Ok(60));
    assert_eq!(moved(Completion::Failed(1)), Err(NetError));
    assert_eq!((mac(0x10).op, send(0x10, 60).op, try_recv(0x10, 60).op), (IoOp::NetMac, IoOp::NetTx, IoOp::NetRx));
    assert_eq!(&send(0x10, 60).args[..12], &[0x10, 0, 0, 0, 0, 0, 0, 0, 60, 0, 0, 0]);
    assert_eq!(recv(0x10, 64).buf_va, 0x10);
    assert_eq!(recv_timeout(0x10, 64, 5).timeout_ns, 5);
    let addr = SocketAddr { ip: [10, 0, 2, 2], port: 80 };
    assert_eq!(connect(addr), Err(Unsupported));
    assert_eq!(listen(addr), Err(Unsupported));
}

#[test]
fn programs_are_started_with_their_arguments() {
    let r = spawn("/bin/echo", &vec!["echo", "hi"], &vec!["A=1"]);
    assert_eq!(r.path, b"/bin/echo");
    assert_eq!(r.argv.len(), 2);
    assert!(r.chan.is_none());
    assert_eq!(spawn_on_channel("/x", &vec![], &vec![], 2).chan, Some(2));
    assert_eq!(pointer_array(&vec![8, 16]), [8, 16, 0]);
    assert_eq!(spawned(3).map(|c| c.handle()), Ok(3));
    assert_eq!(spawned(u64::MAX).map(|c| c.handle()), Err(SpawnError));
    assert!(spawn_piped(None, "/x", &vec![], &vec![]).is_err());
    let (c, _) = pair();
    let (req, tx, rx) = spawn_piped(Some(c), "/x", &vec!["x"], &vec![]).ok().unwrap();
    assert_eq!(req.path, b"/x");
    assert_eq!((tx.slot, tx.cap_id), (0, 5));
    assert!(piped(4, tx, rx).is_ok());
    assert!(piped(u64::MAX, tx, rx).is_err());
}

fn image() -> Image {
    // argc, two arguments, zero, one variable, zero, and the texts.
    let va = 0x1000u64;
    let mut b = Vec::new();
    for w in [2u64, va + 48, va + 51, 0, va + 54, 0] {
        b.extend(w.to_le_bytes());
    }
    b.extend(b"ab\0cd\0K=V\0");
    Image { va, bytes: b }
}

#[test]
fn arguments_and_variables_are_read_from_the_stack() {
    let img = image();
    assert_eq!(arg_bytes(&img, 0x1000), [b"ab".to_vec(), b"cd".to_vec()]);
    assert_eq!(env_bytes(&img, 0x1000), [b"K=V".to_vec()]);
    assert_eq!(args(&img, 0x1000), ["ab", "cd"]);
    assert_eq!(env_args(&img, 0x1000), ["K=V"]);
    assert_eq!(decoded(&vec![b"a\xffb".to_vec()]), ["a\u{fffd}b"]);
    assert!(args(&img, 0).is_empty());
    assert!(env_args(&img, 0).is_empty());
    assert!(has_args(&img, 0x1000) && has_env(&img, 0x1000));
    assert!(!has_args(&img, 0x1001 + 64) && !has_env(&img, 0xff8));
    assert_eq!(identity(0x1234), identity(0x1234));
    let e = Env::inherited(&img, 0x1000);
    assert_eq!(env_get(&e, "K").as_deref(), Some("V"));
    assert!(env_vars(&Env::inherited(&img, 0)).is_empty());
}

#[test]
fn a_variable_that_was_set_is_found() {
    let list = decoded(&vec![b"A=1".to_vec(), b"broken".to_vec(), b"B=x=y".to_vec(), b"D=\xff".to_vec()]);
    let mut e = Env::new(&list);
    assert_eq!(env_get(&e, "A").as_deref(), Some("1"));
    assert_eq!(env_get(&e, "B").as_deref(), Some("x=y"));
    assert_eq!(env_get(&e, "D").as_deref(), Some("\u{fffd}"));
    assert_eq!(env_get(&e, "C"), None);
    env_set(&mut e, "A", "2");
    env_set(&mut e, "C", "3");
    assert_eq!(env_get(&e, "A").as_deref(), Some("2"));
    assert_eq!(env_get(&e, "C").as_deref(), Some("3"));
    assert_eq!(env_get(&e, "B").as_deref(), Some("x=y"));
    assert_eq!(env_vars(&e).iter().filter(|v| v.key == "A").count(), 1);
}

#[test]
fn capabilities_are_narrowed_and_never_widened() {
    let rw = CapSet::new(9).queue().attenuate(3).unwrap();
    assert!(rw.allows(1) && rw.allows(2));
    let ro = rw.attenuate(1).unwrap();
    assert!(ro.allows(1) && !ro.allows(2));
    assert_eq!(ro.handle, 9);
    assert_eq!(ro.attenuate(2), None);
    assert_eq!(rw.attenuate(4), None);
}

#[test]
fn a_cell_knows_its_queue() {
    let mut held = None;
    install(&mut held, CapSet::new(9));
    let s = cap_set(&held);
    assert_eq!(s.queue_cap_id(), 9);
    assert_eq!(s.queue().handle, 9);
}
