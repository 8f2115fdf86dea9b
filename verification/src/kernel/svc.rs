//! The services that a cell calls by number beyond its own memory and capabilities:
//! the console, the clock, events, graphs, reservations, files.

use vstd::prelude::*;
use vstd::string::*;
use crate::kernel::admission;
use crate::kernel::admission::{Admission, FULL_PPM};
use crate::kernel::graph;
use crate::kernel::reports;
use crate::kernel::reports::Inventory;

verus! {

/// The most that one debug write takes.
pub const DEBUG_WRITE_MAX: u64 = 4096;

/// What kind of event a cell reports.
#[derive(Copy, Clone, PartialEq, Eq, Debug, Structural)]
pub enum EventKind {
    /// One that it gave no number.
    User,
    Numbered(u16),
}

/// An event and what came with it.
#[derive(Copy, Clone, PartialEq, Eq, Debug, Structural)]
pub struct EventRecord {
    pub kind: EventKind,
    pub arg: u64,
}

/// The newest events, at most `capacity` of them, and how many there ever were.
pub struct EventStream {
    pub records: Vec<EventRecord>,
    pub total: u64,
    pub capacity: usize,
}

impl EventStream {
    pub open spec fn wf(&self) -> bool {
        self.capacity >= 1 && self.records@.len() <= self.capacity
    }

    pub fn new(capacity: usize) -> (s: EventStream)
        requires
            capacity >= 1,
        ensures
            s.wf(),
            s.records@.len() == 0,
            s.total == 0,
            s.capacity == capacity,
    {
        EventStream { records: Vec::new(), total: 0, capacity }
    }

    /// Record an event; the oldest makes room.
    pub fn emit(&mut self, kind: EventKind, arg: u64)
        requires
            old(self).wf(),
            old(self).total < u64::MAX,
        ensures
            final(self).wf(),
            final(self).capacity == old(self).capacity,
            final(self).total == old(self).total + 1,
            final(self).records@ == emitted(
                old(self).records@,
                old(self).capacity as nat,
                EventRecord { kind, arg },
            ),
    {
        if self.records.len() >= self.capacity {
            let _oldest: EventRecord = self.records.remove(0);
        }
        self.records.push(EventRecord { kind, arg });
        self.total = self.total + 1;
        assert(self.records@ =~= emitted(
            old(self).records@,
            old(self).capacity as nat,
            EventRecord { kind, arg },
        ));
    }
}

/// The records after one more event.
pub open spec fn emitted(r: Seq<EventRecord>, capacity: nat, e: EventRecord) -> Seq<EventRecord> {
    if r.len() >= capacity {
        r.skip(1).push(e)
    } else {
        r.push(e)
    }
}

/// The file operations that a driver may have installed.
#[derive(Copy, Clone, PartialEq, Eq, Debug, Structural)]
pub enum FileOp {
    Open,
    Close,
    Read,
    Write,
    Seek,
    Stat,
    Fstat,
    Getdents,
}

/// A file operation with what it is called with.
#[derive(Copy, Clone, PartialEq, Eq, Debug, Structural)]
pub enum FileCall {
    /// The path, its length, the flags.
    Open(u64, u64, u64),
    Close(u64),
    /// The file, the buffer, its length.
    Read(u64, u64, u64),
    Write(u64, u64, u64),
    /// The file, the offset, from where.
    Seek(u64, i64, u64),
    /// The path, its length, where the answer goes.
    Stat(u64, u64, u64),
    /// The file, where the answer goes.
    Fstat(u64, u64),
    /// The path, its length, the buffer, its length.
    Getdents(u64, u64, u64, u64),
}

/// The arguments of a call, in order.
#[derive(Copy, Clone, PartialEq, Eq, Debug, Structural)]
pub struct CallArgs {
    pub a0: u64,
    pub a1: u64,
    pub a2: u64,
    pub a3: u64,
}

/// Which arguments a file operation is called with.
pub open spec fn file_call_of(op: FileOp, args: CallArgs) -> FileCall {
    match op {
        FileOp::Open => FileCall::Open(args.a0, args.a1, args.a2),
        FileOp::Close => FileCall::Close(args.a0),
        FileOp::Read => FileCall::Read(args.a0, args.a1, args.a2),
        FileOp::Write => FileCall::Write(args.a0, args.a1, args.a2),
        FileOp::Seek => FileCall::Seek(args.a0, args.a1 as i64, args.a2),
        FileOp::Stat => FileCall::Stat(args.a0, args.a1, args.a2),
        FileOp::Fstat => FileCall::Fstat(args.a0, args.a1),
        FileOp::Getdents => FileCall::Getdents(args.a0, args.a1, args.a2, args.a3),
    }
}

/// Which arguments a file operation is called with.
pub fn file_call(op: FileOp, args: CallArgs) -> (c: FileCall)
    ensures
        c == file_call_of(op, args),
{
    match op {
        FileOp::Open => FileCall::Open(args.a0, args.a1, args.a2),
        FileOp::Close => FileCall::Close(args.a0),
        FileOp::Read => FileCall::Read(args.a0, args.a1, args.a2),
        FileOp::Write => FileCall::Write(args.a0, args.a1, args.a2),
        FileOp::Seek => FileCall::Seek(args.a0, args.a1 as i64, args.a2),
        FileOp::Stat => FileCall::Stat(args.a0, args.a1, args.a2),
        FileOp::Fstat => FileCall::Fstat(args.a0, args.a1),
        FileOp::Getdents => FileCall::Getdents(args.a0, args.a1, args.a2, args.a3),
    }
}

/// A call on the services.
#[derive(Copy, Clone, PartialEq, Eq, Debug, Structural)]
pub enum Service {
    ReadLine,
    Write,
    Uptime,
    Random,
    Meminfo,
    Ps,
    Caps,
    EventEmit,
    EventCount,
    Graph,
    Reserve,
    Lease,
    EngineInfo,
    Cpuinfo,
    Lspci,
    Numa,
    DebugWrite,
    File(FileOp),
    /// A number that the services do not know.
    Unknown,
}

/// How the engine can be interrupted.
#[derive(Copy, Clone, PartialEq, Eq, Debug, Structural)]
pub enum Preemption {
    Instruction,
    OpBoundary,
}

/// What the rest of the machine says at the time of a call.
#[derive(Copy, Clone, PartialEq, Eq, Debug, Structural)]
pub struct Surroundings {
    pub uptime: u64,
    pub random: u64,
    pub frames_free: u64,
    pub frames_total: u64,
    pub cells: u64,
    pub caps_live: u64,
    pub lease_token: u64,
    pub engine_cost_ticks: u64,
    pub engine_preemption: Preemption,
}

/// What the engine is reported as.
#[derive(Copy, Clone, PartialEq, Eq, Debug, Structural)]
pub struct EngineReport {
    pub kind: u32,
    pub measured_cost_ticks: u64,
    pub preemption: u32,
}

/// What is done about a call.
pub enum Served {
    /// It is answered.
    Return(u64),
    /// It is answered, after this has been written to the console.
    Print(Vec<u8>, u64),
    /// The report on the engine goes to this address of the caller's; the answer is zero.
    Engine(u64, EngineReport),
    /// A line is to be read as the caller's block at this address says.
    ReadLine(u64),
    /// What the caller's block at this address names is to be written to the console.
    Write(u64),
    /// This many bytes of what the caller's block at this address names are to be written
    /// to the serial port.
    DebugWrite(u64, u64),
    /// The driver's file operation is to be called so.
    File(FileCall),
    /// The services do not serve it.
    NotMine,
}

/// What the services keep.
pub struct Services {
    pub events: EventStream,
    pub admission: Admission,
    /// Whether a driver has installed file operations, and socket operations.
    pub has_files: bool,
    pub has_sockets: bool,
    pub inventory: Inventory,
}

impl Services {
    pub open spec fn wf(&self) -> bool {
        self.events.wf() && self.admission.wf() && self.inventory.wf()
    }
}

/// The services at the start: no events, nothing admitted, no drivers.
pub fn init(capacity: usize, inventory: Inventory) -> (s: Services)
    requires
        capacity >= 1,
        inventory.wf(),
    ensures
        s.wf(),
        s.events.records@.len() == 0,
        s.events.total == 0,
        s.events.capacity == capacity,
        s.admission.committed == 0,
        !s.has_files,
        !s.has_sockets,
        s.inventory == inventory,
{
    Services {
        events: EventStream::new(capacity),
        admission: Admission::new(),
        has_files: false,
        has_sockets: false,
        inventory,
    }
}

/// A driver installs its file operations.
pub fn set_file_ops(s: &mut Services)
    ensures
        *final(s) == (Services { has_files: true, ..*old(s) }),
{
    s.has_files = true;
}

/// Whether there are file operations.
pub fn file_ops(s: &Services) -> (b: bool)
    ensures
        b == s.has_files,
{
    s.has_files
}

/// A driver installs its socket operations.
pub fn set_socket_ops(s: &mut Services)
    ensures
        *final(s) == (Services { has_sockets: true, ..*old(s) }),
{
    s.has_sockets = true;
}

/// Whether there are socket operations.
pub fn socket_ops(s: &Services) -> (b: bool)
    ensures
        b == s.has_sockets,
{
    s.has_sockets
}

/// The kind of event that an argument names.
pub open spec fn event_kind(arg: u64) -> EventKind {
    if arg == 0 {
        EventKind::User
    } else {
        EventKind::Numbered((arg % 0x1_0000) as u16)
    }
}

/// Two numbers in one word: the first in the upper half.
pub open spec fn joined(hi: u64, lo: u64) -> u64 {
    (hi << 32) | lo
}

/// What the engine is reported as: a CPU, with what was measured of it.
pub open spec fn engine_report(e: Surroundings) -> EngineReport {
    EngineReport {
        kind: 0,
        measured_cost_ticks: e.engine_cost_ticks,
        preemption: match e.engine_preemption {
            Preemption::Instruction => 0,
            Preemption::OpBoundary => 1,
        },
    }
}

/// How a call is served.
pub open spec fn served(
    before: &Services,
    after: &Services,
    call: Service,
    args: CallArgs,
    len: u64,
    e: Surroundings,
    r: Served,
) -> bool {
    let arg = args.a0;
    match call {
        Service::EventEmit => {
            &&& r == Served::Return((before.events.total + 1) as u64)
            &&& after.events.total == before.events.total + 1
            &&& after.events.records@ == emitted(
                before.events.records@,
                before.events.capacity as nat,
                EventRecord { kind: event_kind(arg), arg },
            )
            &&& *after == (Services { events: after.events, ..*before })
        },
        Service::Reserve => {
            let budget = arg / 0x1_0000_0000;
            let period = arg % 0x1_0000_0000;
            let fits = admission::sensible(budget, period, period) && before.admission.committed
                + admission::share_ppm(budget, period) <= FULL_PPM;
            &&& *after == (Services { admission: after.admission, ..*before })
            &&& after.admission.committed == before.admission.committed + (if fits {
                admission::share_ppm(budget, period)
            } else {
                0
            })
            &&& r == Served::Return(
                if fits {
                    after.admission.committed
                } else {
                    u64::MAX
                },
            )
        },
        _ => {
            &&& *after == *before
            &&& match call {
                Service::ReadLine => r == Served::ReadLine(arg),
                Service::Write => r == Served::Write(arg),
                Service::Uptime => r == Served::Return(e.uptime),
                Service::Random => r == Served::Return(e.random),
                Service::Meminfo => r == Served::Return(joined(e.frames_free, e.frames_total)),
                Service::Ps => r == Served::Return(e.cells),
                Service::Caps => r == Served::Return(e.caps_live),
                Service::EventCount => r == Served::Return(
                    joined(before.events.records@.len() as u64, before.events.total),
                ),
                Service::Graph => r == Served::Return(
                    graph::wrap_mul(graph::wrap_add(arg, 1), arg),
                ),
                Service::Lease => r == Served::Return(e.lease_token),
                Service::EngineInfo => r == Served::Engine(arg, engine_report(e)),
                Service::Cpuinfo => {
                    &&& r is Print
                    &&& r->Print_0@ == reports::cpuinfo_text(&before.inventory)
                    &&& r->Print_1 == 0
                },
                Service::Lspci => {
                    &&& r is Print
                    &&& r->Print_0@ == (if before.inventory.pci@.len() == 0 {
                        "no pci devices\r\n".spec_bytes()
                    } else {
                        reports::device_lines(
                            before.inventory.pci@,
                            before.inventory.pci@.len() as int,
                        )
                    })
                    &&& r->Print_1 == 0
                },
                Service::Numa => {
                    &&& r is Print
                    &&& r->Print_0@ == "numa nodes: ".spec_bytes() + crate::text::decimal(
                        before.inventory.node_ram@.len(),
                    ) + "\r\n".spec_bytes() + reports::node_lines(
                        &before.inventory,
                        before.inventory.node_ram@.len() as int,
                    )
                    &&& r->Print_1 == 0
                },
                Service::DebugWrite => r == Served::DebugWrite(
                    arg,
                    if len < DEBUG_WRITE_MAX {
                        len
                    } else {
                        DEBUG_WRITE_MAX
                    },
                ),
                Service::File(op) => if before.has_files {
                    r == Served::File(file_call_of(op, args))
                } else {
                    r is NotMine
                },
                _ => r is NotMine,
            }
        },
    }
}

/// Serve a call. `len` is the length of the text that a debug write names.
pub fn handle(s: &mut Services, call: Service, args: CallArgs, len: u64, e: Surroundings) -> (r: Served)
    requires
        old(s).wf(),
        call == Service::EventEmit ==> old(s).events.total < u64::MAX,
    ensures
        final(s).wf(),
        served(old(s), final(s), call, args, len, e, r),
{
    let arg: u64 = args.a0;
    match call {
        Service::ReadLine => Served::ReadLine(arg),
        Service::Write => Served::Write(arg),
        Service::Uptime => Served::Return(e.uptime),
        Service::Random => Served::Return(e.random),
        Service::Meminfo => Served::Return((e.frames_free << 32) | e.frames_total),
        Service::Ps => Served::Return(e.cells),
        Service::Caps => Served::Return(e.caps_live),
        Service::EventEmit => {
            assert(arg as u16 == arg % 0x1_0000u64) by (bit_vector);
            let kind: EventKind = if arg == 0 {
                EventKind::User
            } else {
                EventKind::Numbered(arg as u16)
            };
            s.events.emit(kind, arg);
            Served::Return(s.events.total)
        },
        Service::EventCount => Served::Return(
            ((s.events.records.len() as u64) << 32) | s.events.total,
        ),
        Service::Graph => Served::Return(graph::run_demo_graph(arg)),
        Service::Reserve => {
            assert(arg >> 32u64 == arg / 0x1_0000_0000u64) by (bit_vector);
            assert(arg & 0xFFFF_FFFFu64 == arg % 0x1_0000_0000u64) by (bit_vector);
            let budget: u64 = arg >> 32;
            let period: u64 = arg & 0xFFFF_FFFF;
            match s.admission.try_admit(budget, period, period) {
                Ok(_) => Served::Return(s.admission.committed_ppm()),
                Err(_) => Served::Return(u64::MAX),
            }
        },
        Service::Lease => Served::Return(e.lease_token),
        Service::EngineInfo => {
            let preemption: u32 = match e.engine_preemption {
                Preemption::Instruction => 0,
                Preemption::OpBoundary => 1,
            };
            Served::Engine(
                arg,
                EngineReport { kind: 0, measured_cost_ticks: e.engine_cost_ticks, preemption },
            )
        },
        Service::Cpuinfo => Served::Print(reports::print_cpuinfo(&s.inventory), 0),
        Service::Lspci => Served::Print(reports::print_lspci(&s.inventory), 0),
        Service::Numa => Served::Print(reports::print_numa(&s.inventory), 0),
        Service::DebugWrite => {
            let n: u64 = if len < DEBUG_WRITE_MAX { len } else { DEBUG_WRITE_MAX };
            Served::DebugWrite(arg, n)
        },
        Service::File(op) => {
            if s.has_files {
                Served::File(file_call(op, args))
            } else {
                Served::NotMine
            }
        },
        Service::Unknown => Served::NotMine,
    }
}

/// What a write to the console takes of a buffer of `room` bytes.
pub fn write(out_len: u64, room: u64) -> (n: u64)
    ensures
        n == (if out_len < room {
            out_len
        } else {
            room
        }),
{
    if out_len < room {
        out_len
    } else {
        room
    }
}

/// What a cell is told of a line that was read: its length and one, or nothing and
/// zero at the end of the input.
pub fn read_line(line: Option<u64>) -> (r: (u64, u64))
    ensures
        r == (match line {
            Some(n) => (n, 1u64),
            None => (0u64, 0u64),
        }),
{
    match line {
        Some(n) => (n, 1),
        None => (0, 0),
    }
}

/// Reservations never add up to more than the whole, whatever is asked for.
pub proof fn law_services_never_overcommit(
    before: &Services,
    after: &Services,
    call: Service,
    args: CallArgs,
    len: u64,
    e: Surroundings,
    r: Served,
)
    requires
        before.wf(),
        served(before, after, call, args, len, e, r),
    ensures
        after.admission.committed <= FULL_PPM,
        call == Service::Reserve && r != Served::Return(u64::MAX) ==> r == Served::Return(
            after.admission.committed,
        ),
{
}

/// The event log keeps the newest: the event that was just emitted stands last, those
/// before it keep their order, and where the log was full exactly the oldest went.
pub proof fn law_log_keeps_the_newest(r: Seq<EventRecord>, capacity: nat, e: EventRecord, i: int)
    requires
        r.len() <= capacity,
        capacity >= 1,
        0 <= i < r.len(),
    ensures
        emitted(r, capacity, e).len() <= capacity,
        emitted(r, capacity, e).last() == e,
        r.len() < capacity ==> emitted(r, capacity, e).len() == r.len() + 1 && emitted(r, capacity, e)[i]
            == r[i],
        r.len() == capacity ==> emitted(r, capacity, e).len() == capacity && (i > 0 ==> emitted(
            r,
            capacity,
            e,
        )[i - 1] == r[i]),
{
}

/// Two numbers of 32 bits share a word: the first is the upper half, the second the
/// lower, and either can be read back.
pub proof fn law_joined_halves_come_apart(hi: u64, lo: u64)
    requires
        hi <= u32::MAX,
        lo <= u32::MAX,
    ensures
        joined(hi, lo) == hi * 0x1_0000_0000 + lo,
        joined(hi, lo) / 0x1_0000_0000 == hi,
        joined(hi, lo) % 0x1_0000_0000 == lo,
{
    assert((hi << 32) | lo == hi * 0x1_0000_0000 + lo) by (bit_vector)
        requires
            hi <= 0xffff_ffff,
            lo <= 0xffff_ffff,
    ;
}

/// Each service answers with what it is about and changes nothing else: the clock with
/// the uptime, the generator with the random number, the counts of cells, capabilities
/// and frames with those numbers, and the demonstration graph with the number plus one
/// times the number on 64 bits. An event is counted and logged under the number it came
/// with.
pub proof fn law_services_answer_for_themselves(
    before: &Services,
    after: &Services,
    args: CallArgs,
    len: u64,
    e: Surroundings,
    r: Served,
)
    ensures
        served(before, after, Service::Uptime, args, len, e, r) ==> r == Served::Return(e.uptime) && *after
            == *before,
        served(before, after, Service::Random, args, len, e, r) ==> r == Served::Return(e.random) && *after
            == *before,
        served(before, after, Service::Ps, args, len, e, r) ==> r == Served::Return(e.cells) && *after
            == *before,
        served(before, after, Service::Caps, args, len, e, r) ==> r == Served::Return(e.caps_live)
            && *after == *before,
        served(before, after, Service::Lease, args, len, e, r) ==> r == Served::Return(e.lease_token)
            && *after == *before,
        served(before, after, Service::ReadLine, args, len, e, r) ==> r == Served::ReadLine(args.a0)
            && *after == *before,
        served(before, after, Service::Write, args, len, e, r) ==> r == Served::Write(args.a0) && *after
            == *before,
        served(before, after, Service::Meminfo, args, len, e, r) && e.frames_free <= u32::MAX
            && e.frames_total <= u32::MAX ==> r == Served::Return(
            (e.frames_free * 0x1_0000_0000 + e.frames_total) as u64,
        ),
        served(before, after, Service::EventCount, args, len, e, r) && before.events.records@.len()
            <= u32::MAX && before.events.total <= u32::MAX ==> r == Served::Return(
            (before.events.records@.len() * 0x1_0000_0000 + before.events.total) as u64,
        ),
        served(before, after, Service::Graph, args, len, e, r) && args.a0 < u64::MAX ==> r == Served::Return(
            (((args.a0 + 1) * args.a0) % (u64::MAX + 1)) as u64,
        ),
        served(before, after, Service::DebugWrite, args, len, e, r) ==> {
            &&& r matches Served::DebugWrite(at, n)
            &&& at == args.a0
            &&& n <= len
            &&& n <= DEBUG_WRITE_MAX
            &&& n == len || n == DEBUG_WRITE_MAX
        },
        served(before, after, Service::EventEmit, args, len, e, r) && before.events.total < u64::MAX
            && before.events.capacity >= 1 && before.events.records@.len() <= before.events.capacity ==> {
            &&& r == Served::Return(after.events.total)
            &&& after.events.total == before.events.total + 1
            &&& after.events.records@.last().arg == args.a0
            &&& args.a0 == 0 ==> after.events.records@.last().kind == EventKind::User
            &&& 0 < args.a0 <= u16::MAX ==> after.events.records@.last().kind == EventKind::Numbered(
                args.a0 as u16,
            )
            &&& after.admission == before.admission
        },
{
    if e.frames_free <= u32::MAX && e.frames_total <= u32::MAX {
        law_joined_halves_come_apart(e.frames_free, e.frames_total);
    }
    if before.events.records@.len() <= u32::MAX && before.events.total <= u32::MAX {
        law_joined_halves_come_apart(before.events.records@.len() as u64, before.events.total);
    }
}

/// A reservation through the services is read out of one word, the budget from its upper
/// half and the period from its lower; it is taken exactly where the budget is some part
/// of the period and the whole is not passed, and then answered with what is committed
/// now. One that is not taken commits nothing.
pub proof fn law_reserve_reads_both_halves(
    before: &Services,
    after: &Services,
    args: CallArgs,
    len: u64,
    e: Surroundings,
    r: Served,
    budget: u64,
    period: u64,
)
    requires
        before.wf(),
        args.a0 == budget * 0x1_0000_0000 + period,
        budget <= u32::MAX,
        period <= u32::MAX,
        served(before, after, Service::Reserve, args, len, e, r),
    ensures
        budget == 0 || budget > period ==> r == Served::Return(u64::MAX) && after.admission == before.admission,
        0 < budget <= period ==> {
            let committed = before.admission.committed + budget * 1_000_000 / (period as int);
            &&& committed > 1_000_000 ==> r == Served::Return(u64::MAX) && after.admission.committed
                == before.admission.committed
            &&& committed <= 1_000_000 ==> r == Served::Return(committed as u64) && after.admission.committed
                == committed
        },
{
    assert(args.a0 / 0x1_0000_0000 == budget);
    assert(args.a0 % 0x1_0000_0000 == period);
    if 0 < budget <= period {
        admission::law_share_is_in_millionths(budget, period, period);
    }
}

/// A file call reaches the file service with its arguments in their places, and only
/// where there is one.
pub proof fn law_file_calls_keep_their_arguments(
    before: &Services,
    after: &Services,
    args: CallArgs,
    len: u64,
    e: Surroundings,
    op: FileOp,
    r: Served,
)
    requires
        served(before, after, Service::File(op), args, len, e, r),
    ensures
        *after == *before,
        !before.has_files ==> r is NotMine,
        before.has_files ==> r is File,
        before.has_files ==> match op {
            FileOp::Open => r->File_0 == FileCall::Open(args.a0, args.a1, args.a2),
            FileOp::Close => r->File_0 == FileCall::Close(args.a0),
            FileOp::Read => r->File_0 == FileCall::Read(args.a0, args.a1, args.a2),
            FileOp::Write => r->File_0 == FileCall::Write(args.a0, args.a1, args.a2),
            FileOp::Seek => r->File_0 == FileCall::Seek(args.a0, args.a1 as i64, args.a2),
            FileOp::Stat => r->File_0 == FileCall::Stat(args.a0, args.a1, args.a2),
            FileOp::Fstat => r->File_0 == FileCall::Fstat(args.a0, args.a1),
            FileOp::Getdents => r->File_0 == FileCall::Getdents(args.a0, args.a1, args.a2, args.a3),
        },
{
}

/// The engine that is told of is the CPU, with the cost that was measured, and by how it is
/// stopped: 0 between instructions, 1 between operations.
pub proof fn law_engine_is_reported(e: Surroundings)
    ensures
        engine_report(e).kind == 0,
        engine_report(e).measured_cost_ticks == e.engine_cost_ticks,
        e.engine_preemption == Preemption::Instruction ==> engine_report(e).preemption == 0,
        e.engine_preemption == Preemption::OpBoundary ==> engine_report(e).preemption == 1,
{
}

} // verus!
