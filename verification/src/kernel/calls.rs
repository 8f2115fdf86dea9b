//! The numbers of the native system calls and of the system services: which number is which
//! call, and which register holds which argument.

use vstd::prelude::*;
use crate::kernel::svc::{FileOp, Service};
use crate::kernel::trap::{SpawnArgs, Syscall, Trap};

verus! {

/// The number of every native call, and the word by which a timer is the pacer's. They
/// belong to the interface of a build, so that they are handed in.
#[derive(Copy, Clone, PartialEq, Eq, Debug, Structural)]
pub struct CallNumbers {
    pub doorbell: u64,
    pub queue_info: u64,
    pub cap_derive: u64,
    pub cap_revoke: u64,
    pub cap_info: u64,
    pub cap_drop: u64,
    pub vcore_info: u64,
    pub connect: u64,
    pub grant_share: u64,
    pub cycles: u64,
    pub switch: u64,
    pub exit: u64,
    pub exit_group: u64,
    pub spawn: u64,
    pub wait: u64,
    pub yield_cell: u64,
    pub arm_timer: u64,
    pub mmap: u64,
    pub grant: u64,
    pub commit: u64,
    pub decommit: u64,
    pub seal: u64,
    pub munmap: u64,
    pub mmap_file: u64,
    pub reserve_admit: u64,
    pub reserve_query: u64,
    pub reserve_release: u64,
    pub wait_input: u64,
    pub wait_net: u64,
    pub pacer: u64,
}

/// The call that a number and its arguments stand for. A number that is none of these is
/// left to the system services. Of a word that names a capability or a set of rights, the
/// lower half counts.
pub open spec fn decoded(n: CallNumbers, nr: u64, a: Seq<u64>) -> Syscall {
    if nr == n.doorbell {
        Syscall::Doorbell
    } else if nr == n.queue_info {
        Syscall::QueueInfo { out: a[0] }
    } else if nr == n.cap_derive {
        Syscall::CapDerive { parent: a[0] as u32, rights: a[1] as u32, budget: a[2], out: a[3] }
    } else if nr == n.cap_revoke {
        Syscall::CapRevoke { cap: a[0] as u32 }
    } else if nr == n.cap_info {
        Syscall::CapInfo { cap: a[0] as u32, out: a[1] }
    } else if nr == n.cap_drop {
        Syscall::CapDrop { cap: a[0] as u32 }
    } else if nr == n.vcore_info {
        Syscall::VcoreInfo { out: a[0] }
    } else if nr == n.connect {
        Syscall::Connect { out: a[0], slot: a[1] }
    } else if nr == n.grant_share {
        Syscall::GrantShare { cap: a[0] as u32, out: a[1] }
    } else if nr == n.cycles {
        Syscall::Cycles
    } else if nr == n.switch {
        Syscall::Switch
    } else if nr == n.exit {
        Syscall::Exit { code: a[0] }
    } else if nr == n.exit_group {
        Syscall::ExitGroup { code: a[0] }
    } else if nr == n.spawn {
        Syscall::Spawn {
            args: SpawnArgs {
                path_va: a[0],
                path_len: a[1],
                argv: a[2],
                envp: a[3],
                channel: a[4],
            },
        }
    } else if nr == n.wait {
        Syscall::Wait { handle: a[0] }
    } else if nr == n.yield_cell {
        Syscall::Yield
    } else if nr == n.arm_timer {
        Syscall::ArmTimer { deadline_ns: a[0], pacer: a[1] == n.pacer }
    } else if nr == n.mmap {
        Syscall::Mmap { len: a[0] }
    } else if nr == n.grant {
        Syscall::Grant { out: a[0], len: a[1], kind: a[2], node: a[3] }
    } else if nr == n.commit {
        Syscall::Commit { cap: a[0] as u32, offset: a[1], len: a[2] }
    } else if nr == n.decommit {
        Syscall::Decommit { cap: a[0] as u32, offset: a[1], len: a[2] }
    } else if nr == n.seal {
        Syscall::Seal { cap: a[0] as u32 }
    } else if nr == n.munmap {
        Syscall::Munmap { va: a[0], len: a[1] }
    } else if nr == n.mmap_file {
        Syscall::MmapFile { fd: a[0], offset: a[1], len: a[2] }
    } else if nr == n.reserve_admit {
        Syscall::ReserveAdmit { out: a[0], budget: a[1], period: a[2], deadline: a[3], floor: a[4] }
    } else if nr == n.reserve_query {
        Syscall::ReserveQuery
    } else if nr == n.reserve_release {
        Syscall::ReserveRelease { cap: a[0] as u32 }
    } else if nr == n.wait_input {
        Syscall::WaitInput { va: a[0], len: a[1] }
    } else if nr == n.wait_net {
        Syscall::WaitNet { va: a[0], len: a[1], timeout_ns: a[2] }
    } else {
        Syscall::Service
    }
}

/// Decode a call.
pub fn decode(n: &CallNumbers, nr: u64, a: &[u64; 6]) -> (call: Syscall)
    ensures
        call == decoded(*n, nr, a@),
{
    if nr == n.doorbell {
        Syscall::Doorbell
    } else if nr == n.queue_info {
        Syscall::QueueInfo { out: a[0] }
    } else if nr == n.cap_derive {
        Syscall::CapDerive { parent: a[0] as u32, rights: a[1] as u32, budget: a[2], out: a[3] }
    } else if nr == n.cap_revoke {
        Syscall::CapRevoke { cap: a[0] as u32 }
    } else if nr == n.cap_info {
        Syscall::CapInfo { cap: a[0] as u32, out: a[1] }
    } else if nr == n.cap_drop {
        Syscall::CapDrop { cap: a[0] as u32 }
    } else if nr == n.vcore_info {
        Syscall::VcoreInfo { out: a[0] }
    } else if nr == n.connect {
        Syscall::Connect { out: a[0], slot: a[1] }
    } else if nr == n.grant_share {
        Syscall::GrantShare { cap: a[0] as u32, out: a[1] }
    } else if nr == n.cycles {
        Syscall::Cycles
    } else if nr == n.switch {
        Syscall::Switch
    } else if nr == n.exit {
        Syscall::Exit { code: a[0] }
    } else if nr == n.exit_group {
        Syscall::ExitGroup { code: a[0] }
    } else if nr == n.spawn {
        Syscall::Spawn {
            args: SpawnArgs {
                path_va: a[0],
                path_len: a[1],
                argv: a[2],
                envp: a[3],
                channel: a[4],
            },
        }
    } else if nr == n.wait {
        Syscall::Wait { handle: a[0] }
    } else if nr == n.yield_cell {
        Syscall::Yield
    } else if nr == n.arm_timer {
        Syscall::ArmTimer { deadline_ns: a[0], pacer: a[1] == n.pacer }
    } else if nr == n.mmap {
        Syscall::Mmap { len: a[0] }
    } else if nr == n.grant {
        Syscall::Grant { out: a[0], len: a[1], kind: a[2], node: a[3] }
    } else if nr == n.commit {
        Syscall::Commit { cap: a[0] as u32, offset: a[1], len: a[2] }
    } else if nr == n.decommit {
        Syscall::Decommit { cap: a[0] as u32, offset: a[1], len: a[2] }
    } else if nr == n.seal {
        Syscall::Seal { cap: a[0] as u32 }
    } else if nr == n.munmap {
        Syscall::Munmap { va: a[0], len: a[1] }
    } else if nr == n.mmap_file {
        Syscall::MmapFile { fd: a[0], offset: a[1], len: a[2] }
    } else if nr == n.reserve_admit {
        Syscall::ReserveAdmit { out: a[0], budget: a[1], period: a[2], deadline: a[3], floor: a[4] }
    } else if nr == n.reserve_query {
        Syscall::ReserveQuery
    } else if nr == n.reserve_release {
        Syscall::ReserveRelease { cap: a[0] as u32 }
    } else if nr == n.wait_input {
        Syscall::WaitInput { va: a[0], len: a[1] }
    } else if nr == n.wait_net {
        Syscall::WaitNet { va: a[0], len: a[1], timeout_ns: a[2] }
    } else {
        Syscall::Service
    }
}

/// The trap of a cell that makes a call.
pub fn call_trap(n: &CallNumbers, nr: u64, a: &[u64; 6]) -> (trap: Trap)
    ensures
        trap == Trap::Call(decoded(*n, nr, a@)),
{
    Trap::Call(decode(n, nr, a))
}

impl CallNumbers {
    /// The numbers, in the order in which they are looked at.
    pub open spec fn listed(self) -> Seq<u64> {
        seq![
            self.doorbell,
            self.queue_info,
            self.cap_derive,
            self.cap_revoke,
            self.cap_info,
            self.cap_drop,
            self.vcore_info,
            self.connect,
            self.grant_share,
            self.cycles,
            self.switch,
            self.exit,
            self.exit_group,
            self.spawn,
            self.wait,
            self.yield_cell,
            self.arm_timer,
            self.mmap,
            self.grant,
            self.commit,
            self.decommit,
            self.seal,
            self.munmap,
            self.mmap_file,
            self.reserve_admit,
            self.reserve_query,
            self.reserve_release,
            self.wait_input,
            self.wait_net,
        ]
    }

    /// No two calls go by one number.
    pub open spec fn apart(self) -> bool {
        forall|i: int, j: int|
            0 <= i < j < self.listed().len() ==> #[trigger] self.listed()[i] != #[trigger] self.listed()[j]
    }
}

/// Where no two calls go by one number, each call is made by its own: the number finds the
/// call, and the registers its arguments.
pub proof fn law_every_call_is_found(n: CallNumbers, a: Seq<u64>)
    requires
        n.apart(),
    ensures
        decoded(n, n.doorbell, a) == (Syscall::Doorbell),
        decoded(n, n.queue_info, a) == (Syscall::QueueInfo { out: a[0] }),
        decoded(n, n.cap_derive, a) == (Syscall::CapDerive { parent: a[0] as u32, rights: a[1] as u32, budget: a[2], out: a[3] }),
        decoded(n, n.cap_revoke, a) == (Syscall::CapRevoke { cap: a[0] as u32 }),
        decoded(n, n.cap_info, a) == (Syscall::CapInfo { cap: a[0] as u32, out: a[1] }),
        decoded(n, n.cap_drop, a) == (Syscall::CapDrop { cap: a[0] as u32 }),
        decoded(n, n.vcore_info, a) == (Syscall::VcoreInfo { out: a[0] }),
        decoded(n, n.connect, a) == (Syscall::Connect { out: a[0], slot: a[1] }),
        decoded(n, n.grant_share, a) == (Syscall::GrantShare { cap: a[0] as u32, out: a[1] }),
        decoded(n, n.cycles, a) == (Syscall::Cycles),
        decoded(n, n.switch, a) == (Syscall::Switch),
        decoded(n, n.exit, a) == (Syscall::Exit { code: a[0] }),
        decoded(n, n.exit_group, a) == (Syscall::ExitGroup { code: a[0] }),
        decoded(n, n.spawn, a) == (Syscall::Spawn {
                args: SpawnArgs {
                    path_va: a[0],
                    path_len: a[1],
                    argv: a[2],
                    envp: a[3],
                    channel: a[4],
                },
            }),
        decoded(n, n.wait, a) == (Syscall::Wait { handle: a[0] }),
        decoded(n, n.yield_cell, a) == (Syscall::Yield),
        decoded(n, n.arm_timer, a) == (Syscall::ArmTimer { deadline_ns: a[0], pacer: a[1] == n.pacer }),
        decoded(n, n.mmap, a) == (Syscall::Mmap { len: a[0] }),
        decoded(n, n.grant, a) == (Syscall::Grant { out: a[0], len: a[1], kind: a[2], node: a[3] }),
        decoded(n, n.commit, a) == (Syscall::Commit { cap: a[0] as u32, offset: a[1], len: a[2] }),
        decoded(n, n.decommit, a) == (Syscall::Decommit { cap: a[0] as u32, offset: a[1], len: a[2] }),
        decoded(n, n.seal, a) == (Syscall::Seal { cap: a[0] as u32 }),
        decoded(n, n.munmap, a) == (Syscall::Munmap { va: a[0], len: a[1] }),
        decoded(n, n.mmap_file, a) == (Syscall::MmapFile { fd: a[0], offset: a[1], len: a[2] }),
        decoded(n, n.reserve_admit, a) == (Syscall::ReserveAdmit { out: a[0], budget: a[1], period: a[2], deadline: a[3], floor: a[4] }),
        decoded(n, n.reserve_query, a) == (Syscall::ReserveQuery),
        decoded(n, n.reserve_release, a) == (Syscall::ReserveRelease { cap: a[0] as u32 }),
        decoded(n, n.wait_input, a) == (Syscall::WaitInput { va: a[0], len: a[1] }),
        decoded(n, n.wait_net, a) == (Syscall::WaitNet { va: a[0], len: a[1], timeout_ns: a[2] }),
        forall|nr: u64| !n.listed().contains(nr) ==> #[trigger] decoded(n, nr, a) == Syscall::Service,
{
    let l = n.listed();
    assert(l[0] == n.doorbell);
    assert(l[1] == n.queue_info);
    assert(l[2] == n.cap_derive);
    assert(l[3] == n.cap_revoke);
    assert(l[4] == n.cap_info);
    assert(l[5] == n.cap_drop);
    assert(l[6] == n.vcore_info);
    assert(l[7] == n.connect);
    assert(l[8] == n.grant_share);
    assert(l[9] == n.cycles);
    assert(l[10] == n.switch);
    assert(l[11] == n.exit);
    assert(l[12] == n.exit_group);
    assert(l[13] == n.spawn);
    assert(l[14] == n.wait);
    assert(l[15] == n.yield_cell);
    assert(l[16] == n.arm_timer);
    assert(l[17] == n.mmap);
    assert(l[18] == n.grant);
    assert(l[19] == n.commit);
    assert(l[20] == n.decommit);
    assert(l[21] == n.seal);
    assert(l[22] == n.munmap);
    assert(l[23] == n.mmap_file);
    assert(l[24] == n.reserve_admit);
    assert(l[25] == n.reserve_query);
    assert(l[26] == n.reserve_release);
    assert(l[27] == n.wait_input);
    assert(l[28] == n.wait_net);
    assert forall|nr: u64| !l.contains(nr) implies #[trigger] decoded(n, nr, a) == Syscall::Service by {
        assert(nr != l[0]);
        assert(nr != l[1]);
        assert(nr != l[2]);
        assert(nr != l[3]);
        assert(nr != l[4]);
        assert(nr != l[5]);
        assert(nr != l[6]);
        assert(nr != l[7]);
        assert(nr != l[8]);
        assert(nr != l[9]);
        assert(nr != l[10]);
        assert(nr != l[11]);
        assert(nr != l[12]);
        assert(nr != l[13]);
        assert(nr != l[14]);
        assert(nr != l[15]);
        assert(nr != l[16]);
        assert(nr != l[17]);
        assert(nr != l[18]);
        assert(nr != l[19]);
        assert(nr != l[20]);
        assert(nr != l[21]);
        assert(nr != l[22]);
        assert(nr != l[23]);
        assert(nr != l[24]);
        assert(nr != l[25]);
        assert(nr != l[26]);
        assert(nr != l[27]);
        assert(nr != l[28]);
    }
}

/// The number of every call of the system services.
#[derive(Copy, Clone, PartialEq, Eq, Debug, Structural)]
pub struct ServiceNumbers {
    pub read_line: u64,
    pub write: u64,
    pub uptime: u64,
    pub random: u64,
    pub meminfo: u64,
    pub ps: u64,
    pub caps: u64,
    pub event_emit: u64,
    pub event_count: u64,
    pub graph: u64,
    pub reserve: u64,
    pub lease: u64,
    pub engine_info: u64,
    pub cpuinfo: u64,
    pub lspci: u64,
    pub numa: u64,
    pub debug_write: u64,
    pub open: u64,
    pub close: u64,
    pub read: u64,
    pub write_fd: u64,
    pub lseek: u64,
    pub stat: u64,
    pub fstat: u64,
    pub getdents: u64,
}

/// The call of the services that a number stands for.
pub open spec fn service_of(n: ServiceNumbers, nr: u64) -> Service {
    if nr == n.read_line {
        Service::ReadLine
    } else if nr == n.write {
        Service::Write
    } else if nr == n.uptime {
        Service::Uptime
    } else if nr == n.random {
        Service::Random
    } else if nr == n.meminfo {
        Service::Meminfo
    } else if nr == n.ps {
        Service::Ps
    } else if nr == n.caps {
        Service::Caps
    } else if nr == n.event_emit {
        Service::EventEmit
    } else if nr == n.event_count {
        Service::EventCount
    } else if nr == n.graph {
        Service::Graph
    } else if nr == n.reserve {
        Service::Reserve
    } else if nr == n.lease {
        Service::Lease
    } else if nr == n.engine_info {
        Service::EngineInfo
    } else if nr == n.cpuinfo {
        Service::Cpuinfo
    } else if nr == n.lspci {
        Service::Lspci
    } else if nr == n.numa {
        Service::Numa
    } else if nr == n.debug_write {
        Service::DebugWrite
    } else if nr == n.open {
        Service::File(FileOp::Open)
    } else if nr == n.close {
        Service::File(FileOp::Close)
    } else if nr == n.read {
        Service::File(FileOp::Read)
    } else if nr == n.write_fd {
        Service::File(FileOp::Write)
    } else if nr == n.lseek {
        Service::File(FileOp::Seek)
    } else if nr == n.stat {
        Service::File(FileOp::Stat)
    } else if nr == n.fstat {
        Service::File(FileOp::Fstat)
    } else if nr == n.getdents {
        Service::File(FileOp::Getdents)
    } else {
        Service::Unknown
    }
}

/// Decode a call of the services.
pub fn service(n: &ServiceNumbers, nr: u64) -> (s: Service)
    ensures
        s == service_of(*n, nr),
{
    if nr == n.read_line {
        Service::ReadLine
    } else if nr == n.write {
        Service::Write
    } else if nr == n.uptime {
        Service::Uptime
    } else if nr == n.random {
        Service::Random
    } else if nr == n.meminfo {
        Service::Meminfo
    } else if nr == n.ps {
        Service::Ps
    } else if nr == n.caps {
        Service::Caps
    } else if nr == n.event_emit {
        Service::EventEmit
    } else if nr == n.event_count {
        Service::EventCount
    } else if nr == n.graph {
        Service::Graph
    } else if nr == n.reserve {
        Service::Reserve
    } else if nr == n.lease {
        Service::Lease
    } else if nr == n.engine_info {
        Service::EngineInfo
    } else if nr == n.cpuinfo {
        Service::Cpuinfo
    } else if nr == n.lspci {
        Service::Lspci
    } else if nr == n.numa {
        Service::Numa
    } else if nr == n.debug_write {
        Service::DebugWrite
    } else if nr == n.open {
        Service::File(FileOp::Open)
    } else if nr == n.close {
        Service::File(FileOp::Close)
    } else if nr == n.read {
        Service::File(FileOp::Read)
    } else if nr == n.write_fd {
        Service::File(FileOp::Write)
    } else if nr == n.lseek {
        Service::File(FileOp::Seek)
    } else if nr == n.stat {
        Service::File(FileOp::Stat)
    } else if nr == n.fstat {
        Service::File(FileOp::Fstat)
    } else if nr == n.getdents {
        Service::File(FileOp::Getdents)
    } else {
        Service::Unknown
    }
}

impl ServiceNumbers {
    /// The numbers, in the order in which they are looked at.
    pub open spec fn listed(self) -> Seq<u64> {
        seq![
            self.read_line,
            self.write,
            self.uptime,
            self.random,
            self.meminfo,
            self.ps,
            self.caps,
            self.event_emit,
            self.event_count,
            self.graph,
            self.reserve,
            self.lease,
            self.engine_info,
            self.cpuinfo,
            self.lspci,
            self.numa,
            self.debug_write,
            self.open,
            self.close,
            self.read,
            self.write_fd,
            self.lseek,
            self.stat,
            self.fstat,
            self.getdents,
        ]
    }

    /// No two calls go by one number.
    pub open spec fn apart(self) -> bool {
        forall|i: int, j: int|
            0 <= i < j < self.listed().len() ==> #[trigger] self.listed()[i] != #[trigger] self.listed()[j]
    }
}

/// Where no two calls of the services go by one number, each is made by its own.
pub proof fn law_every_service_is_found(n: ServiceNumbers)
    requires
        n.apart(),
    ensures
        service_of(n, n.read_line) == Service::ReadLine,
        service_of(n, n.write) == Service::Write,
        service_of(n, n.uptime) == Service::Uptime,
        service_of(n, n.random) == Service::Random,
        service_of(n, n.meminfo) == Service::Meminfo,
        service_of(n, n.ps) == Service::Ps,
        service_of(n, n.caps) == Service::Caps,
        service_of(n, n.event_emit) == Service::EventEmit,
        service_of(n, n.event_count) == Service::EventCount,
        service_of(n, n.graph) == Service::Graph,
        service_of(n, n.reserve) == Service::Reserve,
        service_of(n, n.lease) == Service::Lease,
        service_of(n, n.engine_info) == Service::EngineInfo,
        service_of(n, n.cpuinfo) == Service::Cpuinfo,
        service_of(n, n.lspci) == Service::Lspci,
        service_of(n, n.numa) == Service::Numa,
        service_of(n, n.debug_write) == Service::DebugWrite,
        service_of(n, n.open) == Service::File(FileOp::Open),
        service_of(n, n.close) == Service::File(FileOp::Close),
        service_of(n, n.read) == Service::File(FileOp::Read),
        service_of(n, n.write_fd) == Service::File(FileOp::Write),
        service_of(n, n.lseek) == Service::File(FileOp::Seek),
        service_of(n, n.stat) == Service::File(FileOp::Stat),
        service_of(n, n.fstat) == Service::File(FileOp::Fstat),
        service_of(n, n.getdents) == Service::File(FileOp::Getdents),
        forall|nr: u64| !n.listed().contains(nr) ==> #[trigger] service_of(n, nr) == Service::Unknown,
{
    let l = n.listed();
    assert(l[0] == n.read_line);
    assert(l[1] == n.write);
    assert(l[2] == n.uptime);
    assert(l[3] == n.random);
    assert(l[4] == n.meminfo);
    assert(l[5] == n.ps);
    assert(l[6] == n.caps);
    assert(l[7] == n.event_emit);
    assert(l[8] == n.event_count);
    assert(l[9] == n.graph);
    assert(l[10] == n.reserve);
    assert(l[11] == n.lease);
    assert(l[12] == n.engine_info);
    assert(l[13] == n.cpuinfo);
    assert(l[14] == n.lspci);
    assert(l[15] == n.numa);
    assert(l[16] == n.debug_write);
    assert(l[17] == n.open);
    assert(l[18] == n.close);
    assert(l[19] == n.read);
    assert(l[20] == n.write_fd);
    assert(l[21] == n.lseek);
    assert(l[22] == n.stat);
    assert(l[23] == n.fstat);
    assert(l[24] == n.getdents);
    assert forall|nr: u64| !l.contains(nr) implies #[trigger] service_of(n, nr) == Service::Unknown by {
        assert(nr != l[0]);
        assert(nr != l[1]);
        assert(nr != l[2]);
        assert(nr != l[3]);
        assert(nr != l[4]);
        assert(nr != l[5]);
        assert(nr != l[6]);
        assert(nr != l[7]);
        assert(nr != l[8]);
        assert(nr != l[9]);
        assert(nr != l[10]);
        assert(nr != l[11]);
        assert(nr != l[12]);
        assert(nr != l[13]);
        assert(nr != l[14]);
        assert(nr != l[15]);
        assert(nr != l[16]);
        assert(nr != l[17]);
        assert(nr != l[18]);
        assert(nr != l[19]);
        assert(nr != l[20]);
        assert(nr != l[21]);
        assert(nr != l[22]);
        assert(nr != l[23]);
        assert(nr != l[24]);
    }
}

} // verus!
