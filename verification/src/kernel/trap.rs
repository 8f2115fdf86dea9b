//! What the kernel does when a cell traps.
//!
//! A trap is decided in steps. [`on_user_trap`] looks at the trap and either
//! settles it or asks for outside work (the process service, a device, the clock,
//! the Linux personality). [`on_answer`] takes the answer and settles the trap or
//! asks on.

use vstd::prelude::*;
use crate::kernel::capability::{derive_refusal, dropped, has_room, held, law_handles_are_given_out_once, minted, resolve, revoked, slot_no, CapError, Capability, ObjectKind, ALL, REVOKE};
use crate::kernel::cells::{entity_of, finish, finished, switch_native_cell, switched, CellTable, ChanEnd, Outcome, Personality, SwitchPlan, Vcore, MAX_CPUS, MAX_VCORES};
use crate::kernel::grants::{commit_done, create_done, decommit_done, grant_commit, grant_create, grant_decommit, grant_seal, grant_share, munmap_outcome, peer_index, peer_of, reply_ok, seal_done, share_done, sys_munmap, user_out, GrantInfo, Notice, ShareInfo};
use crate::kernel::install::{cell_chan_count, chan_run, channel_wired, chans_sized, queue_wired};
use crate::kernel::machine::Machine;
use crate::kernel::memory::{mmap_anon, mmap_done, mmap_file, mmap_file_done, pools_same, rest_same, CellView, Memory, PageRead, MAX_CELLS, REFUSED};
use crate::kernel::reserve::{admit_done, release_done, reserve_admit, reserve_release, ReserveInfo};
use crate::kernel::uaccess::{may_write, writable};

verus! {

pub const EPERM: u64 = 1;

pub const ENOENT: u64 = 2;

pub const EFAULT: u64 = 14;

pub const EINVAL: u64 = 22;

pub const ENOSPC: u64 = 28;

/// The error number that a refused capability operation is answered with.
pub open spec fn errno_of(e: CapError) -> u64 {
    match e {
        CapError::BadHandle => ENOENT,
        CapError::InsufficientRights => EPERM,
        CapError::WidenAttempt => EPERM,
        CapError::NotDelegatable => EPERM,
        CapError::Revoked => EINVAL,
        CapError::Exhausted => ENOSPC,
        CapError::TableFull => ENOSPC,
        CapError::TooManyObjects => ENOSPC,
    }
}

/// The error number that a refused capability operation is answered with.
pub fn cap_errno(e: CapError) -> (n: u64)
    ensures
        n == errno_of(e),
{
    match e {
        CapError::BadHandle => ENOENT,
        CapError::InsufficientRights => EPERM,
        CapError::WidenAttempt => EPERM,
        CapError::NotDelegatable => EPERM,
        CapError::Revoked => EINVAL,
        CapError::Exhausted => ENOSPC,
        CapError::TableFull => ENOSPC,
        CapError::TooManyObjects => ENOSPC,
    }
}

/// An error number as a system call returns it: negated, in two's complement.
pub open spec fn negated(errno: u64) -> u64 {
    if errno == 0 {
        0
    } else {
        (0x1_0000_0000_0000_0000 - errno) as u64
    }
}

fn errno_ret(errno: u64) -> (r: u64)
    ensures
        r == negated(errno),
{
    0u64.wrapping_sub(errno)
}

/// Why a cell faulted.
#[derive(Copy, Clone, PartialEq, Eq, Debug, Structural)]
pub enum FaultCause {
    /// An address that is not mapped, or not for this access.
    Segv,
    /// An address that the machine cannot reach so.
    Bus,
    /// An instruction that there is not.
    Ill,
    /// A number that cannot be computed.
    Fpe,
}

/// A native system call, decoded.
#[derive(Copy, Clone, PartialEq, Eq, Debug, Structural)]
pub enum Syscall {
    Doorbell,
    QueueInfo { out: u64 },
    CapDerive { parent: u32, rights: u32, budget: u64, out: u64 },
    CapRevoke { cap: u32 },
    CapInfo { cap: u32, out: u64 },
    CapDrop { cap: u32 },
    VcoreInfo { out: u64 },
    Connect { out: u64, slot: u64 },
    GrantShare { cap: u32, out: u64 },
    Cycles,
    Switch,
    Exit { code: u64 },
    ExitGroup { code: u64 },
    Spawn { args: SpawnArgs },
    Wait { handle: u64 },
    Yield,
    ArmTimer { deadline_ns: u64, pacer: bool },
    Mmap { len: u64 },
    Grant { out: u64, len: u64, kind: u64, node: u64 },
    Commit { cap: u32, offset: u64, len: u64 },
    Decommit { cap: u32, offset: u64, len: u64 },
    Seal { cap: u32 },
    Munmap { va: u64, len: u64 },
    MmapFile { fd: u64, offset: u64, len: u64 },
    ReserveAdmit { out: u64, budget: u64, period: u64, deadline: u64, floor: u64 },
    ReserveQuery,
    ReserveRelease { cap: u32 },
    WaitInput { va: u64, len: u64 },
    WaitNet { va: u64, len: u64, timeout_ns: u64 },
    /// A call of the system services.
    Service,
}

/// The arguments of a spawn.
#[derive(Copy, Clone, PartialEq, Eq, Debug, Structural)]
pub struct SpawnArgs {
    pub path_va: u64,
    pub path_len: u64,
    pub argv: u64,
    pub envp: u64,
    pub channel: u64,
}

/// A trap of a cell.
#[derive(Copy, Clone, PartialEq, Eq, Debug, Structural)]
pub enum Trap {
    Fault { cause: FaultCause, addr: u64 },
    Call(Syscall),
}

/// What is known of a capability.
#[derive(Copy, Clone, PartialEq, Eq, Debug, Structural)]
pub struct CapInfo {
    pub object: u32,
    pub kind: ObjectKind,
    pub rights: u32,
    pub budget: u64,
}

/// What is written to the cell before it resumes.
pub enum Reply {
    Nothing,
    Queue { qp_va: u64, cap_id: u64 },
    Derived(u32),
    Cap(CapInfo),
    Vcore { index: u64, count: u64 },
    Channel { chan_va: u64, cap_id: u64, role: u64, count: u64 },
    Grant(GrantInfo),
    Share(ShareInfo),
    Reserve(ReserveInfo),
    /// Pages to be read from a file before the cell resumes.
    Reads(Vec<PageRead>),
    /// A substitution of memory to be reported.
    Report(Notice),
}

/// Outside work that the kernel asks for.
#[derive(Copy, Clone, PartialEq, Eq, Debug, Structural)]
pub enum Ask {
    /// Process the submissions of this queue pair: how many there were.
    Process { qp: u64 },
    /// Read the cycle counter.
    Cycles,
    /// Offer a native fault to the process service.
    NativeFault { addr: u64 },
    /// Offer the end of a vcore to the process service.
    Retire { code: u64 },
    /// Offer the end of a cell to the process service.
    Leave { code: u64 },
    Spawn { args: SpawnArgs },
    Wait { handle: u64 },
    Yield,
    /// Offer to block the cell until a deadline.
    BlockTimer { deadline_ns: u64, pacer: bool },
    /// Wait for a deadline on this CPU.
    Sleep { deadline_ns: u64, pacer: bool },
    BlockConsole { va: u64, len: u64 },
    ReadConsole { va: u64, len: u64 },
    BlockNet { va: u64, len: u64, timeout_ns: u64 },
    ReadNet { va: u64, len: u64, timeout_ns: u64 },
    /// Let the system services take the call.
    Service,
    /// Fill the page of a Linux cell that faulted.
    LinuxFill { addr: u64 },
    /// Deliver a fault to a Linux cell.
    LinuxFault { cause: FaultCause, addr: u64 },
    /// Let the Linux personality take the call.
    LinuxCall,
}

/// What the outside work came to.
#[derive(Copy, Clone, PartialEq, Eq, Debug, Structural)]
pub enum Answer {
    /// A value to return.
    Value(u64),
    /// Resume these registers.
    Frame(u64),
    /// The outside service does not take it.
    Declined,
    /// End the cell with this code.
    Ended(u64),
    /// Whether it was done.
    Done(bool),
}

/// What the kernel does next.
pub enum Action {
    /// Write the reply, set the return value and resume the cell.
    Return(u64, Reply),
    /// Resume the cell where it trapped.
    Resume,
    /// Resume these registers.
    Continue(u64),
    /// Switch to another cell.
    Switch(SwitchPlan),
    /// The vcore has ended; leave user mode.
    Leave,
    /// Have outside work done.
    Perform(Ask),
}

/// Whether a reply of one word can be written at `va`.
pub open spec fn word_ok(m: &Machine, va: u64) -> bool {
    va % 4 == 0 && may_write(m, va, 4)
}

/// The kernel's state did not move.
pub open spec fn idle(t0: &CellTable, t1: &CellTable, mem0: &Memory, mem1: &Memory) -> bool {
    t1 == t0 && mem1 == mem0
}

/// What a call with a queue-info, vcore-info or connect request is answered with.
pub open spec fn info_reply(
    m: &Machine,
    t: &CellTable,
    cur: int,
    v: int,
    call: Syscall,
) -> Option<(u64, Reply)> {
    match call {
        Syscall::QueueInfo { out } => Some(
            if t.vcore(cur, v).qp_va != 0 && reply_ok(m, out, 16) {
                (
                    0u64,
                    Reply::Queue {
                        qp_va: t.vcore(cur, v).qp_va,
                        cap_id: t.vcore(cur, v).qp_cap as u64,
                    },
                )
            } else {
                (REFUSED, Reply::Nothing)
            },
        ),
        Syscall::VcoreInfo { out } => Some(
            if reply_ok(m, out, 16) {
                (0u64, Reply::Vcore { index: v as u64, count: t.cells@[cur].nvcores as u64 })
            } else {
                (negated(EFAULT), Reply::Nothing)
            },
        ),
        Syscall::Connect { out, slot } => Some(
            if slot < m.channels && t.chans@[cur]@[slot as int].va != 0 && reply_ok(m, out, 32) {
                let end = t.chans@[cur]@[slot as int];
                (
                    0u64,
                    Reply::Channel {
                        chan_va: end.va,
                        cap_id: end.cap_id as u64,
                        role: end.role,
                        count: chan_run(t.chans@[cur]@, 0) as u64,
                    },
                )
            } else {
                (REFUSED, Reply::Nothing)
            },
        ),
        _ => None,
    }
}

/// Answer a queue-info, vcore-info or connect request.
fn info_call(m: &Machine, t: &CellTable, cur: usize, v: usize, call: Syscall) -> (a: Option<(u64, Reply)>)
    requires
        m.wf(),
        t.wf(),
        chans_sized(m, t),
        cur < MAX_CELLS,
        v < MAX_VCORES,
    ensures
        a == info_reply(m, t, cur as int, v as int, call),
{
    match call {
        Syscall::QueueInfo { out } => {
            let x: Vcore = t.vcores[entity_of(cur, v)];
            if x.qp_va != 0 && user_out(m, out, 16) {
                Some((0, Reply::Queue { qp_va: x.qp_va, cap_id: x.qp_cap as u64 }))
            } else {
                Some((REFUSED, Reply::Nothing))
            }
        },
        Syscall::VcoreInfo { out } => {
            if user_out(m, out, 16) {
                Some((0, Reply::Vcore { index: v as u64, count: t.cells[cur].nvcores as u64 }))
            } else {
                Some((errno_ret(EFAULT), Reply::Nothing))
            }
        },
        Syscall::Connect { out, slot } => {
            if slot >= m.channels as u64 {
                return Some((REFUSED, Reply::Nothing));
            }
            assert(t.chans@[cur as int]@.len() == m.channels);
            let end: ChanEnd = t.chans[cur][slot as usize];
            if end.va != 0 && user_out(m, out, 32) {
                let count: usize = cell_chan_count(t, cur);
                Some(
                    (
                        0,
                        Reply::Channel {
                            chan_va: end.va,
                            cap_id: end.cap_id as u64,
                            role: end.role,
                            count: count as u64,
                        },
                    ),
                )
            } else {
                Some((REFUSED, Reply::Nothing))
            }
        },
        _ => None,
    }
}

/// What a capability call does to the kernel's memory, and what it is answered
/// with.
pub open spec fn cap_done(
    m: &Machine,
    before: &Memory,
    after: &Memory,
    cur: int,
    call: Syscall,
    ret: u64,
    reply: Reply,
) -> bool {
    let c0 = before.cell(cur);
    let c1 = after.cell(cur);
    match call {
        Syscall::CapDerive { parent, rights, budget, out } => {
            &&& rest_same(before, after, cur)
            &&& pools_same(before, after)
            &&& c1 == (CellView { caps: c1.caps, ..c0 })
            &&& if !word_ok(m, out) {
                &&& ret == negated(EFAULT)
                &&& reply is Nothing
                &&& c1.caps == c0.caps
            } else if rights & !ALL != 0 {
                &&& ret == negated(EINVAL)
                &&& reply is Nothing
                &&& c1.caps == c0.caps
            } else {
                match derive_refusal(c0.caps, before.objects@, parent, rights) {
                    Some(e) => {
                        &&& ret == negated(errno_of(e))
                        &&& reply is Nothing
                        &&& c1.caps == c0.caps
                    },
                    None => if !has_room(c0.caps, c0.cap_limit) {
                        &&& ret == negated(ENOSPC)
                        &&& reply is Nothing
                        &&& c1.caps == c0.caps
                    } else {
                        &&& ret == 0
                        &&& reply matches Reply::Derived(h) && minted(
                            c0.caps,
                            c1.caps,
                            h,
                            Capability {
                                object: (held(c0.caps, parent)->0).object,
                                rights,
                                budget,
                                epoch: (held(c0.caps, parent)->0).epoch,
                            },
                        )
                    },
                }
            }
        },
        Syscall::CapRevoke { cap } => {
            &&& reply is Nothing
            &&& pools_same(before, after)
            &&& after.system == before.system
            &&& after.noticed@ == before.noticed@
            &&& forall|i: int|
                0 <= i < MAX_CELLS ==> (#[trigger] after.cells@[i])@ == before.cells@[i]@
            &&& match resolve(c0.caps, before.objects@, cap) {
                Ok(c) => if c.rights & REVOKE != 0 {
                    &&& ret == 0
                    &&& after.objects@ == revoked(before.objects@, c.object)
                } else {
                    &&& ret == negated(EPERM)
                    &&& after.objects@ == before.objects@
                },
                Err(e) => {
                    &&& ret == negated(errno_of(e))
                    &&& after.objects@ == before.objects@
                },
            }
        },
        Syscall::CapInfo { cap, out } => {
            &&& after == before
            &&& if !reply_ok(m, out, 24) {
                &&& ret == negated(EFAULT)
                &&& reply is Nothing
            } else {
                match resolve(c0.caps, before.objects@, cap) {
                    Ok(c) => {
                        &&& ret == 0
                        &&& reply == Reply::Cap(
                            CapInfo {
                                object: c.object,
                                kind: before.objects@[c.object as int].kind,
                                rights: c.rights,
                                budget: c.budget,
                            },
                        )
                    },
                    Err(e) => ret == negated(errno_of(e)) && reply is Nothing,
                }
            }
        },
        Syscall::CapDrop { cap } => {
            &&& reply is Nothing
            &&& rest_same(before, after, cur)
            &&& pools_same(before, after)
            &&& c1 == (CellView { caps: c1.caps, ..c0 })
            &&& match resolve(c0.caps, before.objects@, cap) {
                Ok(_) => ret == 0 && c1.caps == dropped(c0.caps, cap),
                Err(e) => ret == negated(errno_of(e)) && c1.caps == c0.caps,
            }
        },
        _ => false,
    }
}

/// A call of the capability group.
pub open spec fn is_cap_call(call: Syscall) -> bool {
    call is CapDerive || call is CapRevoke || call is CapInfo || call is CapDrop
}

/// Do a capability call.
fn cap_call(m: &Machine, mem: &mut Memory, cur: usize, call: Syscall) -> (r: (u64, Reply))
    requires
        m.wf(),
        old(mem).wf(m),
        cur < MAX_CELLS,
        is_cap_call(call),
    ensures
        final(mem).wf(m),
        cap_done(m, old(mem), final(mem), cur as int, call, r.0, r.1),
{
    assert(mem.cells@[cur as int]@.wf(m));
    match call {
        Syscall::CapDerive { parent, rights, budget, out } => {
            if out % 4 != 0 || !writable(m, out, 4) {
                return (errno_ret(EFAULT), Reply::Nothing);
            }
            if rights & !ALL != 0 {
                return (errno_ret(EINVAL), Reply::Nothing);
            }
            let r = mem.cells[cur].caps.derive_subset_low32(&mem.objects, parent, rights, budget);
            proof {
                assert forall|j: int| 0 <= j < MAX_CELLS implies (#[trigger] mem.cells@[j])@.wf(m) by {
                    assert(old(mem).cells@[j]@.wf(m));
                }
            }
            match r {
                Ok(child) => {
                    assert(has_room(
                        old(mem).cell(cur as int).caps,
                        old(mem).cell(cur as int).cap_limit,
                    ));
                    (0, Reply::Derived(child))
                },
                Err(e) => (errno_ret(cap_errno(e)), Reply::Nothing),
            }
        },
        Syscall::CapRevoke { cap } => {
            let r = mem.cells[cur].caps.inspect_low32(&mem.objects, cap);
            match r {
                Ok(c) => {
                    if c.rights & REVOKE != 0 {
                        mem.objects.revoke_epoch(c.object);
                        (0, Reply::Nothing)
                    } else {
                        (errno_ret(EPERM), Reply::Nothing)
                    }
                },
                Err(e) => (errno_ret(cap_errno(e)), Reply::Nothing),
            }
        },
        Syscall::CapInfo { cap, out } => {
            if !user_out(m, out, 24) {
                return (errno_ret(EFAULT), Reply::Nothing);
            }
            match mem.cells[cur].caps.inspect_low32(&mem.objects, cap) {
                Ok(c) => {
                    let kind: ObjectKind = mem.objects.kind(c.object);
                    (
                        0,
                        Reply::Cap(
                            CapInfo { object: c.object, kind, rights: c.rights, budget: c.budget },
                        ),
                    )
                },
                Err(e) => (errno_ret(cap_errno(e)), Reply::Nothing),
            }
        },
        Syscall::CapDrop { cap } => {
            let r = mem.cells[cur].caps.free_low32(&mem.objects, cap);
            proof {
                assert forall|j: int| 0 <= j < MAX_CELLS implies (#[trigger] mem.cells@[j])@.wf(m) by {
                    assert(old(mem).cells@[j]@.wf(m));
                }
            }
            match r {
                Ok(()) => (0, Reply::Nothing),
                Err(e) => (errno_ret(cap_errno(e)), Reply::Nothing),
            }
        },
        _ => (0, Reply::Nothing),
    }
}


/// What is there to serve a trap.
#[derive(Copy, Clone, PartialEq, Eq, Debug, Structural)]
pub struct Services {
    /// There is a file service.
    pub files: bool,
    /// The machine has persistent memory.
    pub nvdimm: bool,
}

/// The outside work that a trap needs before it can be settled, if any.
pub open spec fn first_ask(m: &Machine, t: &CellTable, cur: int, v: int, trap: Trap) -> Option<Ask> {
    let linux = t.cells@[cur].personality == Personality::Linux;
    match trap {
        Trap::Fault { cause, addr } => if linux && cause == FaultCause::Segv {
            Some(Ask::LinuxFill { addr })
        } else if linux {
            Some(Ask::LinuxFault { cause, addr })
        } else {
            Some(Ask::NativeFault { addr })
        },
        Trap::Call(call) => if linux {
            Some(Ask::LinuxCall)
        } else {
            match call {
                Syscall::Doorbell => Some(Ask::Process { qp: t.vcore(cur, v).qp }),
                Syscall::Cycles => Some(Ask::Cycles),
                Syscall::Exit { code } => Some(Ask::Retire { code }),
                Syscall::ExitGroup { code } => Some(Ask::Leave { code }),
                Syscall::Spawn { args } => Some(Ask::Spawn { args }),
                Syscall::Wait { handle } => Some(Ask::Wait { handle }),
                Syscall::Yield => Some(Ask::Yield),
                Syscall::ArmTimer { deadline_ns, pacer } => Some(
                    Ask::BlockTimer { deadline_ns, pacer },
                ),
                Syscall::WaitInput { va, len } => if may_write(m, va, len) {
                    Some(Ask::BlockConsole { va, len })
                } else {
                    None
                },
                Syscall::WaitNet { va, len, timeout_ns } => if may_write(m, va, len) {
                    Some(Ask::BlockNet { va, len, timeout_ns })
                } else {
                    None
                },
                Syscall::Service => Some(Ask::Service),
                _ => None,
            }
        },
    }
}

/// The code and the reply of a call that hands back one item or none.
pub open spec fn grant_part(reply: Reply) -> Option<GrantInfo> {
    match reply {
        Reply::Grant(g) => Some(g),
        _ => None,
    }
}

pub open spec fn share_part(reply: Reply) -> Option<ShareInfo> {
    match reply {
        Reply::Share(s) => Some(s),
        _ => None,
    }
}

pub open spec fn reserve_part(reply: Reply) -> Option<ReserveInfo> {
    match reply {
        Reply::Reserve(r) => Some(r),
        _ => None,
    }
}

pub open spec fn report_part(reply: Reply) -> Option<Notice> {
    match reply {
        Reply::Report(n) => Some(n),
        _ => None,
    }
}

/// What a native call that needs no outside work does, and how the cell goes on.
pub open spec fn settled(
    m: &Machine,
    env: Services,
    t0: &CellTable,
    t1: &CellTable,
    mem0: &Memory,
    mem1: &Memory,
    cpu: int,
    call: Syscall,
    action: Action,
) -> bool {
    let cur = t0.cpus@[cpu].cell as int;
    let v = t0.cpus@[cpu].vcore as int;
    if call is Switch {
        &&& mem1 == mem0
        &&& action matches Action::Switch(p) && switched(t0, t1, cpu, cur, peer_of(cur), 0, p)
    } else {
        &&& t1 == t0
        &&& action matches Action::Return(ret, reply) && match call {
            Syscall::QueueInfo { .. } => mem1 == mem0 && info_reply(m, t0, cur, v, call) == Some(
                (ret, reply),
            ),
            Syscall::VcoreInfo { .. } => mem1 == mem0 && info_reply(m, t0, cur, v, call) == Some(
                (ret, reply),
            ),
            Syscall::Connect { .. } => mem1 == mem0 && info_reply(m, t0, cur, v, call) == Some(
                (ret, reply),
            ),
            Syscall::CapDerive { .. } => cap_done(m, mem0, mem1, cur, call, ret, reply),
            Syscall::CapRevoke { .. } => cap_done(m, mem0, mem1, cur, call, ret, reply),
            Syscall::CapInfo { .. } => cap_done(m, mem0, mem1, cur, call, ret, reply),
            Syscall::CapDrop { .. } => cap_done(m, mem0, mem1, cur, call, ret, reply),
            Syscall::GrantShare { cap, out } => {
                &&& reply is Share || reply is Nothing
                &&& share_done(m, mem0, mem1, cur, cap, out, (ret, share_part(reply)))
            },
            Syscall::Mmap { len } => reply is Nothing && mmap_done(m, mem0, mem1, cur, len, ret),
            Syscall::Grant { out, len, kind, node } => {
                &&& reply is Grant || reply is Nothing
                &&& create_done(
                    m,
                    mem0,
                    mem1,
                    cur,
                    out,
                    len,
                    kind,
                    node,
                    (ret, grant_part(reply)),
                )
            },
            Syscall::Commit { cap, offset, len } => {
                &&& reply is Report || reply is Nothing
                &&& commit_done(
                    m,
                    mem0,
                    mem1,
                    cur,
                    cap,
                    offset,
                    len,
                    env.nvdimm,
                    (ret, report_part(reply)),
                )
            },
            Syscall::Decommit { cap, offset, len } => reply is Nothing && decommit_done(
                m,
                mem0,
                mem1,
                cur,
                cap,
                offset,
                len,
                ret,
            ),
            Syscall::Seal { cap } => reply is Nothing && seal_done(m, mem0, mem1, cur, cap, ret),
            Syscall::Munmap { va, len } => reply is Nothing && munmap_outcome(
                m,
                mem0,
                mem1,
                cur,
                va,
                len,
                ret,
            ),
            Syscall::MmapFile { fd, offset, len } => reply matches Reply::Reads(reads)
                && mmap_file_done(m, mem0, mem1, cur, env.files, offset, len, (ret, reads)),
            Syscall::ReserveAdmit { out, budget, period, deadline, floor } => {
                &&& reply is Reserve || reply is Nothing
                &&& admit_done(
                    m,
                    mem0,
                    mem1,
                    cur,
                    out,
                    budget,
                    period,
                    deadline,
                    floor,
                    (ret, reserve_part(reply)),
                )
            },
            Syscall::ReserveQuery => {
                &&& reply is Nothing
                &&& mem1 == mem0
                &&& ret == mem0.cell(cur).admission.committed
            },
            Syscall::ReserveRelease { cap } => reply is Nothing && release_done(
                m,
                mem0,
                mem1,
                cur,
                cap,
                ret,
            ),
            Syscall::WaitInput { .. } => reply is Nothing && mem1 == mem0 && ret == 0,
            Syscall::WaitNet { .. } => reply is Nothing && mem1 == mem0 && ret == 0,
            _ => false,
        }
    }
}

/// The outside work that a trap needs before it can be settled, if any.
fn ask_first(m: &Machine, t: &CellTable, cur: usize, v: usize, trap: Trap) -> (a: Option<Ask>)
    requires
        m.wf(),
        t.wf(),
        cur < MAX_CELLS,
        v < MAX_VCORES,
    ensures
        a == first_ask(m, t, cur as int, v as int, trap),
{
    let linux: bool = t.cells[cur].personality == Personality::Linux;
    match trap {
        Trap::Fault { cause, addr } => {
            if linux && cause == FaultCause::Segv {
                Some(Ask::LinuxFill { addr })
            } else if linux {
                Some(Ask::LinuxFault { cause, addr })
            } else {
                Some(Ask::NativeFault { addr })
            }
        },
        Trap::Call(call) => {
            if linux {
                return Some(Ask::LinuxCall);
            }
            match call {
                Syscall::Doorbell => Some(Ask::Process { qp: t.vcores[entity_of(cur, v)].qp }),
                Syscall::Cycles => Some(Ask::Cycles),
                Syscall::Exit { code } => Some(Ask::Retire { code }),
                Syscall::ExitGroup { code } => Some(Ask::Leave { code }),
                Syscall::Spawn { args } => Some(Ask::Spawn { args }),
                Syscall::Wait { handle } => Some(Ask::Wait { handle }),
                Syscall::Yield => Some(Ask::Yield),
                Syscall::ArmTimer { deadline_ns, pacer } => Some(
                    Ask::BlockTimer { deadline_ns, pacer },
                ),
                Syscall::WaitInput { va, len } => {
                    if writable(m, va, len) {
                        Some(Ask::BlockConsole { va, len })
                    } else {
                        None
                    }
                },
                Syscall::WaitNet { va, len, timeout_ns } => {
                    if writable(m, va, len) {
                        Some(Ask::BlockNet { va, len, timeout_ns })
                    } else {
                        None
                    }
                },
                Syscall::Service => Some(Ask::Service),
                _ => None,
            }
        },
    }
}

/// A cell trapped: settle the trap, or say what outside work it needs.
///
/// A cell that switches has a peer to switch to.
pub fn on_user_trap(
    m: &Machine,
    env: Services,
    t: &mut CellTable,
    mem: &mut Memory,
    cpu: usize,
    trap: Trap,
) -> (action: Action)
    requires
        m.wf(),
        old(t).wf(),
        chans_sized(m, old(t)),
        old(mem).wf(m),
        cpu < MAX_CPUS,
        trap matches Trap::Call(Syscall::Switch) ==> old(t).cells@[peer_of(
            old(t).cpus@[cpu as int].cell as int,
        )].present,
    ensures
        final(t).wf(),
        final(mem).wf(m),
        match first_ask(
            m,
            old(t),
            old(t).cpus@[cpu as int].cell as int,
            old(t).cpus@[cpu as int].vcore as int,
            trap,
        ) {
            Some(ask) => action == Action::Perform(ask) && idle(
                old(t),
                final(t),
                old(mem),
                final(mem),
            ),
            None => trap matches Trap::Call(call) && settled(
                m,
                env,
                old(t),
                final(t),
                old(mem),
                final(mem),
                cpu as int,
                call,
                action,
            ),
        },
{
    assert(t.cpus@[cpu as int].cell < MAX_CELLS);
    let cur: usize = t.cpus[cpu].cell;
    let v: usize = t.cpus[cpu].vcore;
    if let Some(ask) = ask_first(m, t, cur, v, trap) {
        return Action::Perform(ask);
    }
    let call: Syscall = match trap {
        Trap::Fault { .. } => {
            assert(false);
            return Action::Resume;
        },
        Trap::Call(call) => call,
    };
    match call {
        Syscall::Switch => {
            let peer: usize = peer_index(cur);
            Action::Switch(switch_native_cell(t, cpu, cur, peer))
        },
        Syscall::CapDerive { .. } => {
            let (ret, reply) = cap_call(m, mem, cur, call);
            Action::Return(ret, reply)
        },
        Syscall::CapRevoke { .. } => {
            let (ret, reply) = cap_call(m, mem, cur, call);
            Action::Return(ret, reply)
        },
        Syscall::CapInfo { .. } => {
            let (ret, reply) = cap_call(m, mem, cur, call);
            Action::Return(ret, reply)
        },
        Syscall::CapDrop { .. } => {
            let (ret, reply) = cap_call(m, mem, cur, call);
            Action::Return(ret, reply)
        },
        Syscall::GrantShare { cap, out } => {
            let (ret, info) = grant_share(m, mem, cur, cap, out);
            Action::Return(
                ret,
                match info {
                    Some(i) => Reply::Share(i),
                    None => Reply::Nothing,
                },
            )
        },
        Syscall::Mmap { len } => Action::Return(mmap_anon(m, mem, cur, len), Reply::Nothing),
        Syscall::Grant { out, len, kind, node } => {
            let (ret, info) = grant_create(m, mem, cur, out, len, kind, node);
            Action::Return(
                ret,
                match info {
                    Some(i) => Reply::Grant(i),
                    None => Reply::Nothing,
                },
            )
        },
        Syscall::Commit { cap, offset, len } => {
            let (ret, notice) = grant_commit(m, mem, cur, cap, offset, len, env.nvdimm);
            Action::Return(
                ret,
                match notice {
                    Some(n) => Reply::Report(n),
                    None => Reply::Nothing,
                },
            )
        },
        Syscall::Decommit { cap, offset, len } => Action::Return(
            grant_decommit(m, mem, cur, cap, offset, len),
            Reply::Nothing,
        ),
        Syscall::Seal { cap } => Action::Return(grant_seal(m, mem, cur, cap), Reply::Nothing),
        Syscall::Munmap { va, len } => Action::Return(
            sys_munmap(m, mem, cur, va, len),
            Reply::Nothing,
        ),
        Syscall::MmapFile { fd: _, offset, len } => {
            let (base, reads) = mmap_file(m, mem, cur, env.files, offset, len);
            Action::Return(base, Reply::Reads(reads))
        },
        Syscall::ReserveAdmit { out, budget, period, deadline, floor } => {
            let (ret, info) = reserve_admit(m, mem, cur, out, budget, period, deadline, floor);
            Action::Return(
                ret,
                match info {
                    Some(i) => Reply::Reserve(i),
                    None => Reply::Nothing,
                },
            )
        },
        Syscall::ReserveQuery => Action::Return(
            mem.cells[cur].admission.committed_ppm(),
            Reply::Nothing,
        ),
        Syscall::ReserveRelease { cap } => Action::Return(
            reserve_release(m, mem, cur, cap),
            Reply::Nothing,
        ),
        Syscall::WaitInput { .. } => Action::Return(0, Reply::Nothing),
        Syscall::WaitNet { .. } => Action::Return(0, Reply::Nothing),
        _ => {
            let answer = info_call(m, t, cur, v, call);
            match answer {
                Some((ret, reply)) => Action::Return(ret, reply),
                None => {
                    assert(false);
                    Action::Resume
                },
            }
        },
    }
}

/// What an answer leads to.
pub enum Step {
    Return(u64),
    Resume,
    Continue(u64),
    Perform(Ask),
    Finish(Outcome),
    /// The answer is none for this question.
    Confused,
}

/// What the answer to a question leads to.
pub open spec fn step_after(ask: Ask, answer: Answer) -> Step {
    match (ask, answer) {
        (Ask::Process { .. }, Answer::Value(n)) => Step::Return(n),
        (Ask::Cycles, Answer::Value(n)) => Step::Return(n),
        (Ask::NativeFault { .. }, Answer::Frame(f)) => Step::Continue(f),
        (Ask::NativeFault { addr }, Answer::Declined) => Step::Finish(Outcome::Faulted(addr)),
        (Ask::Retire { .. }, Answer::Frame(f)) => Step::Continue(f),
        (Ask::Retire { code }, Answer::Declined) => Step::Perform(Ask::Leave { code }),
        (Ask::Leave { .. }, Answer::Frame(f)) => Step::Continue(f),
        (Ask::Leave { code }, Answer::Declined) => Step::Finish(Outcome::Exited(code)),
        (Ask::Spawn { .. }, Answer::Value(h)) => Step::Return(h),
        (Ask::Wait { .. }, Answer::Value(n)) => Step::Return(n),
        (Ask::Wait { .. }, Answer::Frame(f)) => Step::Continue(f),
        (Ask::Yield, Answer::Value(n)) => Step::Return(n),
        (Ask::Yield, Answer::Frame(f)) => Step::Continue(f),
        (Ask::BlockTimer { .. }, Answer::Frame(f)) => Step::Continue(f),
        (Ask::BlockTimer { deadline_ns, pacer }, Answer::Declined) => Step::Perform(
            Ask::Sleep { deadline_ns, pacer },
        ),
        (Ask::Sleep { .. }, Answer::Done(_)) => Step::Return(0),
        (Ask::BlockConsole { .. }, Answer::Frame(f)) => Step::Continue(f),
        (Ask::BlockConsole { va, len }, Answer::Declined) => Step::Perform(
            Ask::ReadConsole { va, len },
        ),
        (Ask::ReadConsole { .. }, Answer::Value(n)) => Step::Return(n),
        (Ask::BlockNet { .. }, Answer::Frame(f)) => Step::Continue(f),
        (Ask::BlockNet { va, len, timeout_ns }, Answer::Declined) => Step::Perform(
            Ask::ReadNet { va, len, timeout_ns },
        ),
        (Ask::ReadNet { .. }, Answer::Value(n)) => Step::Return(n),
        (Ask::Service, Answer::Value(n)) => Step::Return(n),
        (Ask::Service, Answer::Declined) => Step::Finish(Outcome::Faulted(0)),
        (Ask::LinuxFill { addr }, Answer::Done(filled)) => if filled {
            Step::Resume
        } else {
            Step::Perform(Ask::LinuxFault { cause: FaultCause::Segv, addr })
        },
        (Ask::LinuxFault { .. }, Answer::Frame(f)) => Step::Continue(f),
        (Ask::LinuxFault { .. }, Answer::Value(n)) => Step::Return(n),
        (Ask::LinuxFault { .. }, Answer::Ended(code)) => Step::Finish(Outcome::Exited(code)),
        (Ask::LinuxCall, Answer::Frame(f)) => Step::Continue(f),
        (Ask::LinuxCall, Answer::Value(n)) => Step::Return(n),
        (Ask::LinuxCall, Answer::Ended(code)) => Step::Finish(Outcome::Exited(code)),
        _ => Step::Confused,
    }
}

/// Whether an answer is one that the work calls for.
pub fn answer_fits(ask: Ask, answer: Answer) -> (b: bool)
    ensures
        b == !(step_after(ask, answer) is Confused),
{
    match ask {
        Ask::Process { .. } | Ask::Cycles | Ask::Spawn { .. } | Ask::ReadConsole { .. } | Ask::ReadNet {
            ..
        } => matches!(answer, Answer::Value(_)),
        Ask::NativeFault { .. } | Ask::Retire { .. } | Ask::Leave { .. } | Ask::BlockTimer { .. }
        | Ask::BlockConsole { .. } | Ask::BlockNet { .. } => matches!(
            answer,
            Answer::Frame(_) | Answer::Declined
        ),
        Ask::Wait { .. } | Ask::Yield => matches!(answer, Answer::Value(_) | Answer::Frame(_)),
        Ask::Sleep { .. } | Ask::LinuxFill { .. } => matches!(answer, Answer::Done(_)),
        Ask::Service => matches!(answer, Answer::Value(_) | Answer::Declined),
        Ask::LinuxFault { .. } | Ask::LinuxCall => matches!(
            answer,
            Answer::Frame(_) | Answer::Value(_) | Answer::Ended(_)
        ),
    }
}

/// The outside work is done: settle the trap, or ask on.
pub fn on_answer(t: &mut CellTable, cpu: usize, ask: Ask, answer: Answer) -> (action: Action)
    requires
        old(t).wf(),
        cpu < MAX_CPUS,
        !(step_after(ask, answer) is Confused),
    ensures
        final(t).wf(),
        match step_after(ask, answer) {
            Step::Return(n) => action == Action::Return(n, Reply::Nothing) && *final(t) == *old(t),
            Step::Resume => action is Resume && *final(t) == *old(t),
            Step::Continue(f) => action == Action::Continue(f) && *final(t) == *old(t),
            Step::Perform(next) => action == Action::Perform(next) && *final(t) == *old(t),
            Step::Finish(outcome) => action is Leave && finished(
                old(t),
                final(t),
                cpu as int,
                outcome,
            ),
            Step::Confused => false,
        },
        (ask matches Ask::BlockTimer { deadline_ns, pacer } ==> (answer is Declined ==> action
            == Action::Perform(Ask::Sleep { deadline_ns, pacer }))),
        (action matches Action::Return(n, _) ==> answer == Answer::Value(n) || (ask is Sleep && answer is Done
            && n == 0)),
        (action matches Action::Continue(f) ==> answer == Answer::Frame(f)),
{
    match (ask, answer) {
        (Ask::NativeFault { addr }, Answer::Declined) => {
            finish(t, cpu, Outcome::Faulted(addr));
            Action::Leave
        },
        (Ask::Retire { code }, Answer::Declined) => Action::Perform(Ask::Leave { code }),
        (Ask::Leave { code }, Answer::Declined) => {
            finish(t, cpu, Outcome::Exited(code));
            Action::Leave
        },
        (Ask::BlockTimer { deadline_ns, pacer }, Answer::Declined) => Action::Perform(
            Ask::Sleep { deadline_ns, pacer },
        ),
        (Ask::Sleep { .. }, Answer::Done(_)) => Action::Return(0, Reply::Nothing),
        (Ask::BlockConsole { va, len }, Answer::Declined) => Action::Perform(
            Ask::ReadConsole { va, len },
        ),
        (Ask::BlockNet { va, len, timeout_ns }, Answer::Declined) => Action::Perform(
            Ask::ReadNet { va, len, timeout_ns },
        ),
        (Ask::Service, Answer::Declined) => {
            finish(t, cpu, Outcome::Faulted(0));
            Action::Leave
        },
        (Ask::LinuxFill { addr }, Answer::Done(filled)) => {
            if filled {
                Action::Resume
            } else {
                Action::Perform(Ask::LinuxFault { cause: FaultCause::Segv, addr })
            }
        },
        (_, Answer::Ended(code)) => {
            finish(t, cpu, Outcome::Exited(code));
            Action::Leave
        },
        (_, Answer::Value(n)) => Action::Return(n, Reply::Nothing),
        (_, Answer::Frame(f)) => Action::Continue(f),
        _ => Action::Resume,
    }
}

/// How a preemption goes on.
#[derive(Copy, Clone, PartialEq, Eq, Debug, Structural)]
pub enum Preempt {
    /// Resume the cell: nothing to preempt.
    Resume,
    /// Try another context of the same Linux cell.
    TrySibling,
    /// Try another cell.
    TryCell,
    /// Count the preemption and start a new slice with these registers, or those
    /// that were interrupted.
    Rearm {
        frame: Option<u64>,
        /// What was counted: a switch to a sibling, a switch to a cell, or none.
        switched: Option<bool>,
    },
}

/// What a tick of the clock begins on a CPU that runs such a cell.
pub open spec fn preempt_begun(due: bool, present: bool, personality: Personality) -> Preempt {
    if !due || !present {
        Preempt::Resume
    } else if personality == Personality::Linux {
        Preempt::TrySibling
    } else {
        Preempt::TryCell
    }
}

/// What follows once another context was looked for.
pub open spec fn preempt_followed(tried: Preempt, found: Option<u64>) -> Preempt {
    match (tried, found) {
        (Preempt::TrySibling, None) => Preempt::TryCell,
        (Preempt::TrySibling, Some(f)) => Preempt::Rearm { frame: Some(f), switched: Some(true) },
        (_, Some(f)) => Preempt::Rearm { frame: Some(f), switched: Some(false) },
        (_, None) => Preempt::Rearm { frame: None, switched: None },
    }
}

/// The clock interrupted a CPU. `due` says whether a preemption was due.
pub fn on_user_interrupt(t: &CellTable, cpu: usize, due: bool) -> (p: Preempt)
    requires
        t.wf(),
        cpu < MAX_CPUS,
    ensures
        p == preempt_begun(
            due,
            t.cells@[t.cpus@[cpu as int].cell as int].present,
            t.cells@[t.cpus@[cpu as int].cell as int].personality,
        ),
        p == ({
            let cur = t.cells@[t.cpus@[cpu as int].cell as int];
            if !due || !cur.present {
                Preempt::Resume
            } else if cur.personality == Personality::Linux {
                Preempt::TrySibling
            } else {
                Preempt::TryCell
            }
        }),
{
    if !due {
        return Preempt::Resume;
    }
    assert(t.cpus@[cpu as int].cell < MAX_CELLS);
    let cur: usize = t.cpus[cpu].cell;
    if !t.cells[cur].present {
        return Preempt::Resume;
    }
    match t.cells[cur].personality {
        Personality::Linux => Preempt::TrySibling,
        Personality::Native => Preempt::TryCell,
    }
}

/// What was tried came to `found`: other registers to run, or none.
pub fn on_preempt_tried(tried: Preempt, found: Option<u64>) -> (p: Preempt)
    requires
        tried is TrySibling || tried is TryCell,
    ensures
        p == preempt_followed(tried, found),
        p == (match (tried, found) {
            (Preempt::TrySibling, None) => Preempt::TryCell,
            (Preempt::TrySibling, Some(f)) => Preempt::Rearm {
                frame: Some(f),
                switched: Some(true),
            },
            (_, Some(f)) => Preempt::Rearm { frame: Some(f), switched: Some(false) },
            (_, None) => Preempt::Rearm { frame: None, switched: None },
        }),
{
    match (tried, found) {
        (Preempt::TrySibling, None) => Preempt::TryCell,
        (Preempt::TrySibling, Some(f)) => Preempt::Rearm { frame: Some(f), switched: Some(true) },
        (_, Some(f)) => Preempt::Rearm { frame: Some(f), switched: Some(false) },
        (_, None) => Preempt::Rearm { frame: None, switched: None },
    }
}

/// A fault of a native cell that no service takes ends the vcore with the
/// address of the fault, and a call that no service takes ends it too.
pub proof fn law_unserved_trap_ends_the_vcore(addr: u64)
    ensures
        step_after(Ask::NativeFault { addr }, Answer::Declined) == Step::Finish(
            Outcome::Faulted(addr),
        ),
        step_after(Ask::Service, Answer::Declined) == Step::Finish(Outcome::Faulted(0)),
{
}

/// Cells are isolated: settling a call of one cell leaves what every other cell
/// holds as it was, but for a share, which reaches the peer.
pub proof fn law_call_stays_in_its_cell(
    m: &Machine,
    env: Services,
    t0: &CellTable,
    t1: &CellTable,
    mem0: &Memory,
    mem1: &Memory,
    cpu: int,
    call: Syscall,
    action: Action,
    other: int,
)
    requires
        t0.wf(),
        mem0.wf(m),
        mem1.wf(m),
        0 <= cpu < MAX_CPUS,
        settled(m, env, t0, t1, mem0, mem1, cpu, call, action),
        0 <= other < MAX_CELLS,
        other != t0.cpus@[cpu].cell,
        call is GrantShare ==> other != peer_of(t0.cpus@[cpu].cell as int),
    ensures
        mem1.cells@[other]@ == mem0.cells@[other]@,
{
    assert(t0.cpus@[cpu].cell < MAX_CELLS);
}

/// A timer call is returned from only after a sleep. A native cell's call becomes an
/// offer to block until its deadline; where nobody takes the offer, the CPU sleeps
/// until that deadline for that client, and only the end of that sleep returns 0.
pub proof fn law_timer_returns_only_after_the_sleep(
    m: &Machine,
    t: &CellTable,
    cur: int,
    v: int,
    deadline_ns: u64,
    pacer: bool,
    answer: Answer,
    ask: Ask,
)
    requires
        t.cells@[cur].personality != Personality::Linux,
    ensures
        first_ask(m, t, cur, v, Trap::Call(Syscall::ArmTimer { deadline_ns, pacer })) == Some(
            Ask::BlockTimer { deadline_ns, pacer },
        ),
        step_after(Ask::BlockTimer { deadline_ns, pacer }, Answer::Declined) == Step::Perform(
            Ask::Sleep { deadline_ns, pacer },
        ),
        !(step_after(Ask::BlockTimer { deadline_ns, pacer }, answer) is Return),
        !(step_after(Ask::BlockTimer { deadline_ns, pacer }, answer) is Finish),
        step_after(Ask::Sleep { deadline_ns, pacer }, answer) is Return <==> answer is Done,
        answer is Done ==> step_after(Ask::Sleep { deadline_ns, pacer }, answer) == Step::Return(0),
        step_after(ask, answer) == Step::Perform(Ask::Sleep { deadline_ns, pacer }) ==> ask == (
        Ask::BlockTimer { deadline_ns, pacer }) && answer is Declined,
{
}

/// A call that waits for input is answered by the device it waits for, and into the
/// buffer it named: the console read or the network read that follows a declined offer
/// has the offer's address, length and time, and what it gives is what is returned.
pub proof fn law_input_is_read_where_it_was_asked(
    m: &Machine,
    t: &CellTable,
    cur: int,
    v: int,
    va: u64,
    len: u64,
    timeout_ns: u64,
    n: u64,
)
    requires
        t.cells@[cur].personality != Personality::Linux,
    ensures
        first_ask(m, t, cur, v, Trap::Call(Syscall::WaitInput { va, len })) == (if may_write(m, va, len) {
            Some(Ask::BlockConsole { va, len })
        } else {
            None
        }),
        first_ask(m, t, cur, v, Trap::Call(Syscall::WaitNet { va, len, timeout_ns })) == (if may_write(
            m,
            va,
            len,
        ) {
            Some(Ask::BlockNet { va, len, timeout_ns })
        } else {
            None
        }),
        step_after(Ask::BlockConsole { va, len }, Answer::Declined) == Step::Perform(
            Ask::ReadConsole { va, len },
        ),
        step_after(Ask::ReadConsole { va, len }, Answer::Value(n)) == Step::Return(n),
        step_after(Ask::BlockNet { va, len, timeout_ns }, Answer::Declined) == Step::Perform(
            Ask::ReadNet { va, len, timeout_ns },
        ),
        step_after(Ask::ReadNet { va, len, timeout_ns }, Answer::Value(n)) == Step::Return(n),
{
}

/// Nothing is made up between the outside work and the cell: a value comes back as it
/// was given, registers are continued as they were given, and a code ends the vcore as
/// that code. A return that is no such value is the 0 after a sleep.
pub proof fn law_answers_pass_unchanged(ask: Ask, answer: Answer)
    requires
        !(step_after(ask, answer) is Confused),
    ensures
        answer matches Answer::Value(n) ==> step_after(ask, answer) == Step::Return(n),
        answer matches Answer::Frame(f) ==> step_after(ask, answer) == Step::Continue(f),
        answer matches Answer::Ended(code) ==> step_after(ask, answer) == Step::Finish(
            Outcome::Exited(code),
        ),
        step_after(ask, answer) matches Step::Return(n) ==> answer == Answer::Value(n) || (ask is Sleep
            && n == 0),
        step_after(ask, answer) matches Step::Continue(f) ==> answer == Answer::Frame(f),
        step_after(ask, answer) is Resume ==> ask is LinuxFill && answer == Answer::Done(true),
        answer is Declined ==> step_after(ask, answer) is Perform || step_after(ask, answer) is Finish,
{
}

/// A vcore that exits is offered to the process service as its own end and then as the
/// end of its cell, with the same code; where neither is taken, that code is its
/// outcome. Leaving the whole cell makes the second offer at once.
pub proof fn law_exit_code_is_kept(m: &Machine, t: &CellTable, cur: int, v: int, code: u64)
    requires
        t.cells@[cur].personality != Personality::Linux,
    ensures
        first_ask(m, t, cur, v, Trap::Call(Syscall::Exit { code })) == Some(Ask::Retire { code }),
        first_ask(m, t, cur, v, Trap::Call(Syscall::ExitGroup { code })) == Some(Ask::Leave { code }),
        step_after(Ask::Retire { code }, Answer::Declined) == Step::Perform(Ask::Leave { code }),
        step_after(Ask::Leave { code }, Answer::Declined) == Step::Finish(Outcome::Exited(code)),
{
}

/// The other calls that need outside work ask for their own: a doorbell for the queue
/// of the vcore that rang, a spawn and a wait with the arguments of the call.
pub proof fn law_call_asks_for_its_own_work(
    m: &Machine,
    t: &CellTable,
    cur: int,
    v: int,
    args: SpawnArgs,
    handle: u64,
)
    requires
        t.cells@[cur].personality != Personality::Linux,
    ensures
        first_ask(m, t, cur, v, Trap::Call(Syscall::Doorbell)) == Some(
            Ask::Process { qp: t.vcores@[cur * MAX_VCORES + v].qp },
        ),
        first_ask(m, t, cur, v, Trap::Call(Syscall::Cycles)) == Some(Ask::Cycles),
        first_ask(m, t, cur, v, Trap::Call(Syscall::Spawn { args })) == Some(Ask::Spawn { args }),
        first_ask(m, t, cur, v, Trap::Call(Syscall::Wait { handle })) == Some(Ask::Wait { handle }),
        first_ask(m, t, cur, v, Trap::Call(Syscall::Yield)) == Some(Ask::Yield),
        first_ask(m, t, cur, v, Trap::Call(Syscall::Service)) == Some(Ask::Service),
{
}

/// A cell of the other personality never reaches the native calls: each of its calls
/// goes to that personality, a fault on an address is first tried as a page to fill,
/// and one that cannot be filled is delivered as a fault at the same address. A native
/// cell's fault is offered to the process service with its address.
pub proof fn law_personality_takes_its_traps(
    m: &Machine,
    t: &CellTable,
    cur: int,
    v: int,
    call: Syscall,
    cause: FaultCause,
    addr: u64,
)
    ensures
        t.cells@[cur].personality == Personality::Linux ==> {
            &&& first_ask(m, t, cur, v, Trap::Call(call)) == Some(Ask::LinuxCall)
            &&& first_ask(m, t, cur, v, Trap::Fault { cause: FaultCause::Segv, addr }) == Some(
                Ask::LinuxFill { addr },
            )
            &&& cause != FaultCause::Segv ==> first_ask(m, t, cur, v, Trap::Fault { cause, addr })
                == Some(Ask::LinuxFault { cause, addr })
        },
        t.cells@[cur].personality != Personality::Linux ==> first_ask(
            m,
            t,
            cur,
            v,
            Trap::Fault { cause, addr },
        ) == Some(Ask::NativeFault { addr }),
        step_after(Ask::LinuxFill { addr }, Answer::Done(true)) is Resume,
        step_after(Ask::LinuxFill { addr }, Answer::Done(false)) == Step::Perform(
            Ask::LinuxFault { cause: FaultCause::Segv, addr },
        ),
{
}

/// What is wired is what is handed back: once an end has been wired into a slot of a
/// cell, a connect of that cell for that slot succeeds exactly where the end has an
/// address and the reply can be written, and then gives the end's address, capability
/// and role. A refused connect gives nothing.
pub proof fn law_connect_gives_the_wired_end(
    m: &Machine,
    env: Services,
    ta: &CellTable,
    tb: &CellTable,
    tc: &CellTable,
    mema: &Memory,
    memb: &Memory,
    memc: &Memory,
    cpu: int,
    slot: u64,
    va: u64,
    cap: u32,
    end_role: u64,
    out: u64,
    action: Action,
)
    requires
        tb.wf(),
        chans_sized(m, ta),
        ta.chans@.len() == MAX_CELLS,
        0 <= cpu < MAX_CPUS,
        slot < m.channels,
        channel_wired(
            m,
            ta,
            tb,
            mema,
            memb,
            tb.cpus@[cpu].cell as int,
            slot as int,
            ChanEnd { va, cap_id: cap, role: end_role },
        ),
        settled(m, env, tb, tc, memb, memc, cpu, Syscall::Connect { out, slot }, action),
    ensures
        memc == memb,
        tc == tb,
        va != 0 && reply_ok(m, out, 32) ==> {
            &&& action matches Action::Return(ret, Reply::Channel { chan_va, cap_id, role, .. })
            &&& ret == 0
            &&& chan_va == va
            &&& cap_id == cap
            &&& role == end_role
        },
        va == 0 || !reply_ok(m, out, 32) ==> {
            &&& action matches Action::Return(ret, reply)
            &&& ret == REFUSED
            &&& reply is Nothing
        },
{
    assert(tb.cpus@[cpu].cell < MAX_CELLS);
    assert(ta.chans@[tb.cpus@[cpu].cell as int]@.len() == m.channels);
}

/// Slots do not answer for one another: two connects of a cell that both succeed give
/// the same address, capability and role only where the ends in their slots agree on
/// all three.
pub proof fn law_slots_answer_for_themselves(
    m: &Machine,
    env: Services,
    t: &CellTable,
    mem: &Memory,
    cpu: int,
    slot: u64,
    other: u64,
    out: u64,
    action: Action,
    action_other: Action,
)
    requires
        settled(m, env, t, t, mem, mem, cpu, Syscall::Connect { out, slot }, action),
        settled(m, env, t, t, mem, mem, cpu, Syscall::Connect { out, slot: other }, action_other),
    ensures
        action matches Action::Return(ret, Reply::Channel { chan_va, cap_id, role, count }) ==> {
            &&& ret == 0
            &&& slot < m.channels
            &&& chan_va == t.chans@[t.cpus@[cpu].cell as int]@[slot as int].va
            &&& cap_id == t.chans@[t.cpus@[cpu].cell as int]@[slot as int].cap_id
            &&& role == t.chans@[t.cpus@[cpu].cell as int]@[slot as int].role
            &&& action_other matches Action::Return(
                _,
                Reply::Channel { chan_va: va2, cap_id: cap2, role: role2, count: count2 },
            ) ==> {
                &&& count2 == count
                &&& (va2 == chan_va && cap2 == cap_id && role2 == role) <==> t.chans@[t.cpus@[cpu].cell as int]@[slot as int]
                    == t.chans@[t.cpus@[cpu].cell as int]@[other as int]
            }
        },
{
}

/// A vcore is told its own place and its own queue: the index is that of the vcore that
/// asked, and the queue that which its own record holds. So two vcores of a cell are
/// told different indices.
pub proof fn law_vcore_is_told_its_own(
    m: &Machine,
    env: Services,
    t: &CellTable,
    mem: &Memory,
    cpu: int,
    out: u64,
    queue: Action,
    place: Action,
)
    requires
        settled(m, env, t, t, mem, mem, cpu, Syscall::QueueInfo { out }, queue),
        settled(m, env, t, t, mem, mem, cpu, Syscall::VcoreInfo { out }, place),
    ensures
        out % 8 == 0 && may_write(m, out, 16) ==> {
            &&& place matches Action::Return(ret, Reply::Vcore { index, count })
            &&& ret == 0
            &&& index == t.cpus@[cpu].vcore
            &&& count == t.cells@[t.cpus@[cpu].cell as int].nvcores
        },
        !(out % 8 == 0 && may_write(m, out, 16)) ==> {
            &&& place matches Action::Return(ret, reply)
            &&& ret == 0xffff_ffff_ffff_fff2
            &&& reply is Nothing
        },
        ({
            let x = t.vcores@[t.cpus@[cpu].cell * MAX_VCORES + t.cpus@[cpu].vcore];
            &&& out % 8 == 0 && may_write(m, out, 16) && x.qp_va != 0 ==> {
                &&& queue matches Action::Return(ret, Reply::Queue { qp_va, cap_id })
                &&& ret == 0
                &&& qp_va == x.qp_va
                &&& cap_id == x.qp_cap
            }
            &&& !(out % 8 == 0 && may_write(m, out, 16)) || x.qp_va == 0 ==> {
                &&& queue matches Action::Return(ret, reply)
                &&& ret == u64::MAX
                &&& reply is Nothing
            }
        }),
{
}

/// Revoking through a handle retires the object that the handle is on, for every handle
/// of every cell, and leaves every other object; it takes the right to revoke.
/// (An object whose epochs are used up cannot be retired again.)
pub proof fn law_revoke_call_retires_what_it_names(
    m: &Machine,
    env: Services,
    t: &CellTable,
    mem0: &Memory,
    mem1: &Memory,
    cpu: int,
    cap: u32,
    action: Action,
    other: int,
    h: u32,
)
    requires
        t.wf(),
        mem0.wf(m),
        mem1.wf(m),
        0 <= cpu < MAX_CPUS,
        0 <= other < MAX_CELLS,
        settled(m, env, t, t, mem0, mem1, cpu, Syscall::CapRevoke { cap }, action),
    ensures
        action is Return,
        action->Return_1 is Nothing,
        ({
            let mine = resolve(mem0.cell(t.cpus@[cpu].cell as int).caps, mem0.objects@, cap);
            let was = resolve(mem0.cell(other).caps, mem0.objects@, h);
            let now = resolve(mem1.cell(other).caps, mem1.objects@, h);
            &&& action->Return_0 == 0 <==> mine is Ok && (mine->Ok_0).rights & 32 != 0
            &&& action->Return_0 != 0 ==> now == was
            &&& action->Return_0 == 0 && was is Ok && (was->Ok_0).object != (mine->Ok_0).object ==> now
                == was
            &&& action->Return_0 == 0 && was is Ok && (was->Ok_0).object == (mine->Ok_0).object
                && (was->Ok_0).epoch < u64::MAX ==> now == Err::<Capability, CapError>(CapError::Revoked)
        }),
{
    assert(t.cpus@[cpu].cell < MAX_CELLS);
    assert(mem1.cells@[other]@ == mem0.cells@[other]@);
}

/// A derived handle is on its parent's object with the rights and the budget that were
/// asked for, which the parent allows, and everything held before is held as before. It
/// takes the right to delegate. A refused derivation changes nothing.
pub proof fn law_derive_call_gives_what_was_asked(
    m: &Machine,
    env: Services,
    t: &CellTable,
    mem0: &Memory,
    mem1: &Memory,
    cpu: int,
    parent: u32,
    rights: u32,
    budget: u64,
    out: u64,
    action: Action,
    h: u32,
)
    requires
        t.wf(),
        mem0.wf(m),
        mem1.wf(m),
        0 <= cpu < MAX_CPUS,
        settled(
            m,
            env,
            t,
            t,
            mem0,
            mem1,
            cpu,
            Syscall::CapDerive { parent, rights, budget, out },
            action,
        ),
    ensures
        action is Return,
        ({
            let cur = t.cpus@[cpu].cell as int;
            let up = resolve(mem0.cell(cur).caps, mem0.objects@, parent);
            let was = resolve(mem0.cell(cur).caps, mem0.objects@, h);
            let now = resolve(mem1.cell(cur).caps, mem1.objects@, h);
            &&& was is Ok ==> now == was
            &&& action->Return_0 == 0 <==> action->Return_1 is Derived
            &&& action->Return_1 matches Reply::Derived(child) ==> {
                &&& up is Ok
                &&& (up->Ok_0).rights & rights == rights
                &&& (up->Ok_0).rights & 16 == 16
                &&& resolve(mem1.cell(cur).caps, mem1.objects@, child) == Ok::<Capability, CapError>(
                    Capability { rights, budget, ..up->Ok_0 },
                )
                &&& resolve(mem0.cell(cur).caps, mem0.objects@, child) is Err
            }
            &&& action->Return_0 != 0 ==> now == was
        }),
{
    let cur = t.cpus@[cpu].cell as int;
    assert(cur < MAX_CELLS);
    let c0 = mem0.cells@[cur]@;
    assert(c0.wf(m));
    if let Action::Return(_, Reply::Derived(child)) = action {
        let c = Capability {
            object: (held(c0.caps, parent)->0).object,
            rights,
            budget,
            epoch: (held(c0.caps, parent)->0).epoch,
        };
        law_handles_are_given_out_once(c0.caps, mem1.cell(cur).caps, c0.cap_limit, child, c, h);
        if held(c0.caps, child) is Some {
            assert(c0.caps[slot_no(child)].generation < c0.caps[slot_no(child)].next);
        }
    }
}

/// A handle that is dropped stands for nothing from then on, every other handle stands
/// for what it did, and only a good handle can be dropped.
pub proof fn law_drop_call_drops_its_handle(
    m: &Machine,
    env: Services,
    t: &CellTable,
    mem0: &Memory,
    mem1: &Memory,
    cpu: int,
    cap: u32,
    action: Action,
    h: u32,
)
    requires
        t.wf(),
        mem0.wf(m),
        mem1.wf(m),
        0 <= cpu < MAX_CPUS,
        settled(m, env, t, t, mem0, mem1, cpu, Syscall::CapDrop { cap }, action),
    ensures
        action is Return,
        ({
            let cur = t.cpus@[cpu].cell as int;
            let mine = resolve(mem0.cell(cur).caps, mem0.objects@, cap);
            let was = resolve(mem0.cell(cur).caps, mem0.objects@, h);
            let now = resolve(mem1.cell(cur).caps, mem1.objects@, h);
            &&& action->Return_0 == 0 <==> mine is Ok
            &&& mine is Ok && h == cap ==> now == Err::<Capability, CapError>(CapError::BadHandle)
            &&& was is Ok && h != cap ==> now == was
            &&& mine is Err ==> now == was
        }),
{
    let cur = t.cpus@[cpu].cell as int;
    assert(cur < MAX_CELLS);
    assert(mem0.cells@[cur]@.wf(m));
}

/// What a cell is told of a handle is what the handle stands for: its object and that
/// object's kind, its rights and its budget.
pub proof fn law_info_call_tells_what_is_held(
    m: &Machine,
    env: Services,
    t: &CellTable,
    mem0: &Memory,
    mem1: &Memory,
    cpu: int,
    cap: u32,
    out: u64,
    action: Action,
)
    requires
        settled(m, env, t, t, mem0, mem1, cpu, Syscall::CapInfo { cap, out }, action),
    ensures
        mem1 == mem0,
        action is Return,
        ({
            let mine = resolve(mem0.cell(t.cpus@[cpu].cell as int).caps, mem0.objects@, cap);
            &&& action->Return_0 == 0 <==> mine is Ok && out % 8 == 0 && may_write(m, out, 24)
            &&& action->Return_0 == 0 ==> {
                &&& action->Return_1 matches Reply::Cap(info)
                &&& info.object == (mine->Ok_0).object
                &&& info.kind == mem0.objects@[(mine->Ok_0).object as int].kind
                &&& info.rights == (mine->Ok_0).rights
                &&& info.budget == (mine->Ok_0).budget
            }
            &&& action->Return_0 != 0 ==> action->Return_1 is Nothing
        }),
{
}

/// The numbers of the refusals: a handle that stands for nothing is told 2, a missing
/// right 1, a revoked object 22, a full table 28, each negated in two's complement.
pub proof fn law_refusals_are_numbered()
    ensures
        negated(errno_of(CapError::BadHandle)) == u64::MAX - 1,
        negated(errno_of(CapError::InsufficientRights)) == u64::MAX,
        negated(errno_of(CapError::WidenAttempt)) == u64::MAX,
        negated(errno_of(CapError::NotDelegatable)) == u64::MAX,
        negated(errno_of(CapError::Revoked)) == u64::MAX - 21,
        negated(errno_of(CapError::Exhausted)) == u64::MAX - 27,
        negated(errno_of(CapError::TableFull)) == u64::MAX - 27,
        negated(errno_of(CapError::TooManyObjects)) == u64::MAX - 27,
        forall|e: u64| e != 0 ==> #[trigger] negated(e) + e == u64::MAX + 1,
        negated(0) == 0,
{
}

/// A vcore is told of the queue that was wired to it: once a queue has been set for a
/// vcore of a cell, a queue request of that vcore gives its address and its capability,
/// and one of another vcore of the cell gives what that one had.
pub proof fn law_queue_info_gives_the_wired_queue(
    m: &Machine,
    env: Services,
    ta: &CellTable,
    tb: &CellTable,
    mema: &Memory,
    memb: &Memory,
    cpu: int,
    v: int,
    va: u64,
    cap: u32,
    out: u64,
    action: Action,
)
    requires
        ta.wf(),
        tb.wf(),
        0 <= cpu < MAX_CPUS,
        0 <= v < MAX_VCORES,
        queue_wired(m, ta, tb, mema, memb, tb.cpus@[cpu].cell as int, v, va, cap),
        settled(m, env, tb, tb, memb, memb, cpu, Syscall::QueueInfo { out }, action),
        out % 8 == 0,
        may_write(m, out, 16),
        va != 0,
    ensures
        tb.cpus@[cpu].vcore == v ==> {
            &&& action matches Action::Return(ret, Reply::Queue { qp_va, cap_id })
            &&& ret == 0
            &&& qp_va == va
            &&& cap_id == cap
        },
        tb.cpus@[cpu].vcore != v ==> {
            let x = ta.vcores@[tb.cpus@[cpu].cell * 4 + tb.cpus@[cpu].vcore];
            &&& action matches Action::Return(ret, reply)
            &&& x.qp_va != 0 ==> ret == 0 && (reply matches Reply::Queue { qp_va, cap_id } && qp_va
                == x.qp_va && cap_id == x.qp_cap)
            &&& x.qp_va == 0 ==> ret == u64::MAX
        },
{
    assert(tb.cpus@[cpu].cell < MAX_CELLS);
}

/// A cell is preempted only where that was due, and goes on with what was found: a cell of
/// the other personality looks among its own contexts before other cells, a native one among
/// cells; registers that were found are run, and where none were the cell runs on with its
/// own. Either way a new slice begins.
pub proof fn law_preemption_runs_what_was_found(present: bool, personality: Personality, f: u64)
    ensures
        preempt_begun(false, present, personality) is Resume,
        preempt_begun(true, false, personality) is Resume,
        preempt_begun(true, true, Personality::Linux) is TrySibling,
        preempt_begun(true, true, Personality::Native) is TryCell,
        preempt_followed(Preempt::TrySibling, None) is TryCell,
        preempt_followed(Preempt::TrySibling, Some(f)) == (Preempt::Rearm {
            frame: Some(f),
            switched: Some(true),
        }),
        preempt_followed(Preempt::TryCell, Some(f)) == (Preempt::Rearm {
            frame: Some(f),
            switched: Some(false),
        }),
        preempt_followed(Preempt::TryCell, None) == (Preempt::Rearm { frame: None, switched: None }),
{
}

/// A switch goes to the other cell of the pair, and to its first vcore: the CPU runs that from
/// then on with its registers and its address space, what ran is saved, and no memory changes.
pub proof fn law_switch_goes_to_the_peer(
    m: &Machine,
    env: Services,
    t0: &CellTable,
    t1: &CellTable,
    mem0: &Memory,
    mem1: &Memory,
    cpu: int,
    action: Action,
)
    requires
        t0.wf(),
        0 <= cpu < MAX_CPUS,
        settled(m, env, t0, t1, mem0, mem1, cpu, Syscall::Switch, action),
    ensures
        mem1 == mem0,
        ({
            let cur = t0.cpus@[cpu].cell as int;
            let peer = if cur % 2 == 0 {
                cur + 1
            } else {
                cur - 1
            };
            &&& action matches Action::Switch(p)
            &&& p.save == 4 * cur + t0.cpus@[cpu].vcore
            &&& p.load == 4 * peer
            &&& p.frame == t0.vcores@[4 * peer].frame
            &&& p.aspace == t0.cells@[peer].aspace
            &&& t1.cpus@[cpu].cell == peer
            &&& t1.cpus@[cpu].vcore == 0
        }),
{
    assert(t0.cpus@[cpu].cell < MAX_CELLS);
}

/// A call that is settled at once is answered at once and leaves the cells as they are, but for
/// a switch. A query is told what the cell has committed, and a wait into memory that the cell
/// may not write ends with nothing read.
pub proof fn law_settled_calls_are_answered(
    m: &Machine,
    env: Services,
    t0: &CellTable,
    t1: &CellTable,
    mem0: &Memory,
    mem1: &Memory,
    cpu: int,
    call: Syscall,
    action: Action,
)
    requires
        settled(m, env, t0, t1, mem0, mem1, cpu, call, action),
        !(call is Switch),
    ensures
        action is Return,
        t1 == t0,
        call is ReserveQuery ==> action->Return_0 == mem0.cell(t0.cpus@[cpu].cell as int).admission.committed && mem1
            == mem0,
        call is WaitInput || call is WaitNet ==> action->Return_0 == 0 && mem1 == mem0,
        call is QueueInfo || call is VcoreInfo || call is Connect || call is CapInfo ==> mem1 == mem0,
{
}

/// The memory calls of a cell do what the memory functions do, for the cell that called and with
/// the arguments of the call: what is told of a mapping, a commit, a decommit, a seal, a share, a
/// grant, an unmapping, an admission and a release is told of them here too.
pub proof fn law_memory_calls_are_the_callers(
    m: &Machine,
    env: Services,
    t: &CellTable,
    mem0: &Memory,
    mem1: &Memory,
    cpu: int,
    call: Syscall,
    action: Action,
)
    requires
        settled(m, env, t, t, mem0, mem1, cpu, call, action),
        !(call is Switch),
    ensures
        ({
            let cur = t.cpus@[cpu].cell as int;
            let ret = action->Return_0;
            match call {
                Syscall::Mmap { len } => mmap_done(m, mem0, mem1, cur, len, ret),
                Syscall::Decommit { cap, offset, len } => decommit_done(
                    m,
                    mem0,
                    mem1,
                    cur,
                    cap,
                    offset,
                    len,
                    ret,
                ),
                Syscall::Seal { cap } => seal_done(m, mem0, mem1, cur, cap, ret),
                Syscall::Munmap { va, len } => munmap_outcome(m, mem0, mem1, cur, va, len, ret),
                Syscall::ReserveRelease { cap } => release_done(m, mem0, mem1, cur, cap, ret),
                Syscall::Commit { cap, offset, len } => exists|n: Option<Notice>|
                    #[trigger] commit_done(m, mem0, mem1, cur, cap, offset, len, env.nvdimm, (ret, n)),
                Syscall::GrantShare { cap, out } => exists|n: Option<ShareInfo>|
                    #[trigger] share_done(m, mem0, mem1, cur, cap, out, (ret, n)) && (n matches Some(i)
                        ==> action->Return_1 == Reply::Share(i)),
                Syscall::Grant { out, len, kind, node } => exists|n: Option<GrantInfo>|
                    #[trigger] create_done(m, mem0, mem1, cur, out, len, kind, node, (ret, n)) && (
                    n matches Some(i) ==> action->Return_1 == Reply::Grant(i)),
                Syscall::ReserveAdmit { out, budget, period, deadline, floor } => exists|
                    n: Option<ReserveInfo>,
                |
                    #[trigger] admit_done(
                        m,
                        mem0,
                        mem1,
                        cur,
                        out,
                        budget,
                        period,
                        deadline,
                        floor,
                        (ret, n),
                    ) && (n matches Some(i) ==> action->Return_1 == Reply::Reserve(i)),
                _ => true,
            }
        }),
{
    let cur = t.cpus@[cpu].cell as int;
    let ret = action->Return_0;
    let reply = action->Return_1;
    match call {
        Syscall::Commit { cap, offset, len } => {
            assert(commit_done(m, mem0, mem1, cur, cap, offset, len, env.nvdimm, (ret, report_part(reply))));
        },
        Syscall::GrantShare { cap, out } => {
            assert(share_done(m, mem0, mem1, cur, cap, out, (ret, share_part(reply))));
        },
        Syscall::Grant { out, len, kind, node } => {
            assert(create_done(m, mem0, mem1, cur, out, len, kind, node, (ret, grant_part(reply))));
        },
        Syscall::ReserveAdmit { out, budget, period, deadline, floor } => {
            assert(admit_done(
                m,
                mem0,
                mem1,
                cur,
                out,
                budget,
                period,
                deadline,
                floor,
                (ret, reserve_part(reply)),
            ));
        },
        _ => {},
    }
}

} // verus!
