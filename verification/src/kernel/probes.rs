//! Programs that a cell runs to try the kernel: one that exercises the capability
//! calls, and those that leave marks of the order in which cells ran.

use vstd::prelude::*;
use crate::kernel::capability;
use crate::kernel::capability::READ;
use crate::kernel::grants;
use crate::kernel::machine::Machine;
use crate::kernel::memory::{Memory, MAX_CELLS};
use crate::kernel::trap;
use crate::kernel::trap::{Reply, Syscall};

verus! {

/// How far the probe of the capability calls has come.
#[derive(Copy, Clone, PartialEq, Eq, Debug, Structural)]
pub struct CapProbe {
    pub step: u8,
    /// One bit for each thing that went as it should.
    pub ok: u64,
    /// The object that the first capability stands for.
    pub object: u32,
    pub kid: u32,
    pub spare: u32,
    /// The rights that the derived capability was found to have.
    pub kid_rights: u64,
}

/// A call of the probe.
#[derive(Copy, Clone, PartialEq, Eq, Debug, Structural)]
pub enum ProbeCall {
    Info(u32),
    Derive(u32, u32),
    Drop(u32),
    Revoke(u32),
    Finish,
}

/// What a call was answered.
#[derive(Copy, Clone, PartialEq, Eq, Debug, Structural)]
pub struct ProbeAnswer {
    pub ret: u64,
    /// The object, of a capability that was asked about.
    pub object: u32,
    /// The rights, of a capability that was asked about.
    pub rights: u32,
    /// The handle, of a capability that was derived.
    pub handle: u32,
}

/// What the probe looks for: read, write, delegate and revoke.
pub const PROBE_RIGHTS: u32 = 51;

/// Read and write.
pub const PROBE_WIDER: u32 = 3;

/// The call that the probe makes at each step.
pub open spec fn probe_call(p: CapProbe, parent: u32) -> ProbeCall {
    if p.step == 0 {
        ProbeCall::Info(parent)
    } else if p.step == 1 || p.step == 3 {
        ProbeCall::Derive(parent, READ)
    } else if p.step == 2 || p.step == 9 {
        ProbeCall::Info(p.kid)
    } else if p.step == 4 || p.step == 5 {
        ProbeCall::Drop(p.spare)
    } else if p.step == 6 {
        ProbeCall::Derive(p.kid, PROBE_WIDER)
    } else if p.step == 7 {
        ProbeCall::Revoke(p.kid)
    } else if p.step == 8 {
        ProbeCall::Revoke(parent)
    } else {
        ProbeCall::Finish
    }
}

/// The marks with one more set, if it was earned.
pub open spec fn earned(ok: u64, bit: u64, yes: bool) -> u64 {
    if yes {
        ok | bit
    } else {
        ok
    }
}

/// Where the probe stands after an answer.
pub open spec fn probe_next(p: CapProbe, a: ProbeAnswer) -> CapProbe {
    let good = a.ret == 0;
    if p.step == 0 {
        CapProbe {
            step: 1,
            ok: earned(p.ok, 1, good && a.rights == PROBE_RIGHTS),
            object: if good {
                a.object
            } else {
                p.object
            },
            ..p
        }
    } else if p.step == 1 {
        CapProbe {
            step: 2,
            ok: earned(p.ok, 2, good),
            kid: if good {
                a.handle
            } else {
                0
            },
            ..p
        }
    } else if p.step == 2 {
        CapProbe {
            step: 3,
            ok: earned(p.ok, 4, good && a.rights == READ && a.object == p.object),
            kid_rights: if good {
                a.rights as u64
            } else {
                p.kid_rights
            },
            ..p
        }
    } else if p.step == 3 {
        if good {
            CapProbe { step: 4, spare: a.handle, ..p }
        } else {
            CapProbe { step: 6, ..p }
        }
    } else if p.step == 4 {
        CapProbe {
            step: if good {
                5
            } else {
                6
            },
            ..p
        }
    } else if p.step == 5 {
        CapProbe { step: 6, ok: earned(p.ok, 128, !good), ..p }
    } else if p.step == 6 {
        CapProbe { step: 7, ok: earned(p.ok, 8, !good), ..p }
    } else if p.step == 7 {
        CapProbe { step: 8, ok: earned(p.ok, 16, !good), ..p }
    } else if p.step == 8 {
        CapProbe { step: 9, ok: earned(p.ok, 32, good), ..p }
    } else if p.step == 9 {
        CapProbe { step: 10, ok: earned(p.ok, 64, !good), ..p }
    } else {
        p
    }
}

impl CapProbe {
    pub open spec fn start() -> CapProbe {
        CapProbe { step: 0, ok: 0, object: 0, kid: 0, spare: 0, kid_rights: 0 }
    }

    pub fn new() -> (p: CapProbe)
        ensures
            p == CapProbe::start(),
    {
        CapProbe { step: 0, ok: 0, object: 0, kid: 0, spare: 0, kid_rights: 0 }
    }

    /// The next call.
    pub fn next_call(&self, parent: u32) -> (c: ProbeCall)
        ensures
            c == probe_call(*self, parent),
    {
        match self.step {
            0 => ProbeCall::Info(parent),
            1 => ProbeCall::Derive(parent, READ),
            2 => ProbeCall::Info(self.kid),
            3 => ProbeCall::Derive(parent, READ),
            4 => ProbeCall::Drop(self.spare),
            5 => ProbeCall::Drop(self.spare),
            6 => ProbeCall::Derive(self.kid, PROBE_WIDER),
            7 => ProbeCall::Revoke(self.kid),
            8 => ProbeCall::Revoke(parent),
            9 => ProbeCall::Info(self.kid),
            _ => ProbeCall::Finish,
        }
    }

    fn mark(&mut self, bit: u64, yes: bool)
        ensures
            *final(self) == (CapProbe { ok: earned(old(self).ok, bit, yes), ..*old(self) }),
    {
        if yes {
            self.ok = self.ok | bit;
        }
    }
}

/// Take the answer to a call of the probe.
pub fn user_cap_probe(p: &mut CapProbe, a: ProbeAnswer)
    ensures
        *final(p) == probe_next(*old(p), a),
{
    let good: bool = a.ret == 0;
    match p.step {
        0 => {
            p.mark(1, good && a.rights == PROBE_RIGHTS);
            if good {
                p.object = a.object;
            }
            p.step = 1;
        },
        1 => {
            p.mark(2, good);
            p.kid = if good { a.handle } else { 0 };
            p.step = 2;
        },
        2 => {
            p.mark(4, good && a.rights == READ && a.object == p.object);
            if good {
                p.kid_rights = a.rights as u64;
            }
            p.step = 3;
        },
        3 => {
            if good {
                p.spare = a.handle;
                p.step = 4;
            } else {
                p.step = 6;
            }
        },
        4 => {
            p.step = if good { 5 } else { 6 };
        },
        5 => {
            p.mark(128, !good);
            p.step = 6;
        },
        6 => {
            p.mark(8, !good);
            p.step = 7;
        },
        7 => {
            p.mark(16, !good);
            p.step = 8;
        },
        8 => {
            p.mark(32, good);
            p.step = 9;
        },
        9 => {
            p.mark(64, !good);
            p.step = 10;
        },
        _ => {},
    }
}

/// What a cell is told of a capability call.
pub open spec fn told(ret: u64, reply: Reply) -> ProbeAnswer {
    ProbeAnswer {
        ret,
        object: match reply {
            Reply::Cap(info) => info.object,
            _ => 0,
        },
        rights: match reply {
            Reply::Cap(info) => info.rights,
            _ => 0,
        },
        handle: match reply {
            Reply::Derived(h) => h,
            _ => 0,
        },
    }
}

/// The system call that a call of the probe makes; `out` is where answers go.
pub open spec fn as_syscall(c: ProbeCall, out: u64) -> Syscall {
    match c {
        ProbeCall::Info(cap) => Syscall::CapInfo { cap, out },
        ProbeCall::Derive(parent, rights) => Syscall::CapDerive {
            parent,
            rights,
            budget: u64::MAX,
            out,
        },
        ProbeCall::Drop(cap) => Syscall::CapDrop { cap },
        ProbeCall::Revoke(cap) => Syscall::CapRevoke { cap },
        ProbeCall::Finish => Syscall::CapDrop { cap: 0 },
    }
}

/// The probe has made its calls one after the other on the memories, from the first
/// to the last.
pub open spec fn probe_ran(
    m: &Machine,
    mems: Seq<Memory>,
    answers: Seq<(u64, Reply)>,
    probes: Seq<CapProbe>,
    cur: int,
    parent: u32,
    out: u64,
) -> bool {
    &&& probes.len() == mems.len() == answers.len() + 1
    &&& probes[0] == CapProbe::start()
    &&& forall|i: int|
        #![trigger mems[i]]
        0 <= i < answers.len() ==> trap::cap_done(
            m,
            &mems[i],
            &mems[i + 1],
            cur,
            as_syscall(probe_call(probes[i], parent), out),
            answers[i].0,
            answers[i].1,
        )
    &&& forall|i: int|
        #![trigger probes[i]]
        0 <= i < answers.len() ==> probes[i + 1] == probe_next(
            probes[i],
            told(answers[i].0, answers[i].1),
        )
}

/// A cell that holds a capability with the rights to read, write, delegate and revoke,
/// and has room for two more, finds the capability calls as they should be: what it
/// derives is narrower and of the same object, cannot be widened and cannot revoke; a
/// capability is dropped once; and revoking the parent kills the child.
pub proof fn law_cap_probe_passes(
    m: &Machine,
    mems: Seq<Memory>,
    answers: Seq<(u64, Reply)>,
    probes: Seq<CapProbe>,
    cur: int,
    parent: u32,
    out: u64,
)
    requires
        0 <= cur < MAX_CELLS,
        mems.len() == 11,
        probe_ran(m, mems, answers, probes, cur, parent, out),
        trap::word_ok(m, out),
        grants::reply_ok(m, out, 24),
        ({
            let caps = mems[0].cell(cur).caps;
            let held = capability::resolve(caps, mems[0].objects@, parent);
            &&& held is Ok
            &&& (held->Ok_0).rights == PROBE_RIGHTS
            &&& mems[0].objects@[(held->Ok_0).object as int].epoch < u64::MAX
            &&& caps.len() + 2 <= mems[0].cell(cur).cap_limit
        }),
    ensures
        probes[10].step == 10,
        probes[10].ok == 0xFF,
        probes[10].kid_rights == READ,
        probes[10].object == (capability::resolve(
            mems[0].cell(cur).caps,
            mems[0].objects@,
            parent,
        )->Ok_0).object,
{
    assert(51u32 & 16 == 16 && 51u32 & 1 == 1 && 1u32 & !63u32 == 0 && 3u32 & !63u32 == 0 && 1u32
        & 16 == 0 && 1u32 & 32 == 0 && 51u32 & 32 == 32) by (bit_vector);
    assert(0u64 | 1 == 1 && 1u64 | 2 == 3 && 3u64 | 4 == 7 && 7u64 | 128 == 135 && 135u64 | 8 == 143
        && 143u64 | 16 == 159 && 159u64 | 32 == 191 && 191u64 | 64 == 255) by (bit_vector);
    let c = capability::resolve(mems[0].cell(cur).caps, mems[0].objects@, parent)->Ok_0;
    let objs = mems[0].objects@;
    // The parent is what it should be, and stays in place.
    assert(mems[0].cell(cur) == mems[1].cell(cur));
    assert(probes[1] == probe_next(probes[0], told(answers[0].0, answers[0].1)));
    assert(probes[1].ok == 1);
    // The child is minted, and the parent is still there.
    let caps1 = mems[1].cell(cur).caps;
    assert(probes[1].step == 1);
    assert(capability::has_room(caps1, mems[1].cell(cur).cap_limit));
    assert(probes[2] == probe_next(probes[1], told(answers[1].0, answers[1].1)));
    let caps2 = mems[2].cell(cur).caps;
    let kid = probes[2].kid;
    assert(probes[2].ok == 3);
    assert(capability::held(caps2, parent) == Some(c));
    assert(capability::held(caps2, kid) is Some && (capability::held(caps2, kid)->0).rights == READ);
    assert(mems[2].objects@ == objs);
    assert(caps2.len() <= caps1.len() + 1);
    // It has the one right.
    assert(mems[3].cell(cur) == mems[2].cell(cur));
    assert(probes[3] == probe_next(probes[2], told(answers[2].0, answers[2].1)));
    assert(probes[3].ok == 7 && probes[3].kid_rights == READ && probes[3].kid == kid);
    // A spare one is minted and dropped, once.
    assert(capability::has_room(caps2, mems[3].cell(cur).cap_limit));
    assert(probes[4] == probe_next(probes[3], told(answers[3].0, answers[3].1)));
    let caps4 = mems[4].cell(cur).caps;
    let spare = probes[4].spare;
    assert(probes[4].step == 4);
    assert(spare != kid && spare != parent);
    assert(capability::held(caps4, kid) == capability::held(caps2, kid));
    assert(capability::held(caps4, parent) == Some(c));
    assert(mems[4].objects@ == objs);
    assert(probes[5] == probe_next(probes[4], told(answers[4].0, answers[4].1)));
    let caps5 = mems[5].cell(cur).caps;
    assert(probes[5].step == 5);
    assert(caps5 == capability::dropped(caps4, spare));
    assert(mems[5].objects@ == objs);
    assert(probes[6] == probe_next(probes[5], told(answers[5].0, answers[5].1)));
    let caps6 = mems[6].cell(cur).caps;
    assert(caps6 == caps5);
    assert(probes[6].ok == 135 && probes[6].step == 6 && probes[6].kid == kid);
    assert(mems[6].objects@ == objs);
    // The child can neither be widened nor revoke.
    assert(probes[7] == probe_next(probes[6], told(answers[6].0, answers[6].1)));
    assert(mems[7].cell(cur).caps == caps6);
    assert(mems[7].objects@ == objs);
    assert(probes[7].ok == 143);
    assert(probes[8] == probe_next(probes[7], told(answers[7].0, answers[7].1)));
    assert(mems[8].cells@[cur]@ == mems[7].cells@[cur]@);
    assert(mems[8].objects@ == objs);
    assert(probes[8].ok == 159);
    // The parent can, and the child is dead.
    assert(probes[9] == probe_next(probes[8], told(answers[8].0, answers[8].1)));
    assert(mems[9].cells@[cur]@ == mems[8].cells@[cur]@);
    assert(mems[9].objects@ == capability::revoked(objs, c.object));
    assert(probes[9].ok == 191);
    assert(probes[10] == probe_next(probes[9], told(answers[9].0, answers[9].1)));
}

/// Marks that the record of the order holds.
pub const ORDER_MAX: usize = 60;

/// Where the buffer after the record stands.
pub const ORDER_IO_OFF: usize = 64;

/// What a record holds after one more mark: its first byte counts the marks that
/// follow it. A full record stays as it is.
pub open spec fn with_mark(shared: Seq<u8>, c: u8) -> Seq<u8> {
    let n = shared[0];
    if n < ORDER_MAX {
        shared.update(1 + n, c).update(0, (n + 1) as u8)
    } else {
        shared
    }
}

/// Leave a mark in the record of the order.
pub fn order_append(shared: &mut Vec<u8>, c: u8)
    requires
        old(shared)@.len() > ORDER_MAX,
    ensures
        final(shared)@ == with_mark(old(shared)@, c),
{
    let n: u8 = shared[0];
    if (n as usize) < ORDER_MAX {
        shared[1 + n as usize] = c;
        shared[0] = n + 1;
    }
}

/// Marks stay where they are: a new mark follows those that were there.
pub proof fn law_marks_keep_their_order(shared: Seq<u8>, c: u8, i: int)
    requires
        shared.len() > ORDER_MAX,
        1 <= i <= shared[0] <= ORDER_MAX,
    ensures
        with_mark(shared, c)[i] == shared[i],
        shared[0] < ORDER_MAX ==> with_mark(shared, c)[0] == shared[0] + 1 && with_mark(
            shared,
            c,
        )[shared[0] + 1] == c,
{
}

/// What a program that blocks waits for.
#[derive(Copy, Clone, PartialEq, Eq, Debug, Structural)]
pub enum BlockOn {
    Timer(u64),
    /// Input, into a buffer at an address.
    Console(u64),
    /// A frame, into a buffer at an address, for so long.
    Net(u64, u64),
}

pub const BLOCK_TIMER: u64 = 0;

pub const BLOCK_CONSOLE: u64 = 1;

pub const BLOCK_NET: u64 = 2;

/// What the program that blocks waits for; every number that is not one of the others
/// is the timer's.
pub fn user_blocker(mode: u64, arg: u64, shared_va: u64) -> (b: BlockOn)
    requires
        shared_va + ORDER_IO_OFF <= u64::MAX,
    ensures
        b == (if mode == BLOCK_CONSOLE {
            BlockOn::Console((shared_va + ORDER_IO_OFF) as u64)
        } else if mode == BLOCK_NET {
            BlockOn::Net((shared_va + ORDER_IO_OFF) as u64, arg)
        } else {
            BlockOn::Timer(arg)
        }),
{
    let io: u64 = shared_va + ORDER_IO_OFF as u64;
    if mode == BLOCK_CONSOLE {
        BlockOn::Console(io)
    } else if mode == BLOCK_NET {
        BlockOn::Net(io, arg)
    } else {
        BlockOn::Timer(arg)
    }
}

/// What a program that keeps its cell busy does next.
#[derive(Copy, Clone, PartialEq, Eq, Debug, Structural)]
pub enum PeerStep {
    /// Leave a mark, count the round, and give the CPU away.
    Round(u64),
    /// The rounds are over: wait as long as was asked.
    Rest,
}

/// The next step of the program that gives the CPU away in every round.
pub fn user_peer(i: u64, rounds: u64) -> (s: PeerStep)
    ensures
        s == (if i < rounds {
            PeerStep::Round((i + 1) as u64)
        } else {
            PeerStep::Rest
        }),
{
    if i < rounds {
        PeerStep::Round(i + 1)
    } else {
        PeerStep::Rest
    }
}

/// Turns of the busy loop.
pub const SPIN_WORK: u64 = 200_000;

/// What the busy loop has computed after `k` turns.
pub open spec fn spun(start: u64, k: nat) -> u64
    decreases k,
{
    if k == 0 {
        start
    } else {
        let i = (k - 1) as u64;
        let sum = (spun(start, (k - 1) as nat) + (i ^ 0x5f)) % 0x1_0000_0000_0000_0000;
        ((sum * 3) % 0x1_0000_0000_0000_0000) as u64
    }
}

/// One round of the busy loop.
pub fn user_spinner(start: u64) -> (acc: u64)
    ensures
        acc == spun(start, SPIN_WORK as nat),
{
    let mut acc: u64 = start;
    let mut k: u64 = 0;
    while k < SPIN_WORK
        invariant
            k <= SPIN_WORK,
            acc == spun(start, k as nat),
        decreases SPIN_WORK - k,
    {
        acc = acc.wrapping_add(k ^ 0x5f).wrapping_mul(3);
        k = k + 1;
    }
    acc
}

/// What a program that measures repeats.
#[derive(Copy, Clone, PartialEq, Eq, Debug, Structural)]
pub enum Workload {
    /// Submit to its queue, ring the doorbell, reap.
    Roundtrip,
    /// Read the cycle counter by a system call.
    Syscall,
    /// Switch to the other cell and back.
    Crosscell,
    /// Nothing.
    Nothing,
}

/// What a program that measures has found.
#[derive(Copy, Clone, PartialEq, Eq, Debug, Structural)]
pub struct Measured {
    pub ticks: u64,
    pub ops: u64,
    pub status: u64,
}

/// What a program that measures reports after its rounds.
pub fn user_worker(iters: u64, start: u64, end: u64) -> (r: Measured)
    ensures
        r.ops == iters,
        r.status == 0,
        (r.ticks + start) % 0x1_0000_0000_0000_0000 == end,
{
    Measured { ticks: end.wrapping_sub(start), ops: iters, status: 0 }
}

/// How a program tries an address.
#[derive(Copy, Clone, PartialEq, Eq, Debug, Structural)]
pub enum Access {
    Read,
    Write,
    Execute,
}

pub const PROBE_READ: u64 = 0;

pub const PROBE_WRITE: u64 = 1;

pub const PROBE_EXEC: u64 = 2;

/// How the program that tries an address was told to.
pub fn user_prober(mode: u64) -> (a: Option<Access>)
    ensures
        a == (if mode == PROBE_READ {
            Some(Access::Read)
        } else if mode == PROBE_WRITE {
            Some(Access::Write)
        } else if mode == PROBE_EXEC {
            Some(Access::Execute)
        } else {
            None
        }),
{
    if mode == PROBE_READ {
        Some(Access::Read)
    } else if mode == PROBE_WRITE {
        Some(Access::Write)
    } else if mode == PROBE_EXEC {
        Some(Access::Execute)
    } else {
        None
    }
}

/// What a worker's spinning comes to depends on where it began: two that began with different
/// numbers and took as many turns end with different numbers, and one that took no turn ends
/// where it began.
pub proof fn law_spinning_keeps_the_start_apart(a: u64, b: u64, k: nat)
    requires
        a != b,
    ensures
        spun(a, 0) == a,
        spun(a, k) != spun(b, k),
    decreases k,
{
    if k > 0 {
        law_spinning_keeps_the_start_apart(a, b, (k - 1) as nat);
        let m = 0x1_0000_0000_0000_0000int;
        let x = spun(a, (k - 1) as nat);
        let y = spun(b, (k - 1) as nat);
        let i = (k - 1) as u64;
        let d = i ^ 0x5f;
        let p = (x + d) % m;
        let q = (y + d) % m;
        assert(p != q);
        if (p * 3) % m == (q * 3) % m {
            assert((p - q) * 3 == ((p * 3) / m - (q * 3) / m) * m);
        }
    }
}

} // verus!
