//! The CPUs of the machine: which are online, what each has for itself, and how the
//! others are started.

use vstd::prelude::*;
use crate::kernel::cells::MAX_CPUS;
use crate::kernel::drain;
use crate::kernel::spinlock::SpinLock;

verus! {

/// CPUs that are ever started.
pub const MAX_SMP_CPUS: usize = 8;

/// What every CPU that comes up adds to the shared value.
pub const SECONDARY_MARK: u64 = 0x5EC0;

/// The index of the CPU that the hardware gives a raw number for: a number past the
/// end is that of the boot CPU.
pub fn cpu_index(raw: usize) -> (i: usize)
    ensures
        i == drain::cpu_slot(raw),
        i < MAX_CPUS,
{
    if raw < MAX_CPUS {
        raw
    } else {
        0
    }
}

/// A value for each CPU.
pub struct PerCpu<T> {
    pub slots: [T; MAX_CPUS],
}

/// The slot that an index reads: the last for one past the end.
pub open spec fn clamped(i: usize) -> int {
    if i < MAX_CPUS {
        i as int
    } else {
        MAX_CPUS - 1
    }
}

impl<T: Copy> PerCpu<T> {
    /// The same value for every CPU.
    pub fn new(value: T) -> (p: PerCpu<T>)
        ensures
            forall|i: int| 0 <= i < MAX_CPUS ==> #[trigger] p.slots@[i] == value,
    {
        PerCpu { slots: [value; MAX_CPUS] }
    }
}

impl<T> PerCpu<T> {
    pub fn from_array(slots: [T; MAX_CPUS]) -> (p: PerCpu<T>)
        ensures
            p.slots == slots,
    {
        PerCpu { slots }
    }

    /// The value of the CPU that the hardware gives this number for.
    pub fn this(&self, raw: usize) -> (v: &T)
        ensures
            *v == self.slots@[drain::cpu_slot(raw)],
    {
        &self.slots[cpu_index(raw)]
    }

    pub fn this_mut(&mut self, raw: usize) -> (v: &mut T)
        ensures
            *v == old(self).slots@[drain::cpu_slot(raw)],
            final(self).slots@ == old(self).slots@.update(drain::cpu_slot(raw), *final(v)),
    {
        &mut self.slots[cpu_index(raw)]
    }

    /// The value of a CPU; the last stands for those past the end.
    pub fn get(&self, i: usize) -> (v: &T)
        ensures
            *v == self.slots@[clamped(i)],
    {
        if i < MAX_CPUS {
            &self.slots[i]
        } else {
            &self.slots[MAX_CPUS - 1]
        }
    }

    pub fn get_mut(&mut self, i: usize) -> (v: &mut T)
        ensures
            *v == old(self).slots@[clamped(i)],
            final(self).slots@ == old(self).slots@.update(clamped(i), *final(v)),
    {
        let at: usize = if i < MAX_CPUS { i } else { MAX_CPUS - 1 };
        &mut self.slots[at]
    }
}

/// Note that a CPU takes timer interrupts. The result says whether it is the first time,
/// so that its run queue and its timer are to be set up.
pub fn enable_preemption_here(ready: &mut PerCpu<bool>, raw: usize) -> (first: bool)
    ensures
        first == !old(ready).slots@[drain::cpu_slot(raw)],
        final(ready).slots@ == old(ready).slots@.update(drain::cpu_slot(raw), true),
{
    let me: usize = cpu_index(raw);
    let first: bool = !ready.slots[me];
    ready.slots[me] = true;
    first
}

/// What the kernel knows of a CPU.
#[derive(Copy, Clone, PartialEq, Eq, Debug, Structural)]
pub struct CpuState {
    pub hw_id: u32,
    pub online: bool,
}

impl CpuState {
    pub fn is_online(&self) -> (b: bool)
        ensures
            b == self.online,
    {
        self.online
    }

    /// The number that the hardware knows the CPU by.
    pub fn hw_id(&self) -> (n: u32)
        ensures
            n == self.hw_id,
    {
        self.hw_id
    }
}

/// The CPUs of the machine.
pub struct Cpus {
    pub states: Vec<CpuState>,
    /// Whether a CPU besides the first has ever come up.
    pub multicore: bool,
    /// A value that every CPU that comes up has added to.
    pub shared: SpinLock<u64>,
    /// CPUs besides the first that have come up.
    pub secondary_up: usize,
    /// The index that the next CPU takes.
    pub next_index: usize,
}

/// How many of the first `n` CPUs are online.
pub open spec fn online_among(states: Seq<CpuState>, n: int) -> nat
    decreases n,
{
    if n <= 0 {
        0
    } else {
        online_among(states, n - 1) + (if states[n - 1].online {
            1nat
        } else {
            0
        })
    }
}

/// Whether the CPU that the hardware knows by `hw` is online.
pub open spec fn hw_is_online(states: Seq<CpuState>, hw: u32) -> bool {
    exists|i: int| 0 <= i < states.len() && (#[trigger] states[i]).online && states[i].hw_id == hw
}

impl Cpus {
    pub open spec fn wf(&self) -> bool {
        &&& self.states@.len() == MAX_CPUS
        &&& 1 <= self.next_index
    }

    /// A machine with no CPU online.
    pub fn new() -> (c: Cpus)
        ensures
            c.wf(),
            forall|i: int|
                0 <= i < MAX_CPUS ==> #[trigger] c.states@[i] == (CpuState {
                    hw_id: 0,
                    online: false,
                }),
            !c.multicore,
            c.shared == (SpinLock { holder: None, id: 0, data: 0u64 }),
            c.secondary_up == 0,
            c.next_index == 1,
    {
        Cpus {
            states: vec![CpuState { hw_id: 0, online: false }; MAX_CPUS],
            multicore: false,
            shared: SpinLock::new(0),
            secondary_up: 0,
            next_index: 1,
        }
    }
}

pub fn cpu(c: &Cpus, i: usize) -> (s: &CpuState)
    requires
        c.wf(),
        i < MAX_CPUS,
    ensures
        *s == c.states@[i as int],
{
    &c.states[i]
}

/// The CPU that the hardware gives this number for.
pub fn this_cpu(c: &Cpus, raw: usize) -> (s: &CpuState)
    requires
        c.wf(),
    ensures
        *s == c.states@[drain::cpu_slot(raw)],
{
    &c.states[cpu_index(raw)]
}

/// The machine after CPU `i` has come online.
pub open spec fn came_online(before: &Cpus, after: &Cpus, i: int, hw_id: u32) -> bool {
    &&& after.states@ == before.states@.update(i, CpuState { hw_id, online: true })
    &&& after.multicore == (before.multicore || i != 0)
}

/// Note that a CPU is online.
pub fn set_online(c: &mut Cpus, i: usize, hw_id: u32)
    requires
        old(c).wf(),
        i < MAX_CPUS,
    ensures
        final(c).wf(),
        came_online(old(c), final(c), i as int, hw_id),
        *final(c) == (Cpus {
            states: final(c).states,
            multicore: final(c).multicore,
            ..*old(c)
        }),
{
    c.states[i] = CpuState { hw_id, online: true };
    if i != 0 {
        c.multicore = true;
    }
}

/// Whether a CPU besides the first has ever come up.
pub fn multicore(c: &Cpus) -> (b: bool)
    ensures
        b == c.multicore,
{
    c.multicore
}

/// How many CPUs are online.
pub fn online_count(c: &Cpus) -> (n: usize)
    requires
        c.wf(),
    ensures
        n == online_among(c.states@, MAX_CPUS as int),
        n <= MAX_CPUS,
{
    let mut n: usize = 0;
    let mut i: usize = 0;
    while i < MAX_CPUS
        invariant
            c.wf(),
            i <= MAX_CPUS,
            n <= i,
            n == online_among(c.states@, i as int),
        decreases MAX_CPUS - i,
    {
        if c.states[i].is_online() {
            n = n + 1;
        }
        i = i + 1;
    }
    n
}

fn hw_online(c: &Cpus, hw: u32) -> (b: bool)
    requires
        c.wf(),
    ensures
        b == hw_is_online(c.states@, hw),
{
    let mut i: usize = 0;
    while i < MAX_CPUS
        invariant
            c.wf(),
            i <= MAX_CPUS,
            forall|j: int|
                0 <= j < i ==> !((#[trigger] c.states@[j]).online && c.states@[j].hw_id == hw),
        decreases MAX_CPUS - i,
    {
        let s: CpuState = c.states[i];
        if s.is_online() && s.hw_id() == hw {
            return true;
        }
        i = i + 1;
    }
    false
}

/// The number that the hardware knows a CPU by; for one past the end, one that
/// no CPU has.
pub fn cpu_hw_id_of(c: &Cpus, cpu: usize) -> (n: u32)
    requires
        c.wf(),
    ensures
        n == (if cpu >= MAX_CPUS {
            u32::MAX
        } else {
            c.states@[cpu as int].hw_id
        }),
{
    if cpu >= MAX_CPUS {
        return u32::MAX;
    }
    c.states[cpu].hw_id()
}

/// The value that every CPU that came up has added to.
pub fn shared_value(c: &Cpus) -> (v: u64)
    ensures
        v == c.shared.data,
{
    c.shared.data
}

pub fn secondaries_up(c: &Cpus) -> (n: usize)
    ensures
        n == c.secondary_up,
{
    c.secondary_up
}

/// The boot CPU comes online first.
pub fn init(c: &mut Cpus, boot_hw_id: u32)
    requires
        old(c).wf(),
    ensures
        final(c).wf(),
        came_online(old(c), final(c), 0, boot_hw_id),
        *final(c) == (Cpus {
            states: final(c).states,
            multicore: final(c).multicore,
            ..*old(c)
        }),
{
    set_online(c, 0, boot_hw_id);
}

/// Another CPU comes online: it takes the next index, adds its mark to the shared
/// value, and is counted.
pub fn secondary_run(c: &mut Cpus, hw_id: u32) -> (idx: usize)
    requires
        old(c).wf(),
        old(c).next_index < MAX_CPUS,
        old(c).shared.data + SECONDARY_MARK <= u64::MAX,
        old(c).secondary_up < usize::MAX,
    ensures
        final(c).wf(),
        idx == old(c).next_index,
        came_online(old(c), final(c), idx as int, hw_id),
        final(c).multicore,
        final(c).next_index == old(c).next_index + 1,
        final(c).shared.data == old(c).shared.data + SECONDARY_MARK,
        final(c).shared.holder == old(c).shared.holder,
        final(c).shared.id == old(c).shared.id,
        final(c).secondary_up == old(c).secondary_up + 1,
{
    let idx: usize = c.next_index;
    c.next_index = idx + 1;
    set_online(c, idx, hw_id);
    c.shared.data = c.shared.data + SECONDARY_MARK;
    c.secondary_up = c.secondary_up + 1;
    idx
}

/// Every CPU that comes up is one more that is online, if its index was not yet.
pub proof fn law_coming_up_counts(before: &Cpus, after: &Cpus, i: int, hw_id: u32)
    requires
        before.wf(),
        0 <= i < MAX_CPUS,
        !before.states@[i].online,
        came_online(before, after, i, hw_id),
    ensures
        online_among(after.states@, MAX_CPUS as int) == online_among(
            before.states@,
            MAX_CPUS as int,
        ) + 1,
        hw_is_online(after.states@, hw_id),
{
    lemma_one_more(before.states@, after.states@, i, MAX_CPUS as int);
    assert(after.states@[i].online);
}

proof fn lemma_one_more(before: Seq<CpuState>, after: Seq<CpuState>, i: int, n: int)
    requires
        0 <= i < before.len(),
        0 <= n <= before.len(),
        !before[i].online,
        after == before.update(i, after[i]),
        after[i].online,
    ensures
        online_among(after, n) == online_among(before, n) + (if i < n {
            1nat
        } else {
            0
        }),
    decreases n,
{
    if n > 0 {
        lemma_one_more(before, after, i, n - 1);
    }
}

/// Why no CPU came up.
#[derive(Copy, Clone, PartialEq, Eq, Debug)]
pub enum StartError {
    NoSecondary,
    /// The hardware refused, for this reason.
    Blocked(&'static str),
    /// It was told to start, and did not come up in time.
    Timeout,
}

/// The first CPU in the inventory besides the boot CPU, or else the number after it.
pub open spec fn target_among(cpus: Seq<u32>, boot: u32, i: int) -> int
    decreases cpus.len() - i,
{
    if i < 0 || i >= cpus.len() {
        boot + 1
    } else if cpus[i] != boot {
        cpus[i] as int
    } else {
        target_among(cpus, boot, i + 1)
    }
}

/// Which CPU to bring up first.
pub fn bring_up_target(cpus: &Vec<u32>, boot: u32) -> (hw: u32)
    requires
        boot < u32::MAX,
    ensures
        hw == target_among(cpus@, boot, 0),
{
    let mut i: usize = 0;
    while i < cpus.len()
        invariant
            i <= cpus@.len(),
            target_among(cpus@, boot, 0) == target_among(cpus@, boot, i as int),
        decreases cpus@.len() - i,
    {
        if cpus[i] != boot {
            return cpus[i];
        }
        i = i + 1;
    }
    boot + 1
}

/// What the hardware answered to the request to start a CPU.
#[derive(Copy, Clone, PartialEq, Eq, Debug)]
pub enum StartAnswer {
    /// It refused, for this reason.
    Refused(&'static str),
    /// It accepted, and the wait for the CPU is over.
    Accepted,
}

/// Which CPUs were online at some time, and how many had come up.
pub struct Sighting {
    pub online: Vec<bool>,
    pub up: usize,
}

impl Sighting {
    /// Note which CPUs are online now.
    pub fn of(c: &Cpus) -> (s: Sighting)
        requires
            c.wf(),
        ensures
            s.online@ == c.states@.map_values(|p: CpuState| p.online),
            s.up == c.secondary_up,
    {
        let mut online: Vec<bool> = Vec::new();
        while online.len() < c.states.len()
            invariant
                online@.len() <= c.states@.len(),
                online@ == c.states@.map_values(|p: CpuState| p.online).take(online@.len() as int),
            decreases c.states@.len() - online@.len(),
        {
            let i: usize = online.len();
            online.push(c.states[i].online);
            assert(online@ =~= c.states@.map_values(|p: CpuState| p.online).take(
                online@.len() as int,
            ));
        }
        assert(online@ =~= c.states@.map_values(|p: CpuState| p.online));
        Sighting { online, up: c.secondary_up }
    }
}

/// Whether a CPU came up since a sighting.
pub open spec fn is_new(was: Seq<bool>, states: Seq<CpuState>, i: int) -> bool {
    states[i].online && !was[i]
}

/// The first CPU from `i` on that came up since a sighting.
pub open spec fn first_new(was: Seq<bool>, states: Seq<CpuState>, i: int) -> Option<int>
    decreases states.len() - i,
{
    if i < 0 || i >= states.len() {
        None
    } else if is_new(was, states, i) {
        Some(i)
    } else {
        first_new(was, states, i + 1)
    }
}

/// What [`first_new`] finds came up, and where it finds nothing nobody did.
proof fn lemma_first_new(was: Seq<bool>, states: Seq<CpuState>, i: int)
    requires
        0 <= i,
    ensures
        first_new(was, states, i) matches Some(j) ==> i <= j < states.len() && is_new(was, states, j),
        first_new(was, states, i) is None ==> forall|j: int|
            i <= j < states.len() ==> !(#[trigger] states[j]).online || was[j],
    decreases states.len() - i,
{
    if i < states.len() && !is_new(was, states, i) {
        lemma_first_new(was, states, i + 1);
    }
}

/// What came of the attempt to bring up one CPU, from the hardware's answer and from
/// what was seen before it: the index of the CPU that came up. Where the hardware
/// accepted and none besides the boot CPU did, the attempt timed out.
pub fn bring_up_one(c: &Cpus, was: &Sighting, answer: StartAnswer) -> (r: Result<
    usize,
    StartError,
>)
    requires
        c.wf(),
        was.online@.len() == MAX_CPUS,
    ensures
        match answer {
            StartAnswer::Refused(why) => r == Err::<usize, StartError>(StartError::Blocked(why)),
            StartAnswer::Accepted => if c.secondary_up > was.up && first_new(
                was.online@,
                c.states@,
                1,
            ) is Some {
                r is Ok && r->Ok_0 == first_new(was.online@, c.states@, 1)->0
            } else {
                r == Err::<usize, StartError>(StartError::Timeout)
            },
        },
        r matches Ok(i) ==> 1 <= i < MAX_CPUS && c.states@[i as int].online
            && !was.online@[i as int],
{
    match answer {
        StartAnswer::Refused(why) => Err(StartError::Blocked(why)),
        StartAnswer::Accepted => {
            if c.secondary_up <= was.up {
                return Err(StartError::Timeout);
            }
            let mut i: usize = 1;
            while i < MAX_CPUS
                invariant
                    c.wf(),
                    was.online@.len() == MAX_CPUS,
                    1 <= i <= MAX_CPUS,
                    answer == StartAnswer::Accepted,
                    c.secondary_up > was.up,
                    first_new(was.online@, c.states@, 1) == first_new(
                        was.online@,
                        c.states@,
                        i as int,
                    ),
                decreases MAX_CPUS - i,
            {
                if c.states[i].is_online() && !was.online[i] {
                    return Ok(i);
                }
                i = i + 1;
            }
            Err(StartError::Timeout)
        },
    }
}

/// Where CPUs that were up stay up and none came up, as many are online as there were.
pub proof fn law_timeout_brings_up_none(before: &Cpus, after: &Cpus)
    requires
        before.wf(),
        after.wf(),
        before.states@[0].online == after.states@[0].online,
        forall|i: int|
            0 <= i < MAX_CPUS && (#[trigger] before.states@[i]).online ==> after.states@[i].online,
        first_new(before.states@.map_values(|p: CpuState| p.online), after.states@, 1) is None,
    ensures
        online_among(after.states@, MAX_CPUS as int) == online_among(
            before.states@,
            MAX_CPUS as int,
        ),
{
    let was = before.states@.map_values(|p: CpuState| p.online);
    lemma_first_new(was, after.states@, 1);
    assert forall|i: int| 0 <= i < MAX_CPUS implies (#[trigger] after.states@[i]).online
        == before.states@[i].online by {
        if i > 0 {
            assert(was[i] == before.states@[i].online);
        }
    }
    lemma_same_online(before.states@, after.states@, MAX_CPUS as int);
}

proof fn lemma_same_online(before: Seq<CpuState>, after: Seq<CpuState>, n: int)
    requires
        0 <= n <= before.len(),
        before.len() == after.len(),
        forall|i: int| 0 <= i < n ==> (#[trigger] after[i]).online == before[i].online,
    ensures
        online_among(after, n) == online_among(before, n),
    decreases n,
{
    if n > 0 {
        lemma_same_online(before, after, n - 1);
    }
}

/// When one CPU came up since a sighting, the attempt gives that CPU, whichever others
/// were up before.
pub proof fn law_the_new_cpu_is_given(before: &Cpus, after: &Cpus, i: int, hw_id: u32)
    requires
        before.wf(),
        1 <= i < MAX_CPUS,
        !before.states@[i].online,
        came_online(before, after, i, hw_id),
    ensures
        first_new(before.states@.map_values(|p: CpuState| p.online), after.states@, 1) == Some(i),
{
    let was = before.states@.map_values(|p: CpuState| p.online);
    lemma_first_new(was, after.states@, 1);
    assert(is_new(was, after.states@, i));
    assert(after.states@[i].online);
}

/// How far the start of all CPUs has come.
#[derive(Copy, Clone, PartialEq, Eq, Debug, Structural)]
pub struct StartPlan {
    /// The next CPU of the inventory.
    pub next: usize,
    /// The next distance from the boot CPU, where the inventory holds no other.
    pub probe: u32,
    /// CPUs that came up.
    pub started: usize,
}

/// Whether a CPU may be started: it is not the boot CPU, not online, and there is
/// room for one more.
pub open spec fn may_start(c: &Cpus, boot: u32, hw: u32) -> bool {
    &&& hw != boot
    &&& !hw_is_online(c.states@, hw)
    &&& online_among(c.states@, MAX_CPUS as int) < MAX_SMP_CPUS
}

/// The number at a distance from the boot CPU's.
pub open spec fn probed(boot: u32, k: int) -> u32 {
    ((boot + k) % 0x1_0000_0000) as u32
}

/// The first CPU of the inventory, from `i` on, that may be started.
pub open spec fn next_listed(c: &Cpus, cpus: Seq<u32>, boot: u32, i: int) -> int
    decreases cpus.len() - i,
{
    if i < 0 || i >= cpus.len() {
        cpus.len() as int
    } else if may_start(c, boot, cpus[i]) {
        i
    } else {
        next_listed(c, cpus, boot, i + 1)
    }
}

/// The first distance, from `k` on, whose CPU is not online.
pub open spec fn next_probe(c: &Cpus, boot: u32, k: int) -> int
    decreases MAX_SMP_CPUS - k,
{
    if k < 0 || k >= MAX_SMP_CPUS {
        MAX_SMP_CPUS as int
    } else if !hw_is_online(c.states@, probed(boot, k)) {
        k
    } else {
        next_probe(c, boot, k + 1)
    }
}

impl StartPlan {
    pub fn new() -> (p: StartPlan)
        ensures
            p == (StartPlan { next: 0, probe: 1, started: 0 }),
    {
        StartPlan { next: 0, probe: 1, started: 0 }
    }
}

/// The CPU to start next: every CPU of the inventory that may be started, and then,
/// where the inventory holds at most one, the numbers after the boot CPU's until one
/// of them may not.
pub fn start_all(c: &Cpus, p: &mut StartPlan, cpus: &Vec<u32>, boot: u32) -> (hw: Option<u32>)
    requires
        c.wf(),
        old(p).next <= cpus@.len(),
        1 <= old(p).probe <= MAX_SMP_CPUS,
    ensures
        final(p).next <= cpus@.len(),
        1 <= final(p).probe <= MAX_SMP_CPUS,
        final(p).started == old(p).started,
        ({
            let i = next_listed(c, cpus@, boot, old(p).next as int);
            let k = next_probe(c, boot, old(p).probe as int);
            if i < cpus@.len() {
                &&& hw == Some(cpus@[i])
                &&& may_start(c, boot, cpus@[i])
                &&& final(p).next == i + 1
                &&& final(p).probe == old(p).probe
            } else if cpus@.len() <= 1 && k < MAX_SMP_CPUS && may_start(c, boot, probed(boot, k)) {
                &&& hw == Some(probed(boot, k))
                &&& final(p).next == cpus@.len()
                &&& final(p).probe == k + 1
            } else {
                &&& hw is None
                &&& final(p).next == cpus@.len()
            }
        }),
{
    while p.next < cpus.len()
        invariant
            c.wf(),
            p.next <= cpus@.len(),
            1 <= old(p).probe <= MAX_SMP_CPUS,
            p.probe == old(p).probe,
            p.started == old(p).started,
            next_listed(c, cpus@, boot, old(p).next as int) == next_listed(
                c,
                cpus@,
                boot,
                p.next as int,
            ),
        decreases cpus@.len() - p.next,
    {
        let hw: u32 = cpus[p.next];
        let may: bool = hw != boot && !hw_online(c, hw) && online_count(c) < MAX_SMP_CPUS;
        p.next = p.next + 1;
        if may {
            return Some(hw);
        }
    }
    if cpus.len() > 1 {
        return None;
    }
    let mut k: u32 = p.probe;
    while k < 8
        invariant
            c.wf(),
            1 <= k <= MAX_SMP_CPUS,
            next_probe(c, boot, old(p).probe as int) == next_probe(c, boot, k as int),
            p.next == cpus@.len(),
            p.probe == old(p).probe,
            p.started == old(p).started,
            next_listed(c, cpus@, boot, old(p).next as int) == cpus@.len(),
            cpus@.len() <= 1,
            1 <= old(p).probe <= MAX_SMP_CPUS,
        decreases 8 - k,
    {
        let hw: u32 = boot.wrapping_add(k);
        assert(hw == probed(boot, k as int));
        if !hw_online(c, hw) {
            if hw != boot && online_count(c) < MAX_SMP_CPUS {
                p.probe = k + 1;
                return Some(hw);
            }
            return None;
        }
        k = k + 1;
    }
    None
}

/// Note whether the CPU came up. One that did not ends the search among the numbers
/// after the boot CPU's.
pub fn start_result(p: &mut StartPlan, listed: usize, up: bool)
    requires
        old(p).started < usize::MAX,
    ensures
        final(p).next == old(p).next,
        final(p).started == old(p).started + (if up {
            1int
        } else {
            0
        }),
        final(p).probe == (if !up && old(p).next == listed && old(p).probe > 1 {
            MAX_SMP_CPUS as u32
        } else {
            old(p).probe
        }),
{
    if up {
        p.started = p.started + 1;
    } else if p.next == listed && p.probe > 1 {
        p.probe = 8;
    }
}

/// The memory node that a CPU is near to, as the firmware lists it. On a machine with
/// one node there is none to prefer.
pub fn this_node(nodes_known: usize, listed: Option<u8>) -> (node: Option<u8>)
    ensures
        node == (if nodes_known < 2 {
            None
        } else {
            listed
        }),
{
    if nodes_known < 2 {
        return None;
    }
    listed
}

/// The CPU that is started is never the one that runs: it is the first on the list that is
/// another, and the next number where there is none.
pub proof fn law_target_is_another_cpu(cpus: Seq<u32>, boot: u32, i: int)
    requires
        0 <= i <= cpus.len(),
    ensures
        target_among(cpus, boot, i) != boot,
        (forall|j: int| i <= j < cpus.len() ==> #[trigger] cpus[j] == boot) ==> target_among(cpus, boot, i)
            == boot + 1,
        forall|k: int|
            i <= k < cpus.len() && #[trigger] cpus[k] != boot && (forall|j: int|
                i <= j < k ==> #[trigger] cpus[j] == boot) ==> target_among(cpus, boot, i) == cpus[k],
    decreases cpus.len() - i,
{
    if i < cpus.len() && cpus[i] == boot {
        law_target_is_another_cpu(cpus, boot, i + 1);
        assert forall|k: int|
            i <= k < cpus.len() && #[trigger] cpus[k] != boot && (forall|j: int|
                i <= j < k ==> #[trigger] cpus[j] == boot) implies target_among(cpus, boot, i) == cpus[k] by {
            assert(k > i);
        }
    }
}

/// A CPU may be started that is not the one that runs, is not up already, and for which
/// there is room; the next one on the list is the first such.
pub proof fn law_next_listed_may_start(c: &Cpus, cpus: Seq<u32>, boot: u32, i: int)
    requires
        0 <= i <= cpus.len(),
    ensures
        i <= next_listed(c, cpus, boot, i) <= cpus.len(),
        next_listed(c, cpus, boot, i) < cpus.len() ==> {
            let hw = cpus[next_listed(c, cpus, boot, i)];
            &&& hw != boot
            &&& forall|k: int|
                0 <= k < c.states@.len() && (#[trigger] c.states@[k]).online ==> c.states@[k].hw_id != hw
            &&& online_among(c.states@, MAX_CPUS as int) < MAX_SMP_CPUS
        },
        forall|j: int| i <= j < next_listed(c, cpus, boot, i) ==> !may_start(c, boot, #[trigger] cpus[j]),
    decreases cpus.len() - i,
{
    if i < cpus.len() && !may_start(c, boot, cpus[i]) {
        law_next_listed_may_start(c, cpus, boot, i + 1);
    }
}

/// Without a list the numbers after that of the CPU that runs are tried, in order, and
/// none that is up already.
pub proof fn law_probing_goes_on_from_the_boot_cpu(c: &Cpus, boot: u32, k: int)
    requires
        0 <= k <= MAX_SMP_CPUS,
    ensures
        boot + k <= u32::MAX ==> probed(boot, k) == boot + k,
        k <= next_probe(c, boot, k) <= MAX_SMP_CPUS,
        next_probe(c, boot, k) < MAX_SMP_CPUS ==> !hw_is_online(c.states@, probed(boot, next_probe(c, boot, k))),
        forall|j: int|
            k <= j < next_probe(c, boot, k) ==> hw_is_online(c.states@, #[trigger] probed(boot, j)),
    decreases MAX_SMP_CPUS - k,
{
    if k < MAX_SMP_CPUS && hw_is_online(c.states@, probed(boot, k)) {
        law_probing_goes_on_from_the_boot_cpu(c, boot, k + 1);
    }
}

/// The count of CPUs that are up counts those marked so: none exactly where none is.
pub proof fn law_online_cpus_are_counted(states: Seq<CpuState>, n: int)
    requires
        0 <= n,
    ensures
        online_among(states, n) <= n,
        online_among(states, n) == 0 <==> forall|i: int| 0 <= i < n ==> !(#[trigger] states[i]).online,
        online_among(states, n) == n <==> forall|i: int| 0 <= i < n ==> (#[trigger] states[i]).online,
    decreases n,
{
    if n > 0 {
        law_online_cpus_are_counted(states, n - 1);
        assert(states[n - 1] == states[n - 1]);
    }
}

/// A number of a CPU that there is no slot for stands for the last slot, and any other for its
/// own.
pub proof fn law_cpus_have_slots(i: usize)
    ensures
        i < 64 ==> clamped(i) == i,
        i >= 64 ==> clamped(i) == 63,
{
}

} // verus!
