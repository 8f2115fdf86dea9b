//! Structured tracing: what happened to which resource, and who caused it. Every CPU
//! has a ring of its own.

use vstd::prelude::*;
use crate::kernel::drain;
use crate::kernel::cells::MAX_CPUS;
use crate::kernel::smp;

verus! {

/// The part of the kernel that an event comes from.
#[derive(Copy, Clone, PartialEq, Eq, Debug, Structural)]
pub enum Subsys {
    /// Frames of the kernel's own tables.
    Kmeta,
    /// The frame allocator.
    Frames,
    /// What runs: created, claimed, parked, gone.
    Entity,
    /// Cells: installed, forked, freed.
    Cell,
    /// Decisions of the scheduler.
    Sched,
    /// The Linux personality.
    Linux,
}

/// What happened.
#[derive(Copy, Clone, PartialEq, Eq, Debug, Structural)]
pub enum Kind {
    /// A resource was taken.
    Acquire,
    /// A resource was given back.
    Release,
    /// A charge moved between owners.
    Transfer,
    /// A request was refused.
    Refuse,
    /// Something changed, with no resource attached.
    Note,
}

impl Subsys {
    /// Every part, in the order of its number.
    pub fn all() -> (v: [Subsys; 6])
        ensures
            forall|i: int| 0 <= i < 6 ==> (#[trigger] v@[i]).number() == i,
    {
        [
            Subsys::Kmeta,
            Subsys::Frames,
            Subsys::Entity,
            Subsys::Cell,
            Subsys::Sched,
            Subsys::Linux,
        ]
    }

    /// The number that a part goes by in a line.
    pub open spec fn number(self) -> int {
        match self {
            Subsys::Kmeta => 0,
            Subsys::Frames => 1,
            Subsys::Entity => 2,
            Subsys::Cell => 3,
            Subsys::Sched => 4,
            Subsys::Linux => 5,
        }
    }

    /// The number that a part goes by in a line.
    pub fn to_u8(self) -> (n: u8)
        ensures
            n == self.number(),
    {
        match self {
            Subsys::Kmeta => 0,
            Subsys::Frames => 1,
            Subsys::Entity => 2,
            Subsys::Cell => 3,
            Subsys::Sched => 4,
            Subsys::Linux => 5,
        }
    }

    pub fn name(self) -> (s: &'static str)
        ensures
            s@ == (match self {
                Subsys::Kmeta => "kmeta"@,
                Subsys::Frames => "frames"@,
                Subsys::Entity => "entity"@,
                Subsys::Cell => "cell"@,
                Subsys::Sched => "sched"@,
                Subsys::Linux => "linux"@,
            }),
    {
        match self {
            Subsys::Kmeta => "kmeta",
            Subsys::Frames => "frames",
            Subsys::Entity => "entity",
            Subsys::Cell => "cell",
            Subsys::Sched => "sched",
            Subsys::Linux => "linux",
        }
    }
}

impl Kind {
    /// The number that an event of this kind goes by in a line.
    pub open spec fn number(self) -> int {
        match self {
            Kind::Acquire => 0,
            Kind::Release => 1,
            Kind::Transfer => 2,
            Kind::Refuse => 3,
            Kind::Note => 4,
        }
    }

    /// The number that an event of this kind goes by in a line.
    pub fn to_u8(self) -> (n: u8)
        ensures
            n == self.number(),
    {
        match self {
            Kind::Acquire => 0,
            Kind::Release => 1,
            Kind::Transfer => 2,
            Kind::Refuse => 3,
            Kind::Note => 4,
        }
    }
}

/// No two parts go by one number, and no two kinds of event.
pub proof fn law_numbers_are_apart(a: Subsys, b: Subsys, c: Kind, d: Kind)
    ensures
        a.number() == b.number() <==> a == b,
        c.number() == d.number() <==> c == d,
{
}

/// One event.
#[derive(Copy, Clone, PartialEq, Eq, Debug, Structural)]
pub struct TraceEvent {
    pub subsys: Subsys,
    pub kind: Kind,
    pub owner: u16,
    pub a: u64,
    pub b: u64,
}

/// The events of one CPU: the newest, from the oldest on.
pub struct TraceRing {
    pub events: Vec<TraceEvent>,
    /// Events that were ever written, and those that newer ones have displaced.
    pub written: u64,
    pub overwritten: u64,
}

/// The rings of all CPUs, each of at most `capacity` events. Without rings nothing
/// is recorded.
pub struct Trace {
    pub rings: Vec<TraceRing>,
    pub capacity: usize,
}

/// The sum, or the greatest number where it would be greater.
pub open spec fn capped_sum(a: u64, b: int) -> u64 {
    if a + b > u64::MAX {
        u64::MAX
    } else {
        (a + b) as u64
    }
}

/// What a ring holds after one more event.
pub open spec fn with_event(events: Seq<TraceEvent>, capacity: nat, e: TraceEvent) -> Seq<TraceEvent> {
    if events.len() >= capacity {
        events.skip(1).push(e)
    } else {
        events.push(e)
    }
}

impl Trace {
    pub open spec fn wf(&self) -> bool {
        &&& self.capacity >= 1
        &&& self.rings@.len() == 0 || self.rings@.len() == MAX_CPUS
        &&& forall|i: int|
            0 <= i < self.rings@.len() ==> (#[trigger] self.rings@[i]).events@.len()
                <= self.capacity
    }

    pub fn new(capacity: usize) -> (t: Trace)
        requires
            capacity >= 1,
        ensures
            t.wf(),
            t.rings@.len() == 0,
            t.capacity == capacity,
    {
        Trace { rings: Vec::new(), capacity }
    }
}

/// Start to record, if the rings have been paid for. A refusal leaves tracing off.
pub fn enable(t: &mut Trace, funded: bool) -> (on: bool)
    requires
        old(t).wf(),
    ensures
        final(t).wf(),
        final(t).capacity == old(t).capacity,
        on == (funded || old(t).rings@.len() > 0),
        on == (final(t).rings@.len() > 0),
        old(t).rings@.len() > 0 ==> *final(t) == *old(t),
        old(t).rings@.len() == 0 ==> forall|i: int|
            0 <= i < final(t).rings@.len() ==> (#[trigger] final(t).rings@[i]).events@.len() == 0
                && final(t).rings@[i].written == 0 && final(t).rings@[i].overwritten == 0,
{
    if t.rings.len() > 0 {
        return true;
    }
    if !funded {
        return false;
    }
    let mut rings: Vec<TraceRing> = Vec::new();
    while rings.len() < MAX_CPUS
        invariant
            rings@.len() <= MAX_CPUS,
            forall|i: int|
                0 <= i < rings@.len() ==> (#[trigger] rings@[i]).events@.len() == 0
                    && rings@[i].written == 0 && rings@[i].overwritten == 0,
        decreases MAX_CPUS - rings@.len(),
    {
        rings.push(TraceRing { events: Vec::new(), written: 0, overwritten: 0 });
    }
    t.rings = rings;
    true
}

/// Stop recording and forget what was recorded.
pub fn reset(t: &mut Trace)
    requires
        old(t).wf(),
    ensures
        final(t).wf(),
        final(t).rings@.len() == 0,
        final(t).capacity == old(t).capacity,
{
    t.rings = Vec::new();
}

/// Whether anything is recorded.
pub fn enabled(t: &Trace) -> (on: bool)
    ensures
        on == (t.rings@.len() > 0),
{
    t.rings.len() > 0
}

/// Record an event in the ring of the CPU that it happened on. The oldest event
/// makes room; where nothing is recorded, nothing happens.
pub fn emit(t: &mut Trace, raw_cpu: usize, subsys: Subsys, kind: Kind, owner: u16, a: u64, b: u64)
    requires
        old(t).wf(),
    ensures
        final(t).wf(),
        final(t).capacity == old(t).capacity,
        final(t).rings@.len() == old(t).rings@.len(),
        old(t).rings@.len() > 0 ==> {
            let me = drain::cpu_slot(raw_cpu);
            let was = old(t).rings@[me];
            let is = final(t).rings@[me];
            &&& is.events@ == with_event(
                was.events@,
                old(t).capacity as nat,
                TraceEvent { subsys, kind, owner, a, b },
            )
            &&& is.written == capped_sum(was.written, 1)
            &&& is.overwritten == capped_sum(
                was.overwritten,
                if was.events@.len() >= old(t).capacity {
                    1int
                } else {
                    0
                },
            )
            &&& forall|i: int|
                0 <= i < MAX_CPUS && i != me ==> #[trigger] final(t).rings@[i] == old(t).rings@[i]
        },
{
    if t.rings.len() == 0 {
        return;
    }
    let me: usize = smp::cpu_index(raw_cpu);
    let e: TraceEvent = TraceEvent { subsys, kind, owner, a, b };
    let ghost was = t.rings@[me as int];
    assert(was.events@.len() <= t.capacity);
    if t.rings[me].events.len() >= t.capacity {
        let _oldest: TraceEvent = t.rings[me].events.remove(0);
        t.rings[me].overwritten = t.rings[me].overwritten.saturating_add(1);
    }
    t.rings[me].events.push(e);
    t.rings[me].written = t.rings[me].written.saturating_add(1);
    proof {
        assert(t.rings@[me as int].events@ =~= with_event(was.events@, t.capacity as nat, e));
        assert forall|i: int| 0 <= i < t.rings@.len() implies (#[trigger] t.rings@[i]).events@.len()
            <= t.capacity by {
            if i != me {
                assert(t.rings@[i] == old(t).rings@[i]);
            }
        }
    }
}

/// The sum of the counts of the first `n` rings: written, and overwritten.
pub open spec fn counted(rings: Seq<TraceRing>, n: int) -> (u64, u64)
    decreases n,
{
    if n <= 0 {
        (0, 0)
    } else {
        let c = counted(rings, n - 1);
        (
            capped_sum(c.0, rings[n - 1].written as int),
            capped_sum(c.1, rings[n - 1].overwritten as int),
        )
    }
}

/// How many events were written, and how many of them newer ones have displaced.
pub fn counters(t: &Trace) -> (c: (u64, u64))
    ensures
        c == counted(t.rings@, t.rings@.len() as int),
{
    let mut written: u64 = 0;
    let mut overwritten: u64 = 0;
    let mut i: usize = 0;
    while i < t.rings.len()
        invariant
            i <= t.rings@.len(),
            (written, overwritten) == counted(t.rings@, i as int),
        decreases t.rings@.len() - i,
    {
        written = written.saturating_add(t.rings[i].written);
        overwritten = overwritten.saturating_add(t.rings[i].overwritten);
        i = i + 1;
    }
    (written, overwritten)
}

/// The events of one ring after another.
pub open spec fn all_events(rings: Seq<TraceRing>, n: int) -> Seq<TraceEvent>
    decreases n,
{
    if n <= 0 {
        Seq::empty()
    } else {
        all_events(rings, n - 1) + rings[n - 1].events@
    }
}

/// Everything that is recorded, CPU by CPU, the oldest first.
pub fn dump(t: &Trace) -> (v: Vec<TraceEvent>)
    ensures
        v@ == all_events(t.rings@, t.rings@.len() as int),
{
    let mut v: Vec<TraceEvent> = Vec::new();
    let mut i: usize = 0;
    while i < t.rings.len()
        invariant
            i <= t.rings@.len(),
            v@ == all_events(t.rings@, i as int),
        decreases t.rings@.len() - i,
    {
        let ghost start = v@;
        let mut j: usize = 0;
        while j < t.rings[i].events.len()
            invariant
                i < t.rings@.len(),
                j <= t.rings@[i as int].events@.len(),
                v@ =~= start + t.rings@[i as int].events@.take(j as int),
            decreases t.rings@[i as int].events@.len() - j,
        {
            v.push(t.rings[i].events[j]);
            j = j + 1;
        }
        assert(t.rings@[i as int].events@.take(j as int) =~= t.rings@[i as int].events@);
        i = i + 1;
    }
    v
}

/// The newest event is never lost: it is the last of its ring, and the events that
/// the ring held before keep their order in front of it, but for the oldest where the
/// ring was full.
pub proof fn law_newest_is_kept(events: Seq<TraceEvent>, capacity: nat, e: TraceEvent)
    requires
        events.len() <= capacity,
        capacity >= 1,
    ensures
        with_event(events, capacity, e).len() <= capacity,
        with_event(events, capacity, e).last() == e,
        with_event(events, capacity, e).drop_last() == events.skip(
            if events.len() == capacity {
                1int
            } else {
                0
            },
        ),
{
    let w = with_event(events, capacity, e);
    assert(w.drop_last() =~= events.skip(
        if events.len() == capacity {
            1int
        } else {
            0
        },
    ));
}

/// Every event of every CPU is given, that of a lower CPU first, and those of one CPU in the
/// order they came.
pub proof fn law_events_are_given_cpu_by_cpu(rings: Seq<TraceRing>, n: int)
    requires
        0 < n <= rings.len(),
    ensures
        all_events(rings, n).len() == all_events(rings, n - 1).len() + rings[n - 1].events@.len(),
        all_events(rings, n).take(all_events(rings, n - 1).len() as int) == all_events(rings, n - 1),
        all_events(rings, n).skip(all_events(rings, n - 1).len() as int) == rings[n - 1].events@,
        all_events(rings, 0).len() == 0,
{
    let a = all_events(rings, n - 1);
    let b = rings[n - 1].events@;
    assert((a + b).take(a.len() as int) =~= a);
    assert((a + b).skip(a.len() as int) =~= b);
}

/// The counts of all CPUs are added up, and stay at the greatest number where they would
/// pass it.
pub proof fn law_counts_are_added_up(rings: Seq<TraceRing>, n: int, a: u64, b: u64)
    requires
        0 < n <= rings.len(),
    ensures
        a + b <= u64::MAX ==> capped_sum(a, b as int) == a + b,
        a + b > u64::MAX ==> capped_sum(a, b as int) == u64::MAX,
        counted(rings, n - 1).0 + rings[n - 1].written <= u64::MAX ==> counted(rings, n).0 == counted(
            rings,
            n - 1,
        ).0 + rings[n - 1].written,
        counted(rings, n - 1).1 + rings[n - 1].overwritten <= u64::MAX ==> counted(rings, n).1 == counted(
            rings,
            n - 1,
        ).1 + rings[n - 1].overwritten,
        counted(rings, 0) == (0u64, 0u64),
{
}

} // verus!
