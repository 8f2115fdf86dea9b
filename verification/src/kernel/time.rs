//! The clock: ticks since the boot, a wall clock with its error, and the wait for a
//! deadline.

use vstd::prelude::*;

verus! {

/// What the kernel keeps of time.
#[derive(Copy, Clone, PartialEq, Eq, Debug, Structural)]
pub struct Clock {
    pub boot_ticks: u64,
    /// Whether the last wait for a deadline has halted the CPU.
    pub idled: bool,
    /// Whether the hardware's timer interrupts the CPU.
    pub timer_irq: bool,
}

/// A reading of the wall clock: the true time lies within the error of the center.
#[derive(Copy, Clone, PartialEq, Eq, Debug, Structural)]
pub struct Interval {
    pub center: u64,
    pub error: u64,
}

/// Ticks from `since` to `now`, on a counter that wraps.
pub open spec fn ticks_since(since: u64, now: u64) -> u64 {
    if now >= since {
        (now - since) as u64
    } else {
        (now + 0x1_0000_0000_0000_0000 - since) as u64
    }
}

/// Note the moment of the boot.
pub fn init(c: &mut Clock, cycles: u64)
    ensures
        *final(c) == (Clock { boot_ticks: cycles, idled: false, ..*old(c) }),
{
    c.boot_ticks = cycles;
    c.idled = false;
}

/// Whether a wait for a deadline ends by an interrupt.
pub fn timer_interrupt_driven(c: &Clock) -> (b: bool)
    ensures
        b == c.timer_irq,
{
    c.timer_irq
}

/// Whether the last wait for a deadline has halted the CPU.
pub fn timer_did_idle(c: &Clock) -> (b: bool)
    ensures
        b == c.idled,
{
    c.idled
}

/// Note that the CPU was halted until a deadline.
pub fn mark_timer_idle(c: &mut Clock)
    ensures
        *final(c) == (Clock { idled: true, ..*old(c) }),
{
    c.idled = true;
}

/// The reading of the monotonic clock: the cycle counter itself.
pub fn monotonic(cycles: u64) -> (t: u64)
    ensures
        t == cycles,
{
    cycles
}

/// Ticks since the boot.
pub fn uptime_ticks(c: &Clock, cycles: u64) -> (t: u64)
    ensures
        t == ticks_since(c.boot_ticks, cycles),
{
    cycles.wrapping_sub(c.boot_ticks)
}

/// The wall clock. Nothing sets it, so that the error is as large as the reading.
pub fn wall(c: &Clock, cycles: u64) -> (i: Interval)
    ensures
        i.center == ticks_since(c.boot_ticks, cycles),
        i.error == i.center,
{
    let t: u64 = uptime_ticks(c, cycles);
    Interval { center: t, error: t }
}

/// Who waits for a deadline.
#[derive(Copy, Clone, PartialEq, Eq, Debug, Structural)]
pub enum TimerClient {
    CellSleep,
    Pacer,
}

/// How far a wait for a deadline has come.
#[derive(Copy, Clone, PartialEq, Eq, Debug, Structural)]
pub enum TimerAt {
    /// The deadline stands with the arbiter, and is to be looked at.
    Armed,
    /// The arbiter is being asked whether it has passed.
    Looking,
    /// The CPU is being halted.
    Parking,
    /// The deadline has passed.
    Over,
}

/// What a wait for a deadline is told.
#[derive(Copy, Clone, PartialEq, Eq, Debug, Structural)]
pub enum TimerEvent {
    Done,
    /// Whether the deadline has passed.
    Expired(bool),
    /// Whether the CPU was really halted.
    Halted(bool),
}

/// What a wait for a deadline wants done.
#[derive(Copy, Clone, PartialEq, Eq, Debug, Structural)]
pub enum TimerAction {
    Register(TimerClient, u64),
    Look(TimerClient),
    Park,
    /// Spin once: there is nothing that would wake the CPU.
    Spin,
    Cancel(TimerClient),
    Return,
}

/// How a wait for a deadline begins.
pub open spec fn timer_begun(deadline_ns: u64, client: TimerClient) -> (TimerAt, TimerAction) {
    if deadline_ns == 0 {
        (TimerAt::Over, TimerAction::Return)
    } else {
        (TimerAt::Armed, TimerAction::Register(client, deadline_ns))
    }
}

/// How a wait for a deadline goes on.
pub open spec fn timer_moved(at: TimerAt, client: TimerClient, e: TimerEvent) -> (TimerAt, TimerAction) {
    match at {
        TimerAt::Armed => (TimerAt::Looking, TimerAction::Look(client)),
        TimerAt::Looking => if e == TimerEvent::Expired(true) {
            (TimerAt::Over, TimerAction::Cancel(client))
        } else {
            (TimerAt::Parking, TimerAction::Park)
        },
        TimerAt::Parking => if e == TimerEvent::Halted(true) {
            (TimerAt::Looking, TimerAction::Look(client))
        } else {
            (TimerAt::Armed, TimerAction::Spin)
        },
        TimerAt::Over => (TimerAt::Over, TimerAction::Return),
    }
}

/// Begin to wait for a deadline on behalf of a client. With no deadline there is
/// nothing to wait for. Whether the CPU idled is told of the wait that begins here,
/// and no longer of one before it.
pub fn arm_timer_as(c: &mut Clock, deadline_ns: u64, client: TimerClient) -> (r: (TimerAt, TimerAction))
    ensures
        r == timer_begun(deadline_ns, client),
        r == (if deadline_ns == 0 {
            (TimerAt::Over, TimerAction::Return)
        } else {
            (TimerAt::Armed, TimerAction::Register(client, deadline_ns))
        }),
        *final(c) == (Clock { idled: old(c).idled && deadline_ns == 0, ..*old(c) }),
{
    if deadline_ns == 0 {
        (TimerAt::Over, TimerAction::Return)
    } else {
        c.idled = false;
        (TimerAt::Armed, TimerAction::Register(client, deadline_ns))
    }
}

/// Begin to wait for a deadline on behalf of a cell.
pub fn arm_timer(c: &mut Clock, deadline_ns: u64) -> (r: (TimerAt, TimerAction))
    ensures
        r == timer_begun(deadline_ns, TimerClient::CellSleep),
        r == (if deadline_ns == 0 {
            (TimerAt::Over, TimerAction::Return)
        } else {
            (TimerAt::Armed, TimerAction::Register(TimerClient::CellSleep, deadline_ns))
        }),
        *final(c) == (Clock { idled: old(c).idled && deadline_ns == 0, ..*old(c) }),
{
    arm_timer_as(c, deadline_ns, TimerClient::CellSleep)
}

/// One step of the wait: look until the deadline has passed, and halt the CPU in
/// between, or spin where it cannot be halted. That the CPU idled is noted only when
/// it really was halted.
pub fn timer_step(c: &mut Clock, at: &mut TimerAt, client: TimerClient, e: TimerEvent) -> (a: TimerAction)
    ensures
        (*final(at), a) == timer_moved(*old(at), client, e),
        match *old(at) {
            TimerAt::Armed => {
                &&& a == TimerAction::Look(client)
                &&& *final(at) == TimerAt::Looking
            },
            TimerAt::Looking => if e == TimerEvent::Expired(true) {
                &&& a == TimerAction::Cancel(client)
                &&& *final(at) == TimerAt::Over
            } else {
                &&& a == TimerAction::Park
                &&& *final(at) == TimerAt::Parking
            },
            TimerAt::Parking => if e == TimerEvent::Halted(true) {
                &&& a == TimerAction::Look(client)
                &&& *final(at) == TimerAt::Looking
            } else {
                &&& a == TimerAction::Spin
                &&& *final(at) == TimerAt::Armed
            },
            TimerAt::Over => a == TimerAction::Return && *final(at) == TimerAt::Over,
        },
        *final(c) == (Clock {
            idled: old(c).idled || (*old(at) == TimerAt::Parking && e == TimerEvent::Halted(true)),
            ..*old(c)
        }),
{
    match *at {
        TimerAt::Armed => {
            *at = TimerAt::Looking;
            TimerAction::Look(client)
        },
        TimerAt::Looking => match e {
            TimerEvent::Expired(true) => {
                *at = TimerAt::Over;
                TimerAction::Cancel(client)
            },
            _ => {
                *at = TimerAt::Parking;
                TimerAction::Park
            },
        },
        TimerAt::Parking => match e {
            TimerEvent::Halted(true) => {
                c.idled = true;
                *at = TimerAt::Looking;
                TimerAction::Look(client)
            },
            _ => {
                *at = TimerAt::Armed;
                TimerAction::Spin
            },
        },
        TimerAt::Over => TimerAction::Return,
    }
}

/// Time that passes is seen: if the counter has moved by `d` since the boot, that is
/// the uptime, even where the counter has wrapped in between.
pub proof fn law_uptime_survives_wrap(boot: u64, d: u64)
    ensures
        ticks_since(boot, ((boot + d) % 0x1_0000_0000_0000_0000) as u64) == d,
{
}

/// A wait for a deadline is over only once the deadline has passed: it begins by handing
/// the deadline to the arbiter under its own client, and ends only on being told that it
/// has passed, whereupon the client's deadline is withdrawn. Only without a deadline is it
/// over at once. Until then the CPU is halted, or spins where it cannot be halted, and looks
/// again.
pub proof fn law_wait_lasts_until_the_deadline(
    deadline_ns: u64,
    client: TimerClient,
    at: TimerAt,
    e: TimerEvent,
)
    ensures
        timer_begun(deadline_ns, client).0 == TimerAt::Over <==> deadline_ns == 0,
        deadline_ns > 0 ==> timer_begun(deadline_ns, client).1 == TimerAction::Register(client, deadline_ns),
        timer_moved(at, client, e).0 == TimerAt::Over && at != TimerAt::Over ==> at == TimerAt::Looking && e
            == TimerEvent::Expired(true) && timer_moved(at, client, e).1 == TimerAction::Cancel(client),
        timer_moved(at, client, e).1 == TimerAction::Return <==> at == TimerAt::Over,
        timer_moved(TimerAt::Looking, client, TimerEvent::Expired(true)).0 == TimerAt::Over,
        timer_moved(at, client, e).1 == TimerAction::Spin ==> at == TimerAt::Parking && e != TimerEvent::Halted(
            true,
        ),
        timer_moved(at, client, e).1 == TimerAction::Park ==> at == TimerAt::Looking && e
            != TimerEvent::Expired(true),
        at == TimerAt::Armed ==> timer_moved(at, client, e).1 == TimerAction::Look(client),
        at == TimerAt::Parking && e == TimerEvent::Halted(true) ==> timer_moved(at, client, e).1
            == TimerAction::Look(client),
{
}

} // verus!
