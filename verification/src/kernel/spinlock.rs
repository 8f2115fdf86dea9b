//! A lock that spins, as the steps that a CPU takes on it. Each step is one atomic
//! operation; a caller that finds the lock held looks again.

use vstd::prelude::*;

verus! {

/// A value that one CPU at a time may use.
pub struct SpinLock<T> {
    /// The CPU that holds the lock.
    pub holder: Option<usize>,
    /// The number by which the lock is observed; zero for one that is not.
    pub id: u8,
    pub data: T,
}

/// What a CPU keeps while it holds a lock.
#[derive(Copy, Clone, PartialEq, Eq, Debug, Structural)]
pub struct SpinGuard {
    pub cpu: usize,
    /// When it was taken, or zero where nobody looks.
    pub hold_start_ns: u64,
}

/// What is being observed of locks.
#[derive(Copy, Clone, PartialEq, Eq, Debug, Structural)]
pub struct LockWindows {
    /// How long CPUs wait.
    pub contention: bool,
    /// How long CPUs hold.
    pub hold: bool,
}

/// A CPU that waits for a lock.
#[derive(Copy, Clone, PartialEq, Eq, Debug, Structural)]
pub struct Spinning {
    pub observe: bool,
    pub since_ns: u64,
    pub spins: u64,
}

/// A wait that was observed.
#[derive(Copy, Clone, PartialEq, Eq, Debug, Structural)]
pub struct Contended {
    pub id: u8,
    pub spins: u64,
    pub wait_ns: u64,
}

/// What became of an attempt to take a lock.
#[derive(Copy, Clone, PartialEq, Eq, Debug, Structural)]
pub enum LockStep {
    /// The lock is held now, after a wait if one was observed.
    Held(SpinGuard, Option<Contended>),
    /// Another CPU holds it: look again.
    Spin(Spinning),
}

/// The stamp that a guard starts with.
pub open spec fn stamp(id: u8, on: LockWindows, now: u64) -> u64 {
    if id != 0 && on.hold {
        now
    } else {
        0
    }
}

/// The time from `since` to `now`, none if the clock went back.
pub open spec fn elapsed(since: u64, now: u64) -> u64 {
    if now >= since {
        (now - since) as u64
    } else {
        0
    }
}

impl<T> SpinLock<T> {
    /// A lock that is free and not observed.
    pub fn new(value: T) -> (l: SpinLock<T>)
        ensures
            l == (SpinLock { holder: None, id: 0, data: value }),
    {
        SpinLock { holder: None, id: 0, data: value }
    }

    /// A lock that is free, observed by a number.
    pub fn named(value: T, id: u8) -> (l: SpinLock<T>)
        ensures
            l == (SpinLock { holder: None, id, data: value }),
    {
        SpinLock { holder: None, id, data: value }
    }

    fn hold_stamp(&self, on: LockWindows, now: u64) -> (t: u64)
        ensures
            t == stamp(self.id, on, now),
    {
        if self.id != 0 && on.hold {
            now
        } else {
            0
        }
    }

    /// Take the lock if it is free.
    pub fn try_lock(&mut self, cpu: usize, on: LockWindows, now: u64) -> (g: Option<SpinGuard>)
        ensures
            final(self).id == old(self).id,
            final(self).data == old(self).data,
            match old(self).holder {
                Some(_) => g is None && final(self).holder == old(self).holder,
                None => {
                    &&& final(self).holder == Some(cpu)
                    &&& g == Some(SpinGuard { cpu, hold_start_ns: stamp(old(self).id, on, now) })
                },
            },
    {
        if self.holder.is_some() {
            return None;
        }
        self.holder = Some(cpu);
        Some(SpinGuard { cpu, hold_start_ns: self.hold_stamp(on, now) })
    }

    /// Start to take the lock.
    pub fn lock(&mut self, cpu: usize, on: LockWindows, now: u64) -> (s: LockStep)
        ensures
            final(self).id == old(self).id,
            final(self).data == old(self).data,
            match old(self).holder {
                Some(_) => {
                    &&& final(self).holder == old(self).holder
                    &&& s == LockStep::Spin(
                        Spinning {
                            observe: old(self).id != 0 && on.contention,
                            since_ns: if old(self).id != 0 && on.contention {
                                now
                            } else {
                                0
                            },
                            spins: 0,
                        },
                    )
                },
                None => {
                    &&& final(self).holder == Some(cpu)
                    &&& s == LockStep::Held(
                        SpinGuard { cpu, hold_start_ns: stamp(old(self).id, on, now) },
                        None,
                    )
                },
            },
    {
        match self.try_lock(cpu, on, now) {
            Some(g) => LockStep::Held(g, None),
            None => {
                let observe: bool = self.id != 0 && on.contention;
                let since_ns: u64 = if observe { now } else { 0 };
                LockStep::Spin(Spinning { observe, since_ns, spins: 0 })
            },
        }
    }

    /// Look again for a lock that was held.
    pub fn lock_contended(&mut self, cpu: usize, w: Spinning, on: LockWindows, now: u64) -> (s: LockStep)
        ensures
            final(self).id == old(self).id,
            final(self).data == old(self).data,
            match old(self).holder {
                Some(_) => {
                    &&& final(self).holder == old(self).holder
                    &&& s == LockStep::Spin(
                        Spinning {
                            spins: if w.spins == u64::MAX {
                                0
                            } else {
                                (w.spins + 1) as u64
                            },
                            ..w
                        },
                    )
                },
                None => {
                    &&& final(self).holder == Some(cpu)
                    &&& s == LockStep::Held(
                        SpinGuard { cpu, hold_start_ns: stamp(old(self).id, on, now) },
                        if w.observe {
                            Some(
                                Contended {
                                    id: old(self).id,
                                    spins: w.spins,
                                    wait_ns: elapsed(w.since_ns, now),
                                },
                            )
                        } else {
                            None
                        },
                    )
                },
            },
    {
        match self.try_lock(cpu, on, now) {
            None => LockStep::Spin(
                Spinning { observe: w.observe, since_ns: w.since_ns, spins: w.spins.wrapping_add(1) },
            ),
            Some(g) => {
                if w.observe {
                    let wait_ns: u64 = now.saturating_sub(w.since_ns);
                    LockStep::Held(g, Some(Contended { id: self.id, spins: w.spins, wait_ns }))
                } else {
                    LockStep::Held(g, None)
                }
            },
        }
    }

    /// Give the lock back. Where its holding is observed, the number of the lock
    /// and how long it was held come back.
    pub fn unlock(&mut self, g: SpinGuard, now: u64) -> (held: Option<(u8, u64)>)
        requires
            old(self).holder == Some(g.cpu),
        ensures
            final(self).holder is None,
            final(self).id == old(self).id,
            final(self).data == old(self).data,
            held == (if g.hold_start_ns != 0 {
                Some((old(self).id, elapsed(g.hold_start_ns, now)))
            } else {
                None
            }),
    {
        self.holder = None;
        if g.hold_start_ns != 0 {
            Some((self.id, now.saturating_sub(g.hold_start_ns)))
        } else {
            None
        }
    }

    /// The value, for the CPU that holds the lock.
    pub fn get(&self, g: SpinGuard) -> (v: &T)
        requires
            self.holder == Some(g.cpu),
        ensures
            *v == self.data,
    {
        &self.data
    }

    /// Write the value, for the CPU that holds the lock.
    pub fn set(&mut self, g: SpinGuard, value: T)
        requires
            old(self).holder == Some(g.cpu),
        ensures
            *final(self) == (SpinLock { data: value, ..*old(self) }),
    {
        self.data = value;
    }
}

/// How long a lock was waited for or held is the time between: never negative, and stamped
/// only for a lock that has a name and while such times are asked for.
pub proof fn law_lock_times_are_differences(id: u8, on: LockWindows, since: u64, now: u64)
    ensures
        now >= since ==> elapsed(since, now) + since == now,
        now < since ==> elapsed(since, now) == 0,
        id != 0 && on.hold ==> stamp(id, on, now) == now,
        id == 0 || !on.hold ==> stamp(id, on, now) == 0,
{
}

} // verus!
