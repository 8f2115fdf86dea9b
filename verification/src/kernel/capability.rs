//! Capabilities: what a cell may do with which kernel object.
//!
//! An object has an epoch; a capability carries the epoch it was minted in, so
//! moving the epoch revokes every capability on the object at once.
//!
//! A handle names a slot of the table and a generation of the slot, and no handle is
//! given out twice: one that was dropped stays bad, whatever the slot holds later.

use vstd::prelude::*;

verus! {

pub const READ: u32 = 1;

pub const WRITE: u32 = 2;

pub const EXECUTE: u32 = 4;

pub const MAP: u32 = 8;

pub const DELEGATE: u32 = 16;

pub const REVOKE: u32 = 32;

/// Every right that is defined.
pub const ALL: u32 = 63;

/// The budget of a capability that is not metered.
pub const BUDGET_UNLIMITED: u64 = u64::MAX;

/// What a kernel object is.
#[derive(Copy, Clone, PartialEq, Eq, Debug, Structural)]
pub enum ObjectKind {
    Cell,
    Queue,
    Channel,
    MemoryGrant,
    Reservation,
}

/// Why a capability operation was refused.
#[derive(Copy, Clone, PartialEq, Eq, Debug, Structural)]
pub enum CapError {
    BadHandle,
    InsufficientRights,
    WidenAttempt,
    NotDelegatable,
    Revoked,
    Exhausted,
    TableFull,
    TooManyObjects,
}

/// A kernel object: what it is, and its epoch.
#[derive(Copy, Clone, PartialEq, Eq, Debug, Structural)]
pub struct Object {
    pub kind: ObjectKind,
    pub epoch: u64,
}

/// The kernel's objects, at most `limit` of them.
pub struct ObjectTable {
    objects: Vec<Object>,
    limit: u32,
}

impl View for ObjectTable {
    type V = Seq<Object>;

    closed spec fn view(&self) -> Seq<Object> {
        self.objects@
    }
}

impl ObjectTable {
    pub closed spec fn object_limit(&self) -> u32 {
        self.limit
    }

    pub open spec fn wf(&self) -> bool {
        self@.len() <= self.object_limit()
    }

    pub fn new(limit: u32) -> (t: ObjectTable)
        ensures
            t.wf(),
            t@ == Seq::<Object>::empty(),
            t.object_limit() == limit,
    {
        ObjectTable { objects: Vec::new(), limit }
    }

    /// Create an object.
    pub fn create(&mut self, kind: ObjectKind) -> (r: Result<u32, CapError>)
        requires
            old(self).wf(),
        ensures
            final(self).wf(),
            final(self).object_limit() == old(self).object_limit(),
            match r {
                Ok(id) => {
                    &&& old(self)@.len() < old(self).object_limit()
                    &&& id == old(self)@.len()
                    &&& final(self)@ == old(self)@.push(Object { kind, epoch: 0 })
                },
                Err(e) => {
                    &&& old(self)@.len() >= old(self).object_limit()
                    &&& e == CapError::TooManyObjects
                    &&& final(self)@ == old(self)@
                },
            },
    {
        let n: usize = self.objects.len();
        if n >= self.limit as usize {
            return Err(CapError::TooManyObjects);
        }
        self.objects.push(Object { kind, epoch: 0 });
        Ok(n as u32)
    }

    /// Whether one more object can be created.
    pub fn has_space(&self) -> (b: bool)
        ensures
            b == (self@.len() < self.object_limit()),
    {
        self.objects.len() < self.limit as usize
    }

    /// What an object is.
    pub fn kind(&self, object: u32) -> (k: ObjectKind)
        requires
            object < self@.len(),
        ensures
            k == self@[object as int].kind,
    {
        self.objects[object as usize].kind
    }

    /// Revoke every capability on an object, by moving its epoch. An epoch that
    /// cannot move any further stays.
    pub fn revoke_epoch(&mut self, object: u32)
        requires
            old(self).wf(),
            object < old(self)@.len(),
        ensures
            final(self).wf(),
            final(self).object_limit() == old(self).object_limit(),
            final(self)@ == revoked(old(self)@, object),
    {
        let o: Object = self.objects[object as usize];
        if o.epoch < u64::MAX {
            self.objects[object as usize] = Object { kind: o.kind, epoch: o.epoch + 1 };
        }
        assert(self@ =~= revoked(old(self)@, object));
    }
}

/// The objects after one of them was revoked.
pub open spec fn revoked(objects: Seq<Object>, object: u32) -> Seq<Object> {
    let o = objects[object as int];
    if o.epoch < u64::MAX {
        objects.update(object as int, Object { kind: o.kind, epoch: (o.epoch + 1) as u64 })
    } else {
        objects
    }
}

/// A capability: an object, the rights on it, what is left of its budget, and
/// the epoch it was minted in.
#[derive(Copy, Clone, PartialEq, Eq, Debug, Structural)]
pub struct Capability {
    pub object: u32,
    pub rights: u32,
    pub budget: u64,
    pub epoch: u64,
}

/// Slots that a handle can name, and generations of a slot.
pub const MAX_CAPS: u32 = 0x1_0000;

/// A slot of a table: what it holds, the generation of that, and the first generation
/// that has not been given out. A slot whose generations are used up stays empty.
#[derive(Copy, Clone, PartialEq, Eq, Debug)]
pub struct CapSlot {
    pub cap: Option<Capability>,
    pub generation: u32,
    pub next: u32,
}

/// The slot that a handle names.
pub open spec fn slot_no(handle: u32) -> int {
    handle as int % 0x1_0000
}

/// The generation that a handle names.
pub open spec fn generation_of(handle: u32) -> int {
    handle as int / 0x1_0000
}

/// What a handle stands for: the capability in its slot, if it is of its generation.
pub open spec fn held(caps: Seq<CapSlot>, handle: u32) -> Option<Capability> {
    let i = slot_no(handle);
    if i < caps.len() && caps[i].generation == generation_of(handle) {
        caps[i].cap
    } else {
        None
    }
}

/// Whether a handle was ever given out.
pub open spec fn issued(caps: Seq<CapSlot>, handle: u32) -> bool {
    slot_no(handle) < caps.len() && generation_of(handle) < caps[slot_no(handle)].next
}

/// The slots of a table of at most `limit` capabilities are as they should be: what is
/// held was given out, and no generation is beyond a handle.
pub open spec fn caps_ok(caps: Seq<CapSlot>, limit: u32) -> bool {
    &&& caps.len() <= limit <= MAX_CAPS
    &&& forall|i: int|
        0 <= i < caps.len() ==> (#[trigger] caps[i]).next <= MAX_CAPS && (caps[i].cap is Some
            ==> caps[i].generation < caps[i].next)
}

/// The table with another capability under a handle that is held.
pub open spec fn replaced(caps: Seq<CapSlot>, handle: u32, c: Capability) -> Seq<CapSlot> {
    caps.update(slot_no(handle), CapSlot { cap: Some(c), ..caps[slot_no(handle)] })
}

/// The table without what a handle stands for.
pub open spec fn dropped(caps: Seq<CapSlot>, handle: u32) -> Seq<CapSlot> {
    caps.update(slot_no(handle), CapSlot { cap: None, ..caps[slot_no(handle)] })
}

/// The table with nothing held. The handles that were given out stay so.
pub open spec fn emptied(caps: Seq<CapSlot>) -> Seq<CapSlot> {
    caps.map_values(|s: CapSlot| CapSlot { cap: None, ..s })
}

/// The greater of two.
pub open spec fn later(a: u32, b: u32) -> u32 {
    if a >= b {
        a
    } else {
        b
    }
}

/// Slot `i` of a table that takes over what another holds.
pub open spec fn taken_over(mine: Seq<CapSlot>, other: Seq<CapSlot>, i: int) -> CapSlot {
    if i >= other.len() {
        CapSlot { cap: None, ..mine[i] }
    } else if i >= mine.len() {
        other[i]
    } else {
        CapSlot { next: later(mine[i].next, other[i].next), ..other[i] }
    }
}

/// A table that holds what another holds, handle for handle, and remembers the handles
/// that either has given out.
pub open spec fn copied(mine: Seq<CapSlot>, other: Seq<CapSlot>) -> Seq<CapSlot> {
    Seq::new(
        if mine.len() >= other.len() {
            mine.len()
        } else {
            other.len()
        },
        |i: int| taken_over(mine, other, i),
    )
}

/// A cell's capabilities, by handle, at most `limit` of them.
pub struct CapTable {
    caps: Vec<CapSlot>,
    limit: u32,
}

impl View for CapTable {
    type V = Seq<CapSlot>;

    closed spec fn view(&self) -> Seq<CapSlot> {
        self.caps@
    }
}

/// What a handle names, or why it names nothing.
pub open spec fn resolve(
    caps: Seq<CapSlot>,
    objects: Seq<Object>,
    handle: u32,
) -> Result<Capability, CapError> {
    match held(caps, handle) {
        None => Err(CapError::BadHandle),
        Some(c) => if c.object >= objects.len() {
            Err(CapError::BadHandle)
        } else if objects[c.object as int].epoch != c.epoch {
            Err(CapError::Revoked)
        } else {
            Ok(c)
        },
    }
}

/// Whether `rights` hold every bit of `right`.
pub open spec fn allows(rights: u32, right: u32) -> bool {
    rights & right == right
}

/// What checking a handle for a right gives: the object, or the refusal.
pub open spec fn checked(
    caps: Seq<CapSlot>,
    objects: Seq<Object>,
    handle: u32,
    right: u32,
) -> Result<u32, CapError> {
    match resolve(caps, objects, handle) {
        Err(e) => Err(e),
        Ok(c) => if !allows(c.rights, right) {
            Err(CapError::InsufficientRights)
        } else if c.budget == 0 {
            Err(CapError::Exhausted)
        } else {
            Ok(c.object)
        },
    }
}

/// The capability with one use spent, where it is metered.
pub open spec fn spent(c: Capability) -> Capability {
    if c.budget == BUDGET_UNLIMITED || c.budget == 0 {
        c
    } else {
        Capability { budget: (c.budget - 1) as u64, ..c }
    }
}

/// What deriving a capability gives: the refusal, if there is one.
pub open spec fn derive_refusal(
    caps: Seq<CapSlot>,
    objects: Seq<Object>,
    parent: u32,
    rights: u32,
) -> Option<CapError> {
    match resolve(caps, objects, parent) {
        Err(e) => Some(e),
        Ok(c) => if !allows(c.rights, DELEGATE) {
            Some(CapError::NotDelegatable)
        } else if !allows(c.rights, rights) {
            Some(CapError::WidenAttempt)
        } else {
            None
        },
    }
}

/// Whether a table of at most `limit` capabilities has a handle to give out.
pub open spec fn has_room(caps: Seq<CapSlot>, limit: u32) -> bool {
    caps.len() < limit || exists|i: int|
        0 <= i < caps.len() && (#[trigger] caps[i]).cap is None && caps[i].next < MAX_CAPS
}

/// `handle` was given out for the first time and stands for `c` now; nothing else moved.
pub open spec fn minted(
    before: Seq<CapSlot>,
    after: Seq<CapSlot>,
    handle: u32,
    c: Capability,
) -> bool {
    let i = slot_no(handle);
    let g = generation_of(handle);
    let now = CapSlot { cap: Some(c), generation: g as u32, next: (g + 1) as u32 };
    ||| i == before.len() && g == 0 && after == before.push(now)
    ||| i < before.len() && before[i].cap is None && g == before[i].next && after == before.update(
        i,
        now,
    )
}

/// How many capabilities are held.
pub open spec fn count_live(caps: Seq<CapSlot>) -> nat
    decreases caps.len(),
{
    if caps.len() == 0 {
        0
    } else {
        count_live(caps.drop_last()) + if caps.last().cap is Some {
            1nat
        } else {
            0nat
        }
    }
}

impl CapTable {
    pub closed spec fn cap_limit(&self) -> u32 {
        self.limit
    }

    pub open spec fn wf(&self) -> bool {
        caps_ok(self@, self.cap_limit())
    }

    pub fn new(limit: u32) -> (t: CapTable)
        requires
            limit <= MAX_CAPS,
        ensures
            t.wf(),
            t@ == Seq::<CapSlot>::empty(),
            t.cap_limit() == limit,
    {
        CapTable { caps: Vec::new(), limit }
    }

    /// Drop every capability.
    pub fn clear(&mut self)
        requires
            old(self).wf(),
        ensures
            final(self).wf(),
            final(self)@ == emptied(old(self)@),
            final(self).cap_limit() == old(self).cap_limit(),
    {
        let mut i: usize = 0;
        while i < self.caps.len()
            invariant
                i <= self.caps@.len(),
                self.caps@.len() == old(self)@.len(),
                self.limit == old(self).limit,
                forall|j: int|
                    0 <= j < i ==> #[trigger] self.caps@[j] == emptied(old(self)@)[j],
                forall|j: int| i <= j < self.caps@.len() ==> #[trigger] self.caps@[j] == old(self)@[j],
            decreases self.caps@.len() - i,
        {
            let mut s: CapSlot = self.caps[i];
            s.cap = None;
            self.caps[i] = s;
            i = i + 1;
        }
        assert(self@ =~= emptied(old(self)@));
        assert forall|j: int| 0 <= j < self@.len() implies (#[trigger] self@[j]).next <= MAX_CAPS by {
            assert(old(self)@[j].next <= MAX_CAPS);
        }
    }

    /// Hold exactly what `other` holds, handle for handle.
    pub fn copy_from(&mut self, other: &CapTable)
        requires
            old(self).wf(),
            other.wf(),
            other@.len() <= old(self).cap_limit(),
        ensures
            final(self).wf(),
            final(self)@ == copied(old(self)@, other@),
            final(self).cap_limit() == old(self).cap_limit(),
    {
        let mine: usize = self.caps.len();
        let theirs: usize = other.caps.len();
        let n: usize = if mine >= theirs { mine } else { theirs };
        let mut caps: Vec<CapSlot> = Vec::new();
        while caps.len() < n
            invariant
                mine == self.caps@.len(),
                theirs == other.caps@.len(),
                n == copied(self.caps@, other.caps@).len(),
                caps.len() <= n,
                *self == *old(self),
                caps@ == copied(self.caps@, other.caps@).take(caps.len() as int),
            decreases n - caps.len(),
        {
            let i: usize = caps.len();
            let s: CapSlot = if i >= theirs {
                let mut s: CapSlot = self.caps[i];
                s.cap = None;
                s
            } else if i >= mine {
                other.caps[i]
            } else {
                let mut s: CapSlot = other.caps[i];
                let floor: u32 = self.caps[i].next;
                if floor >= s.next {
                    s.next = floor;
                }
                s
            };
            caps.push(s);
            assert(caps@ =~= copied(self.caps@, other.caps@).take(caps.len() as int));
        }
        self.caps = caps;
        assert(self@ =~= copied(old(self)@, other@));
        assert forall|j: int| 0 <= j < self@.len() implies (#[trigger] self@[j]).next <= MAX_CAPS && (
        self@[j].cap is Some ==> self@[j].generation < self@[j].next) by {
            assert(j < old(self)@.len() ==> old(self)@[j].next <= MAX_CAPS);
            assert(j < other@.len() ==> other@[j].next <= MAX_CAPS);
        }
    }

    /// Whether one more capability can be given out.
    pub fn has_space(&self) -> (b: bool)
        requires
            self.wf(),
        ensures
            b == has_room(self@, self.cap_limit()),
    {
        if self.caps.len() < self.limit as usize {
            return true;
        }
        let mut i: usize = 0;
        while i < self.caps.len()
            invariant
                i <= self.caps@.len(),
                forall|j: int|
                    0 <= j < i ==> !((#[trigger] self.caps@[j]).cap is None && self.caps@[j].next
                        < MAX_CAPS),
            decreases self.caps@.len() - i,
        {
            let s: CapSlot = self.caps[i];
            if s.cap.is_none() && s.next < MAX_CAPS {
                assert(self@[i as int].cap is None);
                return true;
            }
            i = i + 1;
        }
        false
    }

    /// How many capabilities are held.
    pub fn live_count(&self) -> (n: usize)
        ensures
            n == count_live(self@),
    {
        let mut n: usize = 0;
        let mut i: usize = 0;
        while i < self.caps.len()
            invariant
                i <= self.caps.len(),
                n <= i,
                n == count_live(self.caps@.take(i as int)),
            decreases self.caps.len() - i,
        {
            proof {
                assert(self.caps@.take(i + 1).drop_last() =~= self.caps@.take(i as int));
            }
            if self.caps[i].cap.is_some() {
                n = n + 1;
            }
            i = i + 1;
        }
        proof {
            assert(self.caps@.take(i as int) =~= self.caps@);
        }
        n
    }

    /// Mint a capability on an object.
    pub fn mint(&mut self, objects: &ObjectTable, object: u32, rights: u32, budget: u64) -> (r: Result<
        u32,
        CapError,
    >)
        requires
            old(self).wf(),
            object < objects@.len(),
        ensures
            final(self).wf(),
            final(self).cap_limit() == old(self).cap_limit(),
            match r {
                Ok(handle) => minted(
                    old(self)@,
                    final(self)@,
                    handle,
                    Capability { object, rights, budget, epoch: objects@[object as int].epoch },
                ),
                Err(e) => {
                    &&& e == CapError::TableFull
                    &&& !has_room(old(self)@, old(self).cap_limit())
                    &&& final(self)@ == old(self)@
                },
            },
    {
        let cap = Capability { object, rights, budget, epoch: objects.objects[object as usize].epoch };
        let mut i: usize = 0;
        while i < self.caps.len()
            invariant
                *self == *old(self),
                self.wf(),
                cap == (Capability {
                    object,
                    rights,
                    budget,
                    epoch: objects@[object as int].epoch,
                }),
                i <= self.caps.len(),
                forall|j: int|
                    0 <= j < i ==> !((#[trigger] self.caps@[j]).cap is None && self.caps@[j].next
                        < MAX_CAPS),
            decreases self.caps.len() - i,
        {
            let s: CapSlot = self.caps[i];
            if s.cap.is_none() && s.next < MAX_CAPS {
                assert(self@[i as int].next < MAX_CAPS);
                let handle: u32 = s.next * 0x1_0000 + i as u32;
                self.caps[i] = CapSlot { cap: Some(cap), generation: s.next, next: s.next + 1 };
                proof {
                    assert(slot_no(handle) == i && generation_of(handle) == s.next);
                    assert forall|j: int| 0 <= j < self@.len() implies (#[trigger] self@[j]).next
                        <= MAX_CAPS && (self@[j].cap is Some ==> self@[j].generation < self@[j].next) by {
                        assert(old(self)@[j].next <= MAX_CAPS);
                    }
                }
                return Ok(handle);
            }
            i = i + 1;
        }
        if self.caps.len() < self.limit as usize {
            let handle: u32 = self.caps.len() as u32;
            self.caps.push(CapSlot { cap: Some(cap), generation: 0, next: 1 });
            proof {
                assert forall|j: int| 0 <= j < self@.len() implies (#[trigger] self@[j]).next
                    <= MAX_CAPS && (self@[j].cap is Some ==> self@[j].generation < self@[j].next) by {
                    if j < old(self)@.len() {
                        assert(old(self)@[j].next <= MAX_CAPS);
                    }
                }
            }
            return Ok(handle);
        }
        Err(CapError::TableFull)
    }

    /// What a handle stands for.
    fn look_up(&self, handle: u32) -> (c: Option<Capability>)
        ensures
            c == held(self@, handle),
    {
        let i: usize = (handle % 0x1_0000) as usize;
        if i >= self.caps.len() {
            return None;
        }
        let s: CapSlot = self.caps[i];
        if s.generation != handle / 0x1_0000 {
            return None;
        }
        s.cap
    }

    /// Put another capability under a handle that is held, or none.
    fn put(&mut self, handle: u32, c: Option<Capability>)
        requires
            old(self).wf(),
            held(old(self)@, handle) is Some,
        ensures
            final(self).wf(),
            final(self).cap_limit() == old(self).cap_limit(),
            final(self)@ == (match c {
                Some(c) => replaced(old(self)@, handle, c),
                None => dropped(old(self)@, handle),
            }),
    {
        let i: usize = (handle % 0x1_0000) as usize;
        let mut s: CapSlot = self.caps[i];
        s.cap = c;
        self.caps[i] = s;
        assert forall|j: int| 0 <= j < self@.len() implies (#[trigger] self@[j]).next <= MAX_CAPS && (
        self@[j].cap is Some ==> self@[j].generation < self@[j].next) by {
            assert(old(self)@[j].next <= MAX_CAPS);
        }
    }

    /// What a handle names, without spending any of its budget.
    pub fn inspect_low32(&self, objects: &ObjectTable, handle: u32) -> (r: Result<
        Capability,
        CapError,
    >)
        ensures
            r == resolve(self@, objects@, handle),
    {
        match self.look_up(handle) {
            None => Err(CapError::BadHandle),
            Some(c) => {
                if c.object as usize >= objects.objects.len() {
                    return Err(CapError::BadHandle);
                }
                if objects.objects[c.object as usize].epoch != c.epoch {
                    return Err(CapError::Revoked);
                }
                Ok(c)
            },
        }
    }

    /// What checking a handle for a right would give, without spending a use of it.
    pub fn test_low32(&self, objects: &ObjectTable, handle: u32, right: u32) -> (r: Result<
        u32,
        CapError,
    >)
        ensures
            r == checked(self@, objects@, handle, right),
    {
        match self.inspect_low32(objects, handle) {
            Err(e) => Err(e),
            Ok(c) => {
                if c.rights & right != right {
                    return Err(CapError::InsufficientRights);
                }
                if c.budget == 0 {
                    return Err(CapError::Exhausted);
                }
                Ok(c.object)
            },
        }
    }

    /// Check a handle for a right and spend one use of it.
    pub fn grant_check_low32(&mut self, objects: &ObjectTable, handle: u32, right: u32) -> (r: Result<
        u32,
        CapError,
    >)
        requires
            old(self).wf(),
        ensures
            final(self).wf(),
            final(self).cap_limit() == old(self).cap_limit(),
            r == checked(old(self)@, objects@, handle, right),
            r is Err ==> final(self)@ == old(self)@,
            r is Ok ==> final(self)@ == replaced(
                old(self)@,
                handle,
                spent(held(old(self)@, handle)->0),
            ),
    {
        match self.inspect_low32(objects, handle) {
            Err(e) => Err(e),
            Ok(c) => {
                if c.rights & right != right {
                    return Err(CapError::InsufficientRights);
                }
                if c.budget == 0 {
                    return Err(CapError::Exhausted);
                }
                if c.budget != BUDGET_UNLIMITED {
                    self.put(
                        handle,
                        Some(
                            Capability {
                                object: c.object,
                                rights: c.rights,
                                budget: c.budget - 1,
                                epoch: c.epoch,
                            },
                        ),
                    );
                }
                proof {
                    assert(self@ =~= replaced(
                        old(self)@,
                        handle,
                        spent(held(old(self)@, handle)->0),
                    ));
                }
                Ok(c.object)
            },
        }
    }

    /// Derive a capability on the same object with a part of the rights.
    pub fn derive_subset_low32(
        &mut self,
        objects: &ObjectTable,
        parent: u32,
        rights: u32,
        budget: u64,
    ) -> (r: Result<u32, CapError>)
        requires
            old(self).wf(),
        ensures
            final(self).wf(),
            final(self).cap_limit() == old(self).cap_limit(),
            match r {
                Ok(handle) => {
                    &&& derive_refusal(old(self)@, objects@, parent, rights) is None
                    &&& minted(
                        old(self)@,
                        final(self)@,
                        handle,
                        Capability {
                            object: (held(old(self)@, parent)->0).object,
                            rights,
                            budget,
                            epoch: (held(old(self)@, parent)->0).epoch,
                        },
                    )
                },
                Err(e) => {
                    &&& final(self)@ == old(self)@
                    &&& e == (match derive_refusal(old(self)@, objects@, parent, rights) {
                        Some(refusal) => refusal,
                        None => CapError::TableFull,
                    })
                    &&& derive_refusal(old(self)@, objects@, parent, rights) is None ==> !has_room(
                        old(self)@,
                        old(self).cap_limit(),
                    )
                },
            },
    {
        match self.inspect_low32(objects, parent) {
            Err(e) => Err(e),
            Ok(c) => {
                if c.rights & DELEGATE != DELEGATE {
                    return Err(CapError::NotDelegatable);
                }
                if c.rights & rights != rights {
                    return Err(CapError::WidenAttempt);
                }
                self.mint(objects, c.object, rights, budget)
            },
        }
    }

    /// Drop a capability. A handle that names nothing is an error, so that a
    /// second drop is visible.
    pub fn free_low32(&mut self, objects: &ObjectTable, handle: u32) -> (r: Result<(), CapError>)
        requires
            old(self).wf(),
        ensures
            final(self).wf(),
            final(self).cap_limit() == old(self).cap_limit(),
            match r {
                Ok(()) => {
                    &&& resolve(old(self)@, objects@, handle) is Ok
                    &&& final(self)@ == dropped(old(self)@, handle)
                },
                Err(e) => {
                    &&& resolve(old(self)@, objects@, handle) == Err::<Capability, CapError>(e)
                    &&& final(self)@ == old(self)@
                },
            },
    {
        match self.inspect_low32(objects, handle) {
            Err(e) => Err(e),
            Ok(_) => {
                self.put(handle, None);
                Ok(())
            },
        }
    }
}

/// Deriving never widens: the new capability allows nothing that its parent does
/// not, and is on the same object.
pub proof fn law_derive_never_widens(
    caps: Seq<CapSlot>,
    objects: Seq<Object>,
    parent: u32,
    rights: u32,
    right: u32,
)
    requires
        derive_refusal(caps, objects, parent, rights) is None,
        allows(rights, right),
    ensures
        resolve(caps, objects, parent) is Ok,
        allows((resolve(caps, objects, parent)->Ok_0).rights, right),
{
    let p = (resolve(caps, objects, parent)->Ok_0).rights;
    assert(p & right == right) by (bit_vector)
        requires
            p & rights == rights,
            rights & right == right,
    ;
}

/// Revoking an object kills every capability on it that was good before.
pub proof fn law_revoke_kills_every_copy(
    caps: Seq<CapSlot>,
    objects: Seq<Object>,
    handle: u32,
)
    requires
        resolve(caps, objects, handle) is Ok,
        objects[(resolve(caps, objects, handle)->Ok_0).object as int].epoch < u64::MAX,
    ensures
        resolve(
            caps,
            revoked(objects, (resolve(caps, objects, handle)->Ok_0).object),
            handle,
        ) == Err::<Capability, CapError>(CapError::Revoked),
{
}

/// Revoking one object leaves capabilities on every other object as they were.
pub proof fn law_revoke_leaves_other_objects(
    caps: Seq<CapSlot>,
    objects: Seq<Object>,
    object: u32,
    handle: u32,
)
    requires
        object < objects.len(),
        resolve(caps, objects, handle) matches Ok(c) && c.object != object,
    ensures
        resolve(caps, revoked(objects, object), handle) == resolve(caps, objects, handle),
{
}

/// A handle that was dropped names nothing: a second drop is refused.
pub proof fn law_second_drop_refused(
    caps: Seq<CapSlot>,
    objects: Seq<Object>,
    handle: u32,
)
    requires
        resolve(caps, objects, handle) is Ok,
    ensures
        resolve(dropped(caps, handle), objects, handle) == Err::<Capability, CapError>(
            CapError::BadHandle,
        ),
{
}

/// A handle that is given out was never given out before, and is from then on.
pub proof fn law_handles_are_given_out_once(
    before: Seq<CapSlot>,
    after: Seq<CapSlot>,
    limit: u32,
    handle: u32,
    c: Capability,
    other: u32,
)
    requires
        caps_ok(before, limit),
        minted(before, after, handle, c),
    ensures
        !issued(before, handle),
        issued(after, handle),
        issued(before, other) ==> issued(after, other),
        held(after, handle) == Some(c),
        other != handle && slot_no(other) != slot_no(handle) ==> held(after, other) == held(
            before,
            other,
        ),
        held(before, other) is Some ==> held(after, other) == held(before, other),
{
    let i = slot_no(handle);
    if held(before, other) is Some {
        assert(before[slot_no(other)].generation < before[slot_no(other)].next);
    }
}

/// A handle that has been dropped stays bad, whatever is minted later: a new handle is
/// never the old one.
pub proof fn law_dropped_handle_stays_bad(
    caps: Seq<CapSlot>,
    after: Seq<CapSlot>,
    limit: u32,
    stale: u32,
    handle: u32,
    c: Capability,
)
    requires
        caps_ok(caps, limit),
        issued(caps, stale),
        held(caps, stale) is None,
        minted(caps, after, handle, c),
    ensures
        held(after, stale) is None,
        issued(after, stale),
{
}

/// Spending, dropping, emptying and copying forget no handle that was given out.
pub proof fn law_handles_stay_given_out(caps: Seq<CapSlot>, other: Seq<CapSlot>, handle: u32, c: Capability, h: u32)
    requires
        issued(caps, h),
    ensures
        slot_no(handle) < caps.len() ==> issued(replaced(caps, handle, c), h) && issued(
            dropped(caps, handle),
            h,
        ),
        issued(emptied(caps), h),
        issued(copied(caps, other), h),
{
}

/// A table that was emptied holds nothing.
pub proof fn law_emptied_table_holds_nothing(caps: Seq<CapSlot>, handle: u32)
    ensures
        held(emptied(caps), handle) is None,
{
}

/// A copy of a table holds what the table holds, handle for handle.
pub proof fn law_copy_holds_the_same(mine: Seq<CapSlot>, other: Seq<CapSlot>, handle: u32)
    ensures
        held(copied(mine, other), handle) == held(other, handle),
{
}

/// A check passes exactly where the handle stands for a capability of an object that is
/// there, of its present epoch, with every right that is asked for and some budget left; it
/// gives that object. Whatever is wrong is told: first the handle, then the epoch, then the
/// rights, then the budget.
pub proof fn law_check_needs_all_of_it(caps: Seq<CapSlot>, objects: Seq<Object>, handle: u32, right: u32)
    ensures
        ({
            let r = checked(caps, objects, handle, right);
            match held(caps, handle) {
                None => r == Err::<u32, CapError>(CapError::BadHandle),
                Some(c) => {
                    &&& r is Ok <==> c.object < objects.len() && objects[c.object as int].epoch == c.epoch
                        && c.rights & right == right && c.budget > 0
                    &&& r matches Ok(o) ==> o == c.object
                    &&& c.object >= objects.len() ==> r == Err::<u32, CapError>(CapError::BadHandle)
                    &&& c.object < objects.len() && objects[c.object as int].epoch != c.epoch ==> r == Err::<
                        u32,
                        CapError,
                    >(CapError::Revoked)
                    &&& c.object < objects.len() && objects[c.object as int].epoch == c.epoch && c.rights & right
                        != right ==> r == Err::<u32, CapError>(CapError::InsufficientRights)
                    &&& c.object < objects.len() && objects[c.object as int].epoch == c.epoch && c.rights & right
                        == right && c.budget == 0 ==> r == Err::<u32, CapError>(CapError::Exhausted)
                },
            }
        }),
{
}

/// A use is paid for: a capability with a budget has one use less of it after each, so it can
/// be used as often as its budget says and no more; one without a limit is not used up. Nothing
/// else of it changes.
pub proof fn law_uses_are_paid_for(c: Capability)
    ensures
        c.budget == u64::MAX ==> spent(c) == c,
        0 < c.budget < u64::MAX ==> spent(c).budget == c.budget - 1,
        spent(c).object == c.object,
        spent(c).rights == c.rights,
        spent(c).epoch == c.epoch,
{
}

/// A handle names a slot and the time it was given out for: two handles are one only where
/// both agree, so a handle to what a slot held before never stands for what it holds now.
pub proof fn law_handles_name_slot_and_generation(caps: Seq<CapSlot>, a: u32, b: u32)
    ensures
        slot_no(a) == slot_no(b) && generation_of(a) == generation_of(b) ==> a == b,
        0 <= slot_no(a) < 0x1_0000,
        0 <= generation_of(a) < 0x1_0000,
        a == generation_of(a) * 0x1_0000 + slot_no(a),
        held(caps, a) is Some && held(caps, b) is Some && slot_no(a) == slot_no(b) ==> a == b,
{
}

/// The live capabilities are those that are held: none exactly where no slot holds one.
pub proof fn law_live_capabilities_are_counted(caps: Seq<CapSlot>)
    ensures
        count_live(caps) <= caps.len(),
        count_live(caps) == 0 <==> forall|i: int| 0 <= i < caps.len() ==> (#[trigger] caps[i]).cap is None,
    decreases caps.len(),
{
    if caps.len() > 0 {
        let s = caps.drop_last();
        law_live_capabilities_are_counted(s);
        if count_live(caps) == 0 {
            assert forall|i: int| 0 <= i < caps.len() implies (#[trigger] caps[i]).cap is None by {
                if i < s.len() {
                    assert(s[i].cap is None);
                }
            }
        }
        if forall|i: int| 0 <= i < caps.len() ==> (#[trigger] caps[i]).cap is None {
            assert forall|i: int| 0 <= i < s.len() implies (#[trigger] s[i]).cap is None by {
                assert(caps[i].cap is None);
            }
            assert(caps[caps.len() - 1].cap is None);
        }
    }
}

/// Deriving takes the right to delegate and every right that is derived, on a capability that
/// is good; what is missing is told in that order.
pub proof fn law_derive_needs_delegation(caps: Seq<CapSlot>, objects: Seq<Object>, parent: u32, rights: u32)
    ensures
        ({
            let p = resolve(caps, objects, parent);
            let why = derive_refusal(caps, objects, parent, rights);
            &&& why is None <==> p is Ok && (p->Ok_0).rights & 16 == 16 && (p->Ok_0).rights & rights == rights
            &&& p matches Err(e) ==> why == Some(e)
            &&& p is Ok && (p->Ok_0).rights & 16 != 16 ==> why == Some(CapError::NotDelegatable)
            &&& p is Ok && (p->Ok_0).rights & 16 == 16 && (p->Ok_0).rights & rights != rights ==> why == Some(
                CapError::WidenAttempt,
            )
        }),
{
}

} // verus!
