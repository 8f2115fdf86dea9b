//! The kernel's record rings: one single-producer ring per CPU, merged by
//! timestamp when drained.
//!
//! A producer never waits. A full ring drops the record, counts the drop and
//! notes it on the newest unread record. An identical repeat of the newest
//! unread record is folded into it.

use vstd::prelude::*;
use vstd::multiset::Multiset;

verus! {

/// Log levels, most severe first, so that a filter is one comparison.
#[derive(Copy, Clone, PartialEq, Eq, PartialOrd, Ord, Debug, Structural)]
pub enum Level {
    /// A fault, a refusal, a deadlock: something a run is judged on.
    Error,
    /// A degraded path, taken with a printed reason.
    Warn,
    /// Ordinary progress.
    Info,
    /// Per-operation detail.
    Trace,
}

impl Level {
    /// Position in the order `Error < Warn < Info < Trace`.
    pub open spec fn rank_spec(self) -> u8 {
        match self {
            Level::Error => 0,
            Level::Warn => 1,
            Level::Info => 2,
            Level::Trace => 3,
        }
    }

    /// Position in the order `Error < Warn < Info < Trace`.
    pub fn rank(self) -> (r: u8)
        ensures
            r == self.rank_spec(),
    {
        match self {
            Level::Error => 0,
            Level::Warn => 1,
            Level::Info => 2,
            Level::Trace => 3,
        }
    }
}

/// Bytes of payload that a record can carry.
pub const PAYLOAD_MAX: usize = 96;

/// Slots per CPU ring. A power of two.
pub const SLOTS: usize = 64;

/// CPUs that the rings are sized for.
pub const MAX_RING_CPUS: usize = 8;

/// One record: a fixed header plus inline bytes.
#[derive(Copy, Clone)]
pub struct Record {
    /// Monotonic nanoseconds, supplied by the producer. The merge key of a drain.
    pub ts_ns: u64,
    /// The CPU that produced the record.
    pub cpu: u16,
    /// Bytes of `payload` that are meaningful.
    pub len: u16,
    pub level: Level,
    /// Set when the message had more than `PAYLOAD_MAX` bytes.
    pub truncated: bool,
    /// How many further identical records this one stands for.
    pub repeats: u16,
    /// Records lost to a full ring at this point of the stream.
    pub lost: u16,
    pub payload: [u8; PAYLOAD_MAX],
}

/// What a reader of a record sees: the header and the meaningful bytes.
pub struct RecordView {
    pub ts_ns: u64,
    pub cpu: u16,
    pub len: u16,
    pub level: Level,
    pub truncated: bool,
    pub repeats: u16,
    pub lost: u16,
    pub bytes: Seq<u8>,
}

/// `n` plus one, stopping at the largest value.
pub open spec fn bumped(n: u16) -> u16 {
    if n == u16::MAX {
        n
    } else {
        (n + 1) as u16
    }
}

/// `n` plus one, modulo the counter's range.
pub open spec fn next_count(n: u32) -> u32 {
    if n == u32::MAX {
        0
    } else {
        (n + 1) as u32
    }
}

/// The part of a message that fits in a record.
pub open spec fn kept_bytes(bytes: Seq<u8>) -> Seq<u8> {
    if bytes.len() <= PAYLOAD_MAX {
        bytes
    } else {
        bytes.take(PAYLOAD_MAX as int)
    }
}

impl RecordView {
    /// The record that a message becomes when it takes a slot of its own.
    pub open spec fn fresh(
        level: Level,
        cpu: u16,
        ts_ns: u64,
        bytes: Seq<u8>,
        claimed: usize,
    ) -> RecordView {
        RecordView {
            ts_ns,
            cpu,
            len: kept_bytes(bytes).len() as u16,
            level,
            truncated: claimed > PAYLOAD_MAX,
            repeats: 0,
            lost: 0,
            bytes: kept_bytes(bytes),
        }
    }

    /// Whether a message is an identical repeat of this record.
    pub open spec fn repeated_by(
        self,
        level: Level,
        cpu: u16,
        bytes: Seq<u8>,
        claimed: usize,
    ) -> bool {
        &&& self.level == level
        &&& self.cpu == cpu
        &&& !self.truncated
        &&& claimed <= PAYLOAD_MAX
        &&& self.bytes == kept_bytes(bytes)
    }

    /// This record, standing for one more.
    pub open spec fn folded(self) -> RecordView {
        RecordView { repeats: bumped(self.repeats), ..self }
    }

    /// This record, with one more loss noted behind it.
    pub open spec fn with_loss(self) -> RecordView {
        RecordView { lost: bumped(self.lost), ..self }
    }
}

impl View for Record {
    type V = RecordView;

    open spec fn view(&self) -> RecordView {
        RecordView {
            ts_ns: self.ts_ns,
            cpu: self.cpu,
            len: self.len,
            level: self.level,
            truncated: self.truncated,
            repeats: self.repeats,
            lost: self.lost,
            bytes: self.payload@.take(if self.len <= PAYLOAD_MAX { self.len as int } else { PAYLOAD_MAX as int }),
        }
    }
}

impl Record {
    /// A record with no bytes, as an unused slot holds it.
    pub fn empty() -> (r: Record)
        ensures
            r@ == RecordView::fresh(Level::Info, 0, 0, Seq::empty(), 0),
            r.len == 0,
    {
        let r = Record {
            ts_ns: 0,
            cpu: 0,
            len: 0,
            level: Level::Info,
            truncated: false,
            repeats: 0,
            lost: 0,
            payload: [0u8; PAYLOAD_MAX],
        };
        assert(r@.bytes =~= Seq::empty());
        r
    }

    /// The meaningful bytes.
    pub fn bytes(&self) -> (b: &[u8])
        ensures
            b@ == self@.bytes,
    {
        let n: usize = if (self.len as usize) < PAYLOAD_MAX { self.len as usize } else { PAYLOAD_MAX };
        vstd::slice::slice_subrange(vstd::array::array_as_slice(&self.payload), 0, n)
    }
}


/// A single-producer, single-consumer ring for one CPU.
///
/// `head` and `tail` run freely and wrap; a counter's slot is the counter
/// modulo `SLOTS`.
pub struct Ring {
    head: u32,
    tail: u32,
    dropped: u32,
    written: u32,
    coalesced: u32,
    slots: [Record; SLOTS],
}

/// The slot that a free-running counter falls on.
pub open spec fn slot_of(counter: int) -> int {
    counter % (SLOTS as int)
}

fn slot_index(counter: u32) -> (idx: usize)
    ensures
        idx == slot_of(counter as int),
        idx < SLOTS,
{
    let c: u32 = counter & 63;
    assert(c == counter % 64) by (bit_vector)
        requires
            c == counter & 63,
    ;
    c as usize
}

impl Ring {
    pub closed spec fn head(&self) -> u32 {
        self.head
    }

    pub closed spec fn tail(&self) -> u32 {
        self.tail
    }

    /// Records written so far, modulo the counter's range.
    pub closed spec fn written_count(&self) -> u32 {
        self.written
    }

    /// Records lost to a full ring so far, modulo the counter's range.
    pub closed spec fn dropped_count(&self) -> u32 {
        self.dropped
    }

    /// Records folded into an earlier one so far, modulo the counter's range.
    pub closed spec fn coalesced_count(&self) -> u32 {
        self.coalesced
    }

    /// The contents of every slot, read or not.
    pub closed spec fn slot_views(&self) -> Seq<RecordView> {
        Seq::new(SLOTS as nat, |i: int| self.slots@[i]@)
    }

    /// How many records wait to be taken.
    pub open spec fn waiting(&self) -> int {
        if self.head() >= self.tail() {
            self.head() - self.tail()
        } else {
            self.head() - self.tail() + 0x1_0000_0000
        }
    }

    /// The unread records, oldest first.
    pub open spec fn queue(&self) -> Seq<RecordView> {
        Seq::new(
            self.waiting() as nat,
            |i: int| self.slot_views()[slot_of(self.tail() + i)],
        )
    }

    /// No slot is claimed twice.
    pub open spec fn wf(&self) -> bool {
        self.waiting() <= SLOTS
    }

    /// The three counters are those of `other`.
    pub open spec fn same_counts(&self, other: &Ring) -> bool {
        &&& self.written_count() == other.written_count()
        &&& self.dropped_count() == other.dropped_count()
        &&& self.coalesced_count() == other.coalesced_count()
    }

    /// An empty ring, every slot of which holds an empty record.
    pub fn empty() -> (r: Ring)
        ensures
            r.wf(),
            r.queue() == Seq::<RecordView>::empty(),
            r.slot_views() == Seq::new(
                SLOTS as nat,
                |i: int| RecordView::fresh(Level::Info, 0, 0, Seq::empty(), 0),
            ),
            r.head() == 0,
            r.tail() == 0,
            r.written_count() == 0,
            r.dropped_count() == 0,
            r.coalesced_count() == 0,
    {
        let r = Ring {
            head: 0,
            tail: 0,
            dropped: 0,
            written: 0,
            coalesced: 0,
            slots: [Record::empty();SLOTS],
        };
        assert(r.queue() =~= Seq::<RecordView>::empty());
        assert(r.slot_views() =~= Seq::new(
            SLOTS as nat,
            |i: int| RecordView::fresh(Level::Info, 0, 0, Seq::empty(), 0),
        ));
        r
    }

    /// Records written, records lost to a full ring, and records folded into an
    /// earlier one.
    pub fn counters(&self) -> (c: (u32, u32, u32))
        ensures
            c == (self.written_count(), self.dropped_count(), self.coalesced_count()),
    {
        (self.written, self.dropped, self.coalesced)
    }

    /// Records not yet taken.
    pub fn pending(&self) -> (n: usize)
        ensures
            n == self.waiting(),
            n == self.queue().len(),
    {
        self.head.wrapping_sub(self.tail) as usize
    }

    /// The slot of the newest record that the consumer has not taken yet.
    fn newest_unread(&self) -> (idx: Option<usize>)
        ensures
            idx is None <==> self.queue().len() == 0,
            idx matches Some(i) ==> {
                &&& i < SLOTS
                &&& i == slot_of(self.tail() + self.waiting() - 1)
                &&& self.queue().last() == self.slots@[i as int]@
            },
    {
        if self.head == self.tail {
            return None;
        }
        Some(slot_index(self.head.wrapping_sub(1)))
    }

    /// Write one record. A full ring drops the record, counts it and returns
    /// false. See [`Ring::push_claimed`].
    pub fn push(&mut self, level: Level, cpu: u16, ts_ns: u64, bytes: &[u8]) -> (kept: bool)
        ensures
            push_outcome(old(self), final(self), level, cpu, ts_ns, bytes@, bytes@.len() as usize, kept),
    {
        self.push_claimed(level, cpu, ts_ns, bytes, bytes.len())
    }

    /// [`Ring::push`], with the message's true length given separately: a
    /// formatter that filled its buffer has no longer slice to hand over.
    pub fn push_claimed(
        &mut self,
        level: Level,
        cpu: u16,
        ts_ns: u64,
        bytes: &[u8],
        claimed: usize,
    ) -> (kept: bool)
        ensures
            push_outcome(old(self), final(self), level, cpu, ts_ns, bytes@, claimed, kept),
    {
        let n: usize = if bytes.len() < PAYLOAD_MAX { bytes.len() } else { PAYLOAD_MAX };
        proof {
            assert(bytes@.take(n as int) =~= kept_bytes(bytes@));
        }
        let newest = self.newest_unread();
        if let Some(i) = newest {
            let mut rec = self.slots[i];
            if repeats_record(&rec, level, cpu, bytes, claimed) {
                rec.repeats = rec.repeats.saturating_add(1);
                proof {
                    assert(rec@.bytes =~= self.slots@[i as int]@.bytes);
                    assert(rec@ == self.slots@[i as int]@.folded());
                }
                self.slots[i] = rec;
                self.coalesced = self.coalesced.wrapping_add(1);
                proof {
                    lemma_amended(old(self), self, rec@);
                }
                return true;
            }
        }
        if self.pending() >= SLOTS {
            self.dropped = self.dropped.wrapping_add(1);
            if let Some(i) = newest {
                let mut rec = self.slots[i];
                rec.lost = rec.lost.saturating_add(1);
                proof {
                    assert(rec@.bytes =~= self.slots@[i as int]@.bytes);
                    assert(rec@ == self.slots@[i as int]@.with_loss());
                }
                self.slots[i] = rec;
                proof {
                    lemma_amended(old(self), self, rec@);
                }
            }
            return false;
        }
        let idx: usize = slot_index(self.head);
        let mut payload: [u8; PAYLOAD_MAX] = self.slots[idx].payload;
        let mut k: usize = 0;
        while k < n
            invariant
                k <= n,
                n <= bytes@.len(),
                n <= PAYLOAD_MAX,
                forall|j: int| 0 <= j < k ==> payload@[j] == bytes@[j],
            decreases n - k,
        {
            payload[k] = bytes[k];
            k = k + 1;
        }
        let rec = Record {
            ts_ns,
            cpu,
            len: n as u16,
            level,
            truncated: claimed > PAYLOAD_MAX,
            repeats: 0,
            lost: 0,
            payload,
        };
        proof {
            assert(rec@.bytes =~= bytes@.take(n as int));
        }
        self.slots[idx] = rec;
        self.head = self.head.wrapping_add(1);
        self.written = self.written.wrapping_add(1);
        proof {
            lemma_pushed(old(self), self, rec@);
        }
        true
    }

    /// The oldest unread record, left in place, so that a merge can compare the
    /// fronts of several rings.
    pub fn peek(&self) -> (r: Option<&Record>)
        ensures
            r is None <==> self.queue().len() == 0,
            r matches Some(rec) ==> rec@ == self.queue().first(),
    {
        if self.head == self.tail {
            return None;
        }
        Some(&self.slots[slot_index(self.tail)])
    }

    /// Take the oldest unread record.
    pub fn pop(&mut self) -> (r: Option<Record>)
        ensures
            final(self).same_counts(old(self)),
            final(self).head() == old(self).head(),
            final(self).slot_views() == old(self).slot_views(),
            match r {
                None => old(self).queue().len() == 0 && final(self).tail() == old(self).tail()
                    && final(self).queue() == old(self).queue(),
                Some(rec) => {
                    &&& old(self).queue().len() > 0
                    &&& rec@ == old(self).queue().first()
                    &&& final(self).queue() == old(self).queue().drop_first()
                    &&& final(self).tail() == next_count(old(self).tail())
                },
            },
            old(self).wf() ==> final(self).wf(),
    {
        if self.head == self.tail {
            return None;
        }
        let r: Record = self.slots[slot_index(self.tail)];
        self.tail = self.tail.wrapping_add(1);
        proof {
            assert(self.slot_views() =~= old(self).slot_views());
            assert(self.queue() =~= old(self).queue().drop_first());
        }
        Some(r)
    }

    /// Empty the ring and zero its counters. The slots keep what they held.
    pub fn reset(&mut self)
        ensures
            final(self).wf(),
            final(self).slot_views() == old(self).slot_views(),
            final(self).queue() == Seq::<RecordView>::empty(),
            final(self).head() == 0,
            final(self).tail() == 0,
            final(self).written_count() == 0,
            final(self).dropped_count() == 0,
            final(self).coalesced_count() == 0,
    {
        self.head = 0;
        self.tail = 0;
        self.dropped = 0;
        self.written = 0;
        self.coalesced = 0;
        assert(self.slot_views() =~= old(self).slot_views());
        assert(self.queue() =~= Seq::<RecordView>::empty());
    }

    /// Place the free-running counters anywhere in their space, so that the wrap
    /// boundary can be reached without four billion pushes. The ring is well
    /// formed afterwards exactly when `tail` is at most `SLOTS` behind `head`,
    /// and empty exactly when the two are equal.
    pub fn seek_for_test(&mut self, head: u32, tail: u32)
        ensures
            final(self).head() == head,
            final(self).tail() == tail,
            final(self).slot_views() == old(self).slot_views(),
            final(self).same_counts(old(self)),
            head == tail ==> final(self).wf() && final(self).queue() == Seq::<RecordView>::empty(),
    {
        self.head = head;
        self.tail = tail;
        proof {
            assert(self.slot_views() =~= old(self).slot_views());
            assert(head == tail ==> self.queue() =~= Seq::<RecordView>::empty());
        }
    }
}

/// Whether a message is an identical repeat of `rec`.
fn repeats_record(rec: &Record, level: Level, cpu: u16, bytes: &[u8], claimed: usize) -> (same: bool)
    ensures
        same == rec@.repeated_by(level, cpu, bytes@, claimed),
{
    if rec.level != level || rec.cpu != cpu || rec.truncated || claimed > PAYLOAD_MAX {
        return false;
    }
    let n: usize = if bytes.len() < PAYLOAD_MAX { bytes.len() } else { PAYLOAD_MAX };
    let have = rec.bytes();
    proof {
        assert(bytes@.take(n as int) =~= kept_bytes(bytes@));
    }
    if have.len() != n {
        return false;
    }
    let mut k: usize = 0;
    while k < n
        invariant
            k <= n,
            n == have@.len(),
            n <= bytes@.len(),
            have@ == rec@.bytes,
            kept_bytes(bytes@) == bytes@.take(n as int),
            forall|j: int| 0 <= j < k ==> have@[j] == bytes@[j],
        decreases n - k,
    {
        if have[k] != bytes[k] {
            proof {
                assert(rec@.bytes[k as int] != kept_bytes(bytes@)[k as int]);
            }
            return false;
        }
        k = k + 1;
    }
    proof {
        assert(have@ =~= kept_bytes(bytes@));
    }
    true
}

/// Counters at most `SLOTS` apart fall on different slots.
proof fn lemma_slots_distinct()
    ensures
        forall|a: int, b: int|
            #![trigger slot_of(a), slot_of(b)]
            0 <= a < b < a + SLOTS ==> slot_of(a) != slot_of(b),
{
}

/// A ring whose newest slot alone changed has been amended.
proof fn lemma_amended(before: &Ring, after: &Ring, newest: RecordView)
    requires
        before.queue().len() > 0,
        after.head() == before.head(),
        after.tail() == before.tail(),
        after.written_count() == before.written_count(),
        after.slots@.len() == before.slots@.len(),
        forall|i: int|
            0 <= i < SLOTS && i != slot_of(before.tail() + before.waiting() - 1) ==> after.slots@[i]@
                == before.slots@[i]@,
        after.slots@[slot_of(before.tail() + before.waiting() - 1)]@ == newest,
    ensures
        amended(before, after, newest),
{
    lemma_slots_distinct();
    let at = slot_of(before.tail() + before.waiting() - 1);
    assert(after.slot_views() =~= before.slot_views().update(at, newest));
    if before.wf() {
        assert(after.queue() =~= before.queue().update(before.waiting() - 1, newest));
    }
}

/// A ring that is not full and whose next slot alone changed holds one record more.
proof fn lemma_pushed(before: &Ring, after: &Ring, rec: RecordView)
    requires
        before.queue().len() < SLOTS,
        after.head() == next_count(before.head()),
        after.tail() == before.tail(),
        after.slots@.len() == before.slots@.len(),
        forall|i: int|
            0 <= i < SLOTS && i != slot_of(before.head() as int) ==> (#[trigger] after.slots@[i])@
                == before.slots@[i]@,
        after.slots@[slot_of(before.head() as int)]@ == rec,
    ensures
        after.queue() == before.queue().push(rec),
        after.slot_views() == before.slot_views().update(slot_of(before.head() as int), rec),
        after.wf(),
{
    lemma_slots_distinct();
    assert(after.slot_views() =~= before.slot_views().update(slot_of(before.head() as int), rec));
    assert(after.waiting() == before.waiting() + 1);
    assert(after.queue() =~= before.queue().push(rec));
}

/// What offering one message to a ring does.
///
/// An identical repeat of the newest unread record is folded into it; else a
/// full ring drops the message; else the message takes the next slot.
pub open spec fn push_outcome(
    before: &Ring,
    after: &Ring,
    level: Level,
    cpu: u16,
    ts_ns: u64,
    bytes: Seq<u8>,
    claimed: usize,
    kept: bool,
) -> bool {
    let q = before.queue();
    if q.len() > 0 && q.last().repeated_by(level, cpu, bytes, claimed) {
        &&& kept
        &&& amended(before, after, q.last().folded())
        &&& after.coalesced_count() == next_count(before.coalesced_count())
        &&& after.dropped_count() == before.dropped_count()
    } else if q.len() >= SLOTS {
        &&& !kept
        &&& amended(before, after, q.last().with_loss())
        &&& after.coalesced_count() == before.coalesced_count()
        &&& after.dropped_count() == next_count(before.dropped_count())
    } else {
        &&& kept
        &&& after.queue() == q.push(RecordView::fresh(level, cpu, ts_ns, bytes, claimed))
        &&& after.slot_views() == before.slot_views().update(
            slot_of(before.head() as int),
            RecordView::fresh(level, cpu, ts_ns, bytes, claimed),
        )
        &&& after.wf()
        &&& after.tail() == before.tail()
        &&& after.head() == next_count(before.head())
        &&& after.written_count() == next_count(before.written_count())
        &&& after.coalesced_count() == before.coalesced_count()
        &&& after.dropped_count() == before.dropped_count()
    }
}

/// The newest unread record of `before` became `newest` and nothing else moved.
pub open spec fn amended(before: &Ring, after: &Ring, newest: RecordView) -> bool {
    &&& after.head() == before.head()
    &&& after.tail() == before.tail()
    &&& after.written_count() == before.written_count()
    &&& after.slot_views() == before.slot_views().update(
        slot_of(before.tail() + before.waiting() - 1),
        newest,
    )
    &&& before.wf() ==> after.queue() == before.queue().update(before.waiting() - 1, newest)
}


/// A ring that holds nothing and has counted nothing.
pub open spec fn is_blank(r: Ring) -> bool {
    &&& r.wf()
    &&& r.queue() == Seq::<RecordView>::empty()
    &&& r.head() == 0
    &&& r.tail() == 0
    &&& r.written_count() == 0
    &&& r.dropped_count() == 0
    &&& r.coalesced_count() == 0
}

/// The per-CPU rings, and the merge over them.
pub struct Rings {
    rings: Vec<Ring>,
    threshold: Level,
    buffered: bool,
    bypassed: u32,
}

/// Whether `i` is the ring to take from next: it has the oldest front, and the
/// lowest index among the rings that tie.
pub open spec fn is_oldest(rings: Seq<Ring>, i: int) -> bool {
    &&& 0 <= i < rings.len()
    &&& rings[i].queue().len() > 0
    &&& forall|j: int|
        #![trigger rings[j]]
        0 <= j < rings.len() && rings[j].queue().len() > 0 ==> {
            &&& rings[i].queue().first().ts_ns <= rings[j].queue().first().ts_ns
            &&& j < i ==> rings[i].queue().first().ts_ns < rings[j].queue().first().ts_ns
        }
}

/// The unread records of the first `n` rings, counted.
pub open spec fn total_waiting(rings: Seq<Ring>, n: nat) -> int
    decreases n,
{
    if n == 0 {
        0
    } else {
        total_waiting(rings, (n - 1) as nat) + rings[n - 1].waiting()
    }
}

/// `a + b` modulo the counters' range.
pub open spec fn count_sum(a: u32, b: u32) -> u32 {
    ((a + b) % 0x1_0000_0000) as u32
}

/// One counter summed over the first `n` rings, modulo the counter's range.
pub open spec fn total_count(counts: Seq<u32>, n: nat) -> u32
    decreases n,
{
    if n == 0 {
        0
    } else {
        count_sum(total_count(counts, (n - 1) as nat), counts[n - 1])
    }
}

impl Rings {
    /// The rings, by CPU.
    pub closed spec fn cpus(&self) -> Seq<Ring> {
        self.rings@
    }

    /// The least severe level that is recorded.
    pub closed spec fn threshold_level(&self) -> Level {
        self.threshold
    }

    /// Whether records are buffered at all.
    pub closed spec fn is_buffered(&self) -> bool {
        self.buffered
    }

    /// Records offered while buffering was off.
    pub closed spec fn bypassed_count(&self) -> u32 {
        self.bypassed
    }

    /// One ring for each CPU, each well formed.
    pub open spec fn wf(&self) -> bool {
        &&& self.cpus().len() == MAX_RING_CPUS
        &&& forall|i: int| 0 <= i < self.cpus().len() ==> #[trigger] self.cpus()[i].wf()
    }

    /// One ring for each CPU.
    pub open spec fn sized(&self) -> bool {
        self.cpus().len() == MAX_RING_CPUS
    }

    /// The settings are those of `other`.
    pub open spec fn same_settings(&self, other: &Rings) -> bool {
        &&& self.threshold_level() == other.threshold_level()
        &&& self.is_buffered() == other.is_buffered()
    }

    /// Empty rings, with buffering off and everything down to `Info` wanted.
    pub fn empty() -> (r: Rings)
        ensures
            r.wf(),
            forall|i: int| 0 <= i < MAX_RING_CPUS ==> is_blank(#[trigger] r.cpus()[i]),
            forall|i: int|
                0 <= i < MAX_RING_CPUS ==> (#[trigger] r.cpus()[i]).slot_views() == Seq::new(
                    SLOTS as nat,
                    |k: int| RecordView::fresh(Level::Info, 0, 0, Seq::empty(), 0),
                ),
            r.threshold_level() == Level::Info,
            !r.is_buffered(),
            r.bypassed_count() == 0,
    {
        let mut rings: Vec<Ring> = Vec::new();
        while rings.len() < MAX_RING_CPUS
            invariant
                rings.len() <= MAX_RING_CPUS,
                forall|i: int| 0 <= i < rings.len() ==> is_blank(#[trigger] rings@[i]),
                forall|i: int|
                    0 <= i < rings.len() ==> (#[trigger] rings@[i]).slot_views() == Seq::new(
                        SLOTS as nat,
                        |k: int| RecordView::fresh(Level::Info, 0, 0, Seq::empty(), 0),
                    ),
            decreases MAX_RING_CPUS - rings.len(),
        {
            rings.push(Ring::empty());
        }
        Rings { rings, threshold: Level::Info, buffered: false, bypassed: 0 }
    }

    /// Turn buffering on or off.
    pub fn set_buffered(&mut self, on: bool)
        ensures
            final(self).is_buffered() == on,
            final(self).cpus() == old(self).cpus(),
            final(self).threshold_level() == old(self).threshold_level(),
            final(self).bypassed_count() == old(self).bypassed_count(),
    {
        self.buffered = on;
    }

    /// Whether records are buffered.
    pub fn buffered(&self) -> (on: bool)
        ensures
            on == self.is_buffered(),
    {
        self.buffered
    }

    /// Set the least severe level that is recorded.
    pub fn set_threshold(&mut self, level: Level)
        ensures
            final(self).threshold_level() == level,
            final(self).cpus() == old(self).cpus(),
            final(self).is_buffered() == old(self).is_buffered(),
            final(self).bypassed_count() == old(self).bypassed_count(),
    {
        self.threshold = level;
    }

    /// Whether a record at `level` would be kept.
    pub fn wants(&self, level: Level) -> (yes: bool)
        ensures
            yes == (self.is_buffered() && level.rank_spec() <= self.threshold_level().rank_spec()),
    {
        self.buffered && level.rank() <= self.threshold.rank()
    }

    /// Record one message from `cpu`. False when it was dropped or not wanted.
    pub fn push(&mut self, level: Level, cpu: u16, ts_ns: u64, bytes: &[u8]) -> (kept: bool)
        requires
            old(self).sized(),
        ensures
            rings_push_outcome(
                old(self),
                final(self),
                level,
                cpu,
                ts_ns,
                bytes@,
                bytes@.len() as usize,
                kept,
            ),
    {
        self.push_claimed(level, cpu, ts_ns, bytes, bytes.len())
    }

    /// [`Rings::push`], where the message was longer than the bytes at hand.
    pub fn push_claimed(
        &mut self,
        level: Level,
        cpu: u16,
        ts_ns: u64,
        bytes: &[u8],
        claimed: usize,
    ) -> (kept: bool)
        requires
            old(self).sized(),
        ensures
            rings_push_outcome(old(self), final(self), level, cpu, ts_ns, bytes@, claimed, kept),
    {
        if !self.buffered {
            self.bypassed = self.bypassed.wrapping_add(1);
            return false;
        }
        if level.rank() > self.threshold.rank() {
            return false;
        }
        let i: usize = cpu as usize;
        if i >= self.rings.len() {
            let d: u32 = self.rings[0].dropped;
            self.rings[0].dropped = d.wrapping_add(1);
            proof {
                assert(self.rings@[0].slot_views() =~= old(self).rings@[0].slot_views());
                assert(self.rings@ =~= old(self).rings@.update(0, self.rings@[0]));
            }
            return false;
        }
        let kept: bool = self.rings[i].push_claimed(level, cpu, ts_ns, bytes, claimed);
        proof {
            assert(self.rings@ =~= old(self).rings@.update(i as int, self.rings@[i as int]));
        }
        kept
    }

    /// Take the globally oldest unread record. Ties go to the lowest CPU.
    pub fn pop_oldest(&mut self) -> (r: Option<Record>)
        ensures
            final(self).same_settings(old(self)),
            final(self).bypassed_count() == old(self).bypassed_count(),
            r is None ==> final(self).cpus() == old(self).cpus() && forall|i: int|
                0 <= i < old(self).cpus().len() ==> #[trigger] old(self).cpus()[i].queue().len()
                    == 0,
            r matches Some(rec) ==> exists|i: int|
                {
                    &&& #[trigger] is_oldest(old(self).cpus(), i)
                    &&& rec@ == old(self).cpus()[i].queue().first()
                    &&& taken_from(old(self).cpus(), final(self).cpus(), i)
                },
    {
        let mut best: Option<(usize, u64)> = None;
        let mut i: usize = 0;
        while i < self.rings.len()
            invariant
                i <= self.rings.len(),
                *self == *old(self),
                best is None ==> forall|j: int|
                    0 <= j < i ==> #[trigger] self.rings@[j].queue().len() == 0,
                best matches Some((b, ts)) ==> {
                    &&& b < i
                    &&& is_oldest(self.rings@.take(i as int), b as int)
                    &&& ts == self.rings@[b as int].queue().first().ts_ns
                },
            decreases self.rings.len() - i,
        {
            let front = self.rings[i].peek();
            let ghost seen = self.rings@.take(i as int);
            let ghost next = self.rings@.take(i + 1);
            proof {
                assert forall|j: int| 0 <= j < i implies #[trigger] next[j] == seen[j] by {}
            }
            if let Some(rec) = front {
                match best {
                    Some((b, ts)) => {
                        if rec.ts_ns < ts {
                            best = Some((i, rec.ts_ns));
                        }
                    },
                    None => {
                        best = Some((i, rec.ts_ns));
                    },
                }
            }
            i = i + 1;
        }
        proof {
            assert(self.rings@.take(i as int) =~= self.rings@);
        }
        match best {
            None => None,
            Some((b, _ts)) => {
                let r = self.rings[b].pop();
                proof {
                    assert(self.rings@ =~= old(self).rings@.update(b as int, self.rings@[b as int]));
                    assert(is_oldest(old(self).cpus(), b as int));
                }
                r
            },
        }
    }

    /// Records written, dropped and folded, summed over every CPU, and records
    /// offered while buffering was off.
    pub fn counters(&self) -> (c: (u32, u32, u32, u32))
        ensures
            c.0 == total_count(
                self.cpus().map_values(|r: Ring| r.written_count()),
                self.cpus().len(),
            ),
            c.1 == total_count(
                self.cpus().map_values(|r: Ring| r.dropped_count()),
                self.cpus().len(),
            ),
            c.2 == total_count(
                self.cpus().map_values(|r: Ring| r.coalesced_count()),
                self.cpus().len(),
            ),
            c.3 == self.bypassed_count(),
    {
        let ghost ws = self.cpus().map_values(|r: Ring| r.written_count());
        let ghost ds = self.cpus().map_values(|r: Ring| r.dropped_count());
        let ghost cs = self.cpus().map_values(|r: Ring| r.coalesced_count());
        let mut w: u32 = 0;
        let mut d: u32 = 0;
        let mut c: u32 = 0;
        let mut i: usize = 0;
        while i < self.rings.len()
            invariant
                i <= self.rings.len(),
                ws == self.rings@.map_values(|r: Ring| r.written_count()),
                ds == self.rings@.map_values(|r: Ring| r.dropped_count()),
                cs == self.rings@.map_values(|r: Ring| r.coalesced_count()),
                w == total_count(ws, i as nat),
                d == total_count(ds, i as nat),
                c == total_count(cs, i as nat),
            decreases self.rings.len() - i,
        {
            let (rw, rd, rc) = self.rings[i].counters();
            w = w.wrapping_add(rw);
            d = d.wrapping_add(rd);
            c = c.wrapping_add(rc);
            i = i + 1;
        }
        (w, d, c, self.bypassed)
    }

    /// Records buffered and not yet drained.
    pub fn pending(&self) -> (n: usize)
        requires
            self.wf(),
        ensures
            n == total_waiting(self.cpus(), self.cpus().len()),
    {
        let mut n: usize = 0;
        let mut i: usize = 0;
        proof {
            law_pending_is_bounded(self.rings@, self.rings@.len());
        }
        while i < self.rings.len()
            invariant
                i <= self.rings.len(),
                n == total_waiting(self.rings@, i as nat),
                total_waiting(self.rings@, self.rings@.len()) <= usize::MAX,
            decreases self.rings.len() - i,
        {
            proof {
                lemma_total_waiting_grows(self.rings@, (i + 1) as nat, self.rings@.len());
            }
            n = n + self.rings[i].pending();
            i = i + 1;
        }
        n
    }

    /// Clear the rings and restore the settings.
    pub fn reset(&mut self)
        ensures
            final(self).cpus().len() == old(self).cpus().len(),
            forall|i: int|
                0 <= i < final(self).cpus().len() ==> {
                    let r = #[trigger] final(self).cpus()[i];
                    &&& is_blank(r)
                    &&& r.slot_views() == old(self).cpus()[i].slot_views()
                },
            final(self).threshold_level() == Level::Info,
            !final(self).is_buffered(),
            final(self).bypassed_count() == 0,
    {
        let mut i: usize = 0;
        while i < self.rings.len()
            invariant
                i <= self.rings.len(),
                self.rings@.len() == old(self).rings@.len(),
                forall|j: int|
                    0 <= j < i ==> {
                        let r = #[trigger] self.rings@[j];
                        &&& is_blank(r)
                        &&& r.slot_views() == old(self).rings@[j].slot_views()
                    },
                forall|j: int|
                    i <= j < self.rings@.len() ==> #[trigger] self.rings@[j] == old(self).rings@[j],
            decreases self.rings.len() - i,
        {
            self.rings[i].reset();
            i = i + 1;
        }
        self.bypassed = 0;
        self.buffered = false;
        self.threshold = Level::Info;
    }
}

/// What offering one message to the rings does: refused while buffering is off
/// (and counted), refused above the threshold, counted as a drop of CPU 0 when
/// there is no ring for `cpu`, and else offered to the ring of `cpu`.
pub open spec fn rings_push_outcome(
    before: &Rings,
    after: &Rings,
    level: Level,
    cpu: u16,
    ts_ns: u64,
    bytes: Seq<u8>,
    claimed: usize,
    kept: bool,
) -> bool {
    &&& after.same_settings(before)
    &&& after.cpus().len() == before.cpus().len()
    &&& if !before.is_buffered() {
        &&& !kept
        &&& after.cpus() == before.cpus()
        &&& after.bypassed_count() == next_count(before.bypassed_count())
    } else if level.rank_spec() > before.threshold_level().rank_spec() {
        &&& !kept
        &&& after.cpus() == before.cpus()
        &&& after.bypassed_count() == before.bypassed_count()
    } else {
        let i = if cpu < before.cpus().len() {
            cpu as int
        } else {
            0
        };
        &&& after.bypassed_count() == before.bypassed_count()
        &&& after.cpus() == before.cpus().update(i, after.cpus()[i])
        &&& if cpu < before.cpus().len() {
            push_outcome(
                &before.cpus()[i],
                &after.cpus()[i],
                level,
                cpu,
                ts_ns,
                bytes,
                claimed,
                kept,
            )
        } else {
            &&& !kept
            &&& after.cpus()[i].dropped_count() == next_count(before.cpus()[i].dropped_count())
            &&& after.cpus()[i].written_count() == before.cpus()[i].written_count()
            &&& after.cpus()[i].coalesced_count() == before.cpus()[i].coalesced_count()
            &&& after.cpus()[i].head() == before.cpus()[i].head()
            &&& after.cpus()[i].tail() == before.cpus()[i].tail()
            &&& after.cpus()[i].slot_views() == before.cpus()[i].slot_views()
        }
    }
}

/// The front of ring `i` was taken and nothing else moved.
pub open spec fn taken_from(before: Seq<Ring>, after: Seq<Ring>, i: int) -> bool {
    &&& after.len() == before.len()
    &&& after == before.update(i, after[i])
    &&& after[i].queue() == before[i].queue().drop_first()
    &&& after[i].tail() == next_count(before[i].tail())
    &&& after[i].head() == before[i].head()
    &&& after[i].slot_views() == before[i].slot_views()
    &&& after[i].same_counts(&before[i])
    &&& before[i].wf() ==> after[i].wf()
}

proof fn lemma_total_waiting_grows(rings: Seq<Ring>, a: nat, b: nat)
    requires
        a <= b,
    ensures
        total_waiting(rings, a) <= total_waiting(rings, b),
    decreases b,
{
    if a < b {
        lemma_total_waiting_grows(rings, a, (b - 1) as nat);
    }
}


/// Every message offered to a ring is counted once: as written, as folded or as
/// dropped.
pub proof fn law_offer_counted_once(
    before: &Ring,
    after: &Ring,
    level: Level,
    cpu: u16,
    ts_ns: u64,
    bytes: Seq<u8>,
    claimed: usize,
    kept: bool,
)
    requires
        push_outcome(before, after, level, cpu, ts_ns, bytes, claimed, kept),
    ensures
        ({
            let w = after.written_count() == next_count(before.written_count());
            let d = after.dropped_count() == next_count(before.dropped_count());
            let c = after.coalesced_count() == next_count(before.coalesced_count());
            &&& w || after.written_count() == before.written_count()
            &&& d || after.dropped_count() == before.dropped_count()
            &&& c || after.coalesced_count() == before.coalesced_count()
            &&& (w && !d && !c) || (!w && d && !c) || (!w && !d && c)
            &&& kept == !d
        }),
{
}

/// Offering a message keeps a ring well formed, and leaves every unread record
/// but the newest as it was.
pub proof fn law_offer_keeps_older_records(
    before: &Ring,
    after: &Ring,
    level: Level,
    cpu: u16,
    ts_ns: u64,
    bytes: Seq<u8>,
    claimed: usize,
    kept: bool,
)
    requires
        before.wf(),
        push_outcome(before, after, level, cpu, ts_ns, bytes, claimed, kept),
    ensures
        after.wf(),
        after.queue().len() >= before.queue().len(),
        forall|i: int|
            0 <= i < before.queue().len() - 1 ==> #[trigger] after.queue()[i] == before.queue()[i],
        before.queue().len() > 0 ==> {
            let last = before.queue().len() - 1;
            &&& after.queue()[last].ts_ns == before.queue()[last].ts_ns
            &&& after.queue()[last].bytes == before.queue()[last].bytes
        },
{
}

/// A message that is dropped is noted on the newest unread record, so a reader
/// sees where the loss was.
pub proof fn law_loss_keeps_its_place(
    before: &Ring,
    after: &Ring,
    level: Level,
    cpu: u16,
    ts_ns: u64,
    bytes: Seq<u8>,
    claimed: usize,
)
    requires
        before.wf(),
        push_outcome(before, after, level, cpu, ts_ns, bytes, claimed, false),
    ensures
        after.queue().len() == SLOTS,
        after.queue() == before.queue().update(SLOTS - 1, before.queue().last().with_loss()),
{
}

/// The records of a ring are in the order of their timestamps.
pub open spec fn in_time_order(q: Seq<RecordView>) -> bool {
    forall|i: int, j: int| 0 <= i <= j < q.len() ==> #[trigger] q[i].ts_ns <= #[trigger] q[j].ts_ns
}

/// Every ring is in the order of its timestamps.
pub open spec fn all_in_time_order(rings: Seq<Ring>) -> bool {
    forall|i: int| 0 <= i < rings.len() ==> #[trigger] in_time_order(rings[i].queue())
}

/// A drain comes out in the order of the timestamps: whatever is left when the
/// oldest record is taken is no older than it, and the rings stay ordered.
pub proof fn law_drain_in_time_order(before: Seq<Ring>, after: Seq<Ring>, i: int)
    requires
        all_in_time_order(before),
        is_oldest(before, i),
        taken_from(before, after, i),
    ensures
        all_in_time_order(after),
        forall|j: int, k: int|
            0 <= j < after.len() && 0 <= k < after[j].queue().len()
                ==> before[i].queue().first().ts_ns <= #[trigger] after[j].queue()[k].ts_ns,
{
    assert forall|j: int| 0 <= j < after.len() implies #[trigger] in_time_order(
        after[j].queue(),
    ) by {
        assert(in_time_order(before[j].queue()));
        if j == i {
            assert forall|a: int, b: int|
                0 <= a <= b < after[j].queue().len() implies #[trigger] after[j].queue()[a].ts_ns
                <= #[trigger] after[j].queue()[b].ts_ns by {
                assert(before[j].queue()[a + 1].ts_ns <= before[j].queue()[b + 1].ts_ns);
            }
        }
    }
    assert forall|j: int, k: int|
        0 <= j < after.len() && 0 <= k < after[j].queue().len() implies before[i].queue().first().ts_ns
        <= #[trigger] after[j].queue()[k].ts_ns by {
        assert(in_time_order(before[j].queue()));
        let at = if j == i { k + 1 } else { k };
        assert(after[j].queue()[k] == before[j].queue()[at]);
        assert(before[j].queue()[0].ts_ns <= before[j].queue()[at].ts_ns);
        assert(before[j].queue().len() > 0);
    }
}

/// The drain order is deterministic: at most one ring is the oldest.
pub proof fn law_oldest_is_unique(rings: Seq<Ring>, i: int, j: int)
    requires
        is_oldest(rings, i),
        is_oldest(rings, j),
    ensures
        i == j,
{
}

/// Well-formed rings hold at most `SLOTS` records for each CPU.
pub proof fn law_pending_is_bounded(rings: Seq<Ring>, n: nat)
    requires
        n <= rings.len(),
        forall|i: int| 0 <= i < rings.len() ==> #[trigger] rings[i].wf(),
    ensures
        0 <= total_waiting(rings, n) <= n * SLOTS,
    decreases n,
{
    if n > 0 {
        law_pending_is_bounded(rings, (n - 1) as nat);
        assert(rings[n - 1].wf());
    }
}

/// What the length in a record says is how many bytes it has.
pub open spec fn true_length(r: RecordView) -> bool {
    r.len == r.bytes.len()
}

/// The length in a record is that of its bytes: it is so of a record that a message
/// becomes, and stays so when the record is folded into or a loss is noted on it.
pub proof fn law_length_counts_the_bytes(
    r: RecordView,
    level: Level,
    cpu: u16,
    ts_ns: u64,
    bytes: Seq<u8>,
    claimed: usize,
)
    ensures
        true_length(RecordView::fresh(level, cpu, ts_ns, bytes, claimed)),
        true_length(r) ==> true_length(r.folded()) && true_length(r.with_loss()),
{
}

/// One use of a ring.
pub enum Use {
    /// A message was offered, and kept or not.
    Offer {
        level: Level,
        cpu: u16,
        ts_ns: u64,
        bytes: Seq<u8>,
        claimed: usize,
        kept: bool,
    },
    /// The oldest record was asked for.
    Take(Option<RecordView>),
}

/// What a use does to a ring.
pub open spec fn used(before: &Ring, after: &Ring, u: Use) -> bool {
    match u {
        Use::Offer { level, cpu, ts_ns, bytes, claimed, kept } => push_outcome(
            before,
            after,
            level,
            cpu,
            ts_ns,
            bytes,
            claimed,
            kept,
        ),
        Use::Take(r) => match r {
            None => before.queue().len() == 0 && after.queue() == before.queue(),
            Some(rec) => {
                &&& before.queue().len() > 0
                &&& rec == before.queue().first()
                &&& after.queue() == before.queue().drop_first()
            },
        },
    }
}

/// Whether a use of a ring counts on a record whose count is at its end.
pub open spec fn overcounts(before: &Ring, u: Use) -> bool {
    let q = before.queue();
    match u {
        Use::Offer { level, cpu, ts_ns, bytes, claimed, kept } => if q.len() > 0
            && q.last().repeated_by(level, cpu, bytes, claimed) {
            q.last().repeats == u16::MAX
        } else {
            q.len() >= SLOTS && q.last().lost == u16::MAX
        },
        Use::Take(_) => false,
    }
}

/// The first `n` uses of a ring, from state to state.
pub open spec fn history(rings: Seq<Ring>, uses: Seq<Use>, n: nat) -> bool {
    &&& n < rings.len()
    &&& n <= uses.len()
    &&& forall|k: int|
        0 <= k < n ==> (#[trigger] rings[k]).wf() && used(&rings[k], &rings[k + 1], uses[k])
}

/// What was taken in the first `n` uses, in order.
pub open spec fn taken_out(uses: Seq<Use>, n: nat) -> Seq<RecordView>
    decreases n,
{
    if n == 0 {
        Seq::empty()
    } else {
        let before = taken_out(uses, (n - 1) as nat);
        match uses[n - 1] {
            Use::Take(Some(r)) => before.push(r),
            _ => before,
        }
    }
}

/// How many of the first `n` uses were messages that were kept (or not).
pub open spec fn offers(uses: Seq<Use>, n: nat, want: bool) -> nat
    decreases n,
{
    if n == 0 {
        0
    } else {
        offers(uses, (n - 1) as nat, want) + match uses[n - 1] {
            Use::Offer { level, cpu, ts_ns, bytes, claimed, kept } => if kept == want {
                1nat
            } else {
                0
            },
            _ => 0,
        }
    }
}

/// The records that messages of the first `n` uses became, in the order of the uses.
pub open spec fn begun(rings: Seq<Ring>, uses: Seq<Use>, n: nat) -> Seq<RecordView>
    decreases n,
{
    if n == 0 {
        Seq::empty()
    } else {
        let before = begun(rings, uses, (n - 1) as nat);
        let q = rings[n - 1].queue();
        match uses[n - 1] {
            Use::Offer { level, cpu, ts_ns, bytes, claimed, kept } => if kept && !(q.len() > 0
                && q.last().repeated_by(level, cpu, bytes, claimed)) {
                before.push(RecordView::fresh(level, cpu, ts_ns, bytes, claimed))
            } else {
                before
            },
            _ => before,
        }
    }
}

/// A record as it was when it was begun.
pub open spec fn as_begun(r: RecordView) -> RecordView {
    RecordView { repeats: 0, lost: 0, ..r }
}

/// How many messages some records stand for.
pub open spec fn messages(s: Seq<RecordView>) -> nat
    decreases s.len(),
{
    if s.len() == 0 {
        0
    } else {
        messages(s.drop_last()) + 1 + s.last().repeats as nat
    }
}

/// How many losses some records note.
pub open spec fn losses(s: Seq<RecordView>) -> nat
    decreases s.len(),
{
    if s.len() == 0 {
        0
    } else {
        losses(s.drop_last()) + s.last().lost as nat
    }
}

/// Over any run of offers and takes of a ring that starts empty, what was taken followed
/// by what waits is what the messages became, in the order of the messages; the records
/// stand for exactly the messages that were kept, and note exactly those that were not.
/// Only a count that would pass its end is left out.
pub proof fn law_ring_loses_nothing_untold(rings: Seq<Ring>, uses: Seq<Use>, n: nat)
    requires
        history(rings, uses, n),
        rings[0].queue() == Seq::<RecordView>::empty(),
        forall|k: int| 0 <= k < n ==> !overcounts(&#[trigger] rings[k], uses[k]),
    ensures
        ({
            let all = taken_out(uses, n) + rings[n as int].queue();
            &&& all.map_values(|r: RecordView| as_begun(r)) == begun(rings, uses, n)
            &&& messages(all) == offers(uses, n, true)
            &&& losses(all) == offers(uses, n, false)
        }),
    decreases n,
{
    let bare = |r: RecordView| as_begun(r);
    let all = taken_out(uses, n) + rings[n as int].queue();
    if n == 0 {
        assert(all =~= Seq::<RecordView>::empty());
        assert(all.map_values(bare) =~= Seq::<RecordView>::empty());
    } else {
        let m = (n - 1) as nat;
        law_ring_loses_nothing_untold(rings, uses, m);
        let before = &rings[m as int];
        let after = &rings[n as int];
        let q = before.queue();
        let past = taken_out(uses, m);
        let had = past + q;
        assert(used(before, after, uses[m as int]) && before.wf());
        assert(!overcounts(&rings[m as int], uses[m as int]));
        match uses[m as int] {
            Use::Offer { level, cpu, ts_ns, bytes, claimed, kept } => {
                if q.len() > 0 && q.last().repeated_by(level, cpu, bytes, claimed) {
                    lemma_newest_amended(past, q, after.queue(), q.last().folded());
                } else if q.len() >= SLOTS {
                    lemma_newest_amended(past, q, after.queue(), q.last().with_loss());
                } else {
                    let r = RecordView::fresh(level, cpu, ts_ns, bytes, claimed);
                    assert(all =~= had.push(r));
                    assert(all.drop_last() =~= had);
                    assert(all.map_values(bare) =~= had.map_values(bare).push(r));
                }
            },
            Use::Take(r) => {
                match r {
                    None => {
                        assert(all =~= had);
                    },
                    Some(rec) => {
                        assert(all =~= had);
                    },
                }
            },
        }
    }
}

proof fn lemma_newest_amended(
    past: Seq<RecordView>,
    before: Seq<RecordView>,
    after: Seq<RecordView>,
    newest: RecordView,
)
    requires
        before.len() > 0,
        after == before.update(before.len() - 1, newest),
        as_begun(newest) == as_begun(before.last()),
    ensures
        (past + after).map_values(|r: RecordView| as_begun(r)) == (past + before).map_values(
            |r: RecordView| as_begun(r),
        ),
        messages(past + after) + before.last().repeats == messages(past + before) + newest.repeats,
        losses(past + after) + before.last().lost == losses(past + before) + newest.lost,
{
    assert((past + after).drop_last() =~= (past + before).drop_last());
    assert((past + after).last() == newest);
    assert((past + before).last() == before.last());
    assert((past + after).map_values(|r: RecordView| as_begun(r)) =~= (past + before).map_values(
        |r: RecordView| as_begun(r),
    ));
}

/// Everything that waits in the first `n` rings.
pub open spec fn all_waiting(rings: Seq<Ring>, n: nat) -> Multiset<RecordView>
    decreases n,
{
    if n == 0 {
        Multiset::empty()
    } else {
        all_waiting(rings, (n - 1) as nat).add(rings[n - 1].queue().to_multiset())
    }
}

/// The first `n` records of a drain: each is the oldest of what waited, and is taken.
pub open spec fn drained(
    states: Seq<Seq<Ring>>,
    at: Seq<int>,
    out: Seq<RecordView>,
    n: nat,
) -> bool {
    &&& states.len() == n + 1
    &&& at.len() == n
    &&& out.len() == n
    &&& forall|k: int|
        0 <= k < n ==> {
            &&& is_oldest(#[trigger] states[k], at[k])
            &&& taken_from(states[k], states[k + 1], at[k])
            &&& out[k] == states[k][at[k]].queue().first()
        }
}

/// Nothing that waits is older than `bound`.
pub open spec fn none_older(rings: Seq<Ring>, bound: u64) -> bool {
    forall|j: int, k: int|
        0 <= j < rings.len() && 0 <= k < rings[j].queue().len() ==> bound
            <= #[trigger] rings[j].queue()[k].ts_ns
}

/// A drain that goes on until nothing waits gives everything that waited, each record
/// once, in the order of the timestamps.
pub proof fn law_drain_is_a_sorted_permutation(
    states: Seq<Seq<Ring>>,
    at: Seq<int>,
    out: Seq<RecordView>,
    n: nat,
)
    requires
        drained(states, at, out, n),
        all_in_time_order(states[0]),
        forall|i: int| 0 <= i < states[n as int].len() ==> (#[trigger] states[n as int][i]).queue().len() == 0,
    ensures
        in_time_order(out),
        out.to_multiset() == all_waiting(states[0], states[0].len()),
{
    lemma_drain_keeps_all(states, at, out, n, n);
    lemma_none_waits(states[n as int], states[n as int].len());
    assert(out.take(n as int) =~= out);
    assert(out.to_multiset().add(Multiset::<RecordView>::empty()) =~= out.to_multiset());
    assert forall|i: int, j: int| 0 <= i <= j < out.len() implies #[trigger] out[i].ts_ns
        <= #[trigger] out[j].ts_ns by {
        if i < j {
            lemma_drain_ordered(states, at, out, n, i, j);
            let r = states[j][at[j]];
            assert(is_oldest(states[j], at[j]));
            assert(r.queue()[0].ts_ns == out[j].ts_ns);
        }
    }
}

proof fn lemma_none_waits(rings: Seq<Ring>, n: nat)
    requires
        n <= rings.len(),
        forall|i: int| 0 <= i < rings.len() ==> (#[trigger] rings[i]).queue().len() == 0,
    ensures
        all_waiting(rings, n) == Multiset::<RecordView>::empty(),
    decreases n,
{
    if n > 0 {
        lemma_none_waits(rings, (n - 1) as nat);
        let q = rings[n - 1].queue();
        assert(q =~= Seq::<RecordView>::empty());
        q.to_multiset_ensures();
        assert(q.to_multiset().len() == 0);
        assert(all_waiting(rings, n) =~= Multiset::<RecordView>::empty());
    }
}

/// What was drained and what still waits are together what waited at first.
proof fn lemma_drain_keeps_all(
    states: Seq<Seq<Ring>>,
    at: Seq<int>,
    out: Seq<RecordView>,
    n: nat,
    k: nat,
)
    requires
        drained(states, at, out, n),
        k <= n,
    ensures
        states[k as int].len() == states[0].len(),
        out.take(k as int).to_multiset().add(all_waiting(states[k as int], states[0].len()))
            == all_waiting(states[0], states[0].len()),
    decreases k,
{
    if k == 0 {
        assert(out.take(0) =~= Seq::<RecordView>::empty());
        out.take(0).to_multiset_ensures();
        assert(out.take(0).to_multiset() =~= Multiset::<RecordView>::empty());
        assert(out.take(0).to_multiset().add(all_waiting(states[0], states[0].len()))
            =~= all_waiting(states[0], states[0].len()));
    } else {
        let m = (k - 1) as nat;
        lemma_drain_keeps_all(states, at, out, n, m);
        assert(is_oldest(states[m as int], at[m as int]));
        lemma_taken_one(states[m as int], states[k as int], at[m as int], states[0].len());
        let so_far = out.take(m as int);
        assert(out.take(k as int) =~= so_far.push(out[m as int]));
        so_far.to_multiset_ensures();
        assert(out.take(k as int).to_multiset() =~= so_far.to_multiset().insert(out[m as int]));
        assert(out.take(k as int).to_multiset().add(
            all_waiting(states[k as int], states[0].len()),
        ) =~= so_far.to_multiset().add(all_waiting(states[m as int], states[0].len())));
    }
}

/// Taking the front of a ring takes it from what waits in all of them.
proof fn lemma_taken_one(before: Seq<Ring>, after: Seq<Ring>, i: int, n: nat)
    requires
        0 <= i < before.len(),
        n <= before.len(),
        before[i].queue().len() > 0,
        taken_from(before, after, i),
    ensures
        all_waiting(before, n) == (if i < n {
            all_waiting(after, n).insert(before[i].queue().first())
        } else {
            all_waiting(after, n)
        }),
    decreases n,
{
    if n > 0 {
        lemma_taken_one(before, after, i, (n - 1) as nat);
        if i == n - 1 {
            let q = before[i].queue();
            let rest = q.drop_first();
            let front = seq![q.first()];
            assert(q =~= front + rest);
            vstd::seq_lib::lemma_multiset_commutative(front, rest);
            Seq::<RecordView>::empty().to_multiset_ensures();
            assert(front =~= Seq::<RecordView>::empty().push(q.first()));
            assert(front.to_multiset() =~= Multiset::<RecordView>::empty().insert(q.first())) by {
                assert(Seq::<RecordView>::empty().to_multiset().len() == 0);
                assert(Seq::<RecordView>::empty().to_multiset() =~= Multiset::<RecordView>::empty());
            }
            assert(all_waiting(before, n) =~= all_waiting(after, n).insert(q.first()));
        } else {
            assert(after[n - 1] == before[n - 1]);
            assert(all_waiting(before, n) =~= (if i < n {
                all_waiting(after, n).insert(before[i].queue().first())
            } else {
                all_waiting(after, n)
            }));
        }
    }
}

/// What a drain gives later is no older.
proof fn lemma_drain_ordered(
    states: Seq<Seq<Ring>>,
    at: Seq<int>,
    out: Seq<RecordView>,
    n: nat,
    i: int,
    j: int,
)
    requires
        drained(states, at, out, n),
        all_in_time_order(states[0]),
        0 <= i < j <= n,
    ensures
        all_in_time_order(states[j]),
        none_older(states[j], out[i].ts_ns),
    decreases j,
{
    assert(is_oldest(states[j - 1], at[j - 1]));
    if j - 1 > 0 {
        lemma_drain_ordered(states, at, out, n, if i < j - 1 { i } else { j - 2 }, j - 1);
    }
    law_drain_in_time_order(states[j - 1], states[j], at[j - 1]);
    if i < j - 1 {
        let before = states[j - 1];
        let after = states[j];
        assert forall|a: int, b: int|
            0 <= a < after.len() && 0 <= b < after[a].queue().len() implies out[i].ts_ns
            <= #[trigger] after[a].queue()[b].ts_ns by {
            let c = if a == at[j - 1] {
                b + 1
            } else {
                b
            };
            assert(after[a].queue()[b] == before[a].queue()[c]);
        }
    }
}

/// The levels are ranked from the gravest on, no two alike.
pub proof fn law_levels_are_ranked(a: Level, b: Level)
    ensures
        Level::Error.rank_spec() < Level::Warn.rank_spec(),
        Level::Warn.rank_spec() < Level::Info.rank_spec(),
        Level::Info.rank_spec() < Level::Trace.rank_spec(),
        a.rank_spec() == b.rank_spec() ==> a == b,
{
}

/// A record holds what was said, as far as there is room: its bytes are the first ones of
/// the message, all of them where they fit, and it says whether the message was longer. It
/// has the time, the CPU and the level it was offered with, and nothing on its account yet.
pub proof fn law_record_holds_what_was_said(level: Level, cpu: u16, ts_ns: u64, bytes: Seq<u8>, claimed: usize, i: int)
    ensures
        ({
            let r = RecordView::fresh(level, cpu, ts_ns, bytes, claimed);
            &&& r.level == level
            &&& r.cpu == cpu
            &&& r.ts_ns == ts_ns
            &&& r.repeats == 0
            &&& r.lost == 0
            &&& r.truncated == (claimed > PAYLOAD_MAX)
            &&& r.bytes.len() <= PAYLOAD_MAX
            &&& bytes.len() <= PAYLOAD_MAX ==> r.bytes == bytes
            &&& bytes.len() > PAYLOAD_MAX ==> r.bytes.len() == PAYLOAD_MAX
            &&& 0 <= i < r.bytes.len() ==> r.bytes[i] == bytes[i]
        }),
{
}

/// Only what is asked for is kept, and where it belongs: a message below the threshold
/// changes nothing, one while nothing is buffered is only counted, and any other goes to the
/// ring of its own CPU, the other rings staying as they are.
pub proof fn law_messages_go_to_their_ring(
    before: &Rings,
    after: &Rings,
    level: Level,
    cpu: u16,
    ts_ns: u64,
    bytes: Seq<u8>,
    claimed: usize,
    kept: bool,
    j: int,
)
    requires
        before.wf(),
        rings_push_outcome(before, after, level, cpu, ts_ns, bytes, claimed, kept),
        0 <= j < before.cpus().len(),
    ensures
        !before.is_buffered() ==> !kept && after.cpus() == before.cpus() && (before.bypassed_count() < u32::MAX
            ==> after.bypassed_count() == before.bypassed_count() + 1),
        before.is_buffered() ==> after.bypassed_count() == before.bypassed_count(),
        before.is_buffered() && level.rank_spec() > before.threshold_level().rank_spec() ==> !kept
            && after.cpus() == before.cpus(),
        cpu < before.cpus().len() && j != cpu ==> after.cpus()[j] == before.cpus()[j],
        cpu >= before.cpus().len() ==> !kept && after.cpus()[j].queue() == before.cpus()[j].queue(),
        kept ==> cpu < before.cpus().len() && before.is_buffered() && level.rank_spec()
            <= before.threshold_level().rank_spec() && after.cpus()[cpu as int].queue().len() >= 1,
        kept ==> after.cpus()[cpu as int].queue().last().bytes == kept_bytes(bytes),
        kept ==> after.cpus()[cpu as int].queue().last().level == level,
{
    if cpu >= before.cpus().len() {
        assert(after.cpus()[j].queue() =~= before.cpus()[j].queue());
    }
    if kept {
        assert(before.cpus()[cpu as int].wf());
    }
}

/// The same message again takes no place of its own: the newest record counts one repeat
/// more, and the queue is no longer than before. A message that finds the ring full is not
/// kept, and the newest record counts one loss more.
pub proof fn law_repeats_are_folded(
    before: &Ring,
    after: &Ring,
    level: Level,
    cpu: u16,
    ts_ns: u64,
    bytes: Seq<u8>,
    kept: bool,
)
    requires
        before.wf(),
        bytes.len() <= PAYLOAD_MAX,
        before.queue().len() > 0,
        push_outcome(before, after, level, cpu, ts_ns, bytes, bytes.len() as usize, kept),
    ensures
        ({
            let last = before.queue().last();
            let same = last.level == level && last.cpu == cpu && last.bytes == bytes && !last.truncated;
            &&& same ==> {
                &&& kept
                &&& after.queue().len() == before.queue().len()
                &&& last.repeats < u16::MAX ==> after.queue().last().repeats == last.repeats + 1
                &&& after.queue().last().ts_ns == last.ts_ns
            }
            &&& !same && before.queue().len() < SLOTS ==> {
                &&& kept
                &&& after.queue().len() == before.queue().len() + 1
                &&& after.queue().last().ts_ns == ts_ns
                &&& after.queue().last().bytes == bytes
            }
            &&& !same && before.queue().len() == SLOTS ==> {
                &&& !kept
                &&& after.queue().len() == before.queue().len()
                &&& last.lost < u16::MAX ==> after.queue().last().lost == last.lost + 1
                &&& after.queue().last().bytes == last.bytes
            }
        }),
{
}

/// The counts of all rings are added up on 32 bits.
pub proof fn law_ring_counts_are_added_up(counts: Seq<u32>, n: nat)
    requires
        0 < n <= counts.len(),
    ensures
        total_count(counts, 0) == 0,
        total_count(counts, n) == (total_count(counts, (n - 1) as nat) + counts[n - 1]) % 0x1_0000_0000,
        total_count(counts, (n - 1) as nat) + counts[n - 1] <= u32::MAX ==> total_count(counts, n) == total_count(
            counts,
            (n - 1) as nat,
        ) + counts[n - 1],
{
}

} // verus!
