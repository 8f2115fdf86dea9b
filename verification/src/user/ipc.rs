//! Channels between two cells: a pair of queues in memory that both map, and buffers
//! that one hands to the other. The kernel takes no part in a message.

use vstd::prelude::*;
use crate::bytes;
use crate::user::mem::Grant;

verus! {

/// The end that opened the channel.
pub const ROLE_CLIENT: u64 = 0;

/// The end that accepted it.
pub const ROLE_SERVER: u64 = 1;

/// Bytes that a message carries.
pub const PAYLOAD: usize = 24;

/// A message from the client to the server.
pub struct SqEntry {
    pub opcode: u8,
    pub cap_id: u32,
    pub user_data: u64,
    pub payload: Vec<u8>,
}

/// What matters of such a message.
#[verifier::ext_equal]
pub struct SqView {
    pub opcode: u8,
    pub cap_id: u32,
    pub user_data: u64,
    pub payload: Seq<u8>,
}

impl View for SqEntry {
    type V = SqView;

    open spec fn view(&self) -> SqView {
        SqView {
            opcode: self.opcode,
            cap_id: self.cap_id,
            user_data: self.user_data,
            payload: self.payload@,
        }
    }
}

/// An answer from the server to the client.
#[derive(Copy, Clone, PartialEq, Eq, Debug, Structural)]
pub struct CqEntry {
    pub flow_id: u64,
    pub user_data: u64,
    pub status: u32,
    pub result: u32,
}

/// The memory that the two cells share: the messages and the answers that have not been
/// taken yet, the oldest first, at most `depth` of each.
pub struct Rings {
    pub sq: Vec<SqEntry>,
    pub cq: Vec<CqEntry>,
    pub depth: usize,
}

impl Rings {
    pub open spec fn wf(&self) -> bool {
        &&& self.sq@.len() <= self.depth
        &&& self.cq@.len() <= self.depth
        &&& forall|i: int|
            0 <= i < self.sq@.len() ==> (#[trigger] self.sq@[i]).payload@.len() == PAYLOAD
    }

    pub fn new(depth: usize) -> (r: Rings)
        ensures
            r.wf(),
            r.sq@.len() == 0,
            r.cq@.len() == 0,
            r.depth == depth,
    {
        Rings { sq: Vec::new(), cq: Vec::new(), depth }
    }
}

/// What the kernel reports of a cell's end of a channel.
#[derive(Copy, Clone, PartialEq, Eq, Debug, Structural)]
pub struct ConnectInfo {
    pub chan_va: u64,
    pub cap_id: u64,
    pub role: u64,
    pub count: u64,
}

/// One end of a channel.
#[derive(Copy, Clone, PartialEq, Eq, Debug, Structural)]
pub struct Channel {
    pub cap_id: u32,
    pub role: u64,
    pub chan_va: u64,
    pub slot: usize,
    pub count: u64,
}

/// The end that the kernel's report stands for.
pub open spec fn end_of(slot: usize, info: ConnectInfo) -> Channel {
    Channel {
        cap_id: (info.cap_id % 0x1_0000_0000) as u32,
        role: info.role,
        chan_va: info.chan_va,
        slot,
        count: info.count,
    }
}

/// A payload with zeros after it.
pub open spec fn padded(p: Seq<u8>) -> Seq<u8> {
    p + Seq::new((PAYLOAD - p.len()) as nat, |i: int| 0u8)
}

impl Channel {
    /// The end at the first slot, if the cell has one.
    pub fn open(info: Option<ConnectInfo>) -> (c: Option<Channel>)
        ensures
            c == (match info {
                None => None,
                Some(i) => Some(end_of(0, i)),
            }),
    {
        Channel::open_slot(0, info)
    }

    /// The end at a slot, if the cell has one there.
    pub fn open_slot(slot: usize, info: Option<ConnectInfo>) -> (c: Option<Channel>)
        ensures
            c == (match info {
                None => None,
                Some(i) => Some(end_of(slot, i)),
            }),
    {
        match info {
            None => None,
            Some(i) => {
                let cap: u64 = i.cap_id;
                assert(cap as u32 == cap % 0x1_0000_0000u64) by (bit_vector);
                Some(
                    Channel {
                        cap_id: cap as u32,
                        role: i.role,
                        chan_va: i.chan_va,
                        slot,
                        count: i.count,
                    },
                )
            },
        }
    }

    /// How many ends the cell has, from what the kernel reports of its first.
    pub fn count(info: Option<ConnectInfo>) -> (n: u64)
        ensures
            n == (match info {
                None => 0,
                Some(i) => i.count,
            }),
    {
        match info {
            None => 0,
            Some(i) => i.count,
        }
    }

    pub fn slot(&self) -> (s: usize)
        ensures
            s == self.slot,
    {
        self.slot
    }

    /// How many ends the cell had when this one was opened.
    pub fn peer_count(&self) -> (n: u64)
        ensures
            n == self.count,
    {
        self.count
    }

    /// The two halves of an end, for strands that park.
    pub fn split(self) -> (h: (AsyncSender, AsyncReceiver))
        ensures
            h.0 == (AsyncSender { slot: self.slot, role: self.role, cap_id: self.cap_id }),
            h.1 == (AsyncReceiver { slot: self.slot, role: self.role }),
    {
        (
            AsyncSender { slot: self.slot, role: self.role, cap_id: self.cap_id },
            AsyncReceiver { slot: self.slot, role: self.role },
        )
    }

    pub fn role(&self) -> (r: u64)
        ensures
            r == self.role,
    {
        self.role
    }

    pub fn is_client(&self) -> (b: bool)
        ensures
            b == (self.role == ROLE_CLIENT),
    {
        self.role == ROLE_CLIENT
    }

    /// The capability that stands for the end.
    pub fn cap_id(&self) -> (c: u32)
        ensures
            c == self.cap_id,
    {
        self.cap_id
    }

    /// Send a message to the server, if there is room for one more.
    pub fn send(&self, r: &mut Rings, opcode: u8, user_data: u64, payload: &[u8]) -> (sent: bool)
        requires
            old(r).wf(),
            payload@.len() <= PAYLOAD,
        ensures
            final(r).wf(),
            final(r).depth == old(r).depth,
            final(r).cq@ == old(r).cq@,
            queued(old(r), final(r), self.cap_id, opcode, user_data, payload@, sent),
            sent == (old(r).sq@.len() < old(r).depth),
            sent ==> final(r).sq@.len() == old(r).sq@.len() + 1 && final(r).sq@.drop_last()
                == old(r).sq@ && final(r).sq@.last()@ == (SqView {
                opcode,
                cap_id: self.cap_id,
                user_data,
                payload: padded(payload@),
            }),
            !sent ==> final(r).sq@ == old(r).sq@,
    {
        if r.sq.len() >= r.depth {
            return false;
        }
        let mut p: Vec<u8> = Vec::new();
        let mut i: usize = 0;
        while i < PAYLOAD
            invariant
                i <= PAYLOAD,
                p@.len() == i,
                payload@.len() <= PAYLOAD,
                forall|j: int| 0 <= j < i ==> #[trigger] p@[j] == padded(payload@)[j],
            decreases PAYLOAD - i,
        {
            if i < payload.len() {
                p.push(payload[i]);
            } else {
                p.push(0);
            }
            i = i + 1;
        }
        assert(p@ =~= padded(payload@));
        r.sq.push(SqEntry { opcode, cap_id: self.cap_id, user_data, payload: p });
        assert(r.sq@.drop_last() =~= old(r).sq@);
        true
    }

    /// Take the oldest answer, if there is one.
    pub fn try_reap(&self, r: &mut Rings) -> (c: Option<CqEntry>)
        requires
            old(r).wf(),
        ensures
            final(r).wf(),
            final(r).depth == old(r).depth,
            final(r).sq@ == old(r).sq@,
            reaped(old(r), final(r), c),
            match c {
                None => old(r).cq@.len() == 0 && final(r).cq@ == old(r).cq@,
                Some(e) => {
                    &&& old(r).cq@.len() > 0
                    &&& e == old(r).cq@[0]
                    &&& final(r).cq@ == old(r).cq@.skip(1)
                },
            },
    {
        if r.cq.len() == 0 {
            return None;
        }
        let e: CqEntry = r.cq.remove(0);
        assert(r.cq@ =~= old(r).cq@.skip(1));
        Some(e)
    }

    /// Wait for an answer: the oldest, or nothing where the other cell has to run first.
    pub fn await_completion(&self, r: &mut Rings) -> (c: Option<CqEntry>)
        requires
            old(r).wf(),
        ensures
            final(r).wf(),
            final(r).depth == old(r).depth,
            final(r).sq@ == old(r).sq@,
            reaped(old(r), final(r), c),
            match c {
                None => old(r).cq@.len() == 0 && final(r).cq@ == old(r).cq@,
                Some(e) => {
                    &&& old(r).cq@.len() > 0
                    &&& e == old(r).cq@[0]
                    &&& final(r).cq@ == old(r).cq@.skip(1)
                },
            },
    {
        self.try_reap(r)
    }

    /// Take the oldest message, if there is one.
    pub fn try_recv(&self, r: &mut Rings) -> (m: Option<SqEntry>)
        requires
            old(r).wf(),
        ensures
            final(r).wf(),
            final(r).depth == old(r).depth,
            final(r).cq@ == old(r).cq@,
            dequeued(old(r), final(r), m),
            match m {
                None => old(r).sq@.len() == 0 && final(r).sq@ == old(r).sq@,
                Some(e) => {
                    &&& old(r).sq@.len() > 0
                    &&& e == old(r).sq@[0]
                    &&& final(r).sq@ == old(r).sq@.skip(1)
                    &&& e.payload@.len() == PAYLOAD
                },
            },
    {
        if r.sq.len() == 0 {
            return None;
        }
        assert(r.sq@[0].payload@.len() == PAYLOAD);
        let e: SqEntry = r.sq.remove(0);
        proof {
            assert(r.sq@ =~= old(r).sq@.skip(1));
            assert forall|i: int| 0 <= i < r.sq@.len() implies (#[trigger] r.sq@[i]).payload@.len()
                == PAYLOAD by {
                assert(r.sq@[i] == old(r).sq@[i + 1]);
            }
        }
        Some(e)
    }

    /// Wait for a message: the oldest, or nothing where the other cell has to run first.
    pub fn recv(&self, r: &mut Rings) -> (m: Option<SqEntry>)
        requires
            old(r).wf(),
        ensures
            final(r).wf(),
            final(r).depth == old(r).depth,
            final(r).cq@ == old(r).cq@,
            dequeued(old(r), final(r), m),
            match m {
                None => old(r).sq@.len() == 0 && final(r).sq@ == old(r).sq@,
                Some(e) => {
                    &&& old(r).sq@.len() > 0
                    &&& e == old(r).sq@[0]
                    &&& final(r).sq@ == old(r).sq@.skip(1)
                    &&& e.payload@.len() == PAYLOAD
                },
            },
    {
        self.try_recv(r)
    }

    /// Answer the client, if there is room for one more.
    pub fn complete(&self, r: &mut Rings, user_data: u64, status: u32, result: u32) -> (sent: bool)
        requires
            old(r).wf(),
        ensures
            final(r).wf(),
            final(r).depth == old(r).depth,
            final(r).sq@ == old(r).sq@,
            completed(old(r), final(r), user_data, status, result, sent),
            sent == (old(r).cq@.len() < old(r).depth),
            final(r).cq@ == (if sent {
                old(r).cq@.push(CqEntry { flow_id: 0, user_data, status, result })
            } else {
                old(r).cq@
            }),
    {
        if r.cq.len() >= r.depth {
            return false;
        }
        r.cq.push(CqEntry { flow_id: 0, user_data, status, result });
        true
    }
}

/// A buffer that was handed to the other cell: where it stands there, and the
/// capability for it there.
#[derive(Copy, Clone, PartialEq, Eq, Debug, Structural)]
pub struct SharedBuffer {
    pub peer_va: u64,
    pub peer_cap_id: u32,
}

/// What the kernel answered to the request to share a grant.
#[derive(Copy, Clone, PartialEq, Eq, Debug, Structural)]
pub struct ShareAnswer {
    pub ret: u64,
    pub peer_va: u64,
    pub peer_cap_id: u64,
}

/// The capability that the kernel is asked to share.
pub fn share_request(grant: &Grant) -> (cap: u32)
    ensures
        cap == grant.cap_id,
{
    grant.cap_id()
}

/// The buffer that the kernel has handed to the other cell, if it has.
pub open spec fn handed_over(a: ShareAnswer) -> Option<SharedBuffer> {
    if a.ret != 0 {
        None
    } else {
        Some(
            SharedBuffer {
                peer_va: a.peer_va,
                peer_cap_id: (a.peer_cap_id % 0x1_0000_0000) as u32,
            },
        )
    }
}

/// The buffer that the kernel has handed to the other cell, if it has.
pub fn share(a: ShareAnswer) -> (b: Option<SharedBuffer>)
    ensures
        b == handed_over(a),
        b == (if a.ret != 0 {
            None
        } else {
            Some(
                SharedBuffer {
                    peer_va: a.peer_va,
                    peer_cap_id: (a.peer_cap_id % 0x1_0000_0000) as u32,
                },
            )
        }),
{
    if a.ret != 0 {
        return None;
    }
    let cap: u64 = a.peer_cap_id;
    assert(cap as u32 == cap % 0x1_0000_0000u64) by (bit_vector);
    Some(SharedBuffer { peer_va: a.peer_va, peer_cap_id: cap as u32 })
}

/// A message that either end can send: a tag and a word.
#[derive(Copy, Clone, PartialEq, Eq, Debug, Structural)]
pub struct Message {
    pub tag: u64,
    pub val: u32,
}

/// The half of an end that sends.
#[derive(Copy, Clone, PartialEq, Eq, Debug, Structural)]
pub struct AsyncSender {
    pub slot: usize,
    pub role: u64,
    pub cap_id: u32,
}

/// The half of an end that receives.
#[derive(Copy, Clone, PartialEq, Eq, Debug, Structural)]
pub struct AsyncReceiver {
    pub slot: usize,
    pub role: u64,
}

/// The messages that are under way from one end, the oldest first.
pub open spec fn under_way(r: &Rings, from: u64) -> Seq<Message> {
    if from == ROLE_CLIENT {
        r.sq@.map_values(
            |e: SqEntry|
                Message { tag: e.user_data, val: bytes::le(e.payload@, 0, 4) as u32 },
        )
    } else {
        r.cq@.map_values(|e: CqEntry| Message { tag: e.user_data, val: e.result })
    }
}

/// The other end's role.
pub open spec fn other(role: u64) -> u64 {
    if role == ROLE_CLIENT {
        ROLE_SERVER
    } else {
        ROLE_CLIENT
    }
}

impl AsyncSender {
    pub fn slot(&self) -> (s: usize)
        ensures
            s == self.slot,
    {
        self.slot
    }

    /// Send a message, if there is room; a strand parks where there is none.
    pub fn send(&self, r: &mut Rings, msg: Message) -> (sent: bool)
        requires
            old(r).wf(),
        ensures
            final(r).wf(),
            final(r).depth == old(r).depth,
            passed_on(old(r), final(r), self.role, msg, sent),
            sent == (under_way(old(r), self.role).len() < old(r).depth),
            under_way(final(r), self.role) == (if sent {
                under_way(old(r), self.role).push(msg)
            } else {
                under_way(old(r), self.role)
            }),
            under_way(final(r), other(self.role)) == under_way(old(r), other(self.role)),
    {
        let end: Channel = Channel {
            cap_id: self.cap_id,
            role: self.role,
            chan_va: 0,
            slot: self.slot,
            count: 0,
        };
        if self.role == ROLE_CLIENT {
            let mut p: Vec<u8> = Vec::new();
            bytes::put_u32(&mut p, msg.val);
            proof {
                assert(p@ =~= bytes::le_bytes(msg.val as int, 4));
                reveal_with_fuel(bytes::pow256, 5);
                bytes::law_bytes_read_back(msg.val as int, 4);
            }
            let sent: bool = end.send(r, 0, msg.tag, p.as_slice());
            proof {
                if sent {
                    let e = r.sq@.last();
                    assert(e@.payload == padded(p@));
                    assert(e.payload@.subrange(0, 4) =~= p@.subrange(0, 4));
                    bytes::lemma_le_shift(e.payload@, p@, 0, 0, 4);
                    assert(under_way(r, ROLE_CLIENT) =~= under_way(old(r), ROLE_CLIENT).push(msg));
                }
                assert(under_way(r, ROLE_SERVER) =~= under_way(old(r), ROLE_SERVER));
            }
            sent
        } else {
            let sent: bool = end.complete(r, msg.tag, 0, msg.val);
            proof {
                if sent {
                    assert(under_way(r, self.role) =~= under_way(old(r), self.role).push(msg));
                }
                assert(under_way(r, ROLE_CLIENT) =~= under_way(old(r), ROLE_CLIENT));
            }
            sent
        }
    }
}

impl AsyncReceiver {
    pub fn slot(&self) -> (s: usize)
        ensures
            s == self.slot,
    {
        self.slot
    }

    /// Take the oldest message from the other end; a strand parks where there is none.
    pub fn recv(&self, r: &mut Rings) -> (m: Option<Message>)
        requires
            old(r).wf(),
        ensures
            final(r).wf(),
            final(r).depth == old(r).depth,
            taken_off(old(r), final(r), other(self.role), m),
            match m {
                None => {
                    &&& under_way(old(r), other(self.role)).len() == 0
                    &&& under_way(final(r), other(self.role)) == under_way(
                        old(r),
                        other(self.role),
                    )
                },
                Some(msg) => {
                    &&& under_way(old(r), other(self.role)).len() > 0
                    &&& msg == under_way(old(r), other(self.role))[0]
                    &&& under_way(final(r), other(self.role)) == under_way(
                        old(r),
                        other(self.role),
                    ).skip(1)
                },
            },
            under_way(final(r), self.role) == under_way(old(r), self.role),
    {
        let end: Channel = Channel {
            cap_id: 0,
            role: self.role,
            chan_va: 0,
            slot: self.slot,
            count: 0,
        };
        if self.role == ROLE_CLIENT {
            let c: Option<CqEntry> = end.try_reap(r);
            proof {
                assert(under_way(r, ROLE_CLIENT) =~= under_way(old(r), ROLE_CLIENT));
                if c is Some {
                    assert(under_way(r, ROLE_SERVER) =~= under_way(old(r), ROLE_SERVER).skip(1));
                }
            }
            match c {
                None => None,
                Some(e) => Some(Message { tag: e.user_data, val: e.result }),
            }
        } else {
            let m: Option<SqEntry> = end.try_recv(r);
            proof {
                assert(under_way(r, self.role) =~= under_way(old(r), self.role));
                if m is Some {
                    assert(under_way(r, ROLE_CLIENT) =~= under_way(old(r), ROLE_CLIENT).skip(1));
                }
            }
            match m {
                None => None,
                Some(e) => {
                    let val: u32 = bytes::read_u32(e.payload.as_slice(), 0);
                    Some(Message { tag: e.user_data, val })
                },
            }
        }
    }
}

/// A message was put behind those under way to the server, where there was room.
pub open spec fn queued(
    before: &Rings,
    after: &Rings,
    cap_id: u32,
    opcode: u8,
    user_data: u64,
    payload: Seq<u8>,
    sent: bool,
) -> bool {
    &&& sent == (before.sq@.len() < before.depth)
    &&& if sent {
        &&& after.sq@.len() == before.sq@.len() + 1
        &&& after.sq@.drop_last() == before.sq@
        &&& after.sq@.last()@ == (SqView { opcode, cap_id, user_data, payload: padded(payload) })
    } else {
        after.sq@ == before.sq@
    }
}

/// The oldest message to the server was taken, where there was one.
pub open spec fn dequeued(before: &Rings, after: &Rings, m: Option<SqEntry>) -> bool {
    match m {
        None => before.sq@.len() == 0 && after.sq@ == before.sq@,
        Some(e) => before.sq@.len() > 0 && e == before.sq@[0] && after.sq@ == before.sq@.skip(1),
    }
}

/// An answer was put behind those under way to the client, where there was room.
pub open spec fn completed(
    before: &Rings,
    after: &Rings,
    user_data: u64,
    status: u32,
    result: u32,
    sent: bool,
) -> bool {
    &&& sent == (before.cq@.len() < before.depth)
    &&& after.cq@ == (if sent {
        before.cq@.push(CqEntry { flow_id: 0, user_data, status, result })
    } else {
        before.cq@
    })
}

/// The oldest answer was taken, where there was one.
pub open spec fn reaped(before: &Rings, after: &Rings, c: Option<CqEntry>) -> bool {
    match c {
        None => before.cq@.len() == 0 && after.cq@ == before.cq@,
        Some(e) => before.cq@.len() > 0 && e == before.cq@[0] && after.cq@ == before.cq@.skip(1),
    }
}

/// A message was put behind those under way from one end, where there was room.
pub open spec fn passed_on(before: &Rings, after: &Rings, from: u64, msg: Message, sent: bool) -> bool {
    &&& sent == (under_way(before, from).len() < before.depth)
    &&& under_way(after, from) == (if sent {
        under_way(before, from).push(msg)
    } else {
        under_way(before, from)
    })
    &&& under_way(after, other(from)) == under_way(before, other(from))
}

/// The oldest message from one end was taken, where there was one.
pub open spec fn taken_off(before: &Rings, after: &Rings, from: u64, m: Option<Message>) -> bool {
    match m {
        None => under_way(before, from).len() == 0 && under_way(after, from) == under_way(before, from),
        Some(msg) => under_way(before, from).len() > 0 && msg == under_way(before, from)[0] && under_way(
            after,
            from,
        ) == under_way(before, from).skip(1),
    }
}

/// Messages arrive as they were sent, in order and once, in either direction: what has
/// been sent is always what has been received and what is still under way, one after
/// the other. Sending and receiving keep that.
pub proof fn law_messages_arrive_in_order(
    sent: Seq<Message>,
    received: Seq<Message>,
    before: Seq<Message>,
    after: Seq<Message>,
    msg: Message,
)
    requires
        sent == received + before,
    ensures
        after == before.push(msg) ==> sent.push(msg) == received + after,
        before.len() > 0 && after == before.skip(1) ==> sent == received.push(before[0]) + after,
{
    if after == before.push(msg) {
        assert(sent.push(msg) =~= received + after);
    }
    if before.len() > 0 && after == before.skip(1) {
        assert(sent =~= received.push(before[0]) + after);
    }
}

/// A channel end is what the kernel told of it, under the slot that was asked for.
pub proof fn law_end_is_as_told(slot: usize, info: ConnectInfo)
    ensures
        end_of(slot, info).slot == slot,
        end_of(slot, info).chan_va == info.chan_va,
        end_of(slot, info).role == info.role,
        end_of(slot, info).count == info.count,
        info.cap_id <= u32::MAX ==> end_of(slot, info).cap_id == info.cap_id,
{
}

/// A channel has two ends, and each is the other of the other.
pub proof fn law_roles_are_two(role: u64)
    requires
        role == 0 || role == 1,
    ensures
        other(0) == 1,
        other(1) == 0,
        other(role) != role,
        other(other(role)) == role,
{
}

/// A payload is carried whole, with zeros behind it.
pub proof fn law_payload_is_carried_whole(p: Seq<u8>, i: int)
    requires
        p.len() <= 24,
        0 <= i < 24,
    ensures
        padded(p).len() == 24,
        i < p.len() ==> padded(p)[i] == p[i],
        i >= p.len() ==> padded(p)[i] == 0,
{
}

/// What is under way is what was sent: on the way from the client each message has the
/// tag of its entry and the number in the first four bytes of its payload, and on the way
/// back the tag and the result.
pub proof fn law_messages_carry_their_numbers(r: &Rings, i: int)
    ensures
        0 <= i < r.sq@.len() ==> under_way(r, 0)[i].tag == r.sq@[i].user_data,
        0 <= i < r.sq@.len() ==> under_way(r, 0)[i].val == (r.sq@[i].payload@[0] + 0x100
            * r.sq@[i].payload@[1] + 0x1_0000 * r.sq@[i].payload@[2] + 0x100_0000 * r.sq@[i].payload@[3]),
        0 <= i < r.cq@.len() ==> under_way(r, 1)[i].tag == r.cq@[i].user_data,
        0 <= i < r.cq@.len() ==> under_way(r, 1)[i].val == r.cq@[i].result,
        under_way(r, 0).len() == r.sq@.len(),
        under_way(r, 1).len() == r.cq@.len(),
{
    reveal_with_fuel(bytes::le, 5);
}

/// A ring is first in, first out: a message goes behind all that wait, with the sender's
/// capability, its own tag and code, and its payload with zeros behind it; the one that is
/// taken is the one that has waited longest, and each of the others moves up one place. A ring
/// that is full takes nothing, and one that is empty gives nothing. Answers go the other way in
/// the same manner.
pub proof fn law_rings_are_first_in_first_out(
    a: &Rings,
    b: &Rings,
    c: &Rings,
    cap_id: u32,
    opcode: u8,
    user_data: u64,
    payload: Seq<u8>,
    sent: bool,
    got: Option<SqEntry>,
    i: int,
)
    requires
        payload.len() <= 24,
        queued(a, b, cap_id, opcode, user_data, payload, sent),
        dequeued(b, c, got),
    ensures
        sent <==> a.sq@.len() < a.depth,
        !sent ==> b.sq@ == a.sq@,
        sent && 0 <= i < a.sq@.len() ==> b.sq@[i] == a.sq@[i],
        sent ==> {
            let e = b.sq@[a.sq@.len() as int];
            &&& e.opcode == opcode
            &&& e.cap_id == cap_id
            &&& e.user_data == user_data
            &&& e.payload@.len() == 24
            &&& 0 <= i < payload.len() ==> e.payload@[i] == payload[i]
            &&& payload.len() <= i < 24 ==> e.payload@[i] == 0
        },
        got is None <==> b.sq@.len() == 0,
        got matches Some(e) ==> e == b.sq@[0] && c.sq@.len() + 1 == b.sq@.len() && (0 <= i < c.sq@.len()
            ==> c.sq@[i] == b.sq@[i + 1]),
        sent && a.sq@.len() == 0 ==> got is Some && (got->0).user_data == user_data && (got->0).opcode == opcode
            && c.sq@.len() == 0,
{
    if sent {
        assert(b.sq@.last() == b.sq@[a.sq@.len() as int]);
        if 0 <= i < a.sq@.len() {
            assert(b.sq@.drop_last()[i] == b.sq@[i]);
        }
        let v = b.sq@.last()@;
        assert(v.opcode == b.sq@.last().opcode && v.payload == b.sq@.last().payload@);
    }
}

/// Answers come back first in, first out too: an answer goes behind all that wait, with the
/// tag, the status and the result it was given, and the one that is taken has waited longest.
pub proof fn law_answers_come_back_in_order(
    a: &Rings,
    b: &Rings,
    c: &Rings,
    user_data: u64,
    status: u32,
    result: u32,
    sent: bool,
    got: Option<CqEntry>,
    i: int,
)
    requires
        completed(a, b, user_data, status, result, sent),
        reaped(b, c, got),
    ensures
        sent <==> a.cq@.len() < a.depth,
        !sent ==> b.cq@ == a.cq@,
        sent && 0 <= i < a.cq@.len() ==> b.cq@[i] == a.cq@[i],
        sent ==> b.cq@.last().user_data == user_data && b.cq@.last().status == status && b.cq@.last().result
            == result && b.cq@.len() == a.cq@.len() + 1,
        got is None <==> b.cq@.len() == 0,
        got matches Some(e) ==> e == b.cq@[0] && c.cq@.len() + 1 == b.cq@.len() && (0 <= i < c.cq@.len()
            ==> c.cq@[i] == b.cq@[i + 1]),
{
}

/// What one end sends the other receives: each message once, in the order they were sent, and
/// nothing that was not sent. With `received` taken so far and the rest under way, sending adds
/// to the end of it all and receiving moves the first of the rest over; a message sent while
/// none is under way is the very next that the other end takes. What goes the other way is not
/// touched by sending.
pub proof fn law_what_is_sent_is_received(
    a: &Rings,
    b: &Rings,
    c: &Rings,
    from: u64,
    msg: Message,
    ok: bool,
    got: Option<Message>,
    received: Seq<Message>,
)
    requires
        passed_on(a, b, from, msg, ok),
        taken_off(b, c, from, got),
    ensures
        ok ==> received + under_way(b, from) == (received + under_way(a, from)).push(msg),
        !ok ==> under_way(b, from) == under_way(a, from) && under_way(a, from).len() >= a.depth,
        got matches Some(m) ==> received.push(m) + under_way(c, from) == received + under_way(b, from),
        got is None ==> under_way(b, from).len() == 0 && under_way(c, from).len() == 0,
        ok && under_way(a, from).len() == 0 ==> got == Some(msg),
        under_way(b, other(from)) == under_way(a, other(from)),
{
    if ok {
        assert(received + under_way(b, from) =~= (received + under_way(a, from)).push(msg));
    }
    if let Some(m) = got {
        assert(received.push(m) + under_way(c, from) =~= received + under_way(b, from));
    }
}

/// A buffer that was handed over is where the kernel says it is, under the capability it gave;
/// one that was refused is not there at all.
pub proof fn law_handed_buffer_is_as_told(a: ShareAnswer)
    ensures
        handed_over(a) is Some <==> a.ret == 0,
        handed_over(a) matches Some(b) ==> b.peer_va == a.peer_va && (a.peer_cap_id <= u32::MAX
            ==> b.peer_cap_id == a.peer_cap_id),
{
}

} // verus!
