//! Frames on the wire: what is handed to the kernel to send and to receive one.

use vstd::prelude::*;
use crate::bytes;
use crate::user::io;
use crate::user::io::{Completion, Durability, IoOp, Submission};

verus! {

/// The address of a network card.
#[derive(Copy, Clone, PartialEq, Eq, Debug)]
pub struct Mac(pub [u8; 6]);

/// A frame could not be sent or received.
#[derive(Copy, Clone, PartialEq, Eq, Debug, Structural)]
pub struct NetError;

/// There are no sockets: they are a service's.
#[derive(Copy, Clone, PartialEq, Eq, Debug, Structural)]
pub struct Unsupported;

/// The address of a socket.
#[derive(Copy, Clone, PartialEq, Eq, Debug)]
pub struct SocketAddr {
    pub ip: [u8; 4],
    pub port: u16,
}

/// The arguments of an operation on a buffer.
pub open spec fn buffer_bytes(buf_va: u64, len: u32) -> Seq<u8> {
    bytes::le_bytes(buf_va as int, 8) + bytes::le_bytes(len as int, 4) + io::zeros(12)
}

fn buffer_args(buf_va: u64, len: u32) -> (a: Vec<u8>)
    ensures
        a@ == buffer_bytes(buf_va, len),
{
    let mut a: Vec<u8> = Vec::new();
    bytes::put_u64(&mut a, buf_va);
    bytes::put_u32(&mut a, len);
    let ghost head = a@;
    let mut i: usize = 0;
    while i < 12
        invariant
            i <= 12,
            a@ =~= head + io::zeros(i as nat),
        decreases 12 - i,
    {
        a.push(0);
        i = i + 1;
    }
    assert(a@ =~= buffer_bytes(buf_va, len));
    a
}

/// A submission on a buffer.
pub open spec fn on_buffer(s: Submission, op: IoOp, buf_va: u64, len: u32) -> bool {
    &&& s.op == op
    &&& !s.inline
    &&& s.durability == Durability::WriteBack
    &&& s.offset == 0
    &&& s.args@ == buffer_bytes(buf_va, len)
}

fn submit(op: IoOp, buf_va: u64, len: u32) -> (s: Submission)
    ensures
        on_buffer(s, op, buf_va, len),
{
    Submission {
        op,
        inline: false,
        durability: Durability::WriteBack,
        offset: 0,
        args: buffer_args(buf_va, len),
    }
}

/// The submission that has the card's address written somewhere.
pub fn mac(buf_va: u64) -> (s: Submission)
    ensures
        on_buffer(s, IoOp::NetMac, buf_va, 0),
{
    submit(IoOp::NetMac, buf_va, 0)
}

/// The card's address: the operation has to say that it wrote all six bytes.
pub fn mac_answer(c: Completion, written: [u8; 6]) -> (r: Result<Mac, NetError>)
    ensures
        r == (if c == Completion::Done(6) {
            Ok::<Mac, NetError>(Mac(written))
        } else {
            Err(NetError)
        }),
{
    match c {
        Completion::Done(6) => Ok(Mac(written)),
        _ => Err(NetError),
    }
}

/// The submission that sends the frame at an address.
pub fn send(frame_va: u64, len: u32) -> (s: Submission)
    ensures
        on_buffer(s, IoOp::NetTx, frame_va, len),
{
    submit(IoOp::NetTx, frame_va, len)
}

/// The submission that takes a frame, if one has come, into a buffer.
pub fn try_recv(buf_va: u64, len: u32) -> (s: Submission)
    ensures
        on_buffer(s, IoOp::NetRx, buf_va, len),
{
    submit(IoOp::NetRx, buf_va, len)
}

/// How many bytes were sent or received.
pub fn moved(c: Completion) -> (r: Result<u32, NetError>)
    ensures
        r == (match c {
            Completion::Done(n) => Ok::<u32, NetError>(n),
            Completion::Failed(_) => Err(NetError),
        }),
{
    match c {
        Completion::Done(n) => Ok(n),
        Completion::Failed(_) => Err(NetError),
    }
}

/// A wait for a frame: the buffer, its length, and how long to wait, zero for as long as
/// it takes.
#[derive(Copy, Clone, PartialEq, Eq, Debug, Structural)]
pub struct FrameWait {
    pub buf_va: u64,
    pub len: u64,
    pub timeout_ns: u64,
}

/// Wait for a frame as long as it takes.
pub fn recv(buf_va: u64, len: u64) -> (w: FrameWait)
    ensures
        w == (FrameWait { buf_va, len, timeout_ns: 0 }),
{
    FrameWait { buf_va, len, timeout_ns: 0 }
}

/// Wait for a frame up to a limit.
pub fn recv_timeout(buf_va: u64, len: u64, timeout_ns: u64) -> (w: FrameWait)
    ensures
        w == (FrameWait { buf_va, len, timeout_ns }),
{
    FrameWait { buf_va, len, timeout_ns }
}

/// There are no sockets to connect.
pub fn connect(_addr: SocketAddr) -> (r: Result<(), Unsupported>)
    ensures
        r == Err::<(), Unsupported>(Unsupported),
{
    Err(Unsupported)
}

/// There are no sockets to listen on.
pub fn listen(_addr: SocketAddr) -> (r: Result<(), Unsupported>)
    ensures
        r == Err::<(), Unsupported>(Unsupported),
{
    Err(Unsupported)
}

/// The driver finds the buffer that was named: its address in the first eight bytes of the
/// arguments, its length in the four behind them, and zeros in the rest.
pub proof fn law_buffer_reads_back(buf_va: u64, len: u32, i: int)
    requires
        12 <= i < 24,
    ensures
        buffer_bytes(buf_va, len).len() == 24,
        bytes::le(buffer_bytes(buf_va, len), 0, 8) == buf_va,
        bytes::le(buffer_bytes(buf_va, len), 8, 4) == len,
        buffer_bytes(buf_va, len)[i] == 0,
{
    reveal_with_fuel(bytes::pow256, 9);
    bytes::law_bytes_read_back(buf_va as int, 8);
    bytes::law_bytes_read_back(len as int, 4);
    let p = buffer_bytes(buf_va, len);
    let a = bytes::le_bytes(buf_va as int, 8);
    let b = bytes::le_bytes(len as int, 4);
    assert(p.subrange(0, 8) =~= a.subrange(0, 8));
    bytes::lemma_le_shift(p, a, 0, 0, 8);
    assert(p.subrange(8, 12) =~= b.subrange(0, 4));
    bytes::lemma_le_shift(p, b, 8, 0, 4);
}

/// A submission on a buffer is of that operation and on that buffer, so two submissions are
/// alike only where their operations, addresses and lengths are.
pub proof fn law_submissions_name_their_buffer(
    s: Submission,
    op: IoOp,
    buf_va: u64,
    len: u32,
    t: Submission,
    op2: IoOp,
    buf2: u64,
    len2: u32,
)
    requires
        on_buffer(s, op, buf_va, len),
        on_buffer(t, op2, buf2, len2),
    ensures
        s.op == op,
        !s.inline,
        s.offset == 0,
        s.args@ == t.args@ ==> buf_va == buf2 && len == len2,
{
    law_buffer_reads_back(buf_va, len, 12);
    law_buffer_reads_back(buf2, len2, 12);
}

} // verus!
