//! Two pairs of cells that stream to each other: one sends a known sequence, the other
//! acknowledges each message and says whether the sequence was the one it knows.

use vstd::prelude::*;
use crate::user::ipc::Message;

verus! {

/// Bytes of the piped stream.
pub const PIPE_N: u32 = 12;

/// Messages of the other stream.
pub const IPC_N: u32 = 8;

/// The exit code of a receiver that got what it should have.
pub const OK: u64 = 0x42;

/// The byte at a place of the piped stream.
pub open spec fn byte_at(i: u32) -> u32 {
    (65 + i % 26) as u32
}

/// The byte at a place of the piped stream.
pub fn byte(i: u32) -> (b: u32)
    ensures
        b == byte_at(i),
        65 <= b <= 90,
{
    65 + i % 26
}

/// What message `i` of the other stream carries.
pub open spec fn payload_at(i: u32) -> u32 {
    (((i * 0x9E37_79B1) % 0x1_0000_0000) as u32) ^ 0x5A5A_1234
}

/// What message `i` of the other stream carries.
pub fn payload(i: u32) -> (p: u32)
    ensures
        p == payload_at(i),
{
    i.wrapping_mul(0x9E37_79B1) ^ 0x5A5A_1234
}

/// The messages of a stream are told apart by what they carry.
pub proof fn law_payloads_differ(i: u32, j: u32)
    requires
        i != j,
    ensures
        payload_at(i) != payload_at(j),
{
    let a = ((i * 0x9E37_79B1) % 0x1_0000_0000) as u32;
    let b = ((j * 0x9E37_79B1) % 0x1_0000_0000) as u32;
    assert((i as u64 * 0x9E37_79B1u64) % 0x1_0000_0000 == (j as u64 * 0x9E37_79B1u64)
        % 0x1_0000_0000 ==> i == j) by (bit_vector);
    assert(a != b);
    assert(a != b ==> a ^ 0x5A5A_1234 != b ^ 0x5A5A_1234) by (bit_vector);
}

/// A message of the piped stream.
pub fn pipe_message(i: u32) -> (m: Message)
    ensures
        m == (Message { tag: i as u64, val: byte_at(i) }),
{
    Message { tag: i as u64, val: byte(i) }
}

/// A message of the other stream.
pub fn ipc_message(i: u32) -> (m: Message)
    ensures
        m == (Message { tag: i as u64, val: payload_at(i) }),
{
    Message { tag: i as u64, val: payload(i) }
}

/// What a receiver answers to message `i`.
pub fn acknowledge(i: u32) -> (m: Message)
    ensures
        m == (Message { tag: i as u64, val: 1 }),
{
    Message { tag: i as u64, val: 1 }
}

/// The messages are those of the piped stream.
pub open spec fn is_pipe_stream(ms: Seq<Message>) -> bool {
    ms.len() == PIPE_N && forall|i: int|
        0 <= i < PIPE_N ==> (#[trigger] ms[i]) == (Message { tag: i as u64, val: byte_at(i as u32) })
}

/// The messages are those of the other stream.
pub open spec fn is_ipc_stream(ms: Seq<Message>) -> bool {
    ms.len() == IPC_N && forall|i: int|
        0 <= i < IPC_N ==> (#[trigger] ms[i]) == (Message {
            tag: i as u64,
            val: payload_at(i as u32),
        })
}

/// The exit code of the receiver of the piped stream, from what it received and the code
/// that the sender left with, and what it received as bytes.
pub fn pipe_code(ms: &Vec<Message>, child: u64) -> (r: (u64, Vec<u8>))
    requires
        ms@.len() == PIPE_N,
    ensures
        r.0 == (if is_pipe_stream(ms@) && child == 0 {
            OK
        } else {
            1u64
        }),
        r.1@.len() == PIPE_N,
        forall|i: int| 0 <= i < PIPE_N ==> #[trigger] r.1@[i] == ms@[i].val % 256,
        r.0 == OK ==> forall|i: int| 0 <= i < PIPE_N ==> #[trigger] r.1@[i] == byte_at(i as u32),
{
    let mut ok: bool = true;
    let mut got: Vec<u8> = Vec::new();
    let mut i: u32 = 0;
    while i < PIPE_N
        invariant
            ms@.len() == PIPE_N,
            i <= PIPE_N,
            got@.len() == i,
            forall|k: int| 0 <= k < i ==> #[trigger] got@[k] == ms@[k].val % 256,
            ok == (forall|k: int|
                0 <= k < i ==> (#[trigger] ms@[k]) == (Message {
                    tag: k as u64,
                    val: byte_at(k as u32),
                })),
        decreases PIPE_N - i,
    {
        let m: Message = ms[i as usize];
        if m.tag != i as u64 || m.val != byte(i) {
            ok = false;
            assert(ms@[i as int] != (Message { tag: i as u64, val: byte_at(i) }));
        }
        got.push((m.val % 256) as u8);
        i = i + 1;
    }
    if ok && child == 0 {
        (OK, got)
    } else {
        (1, got)
    }
}

/// The exit code of the receiver of the other stream: it got what it should have, its
/// registers survived, and it parked once for every message.
pub fn ipc_code(ms: &Vec<Message>, fp_ok: bool, wakeups: u64) -> (code: u64)
    requires
        ms@.len() == IPC_N,
    ensures
        code == (if is_ipc_stream(ms@) && fp_ok && wakeups == IPC_N {
            OK
        } else {
            1u64
        }),
{
    let mut ok: bool = true;
    let mut i: u32 = 0;
    while i < IPC_N
        invariant
            ms@.len() == IPC_N,
            i <= IPC_N,
            ok == (forall|k: int|
                0 <= k < i ==> (#[trigger] ms@[k]) == (Message {
                    tag: k as u64,
                    val: payload_at(k as u32),
                })),
        decreases IPC_N - i,
    {
        let m: Message = ms[i as usize];
        if m.tag != i as u64 || m.val != payload(i) {
            ok = false;
            assert(ms@[i as int] != (Message { tag: i as u64, val: payload_at(i) }));
        }
        i = i + 1;
    }
    if ok && fp_ok && wakeups == IPC_N as u64 {
        OK
    } else {
        1
    }
}

/// The bytes of the piped stream are the letters A to Z, over and over.
pub proof fn law_letters_come_round(i: u32)
    ensures
        65 <= byte_at(i) <= 90,
        i < 26 ==> byte_at(i) == 65 + i,
        i >= 26 ==> byte_at(i) == byte_at((i - 26) as u32),
{
}

/// A stream is all of its messages in order: message `i` has tag `i` and what stands at place
/// `i`, so no message is missing, none comes twice and none out of turn.
pub proof fn law_streams_are_whole(ms: Seq<Message>, i: int, j: int)
    ensures
        is_pipe_stream(ms) && 0 <= i < PIPE_N ==> ms.len() == PIPE_N && ms[i].tag == i && ms[i].val == 65 + i % 26,
        is_ipc_stream(ms) && 0 <= i < j < IPC_N ==> ms.len() == IPC_N && ms[i].tag == i && ms[i].val != ms[j].val,
{
    if is_ipc_stream(ms) && 0 <= i < j < IPC_N {
        law_payloads_differ(i as u32, j as u32);
        assert(ms[i].val == payload_at(i as u32));
        assert(ms[j].val == payload_at(j as u32));
    }
}

} // verus!
