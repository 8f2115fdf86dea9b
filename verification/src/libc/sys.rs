//! The system calls of the C library.

use vstd::prelude::*;

verus! {

pub const SYS_MMAP: u64 = 21;

pub const SYS_EXIT_GROUP: u64 = 22;

pub const SYS_OPEN: u64 = 23;

pub const SYS_CLOSE: u64 = 24;

pub const SYS_READ: u64 = 25;

pub const SYS_WRITE_FD: u64 = 26;

pub const SYS_LSEEK: u64 = 27;

/// A system call: its number and its arguments.
#[derive(Copy, Clone, PartialEq, Eq, Debug, Structural)]
pub struct Call {
    pub nr: u64,
    pub a0: u64,
    pub a1: u64,
    pub a2: u64,
}

/// A signed number as the word that holds it.
pub open spec fn as_word(v: i64) -> int {
    if v >= 0 {
        v as int
    } else {
        v + 0x1_0000_0000_0000_0000
    }
}

/// A signed number as the word that holds it.
pub fn to_word(v: i64) -> (w: u64)
    ensures
        w == as_word(v),
{
    assert(v >= 0 ==> v as u64 == v) by (bit_vector);
    assert(v < 0 ==> v as u64 == v + 0x1_0000_0000_0000_0000) by (bit_vector);
    v as u64
}

/// The answer to a call: the signed number that the word holds.
pub fn answer(w: u64) -> (v: i64)
    ensures
        as_word(v) == w,
{
    assert(w < 0x8000_0000_0000_0000u64 ==> w as i64 == w) by (bit_vector);
    assert(w >= 0x8000_0000_0000_0000u64 ==> w as i64 == w - 0x1_0000_0000_0000_0000) by (bit_vector);
    w as i64
}

/// Ask for memory.
pub fn mmap(len: u64) -> (c: Call)
    ensures
        c == (Call { nr: SYS_MMAP, a0: len, a1: 0, a2: 0 }),
{
    Call { nr: SYS_MMAP, a0: len, a1: 0, a2: 0 }
}

/// End the program.
pub fn exit(code: u64) -> (c: Call)
    ensures
        c == (Call { nr: SYS_EXIT_GROUP, a0: code, a1: 0, a2: 0 }),
{
    Call { nr: SYS_EXIT_GROUP, a0: code, a1: 0, a2: 0 }
}

pub fn open(path_va: u64, len: u64, flags: u64) -> (c: Call)
    ensures
        c == (Call { nr: SYS_OPEN, a0: path_va, a1: len, a2: flags }),
{
    Call { nr: SYS_OPEN, a0: path_va, a1: len, a2: flags }
}

pub fn read(fd: u64, buf_va: u64, len: u64) -> (c: Call)
    ensures
        c == (Call { nr: SYS_READ, a0: fd, a1: buf_va, a2: len }),
{
    Call { nr: SYS_READ, a0: fd, a1: buf_va, a2: len }
}

pub fn write(fd: u64, buf_va: u64, len: u64) -> (c: Call)
    ensures
        c == (Call { nr: SYS_WRITE_FD, a0: fd, a1: buf_va, a2: len }),
{
    Call { nr: SYS_WRITE_FD, a0: fd, a1: buf_va, a2: len }
}

pub fn close(fd: u64) -> (c: Call)
    ensures
        c == (Call { nr: SYS_CLOSE, a0: fd, a1: 0, a2: 0 }),
{
    Call { nr: SYS_CLOSE, a0: fd, a1: 0, a2: 0 }
}

pub fn lseek(fd: u64, off: i64, whence: u64) -> (c: Call)
    ensures
        c.nr == SYS_LSEEK,
        c.a0 == fd,
        c.a1 == as_word(off),
        c.a2 == whence,
{
    Call { nr: SYS_LSEEK, a0: fd, a1: to_word(off), a2: whence }
}

/// A signed argument travels in a word and comes back: a number that is not negative as it
/// is, a negative one as its complement to the next power of two, no two alike.
pub proof fn law_signed_arguments_travel(a: i64, b: i64)
    ensures
        0 <= as_word(a) <= u64::MAX,
        a >= 0 ==> as_word(a) == a,
        a < 0 ==> as_word(a) == u64::MAX + 1 + a,
        as_word(a) == as_word(b) ==> a == b,
{
}

} // verus!
