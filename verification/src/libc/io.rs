//! Files by their numbers.

use vstd::prelude::*;
use crate::libc::sys;
use crate::libc::sys::Call;
use crate::user::io::{Progress, WriteAll};

verus! {

pub const O_RDONLY: u64 = 0;

pub const O_WRONLY: u64 = 1;

pub const O_RDWR: u64 = 2;

pub const O_CREAT: u64 = 0x40;

pub const O_TRUNC: u64 = 0x200;

pub const O_APPEND: u64 = 0x400;

/// The call that opens the path at an address.
pub fn open(path_va: u64, path_len: u64, flags: u64) -> (c: Call)
    ensures
        c == (Call { nr: sys::SYS_OPEN, a0: path_va, a1: path_len, a2: flags }),
{
    sys::open(path_va, path_len, flags)
}

/// The call that reads into the buffer at an address.
pub fn read(fd: i64, buf_va: u64, len: u64) -> (c: Call)
    ensures
        c.nr == sys::SYS_READ,
        c.a0 == sys::as_word(fd),
        c.a1 == buf_va,
        c.a2 == len,
{
    sys::read(sys::to_word(fd), buf_va, len)
}

/// The call that writes the buffer at an address.
pub fn write(fd: i64, buf_va: u64, len: u64) -> (c: Call)
    ensures
        c.nr == sys::SYS_WRITE_FD,
        c.a0 == sys::as_word(fd),
        c.a1 == buf_va,
        c.a2 == len,
{
    sys::write(sys::to_word(fd), buf_va, len)
}

/// The call that closes a file.
pub fn close(fd: i64) -> (c: Call)
    ensures
        c.nr == sys::SYS_CLOSE,
        c.a0 == sys::as_word(fd),
        c.a1 == 0 && c.a2 == 0,
{
    sys::close(sys::to_word(fd))
}

/// The call that moves the place in a file.
pub fn lseek(fd: i64, offset: i64, whence: u64) -> (c: Call)
    ensures
        c.nr == sys::SYS_LSEEK,
        c.a0 == sys::as_word(fd),
        c.a1 == sys::as_word(offset),
        c.a2 == whence,
{
    sys::lseek(sys::to_word(fd), offset, whence)
}

/// Writes texts to a file.
#[derive(Copy, Clone, PartialEq, Eq, Debug, Structural)]
pub struct FdWriter(pub i64);

pub fn stdout() -> (w: FdWriter)
    ensures
        w == FdWriter(1),
{
    FdWriter(1)
}

pub fn stderr() -> (w: FdWriter)
    ensures
        w == FdWriter(2),
{
    FdWriter(2)
}

impl FdWriter {
    /// The next call that writes a text at an address, if anything of it is left.
    pub fn next_write(&self, text_va: u64, w: &WriteAll) -> (c: Option<Call>)
        requires
            text_va + w.len <= u64::MAX,
        ensures
            c is Some <==> w.off < w.len,
            c matches Some(call) ==> {
                &&& call.nr == sys::SYS_WRITE_FD
                &&& call.a0 == sys::as_word(self.0)
                &&& call.a1 == text_va + w.off
                &&& call.a2 == w.len - w.off
            },
    {
        match w.next() {
            Progress::From(off) => Some(write(self.0, text_va + off, w.len - off)),
            _ => None,
        }
    }
}

} // verus!
