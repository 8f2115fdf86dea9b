//! Files and streams: every operation is a submission on the cell's queue, and a
//! completion that comes back.

use vstd::prelude::*;
use crate::bytes;
use crate::user::mem::Grant;

verus! {

/// Bytes of arguments in a submission.
pub const ARGS: usize = 24;

/// The longest write whose bytes ride in the submission.
pub const INLINE_MAX: usize = 16;

/// How durable a write has to be when it completes.
#[derive(Copy, Clone, PartialEq, Eq, Debug, Structural)]
pub enum Durability {
    /// Not at all.
    WriteBack,
    /// Flushed to the device.
    Flush,
    /// On the medium.
    Fua,
}

/// What is asked of a write: its durability, and a latency in microseconds, none for
/// as soon as it can be.
#[derive(Copy, Clone, PartialEq, Eq, Debug, Structural)]
pub struct Contract {
    pub durability: Durability,
    pub latency_us: u32,
}

impl Default for Contract {
    fn default() -> (c: Contract)
        ensures
            c == (Contract { durability: Durability::WriteBack, latency_us: 0 }),
    {
        Contract { durability: Durability::WriteBack, latency_us: 0 }
    }
}

/// What a submission asks for.
#[derive(Copy, Clone, PartialEq, Eq, Debug, Structural)]
pub enum IoOp {
    Open,
    Read,
    Write,
    Fstat,
    Close,
    NetMac,
    NetTx,
    NetRx,
    GpuPresent,
}

/// A submission.
#[derive(PartialEq, Eq, Debug)]
pub struct Submission {
    pub op: IoOp,
    /// Whether the bytes of a write ride in the arguments.
    pub inline: bool,
    pub durability: Durability,
    /// The place in the file that a read or a write is at. A write in line has no room for
    /// it among its arguments.
    pub offset: u64,
    pub args: Vec<u8>,
}

/// How an operation completed: with its result, or with the reason it failed.
#[derive(Copy, Clone, PartialEq, Eq, Debug, Structural)]
pub enum Completion {
    Done(u32),
    Failed(u32),
}

/// Zeros.
pub open spec fn zeros(n: nat) -> Seq<u8> {
    Seq::new(n, |i: int| 0u8)
}

fn put_zeros(a: &mut Vec<u8>, n: usize)
    ensures
        final(a)@ == old(a)@ + zeros(n as nat),
{
    let mut i: usize = 0;
    while i < n
        invariant
            i <= n,
            a@ =~= old(a)@ + zeros(i as nat),
        decreases n - i,
    {
        a.push(0);
        i = i + 1;
    }
}

/// The arguments of an operation by reference: a buffer, a place in the file, a length,
/// and the file.
pub open spec fn by_reference(buf_va: u64, offset: u64, len: u32, fd: u32) -> Seq<u8> {
    bytes::le_bytes(buf_va as int, 8) + bytes::le_bytes(offset as int, 8) + bytes::le_bytes(
        len as int,
        4,
    ) + bytes::le_bytes(fd as int, 4)
}

fn reference_args(buf_va: u64, offset: u64, len: u32, fd: u32) -> (a: Vec<u8>)
    ensures
        a@ == by_reference(buf_va, offset, len, fd),
{
    let mut a: Vec<u8> = Vec::new();
    bytes::put_u64(&mut a, buf_va);
    bytes::put_u64(&mut a, offset);
    bytes::put_u32(&mut a, len);
    bytes::put_u32(&mut a, fd);
    assert(a@ =~= by_reference(buf_va, offset, len, fd));
    a
}

/// The arguments of a write whose bytes ride along: the file, the length, the bytes.
pub open spec fn in_line(fd: u32, buf: Seq<u8>) -> Seq<u8> {
    bytes::le_bytes(fd as int, 4) + bytes::le_bytes(buf.len() as int, 4) + buf + zeros(
        (INLINE_MAX - buf.len()) as nat,
    )
}

/// The result of an operation that gives a number.
pub open spec fn outcome(c: Completion) -> Result<u32, u32> {
    match c {
        Completion::Done(r) => Ok(r),
        Completion::Failed(s) => Err(s),
    }
}

/// The result of an operation that gives a number.
pub fn finish(c: Completion) -> (r: Result<u32, u32>)
    ensures
        r == outcome(c),
{
    match c {
        Completion::Done(v) => Ok(v),
        Completion::Failed(s) => Err(s),
    }
}

/// A file that is open.
#[derive(Copy, Clone, PartialEq, Eq, Debug, Structural)]
pub struct File {
    pub fd: u32,
}

impl File {
    /// The submission that opens the path at an address.
    pub fn open(path_va: u64, path_len: u32) -> (s: Submission)
        ensures
            s.op == IoOp::Open,
            !s.inline,
            s.durability == Durability::WriteBack,
            s.offset == 0,
            s.args@ == bytes::le_bytes(path_va as int, 8) + bytes::le_bytes(path_len as int, 4)
                + zeros(12),
    {
        let mut a: Vec<u8> = Vec::new();
        bytes::put_u64(&mut a, path_va);
        bytes::put_u32(&mut a, path_len);
        put_zeros(&mut a, 12);
        assert(a@ =~= bytes::le_bytes(path_va as int, 8) + bytes::le_bytes(path_len as int, 4)
            + zeros(12));
        Submission { op: IoOp::Open, inline: false, durability: Durability::WriteBack, offset: 0, args: a }
    }

    /// The file that was opened, or the reason that it was not.
    pub fn opened(c: Completion) -> (r: Result<File, u32>)
        ensures
            r == (match c {
                Completion::Done(fd) => Ok::<File, u32>(File { fd }),
                Completion::Failed(s) => Err(s),
            }),
    {
        match c {
            Completion::Done(fd) => Ok(File { fd }),
            Completion::Failed(s) => Err(s),
        }
    }

    /// A file that is open already.
    pub fn from_fd(fd: u32) -> (f: File)
        ensures
            f.fd == fd,
    {
        File { fd }
    }

    pub fn fd(&self) -> (fd: u32)
        ensures
            fd == self.fd,
    {
        self.fd
    }

    /// The submission that reads into the buffer at an address.
    pub fn read_at(&self, buf_va: u64, len: u32, offset: u64) -> (s: Submission)
        ensures
            s.op == IoOp::Read,
            !s.inline,
            s.durability == Durability::WriteBack,
            s.offset == offset,
            s.args@ == by_reference(buf_va, offset, len, self.fd),
    {
        Submission {
            op: IoOp::Read,
            inline: false,
            durability: Durability::WriteBack,
            offset,
            args: reference_args(buf_va, offset, len, self.fd),
        }
    }

    /// The submission that reads straight into a grant.
    pub fn read_into(&self, g: &Grant, goff: u64, len: u32, offset: u64) -> (s: Submission)
        requires
            g.base + goff <= u64::MAX,
        ensures
            s.op == IoOp::Read,
            !s.inline,
            s.durability == Durability::WriteBack,
            s.offset == offset,
            s.args@ == by_reference((g.base + goff) as u64, offset, len, self.fd),
    {
        self.read_at(g.base() + goff, len, offset)
    }

    /// The submission that writes some bytes at a place: a short write carries them, a
    /// longer one names the address that they stand at.
    pub fn write_contract(&self, buf: &[u8], buf_va: u64, offset: u64, contract: Contract) -> (s: Submission)
        requires
            buf@.len() <= u32::MAX,
        ensures
            s.op == IoOp::Write,
            s.durability == contract.durability,
            s.inline == (buf@.len() <= INLINE_MAX),
            s.offset == offset,
            s.args@ == (if s.inline {
                in_line(self.fd, buf@)
            } else {
                by_reference(buf_va, offset, buf@.len() as u32, self.fd)
            }),
    {
        if buf.len() <= INLINE_MAX {
            let mut a: Vec<u8> = Vec::new();
            bytes::put_u32(&mut a, self.fd);
            bytes::put_u32(&mut a, buf.len() as u32);
            crate::text::put_bytes(&mut a, buf);
            put_zeros(&mut a, INLINE_MAX - buf.len());
            assert(a@ =~= in_line(self.fd, buf@));
            Submission {
                op: IoOp::Write,
                inline: true,
                durability: contract.durability,
                offset,
                args: a,
            }
        } else {
            Submission {
                op: IoOp::Write,
                inline: false,
                durability: contract.durability,
                offset,
                args: reference_args(buf_va, offset, buf.len() as u32, self.fd),
            }
        }
    }

    /// The same, with nothing asked of the write.
    pub fn write_at(&self, buf: &[u8], buf_va: u64, offset: u64) -> (s: Submission)
        requires
            buf@.len() <= u32::MAX,
        ensures
            s.op == IoOp::Write,
            s.durability == Durability::WriteBack,
            s.inline == (buf@.len() <= INLINE_MAX),
            s.offset == offset,
            s.args@ == (if s.inline {
                in_line(self.fd, buf@)
            } else {
                by_reference(buf_va, offset, buf@.len() as u32, self.fd)
            }),
    {
        self.write_contract(
            buf,
            buf_va,
            offset,
            Contract { durability: Durability::WriteBack, latency_us: 0 },
        )
    }

    /// The submission that asks for the size; the answer goes to an address.
    pub fn size(&self, stat_va: u64) -> (s: Submission)
        ensures
            s.op == IoOp::Fstat,
            !s.inline,
            s.durability == Durability::WriteBack,
            s.offset == 0,
            s.args@ == bytes::le_bytes(stat_va as int, 8) + bytes::le_bytes(self.fd as int, 4)
                + zeros(12),
    {
        let mut a: Vec<u8> = Vec::new();
        bytes::put_u64(&mut a, stat_va);
        bytes::put_u32(&mut a, self.fd);
        put_zeros(&mut a, 12);
        assert(a@ =~= bytes::le_bytes(stat_va as int, 8) + bytes::le_bytes(self.fd as int, 4)
            + zeros(12));
        Submission { op: IoOp::Fstat, inline: false, durability: Durability::WriteBack, offset: 0, args: a }
    }

    /// The size, from the completion of what [`File::size`] submits and from the first
    /// word that was left at its address.
    pub fn size_answer(c: Completion, word: u64) -> (r: Result<u64, u32>)
        ensures
            r == (match outcome(c) {
                Ok(_) => Ok::<u64, u32>(word),
                Err(why) => Err::<u64, u32>(why),
            }),
    {
        match finish(c) {
            Ok(_) => Ok(word),
            Err(why) => Err(why),
        }
    }

    /// The submission that closes the file.
    pub fn close(self) -> (s: Submission)
        ensures
            s.op == IoOp::Close,
            !s.inline,
            s.durability == Durability::WriteBack,
            s.offset == 0,
            s.args@ == bytes::le_bytes(self.fd as int, 4) + zeros(20),
    {
        let mut a: Vec<u8> = Vec::new();
        bytes::put_u32(&mut a, self.fd);
        put_zeros(&mut a, 20);
        assert(a@ =~= bytes::le_bytes(self.fd as int, 4) + zeros(20));
        Submission { op: IoOp::Close, inline: false, durability: Durability::WriteBack, offset: 0, args: a }
    }
}

/// A stream of bytes: a file without places.
#[derive(Copy, Clone, PartialEq, Eq, Debug, Structural)]
pub struct Stream {
    pub file: File,
}

impl Stream {
    /// The cell's standard output.
    pub fn stdout() -> (s: Stream)
        ensures
            s.file.fd == 1,
    {
        Stream { file: File::from_fd(1) }
    }

    /// The submission that writes some bytes.
    pub fn write(&self, buf: &[u8], buf_va: u64) -> (s: Submission)
        requires
            buf@.len() <= u32::MAX,
        ensures
            s.op == IoOp::Write,
            s.durability == Durability::WriteBack,
            s.inline == (buf@.len() <= INLINE_MAX),
            s.offset == 0,
            s.args@ == (if s.inline {
                in_line(self.file.fd, buf@)
            } else {
                by_reference(buf_va, 0, buf@.len() as u32, self.file.fd)
            }),
    {
        self.file.write_at(buf, buf_va, 0)
    }
}

/// The arguments of every operation fill a submission exactly.
pub proof fn law_arguments_fit(buf_va: u64, offset: u64, len: u32, fd: u32, buf: Seq<u8>)
    requires
        buf.len() <= INLINE_MAX,
    ensures
        by_reference(buf_va, offset, len, fd).len() == ARGS,
        in_line(fd, buf).len() == ARGS,
{
    reveal_with_fuel(bytes::le_bytes, 9);
}

/// The kernel finds in the arguments what was put there: the buffer, the place, the
/// length and the file of an operation by reference, and the bytes of a write in line.
pub proof fn law_arguments_read_back(buf_va: u64, offset: u64, len: u32, fd: u32, buf: Seq<u8>)
    requires
        buf.len() <= INLINE_MAX,
    ensures
        bytes::le(by_reference(buf_va, offset, len, fd), 0, 8) == buf_va,
        bytes::le(by_reference(buf_va, offset, len, fd), 8, 8) == offset,
        bytes::le(by_reference(buf_va, offset, len, fd), 16, 4) == len,
        bytes::le(by_reference(buf_va, offset, len, fd), 20, 4) == fd,
        bytes::le(in_line(fd, buf), 0, 4) == fd,
        bytes::le(in_line(fd, buf), 4, 4) == buf.len(),
        in_line(fd, buf).subrange(8, 8 + buf.len() as int) == buf,
{
    reveal_with_fuel(bytes::pow256, 9);
    bytes::law_bytes_read_back(buf_va as int, 8);
    bytes::law_bytes_read_back(offset as int, 8);
    bytes::law_bytes_read_back(len as int, 4);
    bytes::law_bytes_read_back(fd as int, 4);
    bytes::law_bytes_read_back(buf.len() as int, 4);
    let p = by_reference(buf_va, offset, len, fd);
    let a = bytes::le_bytes(buf_va as int, 8);
    let b = bytes::le_bytes(offset as int, 8);
    let c = bytes::le_bytes(len as int, 4);
    let d = bytes::le_bytes(fd as int, 4);
    assert(p.subrange(0, 8) =~= a.subrange(0, 8));
    bytes::lemma_le_shift(p, a, 0, 0, 8);
    assert(p.subrange(8, 16) =~= b.subrange(0, 8));
    bytes::lemma_le_shift(p, b, 8, 0, 8);
    assert(p.subrange(16, 20) =~= c.subrange(0, 4));
    bytes::lemma_le_shift(p, c, 16, 0, 4);
    assert(p.subrange(20, 24) =~= d.subrange(0, 4));
    bytes::lemma_le_shift(p, d, 20, 0, 4);
    let q = in_line(fd, buf);
    let e = bytes::le_bytes(buf.len() as int, 4);
    assert(q.subrange(0, 4) =~= d.subrange(0, 4));
    bytes::lemma_le_shift(q, d, 0, 0, 4);
    assert(q.subrange(4, 8) =~= e.subrange(0, 4));
    bytes::lemma_le_shift(q, e, 4, 0, 4);
    assert(q.subrange(8, 8 + buf.len() as int) =~= buf);
}

/// What has been written of a text to a file that takes it piece by piece.
#[derive(Copy, Clone, PartialEq, Eq, Debug, Structural)]
pub struct WriteAll {
    pub off: u64,
    pub len: u64,
}

/// How far a text has been written.
#[derive(Copy, Clone, PartialEq, Eq, Debug, Structural)]
pub enum Progress {
    /// The rest from here on is to be written.
    From(u64),
    Done,
    Failed,
}

/// Where a text that is written so far is to be gone on with.
pub open spec fn rest_of(w: WriteAll) -> Progress {
    if w.off < w.len {
        Progress::From(w.off)
    } else {
        Progress::Done
    }
}

/// A write answered with `n`: how far the text is written now, and how to go on.
pub open spec fn wrote_on(before: WriteAll, n: i64) -> (int, Progress) {
    if n <= 0 {
        (before.off as int, Progress::Failed)
    } else if before.off + n < before.len {
        (before.off + n, Progress::From((before.off + n) as u64))
    } else {
        (before.off + n, Progress::Done)
    }
}

impl WriteAll {
    pub fn new(len: u64) -> (w: WriteAll)
        ensures
            w == (WriteAll { off: 0, len }),
    {
        WriteAll { off: 0, len }
    }

    /// Where to go on.
    pub fn next(&self) -> (p: Progress)
        ensures
            p == rest_of(*self),
            p == (if self.off < self.len {
                Progress::From(self.off)
            } else {
                Progress::Done
            }),
    {
        if self.off < self.len {
            Progress::From(self.off)
        } else {
            Progress::Done
        }
    }

    /// Take what a write has answered: how much was written, or nothing where it failed.
    pub fn wrote(&mut self, n: i64) -> (p: Progress)
        requires
            old(self).off < old(self).len,
            old(self).len <= i64::MAX,
        ensures
            final(self).len == old(self).len,
            (final(self).off as int, p) == wrote_on(*old(self), n),
            n <= 0 ==> p == Progress::Failed && final(self).off == old(self).off,
            n > 0 ==> {
                &&& final(self).off == old(self).off + n
                &&& p == (if final(self).off < final(self).len {
                    Progress::From(final(self).off)
                } else {
                    Progress::Done
                })
            },
    {
        if n <= 0 {
            return Progress::Failed;
        }
        self.off = self.off + n as u64;
        self.next()
    }
}

/// What came of an operation is what is told of it: the result where it was done, the
/// status where it failed.
pub proof fn law_outcome_is_the_completion(n: u32)
    ensures
        outcome(Completion::Done(n)) == Ok::<u32, u32>(n),
        outcome(Completion::Failed(n)) == Err::<u32, u32>(n),
{
}

/// A text is written whole: each write goes on where the last one ended, however much of it
/// that took, it is done exactly where every byte has been written, and a write that takes
/// nothing fails it.
pub proof fn law_text_is_written_whole(len: u64, off: u64, n: i64, k: i64)
    requires
        off < len <= i64::MAX,
    ensures
        rest_of(WriteAll { off: 0, len }) == Progress::From(0),
        rest_of(WriteAll { off, len }) == Progress::From(off),
        rest_of(WriteAll { off: len, len }) == Progress::Done,
        n > 0 ==> wrote_on(WriteAll { off, len }, n).0 == off + n,
        wrote_on(WriteAll { off, len }, n).1 == Progress::Done <==> n >= len - off,
        0 < n < len - off ==> wrote_on(WriteAll { off, len }, n).1 == Progress::From((off + n) as u64),
        n <= 0 ==> wrote_on(WriteAll { off, len }, n) == (off as int, Progress::Failed),
        0 < n < len - off && 0 < k <= len - off - n ==> wrote_on(
            WriteAll { off: (off + n) as u64, len },
            k,
        ).0 == wrote_on(WriteAll { off, len }, (n + k) as i64).0,
{
}

} // verus!
