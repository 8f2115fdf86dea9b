//! Surfaces, the compositor that puts them on a framebuffer, and the GPU that shows
//! one.

use vstd::prelude::*;
use crate::bytes;
use crate::user::io::{Durability, IoOp, Submission};
use crate::user::ipc::SharedBuffer;
use crate::user::mem;
use crate::user::mem::{AllocAt, Allocating, Grant, MemKind};

verus! {

/// Bytes of a pixel.
pub const BYTES_PER_PIXEL: u64 = 4;

/// The message that announces a frame.
pub const OP_FRAME: u8 = 1;

/// The sum of the first `n` pixels.
pub open spec fn pixel_sum(px: Seq<u32>, n: int) -> int
    decreases n,
{
    if n <= 0 {
        0
    } else {
        pixel_sum(px, n - 1) + px[n - 1]
    }
}

/// The fingerprint of some pixels: their sum, on numbers that wrap.
pub open spec fn fingerprint(px: Seq<u32>) -> u32 {
    (pixel_sum(px, px.len() as int) % 0x1_0000_0000) as u32
}

/// The fingerprint of some pixels.
pub fn checksum(px: &[u32]) -> (s: u32)
    ensures
        s == fingerprint(px@),
{
    let mut s: u32 = 0;
    let mut i: usize = 0;
    while i < px.len()
        invariant
            i <= px@.len(),
            s == pixel_sum(px@, i as int) % 0x1_0000_0000,
        decreases px@.len() - i,
    {
        proof {
            vstd::arithmetic::div_mod::lemma_add_mod_noop(
                pixel_sum(px@, i as int),
                px@[i as int] as int,
                0x1_0000_0000,
            );
            vstd::arithmetic::div_mod::lemma_small_mod(px@[i as int] as nat, 0x1_0000_0000);
        }
        s = s.wrapping_add(px[i]);
        i = i + 1;
    }
    s
}

/// Bytes of a surface.
pub open spec fn surface_bytes(w: u32, h: u32) -> int {
    w * h * 4
}

/// How many bytes to ask the kernel for.
pub fn surface_len(w: u32, h: u32) -> (n: u64)
    requires
        surface_bytes(w, h) <= u64::MAX,
    ensures
        n == surface_bytes(w, h),
{
    assert(w * h <= u64::MAX && 0 <= w * h) by (nonlinear_arith)
        requires
            0 <= w <= u32::MAX,
            0 <= h <= u32::MAX,
    ;
    (w as u64 * h as u64) * 4
}

/// Begin to get the memory for a surface.
pub fn begin_surface(w: u32, h: u32) -> (at: Allocating)
    requires
        surface_bytes(w, h) <= u64::MAX - 4095,
    ensures
        at == (Allocating {
            kind: MemKind::Ddr,
            len: surface_bytes(w, h) as u64,
            at: AllocAt::Begun,
        }),
        at.wf(),
{
    Grant::allocate(MemKind::Ddr, surface_len(w, h))
}

/// Whether a grant is one that was got for a surface.
pub open spec fn holds_surface(g: Grant, w: u32, h: u32) -> bool {
    g.len == mem::page_ceil(surface_bytes(w, h))
}

/// A surface that a client draws into, backed by a grant.
pub struct Surface {
    pub grant: Grant,
    pub w: u32,
    pub h: u32,
    pub frame_id: u32,
    pub committed: bool,
    /// What the grant holds.
    pub pixels: Vec<u32>,
}

/// A message to the compositor.
pub struct FrameMessage {
    pub opcode: u8,
    pub user_data: u64,
    pub payload: Vec<u8>,
}

/// A frame that the compositor has received: where the buffer stands in this cell, and
/// what it is.
#[derive(Copy, Clone, PartialEq, Eq, Debug, Structural)]
pub struct Frame {
    pub peer_va: u64,
    pub frame_id: u32,
    pub w: u32,
    pub h: u32,
}

/// How a frame is written into a message.
pub open spec fn frame_bytes(f: Frame) -> Seq<u8> {
    bytes::le_bytes(f.peer_va as int, 8) + bytes::le_bytes(f.frame_id as int, 4)
        + bytes::le_bytes(f.w as int, 4) + bytes::le_bytes(f.h as int, 4) + seq![0u8, 0u8, 0u8, 0u8]
}

fn encode_frame(f: Frame) -> (p: Vec<u8>)
    ensures
        p@ == frame_bytes(f),
{
    let mut p: Vec<u8> = Vec::new();
    bytes::put_u64(&mut p, f.peer_va);
    bytes::put_u32(&mut p, f.frame_id);
    bytes::put_u32(&mut p, f.w);
    bytes::put_u32(&mut p, f.h);
    p.push(0);
    p.push(0);
    p.push(0);
    p.push(0);
    assert(p@ =~= frame_bytes(f));
    p
}

/// The frame that a message stands for.
pub open spec fn frame_in(p: Seq<u8>) -> Frame {
    Frame {
        peer_va: bytes::le(p, 0, 8) as u64,
        frame_id: bytes::le(p, 8, 4) as u32,
        w: bytes::le(p, 12, 4) as u32,
        h: bytes::le(p, 16, 4) as u32,
    }
}

/// A frame is read from its message as it was written.
pub proof fn law_frame_reads_back(f: Frame)
    ensures
        frame_bytes(f).len() == 24,
        frame_in(frame_bytes(f)) == f,
{
    reveal_with_fuel(bytes::pow256, 9);
    bytes::law_bytes_read_back(f.peer_va as int, 8);
    bytes::law_bytes_read_back(f.frame_id as int, 4);
    bytes::law_bytes_read_back(f.w as int, 4);
    bytes::law_bytes_read_back(f.h as int, 4);
    let p = frame_bytes(f);
    let a = bytes::le_bytes(f.peer_va as int, 8);
    let b = bytes::le_bytes(f.frame_id as int, 4);
    let c = bytes::le_bytes(f.w as int, 4);
    let d = bytes::le_bytes(f.h as int, 4);
    assert(p.subrange(0, 8) =~= a.subrange(0, 8));
    bytes::lemma_le_shift(p, a, 0, 0, 8);
    assert(p.subrange(8, 12) =~= b.subrange(0, 4));
    bytes::lemma_le_shift(p, b, 8, 0, 4);
    assert(p.subrange(12, 16) =~= c.subrange(0, 4));
    bytes::lemma_le_shift(p, c, 12, 0, 4);
    assert(p.subrange(16, 20) =~= d.subrange(0, 4));
    bytes::lemma_le_shift(p, d, 16, 0, 4);
}

impl Surface {
    pub open spec fn wf(&self) -> bool {
        self.pixels@.len() == self.w * self.h
    }

    /// A surface over the grant that was got for it, if there is one. `pixels` is what the
    /// memory holds.
    pub fn new(w: u32, h: u32, grant: Option<Grant>, pixels: Vec<u32>) -> (s: Option<Surface>)
        requires
            grant matches Some(g) ==> holds_surface(g, w, h),
            pixels@.len() == w * h,
        ensures
            s is Some <==> grant is Some,
            s matches Some(x) ==> {
                &&& x.wf()
                &&& Some(x.grant) == grant
                &&& x.w == w
                &&& x.h == h
                &&& x.frame_id == 0
                &&& !x.committed
                &&& x.pixels@ == pixels@
            },
    {
        match grant {
            None => None,
            Some(grant) => Some(
                Surface { grant, w, h, frame_id: 0, committed: false, pixels },
            ),
        }
    }

    pub fn width(&self) -> (w: u32)
        ensures
            w == self.w,
    {
        self.w
    }

    pub fn height(&self) -> (h: u32)
        ensures
            h == self.h,
    {
        self.h
    }

    pub fn pixels(&self) -> (p: &Vec<u32>)
        ensures
            p@ == self.pixels@,
    {
        &self.pixels
    }

    /// Draw one pixel. A surface that has been committed is read-only.
    pub fn draw(&mut self, i: usize, px: u32)
        requires
            !old(self).grant.sealed,
            i < old(self).pixels@.len(),
        ensures
            final(self).pixels@ == old(self).pixels@.update(i as int, px),
            *final(self) == (Surface { pixels: final(self).pixels, ..*old(self) }),
    {
        self.pixels[i] = px;
    }

    pub fn checksum(&self) -> (s: u32)
        ensures
            s == fingerprint(self.pixels@),
    {
        checksum(self.pixels.as_slice())
    }

    /// Take the commit of the frame one step on. A surface is committed once: it is
    /// sealed, then handed to the compositor, which is told of it and answers with the
    /// fingerprint of what it shows. Nothing is asked of the kernel for a surface that
    /// was committed, and one that could not be sealed is not handed over. Where any of
    /// this fails, the commit ends with nothing shown.
    pub fn commit(&mut self, at: &mut CommitAt, e: CommitEvent) -> (action: CommitAction)
        requires
            expects(*old(at), e),
            old(self).frame_id < u32::MAX,
        ensures
            commit_done(*old(self), *final(self), *old(at), *final(at), e, action),
    {
        match (*at, e) {
            (CommitAt::Sealing, CommitEvent::Sealed(ret)) => {
                if self.grant.seal(ret).is_err() {
                    *at = CommitAt::Over;
                    return CommitAction::Done(None);
                }
                *at = CommitAt::Sharing;
                CommitAction::Share(self.grant.cap_id())
            },
            (CommitAt::Sharing, CommitEvent::Shared(shared)) => match shared {
                None => {
                    *at = CommitAt::Over;
                    CommitAction::Done(None)
                },
                Some(b) => {
                    self.committed = true;
                    *at = CommitAt::Sending;
                    let payload: Vec<u8> = encode_frame(
                        Frame { peer_va: b.peer_va, frame_id: self.frame_id, w: self.w, h: self.h },
                    );
                    CommitAction::Send(
                        FrameMessage { opcode: OP_FRAME, user_data: self.frame_id as u64, payload },
                    )
                },
            },
            (CommitAt::Sending, CommitEvent::Sent(sent)) => {
                if !sent {
                    *at = CommitAt::Over;
                    return CommitAction::Done(None);
                }
                *at = CommitAt::Sent;
                CommitAction::Await
            },
            (CommitAt::Sent, CommitEvent::Shown(answer)) => {
                *at = CommitAt::Over;
                CommitAction::Done(answer)
            },
            _ => {
                if self.committed {
                    *at = CommitAt::Over;
                    return CommitAction::Done(None);
                }
                self.frame_id = self.frame_id + 1;
                *at = CommitAt::Sealing;
                CommitAction::Seal(self.grant.cap_id())
            },
        }
    }
}

/// Where the commit of a surface is.
#[derive(Copy, Clone, PartialEq, Eq, Debug, Structural)]
pub enum CommitAt {
    Begun,
    /// The kernel was asked to seal the grant.
    Sealing,
    /// The kernel was asked to hand it to the compositor.
    Sharing,
    /// The compositor is being told.
    Sending,
    /// The compositor was told, and has not answered.
    Sent,
    Over,
}

/// What came back.
#[derive(Copy, Clone, PartialEq, Eq, Debug, Structural)]
pub enum CommitEvent {
    Go,
    /// Whether the grant is sealed: zero where it is.
    Sealed(u64),
    Shared(Option<SharedBuffer>),
    /// Whether there was room for the message.
    Sent(bool),
    /// The compositor's answer: the fingerprint of what it shows, if it shows it.
    Shown(Option<u32>),
}

/// What the commit of a surface does next.
pub enum CommitAction {
    /// Have the grant of this capability sealed.
    Seal(u32),
    /// Have it handed to the compositor.
    Share(u32),
    Send(FrameMessage),
    /// Wait until the compositor answers.
    Await,
    /// Over: what the compositor showed, unless something failed.
    Done(Option<u32>),
}

/// Whether an event is what the commit waits for.
pub open spec fn expects(at: CommitAt, e: CommitEvent) -> bool {
    match at {
        CommitAt::Begun => e is Go,
        CommitAt::Sealing => e is Sealed,
        CommitAt::Sharing => e is Shared,
        CommitAt::Sending => e is Sent,
        CommitAt::Sent => e is Shown,
        CommitAt::Over => false,
    }
}

/// What a step of the commit does.
pub open spec fn commit_done(
    before: Surface,
    after: Surface,
    at0: CommitAt,
    at1: CommitAt,
    e: CommitEvent,
    action: CommitAction,
) -> bool {
    match at0 {
        CommitAt::Begun => if before.committed {
            &&& after == before
            &&& at1 == CommitAt::Over
            &&& action == CommitAction::Done(None)
        } else {
            &&& after == (Surface { frame_id: (before.frame_id + 1) as u32, ..before })
            &&& at1 == CommitAt::Sealing
            &&& action == CommitAction::Seal(before.grant.cap_id)
        },
        CommitAt::Sealing => if e->Sealed_0 == 0 {
            &&& after == (Surface { grant: Grant { sealed: true, ..before.grant }, ..before })
            &&& at1 == CommitAt::Sharing
            &&& action == CommitAction::Share(before.grant.cap_id)
        } else {
            &&& after == before
            &&& at1 == CommitAt::Over
            &&& action == CommitAction::Done(None)
        },
        CommitAt::Sharing => match e->Shared_0 {
            None => {
                &&& after == before
                &&& at1 == CommitAt::Over
                &&& action == CommitAction::Done(None)
            },
            Some(b) => {
                &&& after == (Surface { committed: true, ..before })
                &&& at1 == CommitAt::Sending
                &&& action matches CommitAction::Send(m) && {
                    &&& m.opcode == OP_FRAME
                    &&& m.user_data == before.frame_id
                    &&& m.payload@ == frame_bytes(
                        Frame {
                            peer_va: b.peer_va,
                            frame_id: before.frame_id,
                            w: before.w,
                            h: before.h,
                        },
                    )
                }
            },
        },
        CommitAt::Sending => if e->Sent_0 {
            &&& after == before
            &&& at1 == CommitAt::Sent
            &&& action == CommitAction::Await
        } else {
            &&& after == before
            &&& at1 == CommitAt::Over
            &&& action == CommitAction::Done(None)
        },
        CommitAt::Sent => {
            &&& after == before
            &&& at1 == CommitAt::Over
            &&& action == CommitAction::Done(e->Shown_0)
        },
        CommitAt::Over => false,
    }
}

/// Committing a surface a second time asks nothing of anyone and changes nothing.
pub proof fn law_surface_commits_once(
    before: Surface,
    after: Surface,
    at: CommitAt,
    action: CommitAction,
)
    requires
        before.committed,
        commit_done(before, after, CommitAt::Begun, at, CommitEvent::Go, action),
    ensures
        action == CommitAction::Done(None),
        after == before,
{
}

/// The framebuffer that surfaces are put on.
pub struct Compositor {
    pub w: u32,
    pub h: u32,
    pub fb: Vec<u32>,
}

/// How many pixels of a frame the compositor takes.
pub open spec fn composed(c: &Compositor, f: Frame) -> int {
    if f.w * f.h < c.w * c.h {
        f.w * f.h
    } else {
        c.w * c.h
    }
}

/// What putting a frame on the framebuffer does, and what the client is answered.
pub open spec fn presented(
    before: &Compositor,
    after: &Compositor,
    f: Frame,
    src: Seq<u32>,
    r: (u32, u32),
) -> bool {
    let n = composed(before, f);
    &&& after.w == before.w && after.h == before.h
    &&& after.fb@ == src.take(n) + before.fb@.skip(n)
    &&& r == (f.frame_id, fingerprint(src.take(n)))
}

impl Compositor {
    pub open spec fn wf(&self) -> bool {
        self.fb@.len() == self.w * self.h
    }

    /// A compositor over the grant that was got for its framebuffer, if there is one. `fb`
    /// is what the memory holds.
    pub fn new(w: u32, h: u32, grant: Option<Grant>, fb: Vec<u32>) -> (c: Option<Compositor>)
        requires
            grant matches Some(g) ==> holds_surface(g, w, h),
            fb@.len() == w * h,
        ensures
            c is Some <==> grant is Some,
            c matches Some(x) ==> x.wf() && x.w == w && x.h == h && x.fb@ == fb@,
    {
        match grant {
            None => None,
            Some(_) => Some(Compositor { w, h, fb }),
        }
    }

    pub fn framebuffer(&self) -> (p: &Vec<u32>)
        ensures
            p@ == self.fb@,
    {
        &self.fb
    }

    /// The frame that a message stands for.
    pub fn decode(payload: &[u8]) -> (f: Frame)
        requires
            payload@.len() == 24,
        ensures
            f == frame_in(payload@),
    {
        Frame {
            peer_va: bytes::read_u64(payload, 0),
            frame_id: bytes::read_u32(payload, 8),
            w: bytes::read_u32(payload, 12),
            h: bytes::read_u32(payload, 16),
        }
    }

    /// Put a frame on the framebuffer, as much of it as fits: the number of the frame and
    /// the fingerprint of what was put there, which go back to the client. `src` is what
    /// the shared buffer holds.
    pub fn present(&mut self, payload: &[u8], src: &Vec<u32>) -> (r: (u32, u32))
        requires
            old(self).wf(),
            payload@.len() == 24,
            src@.len() >= composed(old(self), frame_in(payload@)),
        ensures
            final(self).wf(),
            presented(old(self), final(self), frame_in(payload@), src@, r),
    {
        let f: Frame = Compositor::decode(payload);
        proof {
            let (a, b, c, d) = (f.w as int, f.h as int, self.w as int, self.h as int);
            assert(a * b <= u64::MAX && 0 <= a * b && c * d <= u64::MAX && 0 <= c * d)
                by (nonlinear_arith)
                requires
                    0 <= a <= u32::MAX,
                    0 <= b <= u32::MAX,
                    0 <= c <= u32::MAX,
                    0 <= d <= u32::MAX,
            ;
        }
        let theirs: u64 = f.w as u64 * f.h as u64;
        let ours: u64 = self.w as u64 * self.h as u64;
        let least: u64 = if theirs < ours { theirs } else { ours };
        assert(least <= src.len());
        let n: usize = least as usize;
        let ghost fb0 = self.fb@;
        let mut taken: Vec<u32> = Vec::new();
        let mut i: usize = 0;
        while i < n
            invariant
                n <= fb0.len(),
                n <= src@.len(),
                i <= n,
                self.w == old(self).w && self.h == old(self).h,
                taken@ =~= src@.take(i as int),
                self.fb@ =~= src@.take(i as int) + fb0.skip(i as int),
                self.fb@.len() == fb0.len(),
            decreases n - i,
        {
            let px: u32 = src[i];
            self.fb[i] = px;
            taken.push(px);
            i = i + 1;
        }
        (f.frame_id, checksum(taken.as_slice()))
    }
}

/// What a client drew is what is shown: a compositor that is as large as the surface
/// answers with the fingerprint of exactly the client's pixels, and its framebuffer
/// holds them.
pub proof fn law_compositor_sees_the_surface(
    w: u32,
    h: u32,
    before: &Compositor,
    after: &Compositor,
    pixels: Seq<u32>,
    f: Frame,
    r: (u32, u32),
)
    requires
        before.wf(),
        before.w == w && before.h == h,
        pixels.len() == w * h,
        f.w == w && f.h == h,
        presented(before, after, f, pixels, r),
    ensures
        r.0 == f.frame_id,
        r.1 == fingerprint(pixels),
        after.fb@ == pixels,
{
    assert(pixels.take(pixels.len() as int) =~= pixels);
    assert(after.fb@ =~= pixels);
}

/// What is handed to the GPU with a frame.
pub open spec fn present_bytes(buf_va: u64, w: u32, h: u32) -> Seq<u8> {
    bytes::le_bytes(buf_va as int, 8) + bytes::le_bytes(w as int, 4) + bytes::le_bytes(h as int, 4)
        + seq![0u8, 0u8, 0u8, 0u8, 0u8, 0u8, 0u8, 0u8]
}

/// A submission that has the GPU show a buffer.
pub open spec fn shows(s: Submission, buf_va: u64, w: u32, h: u32) -> bool {
    &&& s.op == IoOp::GpuPresent
    &&& !s.inline
    &&& s.durability == Durability::WriteBack
    &&& s.offset == 0
    &&& s.args@ == present_bytes(buf_va, w, h)
}

/// The GPU, as the kernel bridges it.
pub struct Gpu;

impl Gpu {
    /// The submission that has the GPU show the buffer at an address.
    pub fn present(buf_va: u64, w: u32, h: u32) -> (s: Submission)
        ensures
            shows(s, buf_va, w, h),
    {
        let mut a: Vec<u8> = Vec::new();
        bytes::put_u64(&mut a, buf_va);
        bytes::put_u32(&mut a, w);
        bytes::put_u32(&mut a, h);
        let mut i: usize = 0;
        let ghost head = a@;
        while i < 8
            invariant
                i <= 8,
                a@ =~= head + Seq::new(i as nat, |j: int| 0u8),
            decreases 8 - i,
        {
            a.push(0);
            i = i + 1;
        }
        assert(a@ =~= present_bytes(buf_va, w, h));
        Submission {
            op: IoOp::GpuPresent,
            inline: false,
            durability: Durability::WriteBack,
            offset: 0,
            args: a,
        }
    }
}

/// A surface that goes straight to the GPU.
pub struct Scanout {
    pub grant: Grant,
    pub w: u32,
    pub h: u32,
    pub pixels: Vec<u32>,
}

impl Scanout {
    /// A surface over the grant that was got for it, if there is one. `pixels` is what the
    /// memory holds.
    pub fn new(w: u32, h: u32, grant: Option<Grant>, pixels: Vec<u32>) -> (s: Option<Scanout>)
        requires
            grant matches Some(g) ==> holds_surface(g, w, h),
            pixels@.len() == w * h,
        ensures
            s is Some <==> grant is Some,
            s matches Some(x) ==> {
                &&& Some(x.grant) == grant
                &&& x.w == w
                &&& x.h == h
                &&& x.pixels@ == pixels@
            },
    {
        match grant {
            None => None,
            Some(grant) => Some(Scanout { grant, w, h, pixels }),
        }
    }

    pub fn width(&self) -> (w: u32)
        ensures
            w == self.w,
    {
        self.w
    }

    pub fn height(&self) -> (h: u32)
        ensures
            h == self.h,
    {
        self.h
    }

    pub fn checksum(&self) -> (s: u32)
        ensures
            s == fingerprint(self.pixels@),
    {
        checksum(self.pixels.as_slice())
    }

    /// The submission that has the GPU show this surface.
    pub fn present(&self) -> (s: Submission)
        ensures
            shows(s, self.grant.base, self.w, self.h),
    {
        Gpu::present(self.grant.base(), self.w, self.h)
    }
}

proof fn lemma_pixel_update(px: Seq<u32>, i: int, v: u32, n: int)
    requires
        0 <= i < px.len(),
        0 <= n <= px.len(),
    ensures
        pixel_sum(px.update(i, v), n) == pixel_sum(px, n) + (if i < n {
            v - px[i]
        } else {
            0
        }),
    decreases n,
{
    if n > 0 {
        lemma_pixel_update(px, i, v, n - 1);
    }
}

/// A fingerprint sees every pixel: changing any one pixel, to anything else, changes it.
pub proof fn law_fingerprint_sees_each_pixel(px: Seq<u32>, i: int, v: u32)
    requires
        0 <= i < px.len(),
        v != px[i],
    ensures
        fingerprint(px.update(i, v)) != fingerprint(px),
{
    let n = px.len() as int;
    lemma_pixel_update(px, i, v, n);
    let a = pixel_sum(px, n);
    let d = v - px[i];
    let m = 0x1_0000_0000int;
    if (a + d) % m == a % m {
        vstd::arithmetic::div_mod::lemma_fundamental_div_mod(a + d, m);
        vstd::arithmetic::div_mod::lemma_fundamental_div_mod(a, m);
    }
}

/// The fingerprint of a surface of one colour is the colour as often as there are pixels,
/// on 32 bits.
pub proof fn law_fingerprint_of_one_colour(px: Seq<u32>, colour: u32, n: int)
    requires
        0 <= n <= px.len(),
        forall|i: int| 0 <= i < px.len() ==> #[trigger] px[i] == colour,
    ensures
        pixel_sum(px, n) == n * colour,
        n == px.len() ==> fingerprint(px) == (n * colour) % 0x1_0000_0000,
    decreases n,
{
    if n > 0 {
        law_fingerprint_of_one_colour(px, colour, n - 1);
        assert(px[n - 1] == colour);
        assert((n - 1) * colour + colour == n * colour) by (nonlinear_arith);
    } else {
        assert(n * colour == 0) by (nonlinear_arith)
            requires
                n == 0,
        ;
    }
    assert(n * colour >= 0) by (nonlinear_arith)
        requires
            n >= 0,
            colour >= 0,
    ;
}

/// A commit seals before it shares and shares before it sends: each step asks for the
/// next one only where the last was done, always for the surface's own grant, and the
/// message that the compositor gets names the peer's address, the frame and the size, so
/// that it reads them back.
pub proof fn law_commit_seals_then_shares_then_sends(
    s0: Surface,
    s1: Surface,
    s2: Surface,
    s3: Surface,
    at1: CommitAt,
    at2: CommitAt,
    at3: CommitAt,
    a1: CommitAction,
    a2: CommitAction,
    a3: CommitAction,
    sealed: u64,
    buf: SharedBuffer,
)
    requires
        !s0.committed,
        s0.frame_id < u32::MAX,
        commit_done(s0, s1, CommitAt::Begun, at1, CommitEvent::Go, a1),
        commit_done(s1, s2, at1, at2, CommitEvent::Sealed(sealed), a2),
        sealed == 0 ==> commit_done(s2, s3, at2, at3, CommitEvent::Shared(Some(buf)), a3),
    ensures
        a1 == CommitAction::Seal(s0.grant.cap_id),
        sealed != 0 ==> a2 == CommitAction::Done(None) && !s2.committed && !(a2 is Share),
        sealed == 0 ==> {
            &&& a2 == CommitAction::Share(s0.grant.cap_id)
            &&& s2.grant.sealed
            &&& !s2.committed
            &&& s3.committed
            &&& a3 matches CommitAction::Send(m)
            &&& frame_in(m.payload@).peer_va == buf.peer_va
            &&& frame_in(m.payload@).frame_id == s0.frame_id + 1
            &&& frame_in(m.payload@).w == s0.w
            &&& frame_in(m.payload@).h == s0.h
            &&& m.user_data == s0.frame_id + 1
        },
{
    if sealed == 0 {
        law_frame_reads_back(
            Frame { peer_va: buf.peer_va, frame_id: s2.frame_id, w: s2.w, h: s2.h },
        );
    }
}

/// A frame covers what it reaches: the pixels that the frame and the framebuffer both
/// have are the frame's from then on, the others stay, and the answer is the frame's
/// number with the fingerprint of the pixels that were taken.
pub proof fn law_frame_covers_what_it_reaches(
    before: &Compositor,
    after: &Compositor,
    f: Frame,
    src: Seq<u32>,
    r: (u32, u32),
    i: int,
)
    requires
        before.wf(),
        presented(before, after, f, src, r),
        src.len() >= f.w * f.h,
        0 <= i < before.w * before.h,
    ensures
        after.fb@.len() == before.fb@.len(),
        i < f.w * f.h ==> after.fb@[i] == src[i],
        i >= f.w * f.h ==> after.fb@[i] == before.fb@[i],
        r.0 == f.frame_id,
        f.w * f.h <= before.w * before.h ==> r.1 == fingerprint(src.take(f.w * f.h)),
{
    assert(f.w * f.h >= 0) by (nonlinear_arith);
}

/// The GPU finds the frame that is shown: the address in the first eight bytes, the width
/// and the height in the four behind them each.
pub proof fn law_shown_frame_reads_back(buf_va: u64, w: u32, h: u32)
    ensures
        present_bytes(buf_va, w, h).len() == 24,
        bytes::le(present_bytes(buf_va, w, h), 0, 8) == buf_va,
        bytes::le(present_bytes(buf_va, w, h), 8, 4) == w,
        bytes::le(present_bytes(buf_va, w, h), 12, 4) == h,
{
    reveal_with_fuel(bytes::pow256, 9);
    bytes::law_bytes_read_back(buf_va as int, 8);
    bytes::law_bytes_read_back(w as int, 4);
    bytes::law_bytes_read_back(h as int, 4);
    let p = present_bytes(buf_va, w, h);
    let a = bytes::le_bytes(buf_va as int, 8);
    let b = bytes::le_bytes(w as int, 4);
    let c = bytes::le_bytes(h as int, 4);
    assert(p.subrange(0, 8) =~= a.subrange(0, 8));
    bytes::lemma_le_shift(p, a, 0, 0, 8);
    assert(p.subrange(8, 12) =~= b.subrange(0, 4));
    bytes::lemma_le_shift(p, b, 8, 0, 4);
    assert(p.subrange(12, 16) =~= c.subrange(0, 4));
    bytes::lemma_le_shift(p, c, 12, 0, 4);
}

/// A surface takes four bytes for each pixel, in whole pages.
pub proof fn law_surface_takes_four_bytes_a_pixel(g: Grant, w: u32, h: u32)
    ensures
        surface_bytes(w, h) == 4 * (w * h),
        holds_surface(g, w, h) ==> g.len % 4096 == 0 && 4 * (w * h) <= g.len < 4 * (w * h) + 4096,
{
    assert(w * h * 4 == 4 * (w * h)) by (nonlinear_arith);
    assert(w * h >= 0) by (nonlinear_arith);
}

} // verus!
