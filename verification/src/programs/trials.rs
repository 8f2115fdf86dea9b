//! What the smaller trial programs compute, and what they make of the answers they get.

use vstd::prelude::*;
use vstd::string::*;
use crate::bytes;
use crate::kernel::capability::{READ, WRITE};
use crate::text;
use crate::user::cap::QueueCap;

verus! {

/// The exit code of a run in which everything was as it should be.
pub const OK_CODE: i32 = 0x42;

/// How many echoes are awaited at once.
pub const ECHOES: u32 = 8;

/// What the echo of a program that does it by hand carries.
pub const ECHOED: u32 = 0xBEEF_1234;

/// How many strands cross from one context of a cell to the other.
pub const WORK: usize = 32;

/// How often a context waits for the other.
pub const MAX_YIELDS: u32 = 200_000;

/// A word at the start of the bytes of a submission.
pub fn u32_arg(v: u32) -> (a: Vec<u8>)
    ensures
        a@ == bytes::le_bytes(v as int, 4) + Seq::new(20, |i: int| 0u8),
{
    let mut a: Vec<u8> = Vec::new();
    bytes::put_u32(&mut a, v);
    let ghost start: Seq<u8> = a@;
    let mut i: usize = 0;
    while i < 20
        invariant
            i <= 20,
            a@ == start + Seq::new(i as nat, |k: int| 0u8),
        decreases 20 - i,
    {
        a.push(0);
        i = i + 1;
        assert(Seq::new(i as nat, |k: int| 0u8) == Seq::new((i - 1) as nat, |k: int| 0u8).push(
            0u8,
        ));
    }
    a
}

/// The word that strand `i` sends.
pub fn echo_word(i: u32) -> (v: u32)
    requires
        i < ECHOES,
    ensures
        v == 0xA000_0000 + i,
{
    0xA000_0000 + i
}

/// The sum of the numbers below `n`, counted out.
pub fn sum_below(n: u32) -> (s: u32)
    requires
        n <= 0x1_0000,
    ensures
        s == n * (n - 1) / 2,
{
    let mut s: u32 = 0;
    let mut i: u32 = 0;
    while i < n
        invariant
            i <= n <= 0x1_0000,
            2 * s == i * (i - 1),
            s <= 0x8000_0000,
        decreases n - i,
    {
        proof {
            assert((i + 1) * i == i * (i - 1) + 2 * i) by (nonlinear_arith);
            assert((i + 1) * i <= 0x1_0000 * 0x1_0000) by (nonlinear_arith)
                requires
                    0 <= i < 0x1_0000,
            ;
        }
        s = s + i;
        i = i + 1;
    }
    s
}

/// A sum as it is written down.
pub fn sum_text(s: u32) -> (t: Vec<u8>)
    ensures
        t@ == seq![115u8, 117, 109, 61] + text::decimal(s as nat),
{
    let mut t: Vec<u8> = vec![115, 117, 109, 61];
    text::put_u64(&mut t, s as u64);
    t
}

/// Where the first program is.
#[derive(Copy, Clone, PartialEq, Eq, Debug, Structural)]
pub enum DemoAt {
    Begun,
    /// Two numbers were drawn.
    Drawn,
    /// The capability on the queue was taken.
    Held,
    /// The words were sent.
    Sent,
    Over,
}

/// What came back.
#[derive(Copy, Clone, PartialEq, Eq, Debug, Structural)]
pub enum DemoEvent {
    Go,
    Drawn(u64, u64),
    Held(QueueCap),
    /// How many words came back as they were sent, and how many did not.
    Echoed(u32, u32),
}

/// What the first program asks for.
pub enum DemoAction {
    /// Draw two numbers.
    Draw,
    /// Take the capability on the queue.
    TakeQueue,
    /// Send each of these words from a strand of its own, and await them.
    Echo(Vec<u32>),
    /// Leave with this code.
    Done(i32),
}

/// Whether an event is what the first program waits for.
pub open spec fn demo_awaits(at: DemoAt, e: DemoEvent) -> bool {
    match at {
        DemoAt::Begun => e is Go,
        DemoAt::Drawn => e is Drawn,
        DemoAt::Held => e is Held,
        DemoAt::Sent => e is Echoed,
        DemoAt::Over => false,
    }
}

/// The first program leaves, with a code.
pub open spec fn demo_leaves(at: DemoAt, action: DemoAction, code: i32) -> bool {
    at == DemoAt::Over && action == DemoAction::Done(code)
}

/// The first program: it draws two numbers, which may not be the same; it takes the
/// capability on its queue, which has to allow reading and writing; and it sends eight
/// words, which have to come back. Nothing is asked for after a part that did not go well.
pub open spec fn demoed(at0: DemoAt, at1: DemoAt, e: DemoEvent, action: DemoAction) -> bool {
    match at0 {
        DemoAt::Begun => at1 == DemoAt::Drawn && action is Draw,
        DemoAt::Drawn => if e->Drawn_0 == e->Drawn_1 {
            demo_leaves(at1, action, 12)
        } else {
            at1 == DemoAt::Held && action is TakeQueue
        },
        DemoAt::Held => if !(e->Held_0.rights & READ == READ && e->Held_0.rights & WRITE
            == WRITE) {
            demo_leaves(at1, action, 13)
        } else {
            &&& at1 == DemoAt::Sent
            &&& action matches DemoAction::Echo(ws) && ws@ == Seq::new(
                ECHOES as nat,
                |i: int| (0xA000_0000 + i) as u32,
            )
        },
        DemoAt::Sent => demo_leaves(
            at1,
            action,
            if e->Echoed_1 != 0 || e->Echoed_0 != ECHOES {
                15
            } else {
                OK_CODE
            },
        ),
        DemoAt::Over => false,
    }
}

/// The code of what the first program computes by itself: a sum over a list that grew, and
/// the text of it.
fn heap_code() -> (code: i32)
    ensures
        code == 0,
{
    let sum: u32 = sum_below(1000);
    proof {
        assert(1000 * (1000 - 1) / 2 == 499500);
    }
    if sum != 499_500 {
        return 10;
    }
    let t: Vec<u8> = sum_text(sum);
    let want: Vec<u8> = vec![115, 117, 109, 61, 52, 57, 57, 53, 48, 48];
    proof {
        reveal_with_fuel(text::decimal, 7);
        assert(t@ =~= want@);
    }
    if !bytes::same(t.as_slice(), want.as_slice()) {
        return 11;
    }
    0
}

/// Whether the capability on the queue, made anew to read and write and then narrowed,
/// reads and does not write.
fn narrowing_holds(queue: QueueCap) -> (b: bool)
    ensures
        b,
{
    proof {
        assert(3u32 & 1 == 1 && 1u32 & 1 == 1 && 1u32 & 2 != 2 && 1u32 | 2 == 3) by (bit_vector);
    }
    let rw: QueueCap = QueueCap { handle: queue.handle, rights: READ | WRITE };
    match rw.attenuate(READ) {
        Some(ro) => ro.allows(READ) && !ro.allows(WRITE),
        None => false,
    }
}

/// The words that the strands send.
fn echo_words() -> (ws: Vec<u32>)
    ensures
        ws@ == Seq::new(ECHOES as nat, |i: int| (0xA000_0000 + i) as u32),
{
    let mut ws: Vec<u32> = Vec::new();
    let mut i: u32 = 0;
    while i < ECHOES
        invariant
            i <= ECHOES,
            ws@ =~= Seq::new(i as nat, |k: int| (0xA000_0000 + k) as u32),
        decreases ECHOES - i,
    {
        ws.push(echo_word(i));
        i = i + 1;
    }
    ws
}

/// Take the first program one step on.
pub fn demo(at: &mut DemoAt, e: DemoEvent) -> (action: DemoAction)
    requires
        demo_awaits(*old(at), e),
    ensures
        demoed(*old(at), *final(at), e, action),
{
    let (next, action): (DemoAt, DemoAction) = match (*at, e) {
        (DemoAt::Drawn, DemoEvent::Drawn(a, b)) => {
            if a == b {
                (DemoAt::Over, DemoAction::Done(12))
            } else {
                (DemoAt::Held, DemoAction::TakeQueue)
            }
        },
        (DemoAt::Held, DemoEvent::Held(queue)) => {
            if !(queue.allows(READ) && queue.allows(WRITE)) {
                (DemoAt::Over, DemoAction::Done(13))
            } else if !narrowing_holds(queue) {
                (DemoAt::Over, DemoAction::Done(14))
            } else {
                (DemoAt::Sent, DemoAction::Echo(echo_words()))
            }
        },
        (DemoAt::Sent, DemoEvent::Echoed(done, failed)) => {
            if failed != 0 || done != ECHOES {
                (DemoAt::Over, DemoAction::Done(15))
            } else {
                (DemoAt::Over, DemoAction::Done(OK_CODE))
            }
        },
        (_, _) => {
            let code: i32 = heap_code();
            if code != 0 {
                (DemoAt::Over, DemoAction::Done(code))
            } else {
                (DemoAt::Drawn, DemoAction::Draw)
            }
        },
    };
    *at = next;
    action
}

/// The exit code of the program that does its one echo by hand. `answer` is the
/// completion, the result of which counts where its status is good.
pub fn embed_code(has_queue: bool, answer: (bool, u32)) -> (code: i32)
    ensures
        code == (if !has_queue {
            31
        } else if answer == (true, ECHOED) {
            OK_CODE
        } else {
            30
        }),
{
    if !has_queue {
        return 31;
    }
    let (good, result): (bool, u32) = answer;
    if good && result == ECHOED {
        OK_CODE
    } else {
        30
    }
}

/// The word that is written to memory that persists, at a place.
pub open spec fn word_at(i: int) -> u64 {
    (((i * 0x9E37_79B9_7F4A_7C15) % 0x1_0000_0000_0000_0000) as u64) ^ 0xA5A5_5A5A_DEAD_BEEF
}

/// The word that is written to memory that persists, at a place.
pub fn word(i: u64) -> (w: u64)
    ensures
        w == word_at(i as int),
{
    i.wrapping_mul(0x9E37_79B9_7F4A_7C15) ^ 0xA5A5_5A5A_DEAD_BEEF
}

/// What is written.
pub fn words_written(n: u64) -> (v: Vec<u64>)
    ensures
        v@.len() == n,
        forall|i: int| 0 <= i < n ==> #[trigger] v@[i] == word_at(i),
{
    let mut v: Vec<u64> = Vec::new();
    let mut i: u64 = 0;
    while i < n
        invariant
            i <= n,
            v@.len() == i,
            forall|k: int| 0 <= k < i ==> #[trigger] v@[k] == word_at(k),
        decreases n - i,
    {
        v.push(word(i));
        i = i + 1;
    }
    v
}

/// Memory holds what was written.
pub open spec fn holds_words(v: Seq<u64>) -> bool {
    forall|i: int| 0 <= i < v.len() ==> #[trigger] v[i] == word_at(i)
}

/// Whether memory holds what was written.
pub fn words_kept(v: &Vec<u64>) -> (b: bool)
    ensures
        b == holds_words(v@),
{
    let mut i: usize = 0;
    while i < v.len()
        invariant
            i <= v@.len(),
            forall|k: int| 0 <= k < i ==> #[trigger] v@[k] == word_at(k),
        decreases v@.len() - i,
    {
        if v[i] != word(i as u64) {
            assert(v@[i as int] != word_at(i as int));
            return false;
        }
        i = i + 1;
    }
    true
}

/// The exit code of the program that writes to memory that persists, with what it read
/// back, if it had the memory.
pub fn pmem_code(read: Option<Vec<u64>>) -> (code: i32)
    ensures
        code == (match read {
            None => 1i32,
            Some(v) => if holds_words(v@) {
                OK_CODE
            } else {
                2
            },
        }),
{
    match read {
        None => 1,
        Some(v) => {
            if words_kept(&v) {
                OK_CODE
            } else {
                2
            }
        },
    }
}

/// What the program that runs others has seen of them.
#[derive(Copy, Clone, PartialEq, Eq, Debug, Structural)]
pub struct Orchestra {
    pub failed: u32,
    pub echoed: bool,
    pub sum: u64,
    pub slept: bool,
}

/// One of the others has left, or could not be started.
pub open spec fn heard(o: Orchestra, is_echo: bool, code: Option<u64>) -> Orchestra {
    match code {
        None => Orchestra { failed: (o.failed + 1) as u32, ..o },
        Some(c) => if is_echo {
            if c == 0 {
                Orchestra { echoed: true, ..o }
            } else {
                Orchestra { failed: (o.failed + 1) as u32, ..o }
            }
        } else {
            Orchestra { sum: (o.sum + c) as u64, ..o }
        },
    }
}

impl Orchestra {
    pub fn new() -> (o: Orchestra)
        ensures
            o == (Orchestra { failed: 0, echoed: false, sum: 0, slept: false }),
    {
        Orchestra { failed: 0, echoed: false, sum: 0, slept: false }
    }

    /// One of the others has left with a code, or could not be started.
    pub fn hear(&mut self, is_echo: bool, code: Option<u64>)
        requires
            code is None || (is_echo && code != Some(0u64)) ==> old(self).failed < u32::MAX,
            !is_echo && code is Some ==> old(self).sum + code->0 <= u64::MAX,
        ensures
            *final(self) == heard(*old(self), is_echo, code),
    {
        match code {
            None => {
                self.failed = self.failed + 1;
            },
            Some(c) => {
                if is_echo {
                    if c == 0 {
                        self.echoed = true;
                    } else {
                        self.failed = self.failed + 1;
                    }
                } else {
                    self.sum = self.sum + c;
                }
            },
        }
    }

    /// How far the clock went while the program slept.
    pub fn woke(&mut self, elapsed: u64)
        ensures
            *final(self) == (Orchestra { slept: old(self).slept || elapsed > 0, ..*old(self) }),
    {
        if elapsed > 0 {
            self.slept = true;
        }
    }

    /// The exit code: all were started, the first left well, the others with the
    /// numbers they were given, three, four and five, and the clock went on.
    pub fn code(&self) -> (code: i32)
        ensures
            code == (if self.failed == 0 && self.echoed && self.sum == 12 && self.slept {
                OK_CODE
            } else {
                20
            }),
    {
        if self.failed != 0 || !self.echoed || self.sum != 12 || !self.slept {
            return 20;
        }
        OK_CODE
    }
}

/// The line that the keys of the terminal's trial end at place `i`: `world`, `hello`, and
/// `world` once more, out of what was said before.
pub open spec fn line_typed(i: int) -> Seq<u8> {
    if i == 1 {
        seq![104u8, 101, 108, 108, 111]
    } else {
        seq![119u8, 111, 114, 108, 100]
    }
}

/// The exit code of the terminal's trial, from the lines that were ended: there have to be
/// three, and each has to be the one that was typed.
pub fn term_code(committed: &Vec<Vec<u8>>) -> (code: i32)
    ensures
        code == (if committed@.len() != 3 {
            20
        } else if exists|i: int| 0 <= i < 3 && (#[trigger] committed@[i])@ != line_typed(i) {
            21
        } else {
            OK_CODE
        }),
{
    if committed.len() != 3 {
        return 20;
    }
    let world: Vec<u8> = vec![119, 111, 114, 108, 100];
    let hello: Vec<u8> = vec![104, 101, 108, 108, 111];
    assert(world@ =~= line_typed(0) && hello@ =~= line_typed(1));
    let mut i: usize = 0;
    while i < 3
        invariant
            i <= 3,
            committed@.len() == 3,
            world@ == line_typed(0),
            hello@ == line_typed(1),
            forall|k: int| 0 <= k < i ==> (#[trigger] committed@[k])@ == line_typed(k),
        decreases 3 - i,
    {
        let want: &Vec<u8> = if i == 1 { &hello } else { &world };
        if !bytes::same(committed[i].as_slice(), want.as_slice()) {
            assert(committed@[i as int]@ != line_typed(i as int));
            return 21;
        }
        i = i + 1;
    }
    OK_CODE
}

/// What a context of a cell with several does.
#[derive(Copy, Clone, PartialEq, Eq, Debug, Structural)]
pub enum VcoreStep {
    /// Leave with a code.
    Leave(i32),
    /// End the whole cell with a code.
    End(i32),
    /// Be the context that hands the strands out.
    HandOut,
    /// Be the context that runs them.
    Run,
    /// Hand the processor on, and look again.
    Yield,
}

/// Which context this is: its place, and how many there are, if the kernel says so.
pub fn vcore_role(info: Option<(u32, u32)>) -> (s: VcoreStep)
    ensures
        s == (match info {
            None => VcoreStep::Leave(31),
            Some((index, count)) => if count < 2 {
                VcoreStep::Leave(32)
            } else if index == 0 {
                VcoreStep::HandOut
            } else {
                VcoreStep::Run
            },
        }),
{
    match info {
        None => VcoreStep::Leave(31),
        Some((index, count)) => {
            if count < 2 {
                VcoreStep::Leave(32)
            } else if index == 0 {
                VcoreStep::HandOut
            } else {
                VcoreStep::Run
            }
        },
    }
}

/// The code that the context which handed the strands out finds: each ran once, and all
/// on the other side.
pub open spec fn crossing(ran: Seq<u64>, taken_here: u64, taken_there: u64) -> VcoreStep {
    if exists|i: int| 0 <= i < ran.len() && #[trigger] ran[i] != 1 {
        VcoreStep::Leave(34)
    } else if taken_here != 0 {
        VcoreStep::Leave(35)
    } else if taken_there != WORK {
        VcoreStep::Leave(36)
    } else {
        VcoreStep::End(OK_CODE)
    }
}

/// What the context does that handed the strands out, after it has handed the processor
/// on `yields` times: it waits until so many are done, gives up at the limit, and ends
/// the cell where they all crossed.
pub fn vcore0(done: u64, yields: u32, ran: &Vec<u64>, taken_here: u64, taken_there: u64) -> (s: VcoreStep)
    ensures
        s == (if yields > MAX_YIELDS {
            VcoreStep::Leave(33)
        } else if done < WORK {
            VcoreStep::Yield
        } else {
            crossing(ran@, taken_here, taken_there)
        }),
{
    if yields > MAX_YIELDS {
        return VcoreStep::Leave(33);
    }
    if done < WORK as u64 {
        return VcoreStep::Yield;
    }
    let mut i: usize = 0;
    while i < ran.len()
        invariant
            yields <= MAX_YIELDS,
            done >= WORK,
            i <= ran@.len(),
            forall|k: int| 0 <= k < i ==> #[trigger] ran@[k] == 1,
        decreases ran@.len() - i,
    {
        if ran[i] != 1 {
            assert(ran@[i as int] != 1);
            return VcoreStep::Leave(34);
        }
        i = i + 1;
    }
    if taken_here != 0 {
        return VcoreStep::Leave(35);
    }
    if taken_there != WORK as u64 {
        return VcoreStep::Leave(36);
    }
    VcoreStep::End(OK_CODE)
}

/// What the context does that runs the strands, after it has handed the processor on
/// `yields` times: it waits until they are handed out, and gives up at the limit.
pub fn vcore1(ready: u64, yields: u32) -> (s: VcoreStep)
    ensures
        s == (if yields > MAX_YIELDS {
            VcoreStep::Leave(37)
        } else if ready == 0 {
            VcoreStep::Yield
        } else {
            VcoreStep::Run
        }),
{
    if yields > MAX_YIELDS {
        VcoreStep::Leave(37)
    } else if ready == 0 {
        VcoreStep::Yield
    } else {
        VcoreStep::Run
    }
}

/// Where the program on the small library is.
#[derive(Copy, Clone, PartialEq, Eq, Debug, Structural)]
pub enum LibcAt {
    Begun,
    /// It said its sum.
    Said,
    /// A block was taken, written, read and given back.
    Block,
    /// The greeting was opened.
    Opened,
    /// The greeting was read from this file.
    Reading(i64),
    /// What was read of this file was said; it was so many bytes.
    Echoed(i64, i64),
    /// The file was closed; so many bytes were read.
    Closed(i64),
    Over,
}

/// What came back.
pub enum LibcEvent {
    Go,
    Done,
    /// What stood in the block, if there was one.
    Byte(Option<u8>),
    /// The file, or a negative number.
    Opened(i64),
    /// How many bytes were read, or a negative number; and the bytes.
    Read(i64, Vec<u8>),
}

/// What the program on the small library asks for.
pub enum LibcAction {
    /// Write a text to the standard output, to its end.
    Print(Vec<u8>),
    /// Write some bytes to a file, as far as one call goes.
    Write(i64, Vec<u8>),
    /// Take a block of so many bytes, write a byte to its start, read it, and give the block
    /// back.
    Block(u64, u8),
    /// Open the greeting to read it.
    Open,
    /// Read so many bytes of a file.
    Read(i64, u64),
    Close(i64),
    /// Leave with this code.
    Exit(i64),
}

/// The most of the greeting that is read.
pub const GREETING_MAX: u64 = 128;

/// What the program on the small library says of its sum.
pub open spec fn libc_line() -> Seq<u8> {
    "libcdemo: ".spec_bytes() + (seq![115u8, 117, 109, 61] + text::decimal(1225)) + " (".spec_bytes()
        + text::decimal(50) + " items)\n".spec_bytes()
}

/// Whether an event is what the program waits for.
pub open spec fn libc_awaits(at: LibcAt, e: LibcEvent) -> bool {
    match at {
        LibcAt::Begun => e is Go,
        LibcAt::Said => e is Done,
        LibcAt::Block => e is Byte,
        LibcAt::Opened => e is Opened,
        LibcAt::Reading(_) => e matches LibcEvent::Read(n, b) && (n >= 0 ==> b@.len() == n && n
            <= GREETING_MAX),
        LibcAt::Echoed(_, _) => e is Done,
        LibcAt::Closed(_) => e is Done,
        LibcAt::Over => false,
    }
}

/// The program leaves, with a code.
pub open spec fn libc_leaves(at: LibcAt, action: LibcAction, code: int) -> bool {
    &&& at == LibcAt::Over
    &&& action matches LibcAction::Exit(c) && c == code
}

/// The program on the small library: it says its sum, writes to a block and reads it back,
/// and says the greeting; its code is how many bytes it read. Nothing is asked for after a
/// part that did not go well.
pub open spec fn libc_ran(at0: LibcAt, at1: LibcAt, e: LibcEvent, action: LibcAction) -> bool {
    match at0 {
        LibcAt::Begun => {
            &&& at1 == LibcAt::Said
            &&& action matches LibcAction::Print(t) && t@ == libc_line()
        },
        LibcAt::Said => at1 == LibcAt::Block && action == LibcAction::Block(128, 0xAB),
        LibcAt::Block => match e->Byte_0 {
            None => libc_leaves(at1, action, 1),
            Some(b) => if b != 0xAB {
                libc_leaves(at1, action, 2)
            } else {
                at1 == LibcAt::Opened && action is Open
            },
        },
        LibcAt::Opened => if e->Opened_0 < 0 {
            libc_leaves(at1, action, 3)
        } else {
            at1 == LibcAt::Reading(e->Opened_0) && action == LibcAction::Read(
                e->Opened_0,
                GREETING_MAX,
            )
        },
        LibcAt::Reading(fd) => if e->Read_0 < 0 {
            libc_leaves(at1, action, 4)
        } else {
            &&& at1 == LibcAt::Echoed(fd, e->Read_0)
            &&& action == LibcAction::Write(1, e->Read_1)
        },
        LibcAt::Echoed(fd, n) => at1 == LibcAt::Closed(n) && action == LibcAction::Close(fd),
        LibcAt::Closed(n) => libc_leaves(at1, action, n as int),
        LibcAt::Over => false,
    }
}

/// What the program on the small library says of its sum.
fn libc_text() -> (t: Vec<u8>)
    ensures
        t@ == libc_line(),
{
    let sum: u32 = sum_below(50);
    proof {
        assert(50 * (50 - 1) / 2 == 1225);
    }
    let mut t: Vec<u8> = Vec::new();
    text::put_str(&mut t, "libcdemo: ");
    let said: Vec<u8> = sum_text(sum);
    text::put_bytes(&mut t, said.as_slice());
    text::put_str(&mut t, " (");
    text::put_u64(&mut t, 50);
    text::put_str(&mut t, " items)\n");
    assert(t@ =~= libc_line());
    t
}

/// Take the program on the small library one step on.
pub fn libc_step(at: &mut LibcAt, e: LibcEvent) -> (action: LibcAction)
    requires
        libc_awaits(*old(at), e),
    ensures
        libc_ran(*old(at), *final(at), e, action),
{
    let (next, action): (LibcAt, LibcAction) = match (*at, e) {
        (LibcAt::Said, _) => (LibcAt::Block, LibcAction::Block(128, 0xAB)),
        (LibcAt::Block, LibcEvent::Byte(b)) => match b {
            None => (LibcAt::Over, LibcAction::Exit(1)),
            Some(v) => {
                if v != 0xAB {
                    (LibcAt::Over, LibcAction::Exit(2))
                } else {
                    (LibcAt::Opened, LibcAction::Open)
                }
            },
        },
        (LibcAt::Opened, LibcEvent::Opened(fd)) => {
            if fd < 0 {
                (LibcAt::Over, LibcAction::Exit(3))
            } else {
                (LibcAt::Reading(fd), LibcAction::Read(fd, GREETING_MAX))
            }
        },
        (LibcAt::Reading(fd), LibcEvent::Read(n, b)) => {
            if n < 0 {
                (LibcAt::Over, LibcAction::Exit(4))
            } else {
                (LibcAt::Echoed(fd, n), LibcAction::Write(1, b))
            }
        },
        (LibcAt::Echoed(fd, n), _) => (LibcAt::Closed(n), LibcAction::Close(fd)),
        (LibcAt::Closed(n), _) => (LibcAt::Over, LibcAction::Exit(n)),
        (_, _) => (LibcAt::Said, LibcAction::Print(libc_text())),
    };
    *at = next;
    action
}

/// The low half of a number, as a number with a sign.
pub open spec fn low_half(v: u64) -> int {
    let w = v % 0x1_0000_0000;
    if w < 0x8000_0000 {
        w as int
    } else {
        w - 0x1_0000_0000
    }
}

/// The version that a document gives; zero where it gives none.
pub open spec fn version_given(version: Option<u64>) -> int {
    match version {
        Some(v) => low_half(v),
        None => 0,
    }
}

/// The exit code of the program that reads a document: its version and how many features
/// it lists, together; one where it is no document.
pub fn json_code(parsed: bool, version: Option<u64>, features: u32) -> (code: i32)
    requires
        version_given(version) + features <= i32::MAX,
    ensures
        code == (if !parsed {
            1
        } else {
            version_given(version) + features
        }),
{
    if !parsed {
        return 1;
    }
    let w: u64 = match version {
        Some(v) => v % 0x1_0000_0000,
        None => 0,
    };
    let half: i64 = if w < 0x8000_0000 {
        w as i64
    } else {
        w as i64 - 0x1_0000_0000
    };
    (half + features as i64) as i32
}

/// Rows of the head that are attended to.
pub const TQ: u32 = 32;

/// Keys of the head.
pub const TK: u32 = 128;

/// Keys of a block.
pub const BLOCK_K: u32 = 32;

/// The rows that a cell was given, if they are rows of the head.
pub fn rows_given(lo: u32, hi: u32) -> (r: Result<u32, i32>)
    ensures
        r == (if lo <= hi <= TQ {
            Ok::<u32, i32>((hi - lo) as u32)
        } else {
            Err(2)
        }),
{
    if hi > TQ || lo > hi {
        return Err(2);
    }
    Ok(hi - lo)
}

/// The number, of which a share is taken, at a place of an input.
pub open spec fn salted_at(i: u32, salt: u32) -> int {
    let a = (i * 2_654_435_761 + salt * 97) % 0x1_0000_0000;
    ((a as u32 ^ 0x9E37_79B9) / 0x10_0000) as int - 2048
}

/// The number, of which a share is taken, at a place of an input.
pub fn salted(i: u32, salt: u32) -> (v: i32)
    ensures
        v == salted_at(i, salt),
        -2048 <= v <= 2047,
{
    let a: u32 = i.wrapping_mul(2_654_435_761).wrapping_add(salt.wrapping_mul(97));
    proof {
        vstd::arithmetic::div_mod::lemma_add_mod_noop(
            i * 2_654_435_761,
            salt * 97,
            0x1_0000_0000,
        );
    }
    let h: u32 = a ^ 0x9E37_79B9;
    (h / 0x10_0000) as i32 - 2048
}

/// The exit code of a cell that attended to its rows: both ways of doing so went through,
/// the second turned its buffers over once for every row and block, and both came to
/// the same bits. The code names the first row.
pub fn rows_code(lo: u32, rows: u32, ways: (bool, bool), swaps: u32, one: &Vec<u32>, two: &Vec<u32>) -> (code: i32)
    requires
        lo + rows <= TQ,
    ensures
        code == (if !ways.0 {
            3
        } else if !ways.1 {
            4
        } else if swaps != rows * (TK / BLOCK_K) {
            5
        } else if one@ != two@ {
            6
        } else {
            lo as int + 1
        }),
{
    let (first, second): (bool, bool) = ways;
    if !first {
        return 3;
    }
    if !second {
        return 4;
    }
    if swaps != rows * 4 {
        return 5;
    }
    if one.len() != two.len() {
        return 6;
    }
    let mut i: usize = 0;
    while i < one.len()
        invariant
            one@.len() == two@.len(),
            ways.0 && ways.1,
            swaps == rows * (TK / BLOCK_K),
            i <= one@.len(),
            forall|k: int| 0 <= k < i ==> #[trigger] one@[k] == two@[k],
        decreases one@.len() - i,
    {
        if one[i] != two[i] {
            assert(one@[i as int] != two@[i as int]);
            return 6;
        }
        i = i + 1;
    }
    assert(one@ =~= two@);
    (lo + 1) as i32
}

/// The lower half of a word is a number with a sign.
pub proof fn law_low_half_has_a_sign(v: u64)
    ensures
        -0x8000_0000 <= low_half(v) <= 0x7fff_ffff,
        (low_half(v) - v) % 0x1_0000_0000 == 0,
        v <= 0x7fff_ffff ==> low_half(v) == v,
        v == 0xffff_ffff ==> low_half(v) == -1,
        version_given(None) == 0,
        version_given(Some(v)) == low_half(v),
{
}

/// What a conductor hears it books: a player that did not come back, or an echo that came
/// back wrong, is one failure more; an echo that came back right is noted; and any other code
/// is added up.
pub proof fn law_what_is_heard_is_booked(o: Orchestra, code: u64)
    requires
        o.failed < u32::MAX,
        o.sum + code <= u64::MAX,
    ensures
        heard(o, true, None).failed == o.failed + 1,
        heard(o, false, None).failed == o.failed + 1,
        heard(o, true, Some(0)).echoed && heard(o, true, Some(0)).failed == o.failed,
        code != 0 ==> heard(o, true, Some(code)).failed == o.failed + 1 && heard(o, true, Some(code)).echoed
            == o.echoed,
        heard(o, false, Some(code)).sum == o.sum + code,
        heard(o, true, Some(code)).sum == o.sum,
{
}

/// The vcores crossed over only where every piece of work ran once, none of it here and all
/// of it there.
pub proof fn law_crossing_needs_all_the_work(ran: Seq<u64>, here: u64, there: u64)
    ensures
        crossing(ran, here, there) == VcoreStep::End(OK_CODE) <==> (forall|i: int|
            0 <= i < ran.len() ==> #[trigger] ran[i] == 1) && here == 0 && there == WORK,
{
}

/// The demonstration ends well only where the two draws differ, the queue can be read and
/// written, and every echo came back with nothing wrong.
pub proof fn law_demo_ends_well_only_as_it_should(at0: DemoAt, at1: DemoAt, e: DemoEvent, action: DemoAction)
    requires
        demo_awaits(at0, e),
        demoed(at0, at1, e, action),
    ensures
        action == DemoAction::Done(OK_CODE) ==> at0 == DemoAt::Sent && e->Echoed_0 == ECHOES && e->Echoed_1 == 0,
        at1 == DemoAt::Sent ==> at0 == DemoAt::Held && e->Held_0.rights & 1 == 1 && e->Held_0.rights & 2 == 2,
        at1 == DemoAt::Held ==> at0 == DemoAt::Drawn && e->Drawn_0 != e->Drawn_1,
{
}

/// The program on the C library reads what it opened, writes what it read, closes what it
/// opened, and ends with how much it read; nothing is read from a file that did not open.
pub proof fn law_libc_run_uses_what_it_opened(at0: LibcAt, at1: LibcAt, e: LibcEvent, action: LibcAction)
    requires
        libc_awaits(at0, e),
        libc_ran(at0, at1, e, action),
    ensures
        at1 is Reading ==> e->Opened_0 >= 0 && (action matches LibcAction::Read(fd, n) && fd == e->Opened_0
            && n == GREETING_MAX),
        at1 is Echoed ==> at0 is Reading && at1->Echoed_0 == at0->Reading_0 && at1->Echoed_1 == e->Read_0 && (
        action matches LibcAction::Write(out, b) && out == 1 && b@ == e->Read_1@),
        at0 is Echoed ==> action == LibcAction::Close(at0->Echoed_0),
        at0 is Closed ==> (action matches LibcAction::Exit(c) && c == at0->Closed_0),
        at1 == LibcAt::Opened ==> at0 == LibcAt::Block && e->Byte_0 == Some(0xABu8),
{
}

/// The words of a block are told apart by where they stand, so that a word out of its place is
/// seen.
pub proof fn law_words_differ(i: u64, j: u64)
    requires
        i != j,
    ensures
        word_at(i as int) != word_at(j as int),
{
    let a = ((i * 0x9E37_79B9_7F4A_7C15) % 0x1_0000_0000_0000_0000) as u64;
    let b = ((j * 0x9E37_79B9_7F4A_7C15) % 0x1_0000_0000_0000_0000) as u64;
    lemma_odd_factor(i, j);
    assert(a != b);
    assert(a != b ==> a ^ 0xA5A5_5A5A_DEAD_BEEF != b ^ 0xA5A5_5A5A_DEAD_BEEF) by (bit_vector);
}

/// Numbers that agree times an odd factor, on 64 bits, agree.
proof fn lemma_odd_factor(i: u64, j: u64)
    requires
        i != j,
    ensures
        (i * 0x9E37_79B9_7F4A_7C15) % 0x1_0000_0000_0000_0000 != (j * 0x9E37_79B9_7F4A_7C15)
            % 0x1_0000_0000_0000_0000,
{
    let m = 0x1_0000_0000_0000_0000int;
    let f = 0x9E37_79B9_7F4A_7C15int;
    let g = 0xF1DE_83E1_9937_733Dint;
    if (i * f) % m == (j * f) % m {
        let q = (f * g - 1) / m;
        assert(f * g == q * m + 1);
        vstd::arithmetic::div_mod::lemma_mul_mod_noop_left(i * f, g, m);
        vstd::arithmetic::div_mod::lemma_mul_mod_noop_left(j * f, g, m);
        assert((i * f) * g == (i * q) * m + i) by (nonlinear_arith)
            requires
                f * g == q * m + 1,
        ;
        assert((j * f) * g == (j * q) * m + j) by (nonlinear_arith)
            requires
                f * g == q * m + 1,
        ;
        vstd::arithmetic::div_mod::lemma_mod_multiples_vanish(i * q, i as int, m);
        vstd::arithmetic::div_mod::lemma_mod_multiples_vanish(j * q, j as int, m);
        vstd::arithmetic::div_mod::lemma_small_mod(i as nat, m as nat);
        vstd::arithmetic::div_mod::lemma_small_mod(j as nat, m as nat);
        assert(m * (i * q) == (i * q) * m) by (nonlinear_arith);
        assert(m * (j * q) == (j * q) * m) by (nonlinear_arith);
    }
}

/// The two lines that are typed are the two words that are waited for.
pub proof fn law_typed_lines_differ()
    ensures
        line_typed(1).len() == 5,
        line_typed(2).len() == 5,
        line_typed(1) != line_typed(2),
{
    assert(line_typed(1)[0] != line_typed(2)[0]);
}

/// A salted number lies between the two ends of twelve bits with a sign.
pub proof fn law_salted_numbers_are_small(i: u32, salt: u32)
    ensures
        -2048 <= salted_at(i, salt) < 2048,
{
}

} // verus!
