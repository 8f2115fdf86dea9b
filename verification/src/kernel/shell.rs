//! The shell: it reads a line, makes the system calls that the line asks for, and
//! writes what came back.

use vstd::prelude::*;
use vstd::slice::slice_subrange;
use vstd::string::*;
use crate::text;

verus! {

/// What a line asks for.
#[derive(Copy, Clone, PartialEq, Eq, Debug, Structural)]
pub enum Command {
    /// The line is empty.
    Nothing,
    Help,
    /// Repeat the line from this place on.
    Echo(usize),
    Uptime,
    Rand,
    Meminfo,
    Ps,
    Caps,
    /// Record an event of this kind.
    Event(u64),
    /// Compute the demo graph for this number.
    Graph(u64),
    /// Ask for a reservation: the budget in the upper half, the period in the lower.
    Reserve(u64),
    Lease,
    Cpuinfo,
    Lspci,
    Numa,
    Exit,
    Unknown,
}

/// A system call of the shell.
#[derive(Copy, Clone, PartialEq, Eq, Debug, Structural)]
pub enum Call {
    Uptime,
    Random,
    Meminfo,
    Ps,
    Caps,
    EventEmit(u64),
    EventCount,
    Graph(u64),
    Reserve(u64),
    Lease,
    Cpuinfo,
    Lspci,
    Numa,
}

/// Where the word that stands at `i` ends.
pub open spec fn word_end(s: Seq<u8>, i: int) -> int
    decreases s.len() - i,
{
    if i < 0 || i >= s.len() || s[i] == 32 {
        i
    } else {
        word_end(s, i + 1)
    }
}

/// The first word of a line.
pub open spec fn first_word(s: Seq<u8>) -> Seq<u8> {
    s.take(word_end(s, 0))
}

/// Where the second word of a line stands.
pub open spec fn arg_at(s: Seq<u8>) -> int {
    text::spaces_from(s, word_end(s, 0))
}

/// The number that a text begins with.
pub open spec fn number(s: Seq<u8>) -> u64 {
    (text::value_of(s, text::digits_from(s, 0)) % (text::two64() as nat)) as u64
}

/// Where the second number of a text stands.
pub open spec fn second_at(s: Seq<u8>) -> int {
    text::spaces_from(s, text::digits_from(s, 0))
}

/// Two numbers in one: the lower halves of both.
pub open spec fn packed(hi: u64, lo: u64) -> u64 {
    ((hi % 0x1_0000_0000) * 0x1_0000_0000 + lo % 0x1_0000_0000) as u64
}

/// What a line asks for.
pub open spec fn command_of(s: Seq<u8>) -> Command {
    let w = first_word(s);
    let arg = s.skip(arg_at(s));
    if s.len() == 0 {
        Command::Nothing
    } else if w == "help".spec_bytes() {
        Command::Help
    } else if w == "echo".spec_bytes() {
        Command::Echo(arg_at(s) as usize)
    } else if w == "uptime".spec_bytes() {
        Command::Uptime
    } else if w == "rand".spec_bytes() {
        Command::Rand
    } else if w == "meminfo".spec_bytes() {
        Command::Meminfo
    } else if w == "ps".spec_bytes() {
        Command::Ps
    } else if w == "caps".spec_bytes() {
        Command::Caps
    } else if w == "event".spec_bytes() {
        Command::Event(number(arg))
    } else if w == "graph".spec_bytes() {
        Command::Graph(number(arg))
    } else if w == "reserve".spec_bytes() {
        Command::Reserve(packed(number(arg), number(arg.skip(second_at(arg)))))
    } else if w == "lease".spec_bytes() {
        Command::Lease
    } else if w == "cpuinfo".spec_bytes() {
        Command::Cpuinfo
    } else if w == "lspci".spec_bytes() {
        Command::Lspci
    } else if w == "numa".spec_bytes() {
        Command::Numa
    } else if w == "exit".spec_bytes() {
        Command::Exit
    } else {
        Command::Unknown
    }
}

fn tok_len(line: &[u8]) -> (n: usize)
    ensures
        n == word_end(line@, 0),
        n <= line@.len(),
{
    let mut i: usize = 0;
    while i < line.len() && line[i] != 32
        invariant
            i <= line@.len(),
            word_end(line@, 0) == word_end(line@, i as int),
        decreases line@.len() - i,
    {
        i = i + 1;
    }
    i
}

fn tok_eq(line: &[u8], word: &str) -> (b: bool)
    ensures
        b == (first_word(line@) == word.spec_bytes()),
{
    let n: usize = tok_len(line);
    let w: &[u8] = word.as_bytes();
    if n != w.len() {
        return false;
    }
    let mut i: usize = 0;
    while i < n
        invariant
            i <= n,
            n == word_end(line@, 0),
            n <= line@.len(),
            n == w@.len(),
            w@ == word.spec_bytes(),
            forall|j: int| 0 <= j < i ==> line@[j] == w@[j],
        decreases n - i,
    {
        if line[i] != w[i] {
            assert(first_word(line@)[i as int] != w@[i as int]);
            return false;
        }
        i = i + 1;
    }
    assert(first_word(line@) =~= w@);
    true
}

fn arg_of(line: &[u8]) -> (i: usize)
    ensures
        i == arg_at(line@),
        i <= line@.len(),
{
    let mut i: usize = tok_len(line);
    let ghost end = i as int;
    while i < line.len() && line[i] == 32
        invariant
            i <= line@.len(),
            text::spaces_from(line@, end) == text::spaces_from(line@, i as int),
        decreases line@.len() - i,
    {
        i = i + 1;
    }
    i
}

fn pack(hi: u64, lo: u64) -> (v: u64)
    ensures
        v == packed(hi, lo),
{
    assert((hi << 32u64) | (lo & 0xFFFF_FFFFu64) == (hi % 0x1_0000_0000u64) * 0x1_0000_0000u64 + lo
        % 0x1_0000_0000u64) by (bit_vector);
    (hi << 32) | (lo & 0xFFFF_FFFF)
}

/// What a line asks for.
pub fn dispatch(line: &[u8]) -> (c: Command)
    ensures
        c == command_of(line@),
        c matches Command::Echo(at) ==> at == arg_at(line@) && at <= line@.len(),
{
    if line.len() == 0 {
        return Command::Nothing;
    }
    let at: usize = arg_of(line);
    if tok_eq(line, "help") {
        Command::Help
    } else if tok_eq(line, "echo") {
        Command::Echo(at)
    } else if tok_eq(line, "uptime") {
        Command::Uptime
    } else if tok_eq(line, "rand") {
        Command::Rand
    } else if tok_eq(line, "meminfo") {
        Command::Meminfo
    } else if tok_eq(line, "ps") {
        Command::Ps
    } else if tok_eq(line, "caps") {
        Command::Caps
    } else if tok_eq(line, "event") {
        let arg: &[u8] = slice_subrange(line, at, line.len());
        assert(arg@ =~= line@.skip(arg_at(line@)));
        Command::Event(text::parse_u64(arg))
    } else if tok_eq(line, "graph") {
        let arg: &[u8] = slice_subrange(line, at, line.len());
        assert(arg@ =~= line@.skip(arg_at(line@)));
        Command::Graph(text::parse_u64(arg))
    } else if tok_eq(line, "reserve") {
        let arg: &[u8] = slice_subrange(line, at, line.len());
        assert(arg@ =~= line@.skip(arg_at(line@)));
        let budget: u64 = text::parse_u64(arg);
        let next: usize = text::after_num(arg);
        let rest: &[u8] = slice_subrange(arg, next, arg.len());
        assert(rest@ =~= arg@.skip(second_at(arg@)));
        let period: u64 = text::parse_u64(rest);
        Command::Reserve(pack(budget, period))
    } else if tok_eq(line, "lease") {
        Command::Lease
    } else if tok_eq(line, "cpuinfo") {
        Command::Cpuinfo
    } else if tok_eq(line, "lspci") {
        Command::Lspci
    } else if tok_eq(line, "numa") {
        Command::Numa
    } else if tok_eq(line, "exit") {
        Command::Exit
    } else {
        Command::Unknown
    }
}

/// The call whose answer a command writes.
pub open spec fn call_of(c: Command) -> Option<Call> {
    match c {
        Command::Uptime => Some(Call::Uptime),
        Command::Rand => Some(Call::Random),
        Command::Meminfo => Some(Call::Meminfo),
        Command::Ps => Some(Call::Ps),
        Command::Caps => Some(Call::Caps),
        Command::Event(_) => Some(Call::EventCount),
        Command::Graph(n) => Some(Call::Graph(n)),
        Command::Reserve(n) => Some(Call::Reserve(n)),
        Command::Lease => Some(Call::Lease),
        Command::Cpuinfo => Some(Call::Cpuinfo),
        Command::Lspci => Some(Call::Lspci),
        Command::Numa => Some(Call::Numa),
        _ => None,
    }
}

fn call_for(c: Command) -> (r: Option<Call>)
    ensures
        r == call_of(c),
{
    match c {
        Command::Uptime => Some(Call::Uptime),
        Command::Rand => Some(Call::Random),
        Command::Meminfo => Some(Call::Meminfo),
        Command::Ps => Some(Call::Ps),
        Command::Caps => Some(Call::Caps),
        Command::Event(_) => Some(Call::EventCount),
        Command::Graph(n) => Some(Call::Graph(n)),
        Command::Reserve(n) => Some(Call::Reserve(n)),
        Command::Lease => Some(Call::Lease),
        Command::Cpuinfo => Some(Call::Cpuinfo),
        Command::Lspci => Some(Call::Lspci),
        Command::Numa => Some(Call::Numa),
        _ => None,
    }
}

/// A line that ends in a number.
pub open spec fn counted(label: Seq<u8>, n: u64) -> Seq<u8> {
    label + text::decimal(n as nat) + "\r\n".spec_bytes()
}

/// A line with the two halves of a number.
pub open spec fn halves(first: Seq<u8>, second: Seq<u8>, n: u64) -> Seq<u8> {
    first + text::decimal((n / 0x1_0000_0000) as nat) + second + text::decimal(
        (n % 0x1_0000_0000) as nat,
    ) + "\r\n".spec_bytes()
}

/// What a command writes, given the answer to its call.
pub open spec fn reply_text(c: Command, line: Seq<u8>, answer: u64) -> Seq<u8> {
    match c {
        Command::Help => "builtins: help echo uptime rand meminfo ps caps event graph reserve lease cpuinfo lspci numa exit\r\n".spec_bytes(),
        Command::Echo(at) => line.skip(at as int) + "\r\n".spec_bytes(),
        Command::Uptime => counted("uptime ticks: ".spec_bytes(), answer),
        Command::Rand => "random: ".spec_bytes() + seq![48u8, 120u8] + text::hex(answer as nat)
            + "\r\n".spec_bytes(),
        Command::Meminfo => halves("frames free ".spec_bytes(), " of ".spec_bytes(), answer),
        Command::Ps => counted("cells running: ".spec_bytes(), answer),
        Command::Caps => counted("capabilities held: ".spec_bytes(), answer),
        Command::Event(_) => halves(
            "events buffered ".spec_bytes(),
            " total ".spec_bytes(),
            answer,
        ),
        Command::Graph(_) => counted("graph (n+1)*n = ".spec_bytes(), answer),
        Command::Reserve(_) => if answer == u64::MAX {
            "reservation refused (would overcommit the core)\r\n".spec_bytes()
        } else {
            counted("reservation admitted; utilization ppm ".spec_bytes(), answer)
        },
        Command::Lease => counted("lease acquired; fencing token ".spec_bytes(), answer),
        Command::Unknown => "lsh: unknown command (try 'help')\r\n".spec_bytes(),
        _ => Seq::empty(),
    }
}

/// What fits of a text into a buffer.
pub open spec fn clipped(s: Seq<u8>, room: nat) -> Seq<u8> {
    if s.len() <= room {
        s
    } else {
        s.take(room as int)
    }
}

fn clip(v: Vec<u8>, room: usize) -> (r: Vec<u8>)
    ensures
        r@ == clipped(v@, room as nat),
{
    let mut v = v;
    if v.len() > room {
        v.truncate(room);
    }
    v
}

fn put_counted(out: &mut Vec<u8>, label: &str, n: u64)
    ensures
        final(out)@ == old(out)@ + counted(label.spec_bytes(), n),
{
    text::put_str(out, label);
    text::put_u64(out, n);
    text::put_str(out, "\r\n");
    assert(out@ =~= old(out)@ + counted(label.spec_bytes(), n));
}

fn put_halves(out: &mut Vec<u8>, first: &str, second: &str, n: u64)
    ensures
        final(out)@ == old(out)@ + halves(first.spec_bytes(), second.spec_bytes(), n),
{
    assert(n >> 32u64 == n / 0x1_0000_0000u64) by (bit_vector);
    assert(n & 0xFFFF_FFFFu64 == n % 0x1_0000_0000u64) by (bit_vector);
    text::put_str(out, first);
    text::put_u64(out, n >> 32);
    text::put_str(out, second);
    text::put_u64(out, n & 0xFFFF_FFFF);
    text::put_str(out, "\r\n");
    assert(out@ =~= old(out)@ + halves(first.spec_bytes(), second.spec_bytes(), n));
}

/// Write what a command has to say into a buffer.
pub fn respond(c: Command, line: &[u8], answer: u64, room: usize) -> (out: Vec<u8>)
    requires
        c matches Command::Echo(at) ==> at <= line@.len(),
    ensures
        out@ == clipped(reply_text(c, line@, answer), room as nat),
{
    let mut out: Vec<u8> = Vec::new();
    match c {
        Command::Help => {
            text::put_str(
                &mut out,
                "builtins: help echo uptime rand meminfo ps caps event graph reserve lease cpuinfo lspci numa exit\r\n",
            );
        },
        Command::Echo(at) => {
            let arg: &[u8] = slice_subrange(line, at, line.len());
            text::put_bytes(&mut out, arg);
            text::put_str(&mut out, "\r\n");
            assert(arg@ =~= line@.skip(at as int));
        },
        Command::Uptime => {
            put_counted(&mut out, "uptime ticks: ", answer);
        },
        Command::Rand => {
            text::put_str(&mut out, "random: ");
            text::put_hex(&mut out, answer);
            text::put_str(&mut out, "\r\n");
        },
        Command::Meminfo => {
            put_halves(&mut out, "frames free ", " of ", answer);
        },
        Command::Ps => {
            put_counted(&mut out, "cells running: ", answer);
        },
        Command::Caps => {
            put_counted(&mut out, "capabilities held: ", answer);
        },
        Command::Event(_) => {
            put_halves(&mut out, "events buffered ", " total ", answer);
        },
        Command::Graph(_) => {
            put_counted(&mut out, "graph (n+1)*n = ", answer);
        },
        Command::Reserve(_) => {
            if answer == u64::MAX {
                text::put_str(&mut out, "reservation refused (would overcommit the core)\r\n");
            } else {
                put_counted(&mut out, "reservation admitted; utilization ppm ", answer);
            }
        },
        Command::Lease => {
            put_counted(&mut out, "lease acquired; fencing token ", answer);
        },
        Command::Unknown => {
            text::put_str(&mut out, "lsh: unknown command (try 'help')\r\n");
        },
        _ => {},
    }
    assert(out@ =~= reply_text(c, line@, answer));
    clip(out, room)
}

/// Where the shell is.
#[derive(Copy, Clone, PartialEq, Eq, Debug, Structural)]
pub enum At {
    /// Nothing has been written yet.
    Start,
    /// The prompt is to be written next.
    Prompt,
    /// A line is to be read next.
    Read,
    /// A line is being read.
    Reading,
    /// The event of a command is being recorded.
    Recording(u64),
    /// The call of a command is being made.
    Calling(Command),
    /// The farewell has been written.
    Leaving,
}

/// What the shell is told.
pub enum Event {
    /// What it asked for has been done.
    Done,
    /// The line that was read, none at the end of the input.
    Line(Option<Vec<u8>>),
    /// The answer to a call.
    Answer(u64),
}

/// What the shell wants done.
pub enum Action {
    Write(Vec<u8>),
    ReadLine,
    Call(Call),
    Exit,
}

/// The action after a command that has written this much.
pub open spec fn wrote(a: Action, at: At, out: Seq<u8>, room: nat) -> bool {
    if out.len() > 0 {
        a is Write && a->Write_0@ == out && at == At::Prompt
    } else {
        a is Write && a->Write_0@ == clipped("lsh> ".spec_bytes(), room) && at == At::Read
    }
}

/// The farewell.
pub open spec fn leaves(a: Action, at: At, room: nat) -> bool {
    a is Write && a->Write_0@ == clipped("lsh: goodbye\r\n".spec_bytes(), room) && at
        == At::Leaving
}

/// How the shell answers an event.
pub open spec fn shell_answers(before: At, e: Event, room: nat, after: At, a: Action) -> bool {
    match before {
        At::Start => {
            &&& a is Write && a->Write_0@ == clipped(
                "\r\nlsh - the Lattice shell. type 'help'.\r\n".spec_bytes(),
                room,
            )
            &&& after == At::Prompt
        },
        At::Prompt => {
            &&& a is Write && a->Write_0@ == clipped("lsh> ".spec_bytes(), room)
            &&& after == At::Read
        },
        At::Read => a is ReadLine && after == At::Reading,
        At::Reading => match e {
            Event::Line(Some(line)) => {
                let c = command_of(line@);
                match c {
                    Command::Exit => leaves(a, after, room),
                    Command::Event(kind) => {
                        &&& a == Action::Call(Call::EventEmit(kind))
                        &&& after == At::Recording(kind)
                    },
                    _ => match call_of(c) {
                        Some(call) => a == Action::Call(call) && after == At::Calling(c),
                        None => wrote(a, after, clipped(reply_text(c, line@, 0), room), room),
                    },
                }
            },
            _ => leaves(a, after, room),
        },
        At::Recording(kind) => {
            &&& a == Action::Call(Call::EventCount)
            &&& after == At::Calling(Command::Event(kind))
        },
        At::Calling(c) => {
            let answer = match e {
                Event::Answer(n) => n,
                _ => 0,
            };
            wrote(a, after, clipped(reply_text(c, Seq::empty(), answer), room), room)
        },
        At::Leaving => a is Exit && after == At::Leaving,
    }
}

fn fixed(s: &str, room: usize) -> (v: Vec<u8>)
    ensures
        v@ == clipped(s.spec_bytes(), room as nat),
{
    let mut out: Vec<u8> = Vec::new();
    text::put_str(&mut out, s);
    assert(out@ =~= s.spec_bytes());
    clip(out, room)
}

fn write_reply(at: &mut At, out: Vec<u8>, room: usize) -> (a: Action)
    ensures
        wrote(a, *final(at), out@, room as nat),
{
    if out.len() > 0 {
        *at = At::Prompt;
        Action::Write(out)
    } else {
        *at = At::Read;
        Action::Write(fixed("lsh> ", room))
    }
}

/// One step of the shell, with buffers of `room` bytes.
pub fn user_shell(at: &mut At, e: Event, room: usize) -> (a: Action)
    requires
        *old(at) matches At::Calling(c) ==> !(c is Echo),
    ensures
        *final(at) matches At::Calling(c) ==> !(c is Echo),
        shell_answers(*old(at), e, room as nat, *final(at), a),
{
    match *at {
        At::Start => {
            *at = At::Prompt;
            Action::Write(fixed("\r\nlsh - the Lattice shell. type 'help'.\r\n", room))
        },
        At::Prompt => {
            *at = At::Read;
            Action::Write(fixed("lsh> ", room))
        },
        At::Read => {
            *at = At::Reading;
            Action::ReadLine
        },
        At::Reading => match e {
            Event::Line(Some(line)) => {
                let c: Command = dispatch(line.as_slice());
                match c {
                    Command::Exit => {
                        *at = At::Leaving;
                        Action::Write(fixed("lsh: goodbye\r\n", room))
                    },
                    Command::Event(kind) => {
                        *at = At::Recording(kind);
                        Action::Call(Call::EventEmit(kind))
                    },
                    _ => match call_for(c) {
                        Some(call) => {
                            *at = At::Calling(c);
                            Action::Call(call)
                        },
                        None => {
                            let out: Vec<u8> = respond(c, line.as_slice(), 0, room);
                            write_reply(at, out, room)
                        },
                    },
                }
            },
            _ => {
                *at = At::Leaving;
                Action::Write(fixed("lsh: goodbye\r\n", room))
            },
        },
        At::Recording(kind) => {
            *at = At::Calling(Command::Event(kind));
            Action::Call(Call::EventCount)
        },
        At::Calling(c) => {
            let answer: u64 = match e {
                Event::Answer(n) => n,
                _ => 0,
            };
            let none: Vec<u8> = Vec::new();
            let out: Vec<u8> = respond(c, none.as_slice(), answer, room);
            assert(none@ =~= Seq::empty());
            write_reply(at, out, room)
        },
        At::Leaving => Action::Exit,
    }
}

proof fn lemma_word_end(s: Seq<u8>, i: int, n: int)
    requires
        0 <= i <= n <= s.len(),
        forall|j: int| i <= j < n ==> #[trigger] s[j] != 32,
        n == s.len() || s[n] == 32,
    ensures
        word_end(s, i) == n,
    decreases n - i,
{
    if i < n {
        assert(s[i] != 32);
        lemma_word_end(s, i + 1, n);
    }
}

proof fn lemma_spaces_end(s: Seq<u8>, i: int, n: int)
    requires
        0 <= i <= n <= s.len(),
        forall|j: int| i <= j < n ==> #[trigger] s[j] == 32,
        n == s.len() || s[n] != 32,
    ensures
        text::spaces_from(s, i) == n,
    decreases n - i,
{
    if i < n {
        assert(s[i] == 32);
        lemma_spaces_end(s, i + 1, n);
    }
}

/// A line is its first word, spaces and an argument: whatever the word, however many the
/// spaces, the word is found as it stands and the argument begins with the first byte
/// that is not a space.
pub proof fn law_line_comes_apart(w: Seq<u8>, spaces: nat, arg: Seq<u8>)
    requires
        forall|j: int| 0 <= j < w.len() ==> #[trigger] w[j] != 32,
        arg.len() == 0 || arg[0] != 32,
        spaces == 0 ==> arg.len() == 0,
    ensures
        ({
            let line = w + Seq::new(spaces, |i: int| 32u8) + arg;
            &&& first_word(line) == w
            &&& arg_at(line) == w.len() + spaces
            &&& line.skip(arg_at(line)) == arg
        }),
{
    let line = w + Seq::new(spaces, |i: int| 32u8) + arg;
    assert forall|j: int| 0 <= j < w.len() implies #[trigger] line[j] != 32 by {
        assert(line[j] == w[j]);
    }
    if spaces > 0 {
        assert(line[w.len() as int] == 32);
    }
    lemma_word_end(line, 0, w.len() as int);
    if arg.len() > 0 {
        assert(line[(w.len() + spaces) as int] == arg[0]);
    }
    lemma_spaces_end(line, w.len() as int, (w.len() + spaces) as int);
    assert(first_word(line) =~= w);
    assert(line.skip(arg_at(line)) =~= arg);
}

/// Echo repeats its argument: what is written back is what stood behind the word and its
/// spaces, and a line's end.
pub proof fn law_echo_repeats_its_argument(w: Seq<u8>, spaces: nat, arg: Seq<u8>)
    requires
        command_of(w + Seq::new(spaces, |i: int| 32u8) + arg) is Echo,
        forall|j: int| 0 <= j < w.len() ==> #[trigger] w[j] != 32,
        arg.len() == 0 || arg[0] != 32,
        spaces == 0 ==> arg.len() == 0,
        w.len() + spaces <= usize::MAX,
    ensures
        ({
            let line = w + Seq::new(spaces, |i: int| 32u8) + arg;
            reply_text(command_of(line), line, 0) == arg + "\r\n".spec_bytes()
        }),
{
    law_line_comes_apart(w, spaces, arg);
}

/// A number behind a word is read as it was written, and so are two behind one another:
/// the first goes to the upper half of a reservation, the second to the lower.
pub proof fn law_numbers_are_read_as_written(a: u32, b: u32, spaces: nat, rest: Seq<u8>)
    requires
        spaces >= 1,
        rest.len() == 0 || !text::is_digit(rest[0]),
    ensures
        number(text::decimal(a as nat) + rest) == a,
        ({
            let arg = text::decimal(a as nat) + Seq::new(spaces, |i: int| 32u8) + (text::decimal(b as nat)
                + rest);
            &&& number(arg) == a
            &&& number(arg.skip(second_at(arg))) == b
            &&& packed(number(arg), number(arg.skip(second_at(arg)))) == a * 0x1_0000_0000 + b
        }),
{
    text::law_decimal_reads_back(a as u64, rest);
    text::law_decimal_reads_back(b as u64, rest);
    let da = text::decimal(a as nat);
    let db = text::decimal(b as nat) + rest;
    let gap = Seq::new(spaces, |i: int| 32u8);
    let arg = da + gap + db;
    text::lemma_decimal_digits(a as nat);
    text::lemma_decimal_digits(b as nat);
    assert(da + (gap + db) =~= arg);
    assert((gap + db)[0] == 32);
    text::law_decimal_reads_back(a as u64, gap + db);
    assert forall|j: int| 0 <= j < da.len() implies text::is_digit(#[trigger] arg[j]) by {
        assert(arg[j] == da[j]);
    }
    assert(arg[da.len() as int] == 32);
    text::lemma_digits_run(arg, 0, da.len() as int);
    assert(db[0] == text::decimal(b as nat)[0]);
    assert(text::is_digit(text::decimal(b as nat)[0]));
    assert(arg[(da.len() + spaces) as int] == db[0]);
    lemma_spaces_end(arg, da.len() as int, (da.len() + spaces) as int);
    assert(arg.skip(second_at(arg)) =~= db);
}

/// A recorded event is recorded first and counted then: the line is answered with a call
/// that records it, that with a call for the count, and that with the count.
pub proof fn law_event_is_recorded_then_counted(
    line: Vec<u8>,
    kind: u64,
    room: nat,
    s1: At,
    a1: Action,
    s2: At,
    a2: Action,
    done: u64,
)
    requires
        command_of(line@) == Command::Event(kind),
        shell_answers(At::Reading, Event::Line(Some(line)), room, s1, a1),
        shell_answers(s1, Event::Answer(done), room, s2, a2),
    ensures
        a1 == Action::Call(Call::EventEmit(kind)),
        a2 == Action::Call(Call::EventCount),
        s2 == At::Calling(Command::Event(kind)),
{
}

/// The shell ends only where it is told to or the input ends, and says so first.
pub proof fn law_shell_leaves_only_when_told(before: At, e: Event, room: nat, after: At, a: Action)
    requires
        shell_answers(before, e, room, after, a),
    ensures
        a is Exit ==> before == At::Leaving,
        after == At::Leaving && before != At::Leaving ==> {
            &&& before == At::Reading
            &&& !(e is Line) || e->Line_0 is None || command_of((e->Line_0->0)@) == Command::Exit
            &&& a is Write
        },
        before == At::Reading && e is Line && e->Line_0 is Some && command_of((e->Line_0->0)@) != Command::Exit
            ==> after != At::Leaving,
{
}

} // verus!
