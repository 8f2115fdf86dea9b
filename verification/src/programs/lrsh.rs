//! A shell: what a line asks for, what the key for completion puts there, and what is
//! said of a command that has run.

use vstd::prelude::*;
use crate::programs::words;
use crate::text;

verus! {

/// The exit code where the input ends, or `exit` names none.
pub const EOF_CODE: u64 = 0x42;

/// The commands that the key for completion knows.
pub open spec fn commands() -> Seq<Seq<char>> {
    seq![
        seq!['e', 'c', 'h', 'o'],
        seq!['c', 'h', 'i', 'l', 'd'],
        seq!['c', 'd'],
        seq!['e', 'x', 'i', 't'],
    ]
}

fn command(i: usize) -> (c: Vec<char>)
    requires
        i < 4,
    ensures
        c@ == commands()[i as int],
{
    if i == 0 {
        vec!['e', 'c', 'h', 'o']
    } else if i == 1 {
        vec!['c', 'h', 'i', 'l', 'd']
    } else if i == 2 {
        vec!['c', 'd']
    } else {
        vec!['e', 'x', 'i', 't']
    }
}

/// A command begins with a text.
pub open spec fn begins(c: Seq<char>, line: Seq<char>) -> bool {
    line.len() <= c.len() && c.subrange(0, line.len() as int) == line
}

fn starts_with(c: &Vec<char>, line: &Vec<char>) -> (b: bool)
    ensures
        b == begins(c@, line@),
{
    if line.len() > c.len() {
        return false;
    }
    let mut i: usize = 0;
    while i < line.len()
        invariant
            i <= line@.len() <= c@.len(),
            c@.subrange(0, i as int) == line@.subrange(0, i as int),
        decreases line@.len() - i,
    {
        if c[i] != line[i] {
            assert(c@.subrange(0, line@.len() as int)[i as int] == c@[i as int]);
            return false;
        }
        i = i + 1;
        assert(c@.subrange(0, i as int) == c@.subrange(0, i - 1).push(c@[i - 1]));
        assert(line@.subrange(0, i as int) == line@.subrange(0, i - 1).push(line@[i - 1]));
    }
    assert(line@.subrange(0, line@.len() as int) == line@);
    true
}

/// The one command that begins with a text.
pub open spec fn only_hit(line: Seq<char>, i: int) -> bool {
    &&& 0 <= i < commands().len()
    &&& begins(commands()[i], line)
    &&& forall|j: int|
        0 <= j < commands().len() && j != i ==> !begins(#[trigger] commands()[j], line)
}

/// A line can be completed at all: it is a word by itself.
pub open spec fn completable(line: Seq<char>) -> bool {
    line.len() > 0 && !line.contains(' ')
}

/// The command that a word is the beginning of, if there is one and no other. A line
/// that goes on behind a space is left as it is.
pub fn complete(line: &Vec<char>) -> (r: Option<Vec<char>>)
    ensures
        match r {
            Some(c) => completable(line@) && exists|i: int|
                #[trigger] only_hit(line@, i) && c@ == commands()[i],
            None => !completable(line@) || forall|i: int| !#[trigger] only_hit(line@, i),
        },
{
    if line.len() == 0 {
        return None;
    }
    let mut k: usize = 0;
    while k < line.len()
        invariant
            k <= line@.len(),
            forall|x: int| 0 <= x < k ==> #[trigger] line@[x] != ' ',
        decreases line@.len() - k,
    {
        if line[k] == ' ' {
            return None;
        }
        k = k + 1;
    }
    let mut hit: Option<usize> = None;
    let mut i: usize = 0;
    while i < 4
        invariant
            i <= 4,
            match hit {
                None => forall|j: int| 0 <= j < i ==> !begins(#[trigger] commands()[j], line@),
                Some(h) => h < i && begins(commands()[h as int], line@) && forall|j: int|
                    0 <= j < i && j != h ==> !begins(#[trigger] commands()[j], line@),
            },
        decreases 4 - i,
    {
        if starts_with(&command(i), line) {
            if let Some(h) = hit {
                proof {
                    assert forall|x: int| !#[trigger] only_hit(line@, x) by {
                        assert(begins(commands()[h as int], line@));
                        assert(begins(commands()[i as int], line@));
                    }
                }
                return None;
            }
            hit = Some(i);
        }
        i = i + 1;
    }
    match hit {
        None => None,
        Some(h) => {
            assert(only_hit(line@, h as int));
            Some(command(h))
        },
    }
}

/// What a line asks for.
pub enum Step {
    /// Nothing: the line is blank, or the command does nothing here.
    Nothing,
    /// Leave, with a code.
    Exit(u64),
    /// Say something.
    Say(Vec<char>),
    /// Run a program and wait for it.
    Spawn { path: Vec<char>, argv: Vec<Vec<char>> },
}

/// The directory of the programs.
pub open spec fn bin() -> Seq<char> {
    seq!['/', 'b', 'i', 'n', '/']
}

/// A number as it is read from a word, if the word is one and it fits.
pub open spec fn number_in(w: Seq<char>) -> Option<u64> {
    let at = words::digits_at(w, false);
    let v = words::value_to(w, at, w.len() as int);
    if words::all_digits(w, at) && v <= u64::MAX {
        Some(v as u64)
    } else {
        None
    }
}

/// What the words of a line ask for.
pub open spec fn asked(ws: Seq<Seq<char>>, s: Step) -> bool {
    if ws.len() == 0 || ws[0] == commands()[2] {
        s is Nothing
    } else if ws[0] == commands()[3] {
        s == Step::Exit(
            if ws.len() > 1 && number_in(ws[1]) is Some {
                number_in(ws[1])->0
            } else {
                EOF_CODE
            },
        )
    } else if ws[0] == commands()[0] {
        s matches Step::Say(t) && t@ == words::joined(ws.skip(1), ' ')
    } else {
        s matches Step::Spawn { path, argv } && path@ == bin() + ws[0] && words::texts(argv@) == ws
    }
}

fn same_text(a: &Vec<char>, b: &Vec<char>) -> (r: bool)
    ensures
        r == (a@ == b@),
{
    if a.len() != b.len() {
        return false;
    }
    let r: bool = starts_with(a, b);
    assert(a@.subrange(0, a@.len() as int) == a@);
    r
}

/// What a line asks for.
pub fn run_line(line: &Vec<char>) -> (s: Step)
    ensures
        asked(words::words_from(line@, 0), s),
{
    let ws: Vec<Vec<char>> = words::words(line);
    let ghost t: Seq<Seq<char>> = words::texts(ws@);
    if ws.len() == 0 {
        return Step::Nothing;
    }
    assert(t[0] == ws@[0]@);
    let is_cd: bool = same_text(&ws[0], &command(2));
    let is_exit: bool = same_text(&ws[0], &command(3));
    let is_echo: bool = same_text(&ws[0], &command(0));
    if is_cd {
        return Step::Nothing;
    }
    if is_exit {
        if ws.len() > 1 {
            assert(t[1] == ws@[1]@);
            if let Some(v) = words::parse_u64(&ws[1]) {
                return Step::Exit(v);
            }
        }
        return Step::Exit(EOF_CODE);
    }
    if is_echo {
        let said: Vec<char> = words::join(&ws, 1, ' ');
        assert(words::contents(ws@) == t);
        return Step::Say(said);
    }
    let mut path: Vec<char> = vec!['/', 'b', 'i', 'n', '/'];
    put(&mut path, &ws[0]);
    Step::Spawn { path, argv: ws }
}

fn put(out: &mut Vec<char>, w: &Vec<char>)
    ensures
        final(out)@ == old(out)@ + w@,
{
    let mut i: usize = 0;
    while i < w.len()
        invariant
            i <= w@.len(),
            out@ == old(out)@ + w@.subrange(0, i as int),
        decreases w@.len() - i,
    {
        out.push(w[i]);
        i = i + 1;
        assert(w@.subrange(0, i as int) == w@.subrange(0, i - 1).push(w@[i - 1]));
    }
    assert(w@.subrange(0, w@.len() as int) == w@);
}

/// A text of plain bytes as characters.
pub open spec fn as_chars(b: Seq<u8>) -> Seq<char> {
    Seq::new(b.len(), |i: int| b[i] as char)
}

/// What is said when a command has run: the code it left with, or that it was not found.
pub open spec fn said(cmd: Seq<char>, code: Option<u64>) -> Seq<char> {
    match code {
        Some(c) => seq!['[', 'e', 'x', 'i', 't', ' '] + as_chars(text::decimal(c as nat)) + seq![']'],
        None => seq!['l', 'r', 's', 'h', ':', ' '] + cmd + seq![
            ':',
            ' ',
            'n',
            'o',
            't',
            ' ',
            'f',
            'o',
            'u',
            'n',
            'd',
        ],
    }
}

/// What is said when a command has run, with the code it left with, or could not be
/// run.
pub fn outcome(cmd: &Vec<char>, code: Option<u64>) -> (out: Vec<char>)
    ensures
        out@ == said(cmd@, code),
{
    match code {
        Some(c) => {
            let mut out: Vec<char> = vec!['[', 'e', 'x', 'i', 't', ' '];
            let mut digits: Vec<u8> = Vec::new();
            text::put_u64(&mut digits, c);
            let ghost start: Seq<char> = out@;
            let mut i: usize = 0;
            while i < digits.len()
                invariant
                    i <= digits@.len(),
                    out@ == start + as_chars(digits@).subrange(0, i as int),
                decreases digits@.len() - i,
            {
                out.push(digits[i] as char);
                i = i + 1;
                assert(as_chars(digits@).subrange(0, i as int) == as_chars(digits@).subrange(
                    0,
                    i - 1,
                ).push(as_chars(digits@)[i - 1]));
            }
            assert(as_chars(digits@).subrange(0, digits@.len() as int) == as_chars(digits@));
            out.push(']');
            out
        },
        None => {
            let mut out: Vec<char> = vec!['l', 'r', 's', 'h', ':', ' '];
            put(&mut out, cmd);
            let tail: Vec<char> = vec![':', ' ', 'n', 'o', 't', ' ', 'f', 'o', 'u', 'n', 'd'];
            put(&mut out, &tail);
            out
        },
    }
}

/// What a line asks for: nothing where it is empty or changes the directory, the end where it
/// says so, its own words where it echoes, and else a program of that name, which gets all
/// the words.
pub proof fn law_line_asks_for_one_thing(ws: Seq<Seq<char>>, s: Step)
    requires
        asked(ws, s),
    ensures
        ws.len() == 0 ==> s is Nothing,
        ws.len() > 0 && ws[0] == seq!['c', 'd'] ==> s is Nothing,
        ws.len() > 0 && ws[0] == seq!['e', 'x', 'i', 't'] ==> s is Exit,
        ws.len() == 1 && ws[0] == seq!['e', 'x', 'i', 't'] ==> s == Step::Exit(EOF_CODE),
        ws.len() > 0 && ws[0] == seq!['e', 'c', 'h', 'o'] ==> (s matches Step::Say(t) && t@ == words::joined(
            ws.skip(1),
            ' ',
        )),
        s is Spawn ==> ws.len() > 0 && (s->path)@ == seq!['/', 'b', 'i', 'n', '/'] + ws[0] && words::texts(
            (s->argv)@,
        ) == ws,
        ws.len() > 0 && ws[0] != seq!['c', 'd'] && ws[0] != seq!['e', 'x', 'i', 't'] && ws[0] != seq![
            'e',
            'c',
            'h',
            'o',
        ] ==> s is Spawn,
{
    let cd = seq!['c', 'd'];
    let exit = seq!['e', 'x', 'i', 't'];
    let echo = seq!['e', 'c', 'h', 'o'];
    assert(cd.len() == 2 && exit.len() == 4 && echo.len() == 4);
    assert(exit[1] == 'x' && echo[1] == 'c');
    assert(commands()[0] == echo && commands()[2] == cd && commands()[3] == exit);
}

/// A code is told as what it is, and a program that is not there is named.
pub proof fn law_end_is_told(cmd: Seq<char>, code: u64)
    requires
        code < 10,
    ensures
        said(cmd, Some(code)).len() == 8,
        said(cmd, Some(code))[6] as u32 == 48 + code,
        said(cmd, None).subrange(6, 6 + cmd.len() as int) == cmd,
{
    let d = text::decimal(code as nat);
    assert(d.len() == 1 && d[0] == 48 + code);
    assert(said(cmd, None).subrange(6, 6 + cmd.len() as int) =~= cmd);
}

/// A word is completed to the one command that it begins, and only where there is just one:
/// a line with nothing in it, or with a space, is not, nor a word that begins two commands.
pub proof fn law_only_one_command_is_completed(line: Seq<char>, i: int, j: int)
    requires
        only_hit(line, i),
        0 <= j < 4,
    ensures
        line.len() <= commands()[i].len(),
        commands()[i].subrange(0, line.len() as int) == line,
        j != i ==> !(line.len() <= commands()[j].len() && commands()[j].subrange(0, line.len() as int) == line),
        line.len() == 0 ==> !completable(line),
        line.contains(' ') ==> !completable(line),
        line.len() > 0 && !line.contains(' ') ==> completable(line),
{
    if j != i {
        assert(!begins(commands()[j], line));
    }
}

} // verus!
