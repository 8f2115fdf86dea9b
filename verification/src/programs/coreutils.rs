//! Two small programs for a shell to run: one says its arguments, the other leaves with
//! the number that it was given.

use vstd::prelude::*;
use vstd::string::*;
use crate::programs::words;
use crate::user::proc;
use crate::user::proc::Image;

verus! {

/// A text as a list of its characters.
fn chars_of(s: &str) -> (v: Vec<char>)
    ensures
        v@ == s@,
{
    let len: usize = s.unicode_len();
    let mut v: Vec<char> = Vec::new();
    let mut i: usize = 0;
    while i < len
        invariant
            i <= len,
            len == s@.len(),
            v@ =~= s@.take(i as int),
        decreases len - i,
    {
        v.push(s.get_char(i));
        i = i + 1;
    }
    assert(s@.take(len as int) =~= s@);
    v
}

/// What `echo` says of its arguments: those behind its name, with spaces between, and a
/// line's end.
pub open spec fn echoed(args: Seq<Seq<char>>) -> Seq<char> {
    words::joined(
        args.skip(
            if args.len() == 0 {
                0int
            } else {
                1
            },
        ),
        ' ',
    ).push('\n')
}

/// What `echo` says.
pub fn echo(args: &Vec<String>) -> (out: Vec<char>)
    ensures
        out@ == echoed(proc::texts(args@)),
{
    let mut list: Vec<Vec<char>> = Vec::new();
    let mut i: usize = 0;
    while i < args.len()
        invariant
            i <= args@.len(),
            list@.len() == i,
            forall|k: int| 0 <= k < i ==> (#[trigger] list@[k])@ == args@[k]@,
        decreases args@.len() - i,
    {
        list.push(chars_of(args[i].as_str()));
        i = i + 1;
    }
    let mut out: Vec<char> = words::join(&list, 1, ' ');
    assert(words::contents(list@) =~= proc::texts(args@));
    out.push('\n');
    out
}

/// What `echo` says, from the block at the start of its stack.
pub fn echo_inherited(img: &Image, base: u64) -> (out: Vec<char>)
    requires
        base != 0 ==> proc::args_readable(img, base),
    ensures
        out@ == echoed(proc::arg_texts(img, base)),
{
    let list: Vec<String> = proc::args(img, base);
    assert(proc::texts(list@) =~= proc::arg_texts(img, base));
    echo(&list)
}

/// The number that `child` was given: its first argument, if it is a number that fits.
pub open spec fn number_given(args: Seq<Seq<char>>) -> int {
    if args.len() < 2 {
        0
    } else {
        let s = args[1];
        let v = words::signed_value(s);
        if words::all_digits(s, words::digits_at(s, true)) && i32::MIN <= v <= i32::MAX {
            v
        } else {
            0
        }
    }
}

/// The code that `child` leaves with: the number that it was given, or zero.
pub fn child_code(args: &Vec<String>) -> (n: i32)
    ensures
        n == number_given(proc::texts(args@)),
{
    if args.len() < 2 {
        return 0;
    }
    let s: Vec<char> = chars_of(args[1].as_str());
    match words::parse_i32(&s) {
        Some(v) => v,
        None => 0,
    }
}

/// What is echoed is the arguments behind the program's name, with one space between two
/// of them and a line's end behind the last.
pub proof fn law_echo_leaves_out_the_name(name: Seq<char>, a: Seq<char>, b: Seq<char>)
    ensures
        echoed(seq![]) == seq!['\n'],
        echoed(seq![name]) == seq!['\n'],
        echoed(seq![name, a]) == a + seq!['\n'],
        echoed(seq![name, a, b]) == a + seq![' '] + b + seq!['\n'],
{
    reveal_with_fuel(words::joined, 3);
    assert(Seq::<Seq<char>>::empty().skip(0) =~= seq![]);
    assert(seq![name].skip(1) =~= seq![]);
    assert(seq![name, a].skip(1) =~= seq![a]);
    assert(seq![name, a, b].skip(1) =~= seq![a, b]);
    assert(seq![a, b].skip(1) =~= seq![b]);
    assert(echoed(seq![]) =~= seq!['\n']);
    assert(echoed(seq![name]) =~= seq!['\n']);
    assert(echoed(seq![name, a]) =~= a + seq!['\n']);
    assert(echoed(seq![name, a, b]) =~= a + seq![' '] + b + seq!['\n']);
}

/// The number that a program is given is its first argument read in decimal, with or without
/// a sign; anything that is no such number, or does not fit in 32 bits, counts as 0.
pub proof fn law_given_number_is_read(name: Seq<char>, s: Seq<char>, d: char)
    ensures
        number_given(seq![name]) == 0,
        s.len() == 0 ==> number_given(seq![name, s]) == 0,
        '0' <= d <= '9' ==> number_given(seq![name, seq![d]]) == d as int - '0' as int,
        '0' <= d <= '9' ==> number_given(seq![name, seq!['-', d]]) == '0' as int - d as int,
        '0' <= d <= '9' ==> number_given(seq![name, seq!['+', d]]) == d as int - '0' as int,
        !('0' <= d <= '9') ==> number_given(seq![name, seq![d]]) == 0,
{
    reveal_with_fuel(words::value_to, 3);
    let one = seq![d];
    let neg = seq!['-', d];
    let pos = seq!['+', d];
    assert(one[0] == d && neg[1] == d && pos[1] == d);
}

} // verus!
