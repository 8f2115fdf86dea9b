//! Lines of words: cutting a line at its blanks, joining words, and numbers written out.

use vstd::prelude::*;

verus! {

/// A character is a blank.
pub open spec fn is_blank(c: char) -> bool {
    let u = c as u32;
    ||| 9 <= u <= 13
    ||| u == 0x20
    ||| u == 0x85
    ||| u == 0xA0
    ||| u == 0x1680
    ||| 0x2000 <= u <= 0x200A
    ||| u == 0x2028
    ||| u == 0x2029
    ||| u == 0x202F
    ||| u == 0x205F
    ||| u == 0x3000
}

fn blank(c: char) -> (b: bool)
    ensures
        b == is_blank(c),
{
    let u: u32 = c as u32;
    (9 <= u && u <= 13) || u == 0x20 || u == 0x85 || u == 0xA0 || u == 0x1680 || (0x2000 <= u && u
        <= 0x200A) || u == 0x2028 || u == 0x2029 || u == 0x202F || u == 0x205F || u == 0x3000
}

/// The first place from `i` on that holds no blank.
pub open spec fn past_blanks(s: Seq<char>, i: int) -> int
    decreases s.len() - i,
{
    if i < s.len() && is_blank(s[i]) {
        past_blanks(s, i + 1)
    } else {
        i
    }
}

/// The first place from `i` on that holds a blank.
pub open spec fn past_word(s: Seq<char>, i: int) -> int
    decreases s.len() - i,
{
    if i < s.len() && !is_blank(s[i]) {
        past_word(s, i + 1)
    } else {
        i
    }
}

proof fn lemma_past(s: Seq<char>, i: int)
    requires
        0 <= i <= s.len(),
    ensures
        i <= past_blanks(s, i) <= s.len(),
        i <= past_word(s, i) <= s.len(),
        i < s.len() && !is_blank(s[i]) ==> i < past_word(s, i),
        past_blanks(s, i) < s.len() ==> !is_blank(s[past_blanks(s, i)]),
    decreases s.len() - i,
{
    if i < s.len() {
        lemma_past(s, i + 1);
    }
}

/// The words of a line from `i` on.
pub open spec fn words_from(s: Seq<char>, i: int) -> Seq<Seq<char>>
    decreases s.len() - i,
    when 0 <= i <= s.len()
    via words_from_ends
{
    let a = past_blanks(s, i);
    if a >= s.len() {
        seq![]
    } else {
        seq![s.subrange(a, past_word(s, a))] + words_from(s, past_word(s, a))
    }
}

#[via_fn]
proof fn words_from_ends(s: Seq<char>, i: int) {
    lemma_past(s, i);
    lemma_past(s, past_blanks(s, i));
}

/// What a list of words holds.
pub open spec fn texts(v: Seq<Vec<char>>) -> Seq<Seq<char>> {
    Seq::new(v.len(), |i: int| v[i]@)
}

/// The words of a line: what stands between its blanks.
pub fn words(line: &Vec<char>) -> (out: Vec<Vec<char>>)
    ensures
        texts(out@) == words_from(line@, 0),
{
    let mut out: Vec<Vec<char>> = Vec::new();
    let mut i: usize = 0;
    proof {
        assert(texts(out@) + words_from(line@, 0) == words_from(line@, 0));
    }
    loop
        invariant
            i <= line@.len(),
            texts(out@) + words_from(line@, i as int) == words_from(line@, 0),
        decreases line@.len() - i,
    {
        let ghost from: int = i as int;
        proof {
            lemma_past(line@, from);
        }
        while i < line.len() && blank(line[i])
            invariant
                from <= i <= line@.len(),
                past_blanks(line@, i as int) == past_blanks(line@, from),
            decreases line@.len() - i,
        {
            i = i + 1;
        }
        if i == line.len() {
            proof {
                assert(words_from(line@, from) == Seq::<Seq<char>>::empty());
                assert(texts(out@) + words_from(line@, from) == texts(out@));
            }
            return out;
        }
        let ghost a: int = i as int;
        let ghost before: Seq<Seq<char>> = texts(out@);
        proof {
            lemma_past(line@, a);
        }
        let mut word: Vec<char> = Vec::new();
        while i < line.len() && !blank(line[i])
            invariant
                0 <= a <= i <= line@.len(),
                past_word(line@, i as int) == past_word(line@, a),
                word@ == line@.subrange(a, i as int),
            decreases line@.len() - i,
        {
            word.push(line[i]);
            i = i + 1;
        }
        out.push(word);
        proof {
            assert(texts(out@) == before.push(word@));
            assert(texts(out@) + words_from(line@, i as int) == before + (seq![word@]
                + words_from(line@, i as int)));
        }
    }
}

/// Words joined, with something between any two.
pub open spec fn joined<T>(ws: Seq<Seq<T>>, sep: T) -> Seq<T>
    decreases ws.len(),
{
    if ws.len() == 0 {
        seq![]
    } else if ws.len() == 1 {
        ws[0]
    } else {
        ws[0] + seq![sep] + joined(ws.skip(1), sep)
    }
}

/// What a list of lists holds.
pub open spec fn contents<T>(v: Seq<Vec<T>>) -> Seq<Seq<T>> {
    Seq::new(v.len(), |i: int| v[i]@)
}

/// What is still to come of the joined words.
spec fn rest_of<T>(ws: Seq<Seq<T>>, sep: T, i: int) -> Seq<T> {
    if i >= ws.len() {
        seq![]
    } else if i == 0 {
        joined(ws, sep)
    } else {
        seq![sep] + joined(ws.skip(i), sep)
    }
}

/// Join the words from `first` on.
pub fn join<T: Copy>(ws: &Vec<Vec<T>>, first: usize, sep: T) -> (out: Vec<T>)
    ensures
        out@ == joined(
            contents(ws@).skip(if first <= ws@.len() {
                first as int
            } else {
                ws@.len() as int
            }),
            sep,
        ),
{
    let ghost all: Seq<Seq<T>> = contents(ws@);
    let mut out: Vec<T> = Vec::new();
    if first >= ws.len() {
        return out;
    }
    let ghost tail: Seq<Seq<T>> = all.skip(first as int);
    let mut i: usize = first;
    proof {
        assert(out@ + rest_of(tail, sep, 0) == joined(tail, sep));
    }
    while i < ws.len()
        invariant
            first <= i <= ws@.len(),
            first < ws@.len(),
            all == contents(ws@),
            tail == all.skip(first as int),
            out@ + rest_of(tail, sep, i - first) == joined(tail, sep),
        decreases ws@.len() - i,
    {
        let ghost start: Seq<T> = out@;
        let ghost n: int = i - first;
        if i > first {
            out.push(sep);
        }
        let ghost middle: Seq<T> = out@;
        let w: &Vec<T> = &ws[i];
        let mut k: usize = 0;
        while k < w.len()
            invariant
                k <= w@.len(),
                out@ == middle + w@.subrange(0, k as int),
            decreases w@.len() - k,
        {
            out.push(w[k]);
            k = k + 1;
        }
        i = i + 1;
        proof {
            assert(w@.subrange(0, w@.len() as int) == w@);
            assert(tail.skip(n)[0] == w@);
            assert(tail.skip(n).skip(1) == tail.skip(n + 1));
            if n == 0 {
                assert(tail.skip(0) == tail);
            }
            assert(joined(tail.skip(n), sep) == w@ + rest_of(tail, sep, n + 1));
            assert(out@ + rest_of(tail, sep, n + 1) == middle + (w@ + rest_of(tail, sep, n + 1)));
            if n > 0 {
                assert(start + (seq![sep] + joined(tail.skip(n), sep)) == middle + joined(
                    tail.skip(n),
                    sep,
                ));
            }
        }
    }
    out
}

proof fn lemma_shift(p: Seq<char>, r: Seq<char>, i: int)
    requires
        0 <= i <= r.len(),
    ensures
        past_blanks(p + r, p.len() + i) == p.len() + past_blanks(r, i),
        past_word(p + r, p.len() + i) == p.len() + past_word(r, i),
    decreases r.len() - i,
{
    if i < r.len() {
        assert((p + r)[p.len() + i] == r[i]);
        lemma_shift(p, r, i + 1);
    }
}

proof fn lemma_words_shift(p: Seq<char>, r: Seq<char>, i: int)
    requires
        0 <= i <= r.len(),
    ensures
        words_from(p + r, p.len() + i) == words_from(r, i),
    decreases r.len() - i,
{
    let s = p + r;
    lemma_shift(p, r, i);
    lemma_past(r, i);
    let a = past_blanks(r, i);
    if a < r.len() {
        lemma_shift(p, r, a);
        lemma_past(r, a);
        lemma_words_shift(p, r, past_word(r, a));
        assert(s.subrange(p.len() + a, p.len() + past_word(r, a)) == r.subrange(
            a,
            past_word(r, a),
        ));
    }
}

proof fn lemma_word_ends(w: Seq<char>, r: Seq<char>, i: int)
    requires
        0 <= i <= w.len(),
        forall|k: int| 0 <= k < w.len() ==> !is_blank(#[trigger] w[k]),
        r.len() > 0 ==> is_blank(r[0]),
    ensures
        past_word(w + r, i) == w.len(),
    decreases w.len() - i,
{
    let s = w + r;
    if i < w.len() {
        assert(s[i] == w[i]);
        lemma_word_ends(w, r, i + 1);
    } else if r.len() > 0 {
        assert(s[i] == r[0]);
    }
}

/// Words that were joined by a blank are found again: cutting the line gives them back.
pub proof fn law_joined_words_are_found(ws: Seq<Seq<char>>)
    requires
        forall|i: int| 0 <= i < ws.len() ==> (#[trigger] ws[i]).len() > 0,
        forall|i: int, k: int|
            0 <= i < ws.len() && 0 <= k < ws[i].len() ==> !is_blank(#[trigger] ws[i][k]),
    ensures
        words_from(joined(ws, ' '), 0) == ws,
    decreases ws.len(),
{
    let s = joined(ws, ' ');
    if ws.len() == 0 {
        assert(s.len() == 0);
    } else {
        let w = ws[0];
        let r = if ws.len() == 1 {
            Seq::<char>::empty()
        } else {
            seq![' '] + joined(ws.skip(1), ' ')
        };
        assert(s == w + r);
        assert(!is_blank(ws[0][0]));
        assert(s[0] == w[0]);
        assert forall|k: int| 0 <= k < w.len() implies !is_blank(#[trigger] w[k]) by {
            assert(!is_blank(ws[0][k]));
        }
        lemma_word_ends(w, r, 0);
        assert(past_blanks(s, 0) == 0);
        assert(s.subrange(0, w.len() as int) == w);
        let tail = ws.skip(1);
        if ws.len() == 1 {
            assert(words_from(s, w.len() as int) == Seq::<Seq<char>>::empty());
            assert(ws == seq![w] + Seq::<Seq<char>>::empty());
        } else {
            assert forall|i: int, k: int|
                0 <= i < tail.len() && 0 <= k < tail[i].len() implies !is_blank(
                #[trigger] tail[i][k],
            ) by {
                assert(!is_blank(ws[i + 1][k]));
            }
            assert forall|i: int| 0 <= i < tail.len() implies (#[trigger] tail[i]).len() > 0 by {
                assert(ws[i + 1].len() > 0);
            }
            law_joined_words_are_found(tail);
            let j = joined(tail, ' ');
            assert(s == (w + seq![' ']) + j);
            lemma_words_shift(w + seq![' '], j, 0);
            assert(s[w.len() as int] == ' ');
            lemma_past(s, w.len() as int + 1);
            assert(past_blanks(s, w.len() as int) == past_blanks(s, w.len() as int + 1));
            assert(words_from(s, w.len() as int) == words_from(s, w.len() as int + 1));
            assert(ws == seq![w] + tail);
        }
    }
}

/// A character is a digit.
pub open spec fn is_digit(c: char) -> bool {
    '0' <= c <= '9'
}

/// The number that the digits up to `n` write out.
pub open spec fn value_to(s: Seq<char>, from: int, n: int) -> int
    decreases n - from,
{
    if n <= from {
        0
    } else {
        value_to(s, from, n - 1) * 10 + (s[n - 1] as int - '0' as int)
    }
}

/// All characters from a place on are digits, and there is one.
pub open spec fn all_digits(s: Seq<char>, from: int) -> bool {
    from < s.len() && forall|i: int| from <= i < s.len() ==> is_digit(#[trigger] s[i])
}

/// Where the digits of a number start: behind its sign, if it has one.
pub open spec fn digits_at(s: Seq<char>, signed: bool) -> int {
    if s.len() > 0 && (s[0] == '+' || (signed && s[0] == '-')) {
        1
    } else {
        0
    }
}

proof fn lemma_value_grows(s: Seq<char>, from: int, n: int)
    requires
        from <= n < s.len(),
        0 <= from,
        forall|i: int| from <= i <= n ==> is_digit(#[trigger] s[i]),
    ensures
        0 <= value_to(s, from, n) <= value_to(s, from, n + 1),
    decreases n,
{
    assert(is_digit(s[n]));
    if n > from {
        lemma_value_grows(s, from, n - 1);
    }
}

proof fn lemma_value_bound(s: Seq<char>, from: int, n: int, m: int)
    requires
        0 <= from <= n <= m <= s.len(),
        forall|i: int| from <= i < s.len() ==> is_digit(#[trigger] s[i]),
    ensures
        0 <= value_to(s, from, n) <= value_to(s, from, m),
    decreases m - n,
{
    if n < m {
        lemma_value_bound(s, from, n + 1, m);
        lemma_value_grows(s, from, n);
    } else if n > from {
        lemma_value_grows(s, from, n - 1);
    }
}

fn read_digits(s: &Vec<char>, from: usize, limit: u64) -> (r: Option<u64>)
    requires
        from <= s@.len(),
    ensures
        r == (if all_digits(s@, from as int) && value_to(s@, from as int, s@.len() as int)
            <= limit {
            Some(value_to(s@, from as int, s@.len() as int) as u64)
        } else {
            None
        }),
        r is Some ==> r->0 <= limit,
        all_digits(s@, from as int) ==> 0 <= value_to(s@, from as int, s@.len() as int),
{
    proof {
        if all_digits(s@, from as int) {
            lemma_value_bound(s@, from as int, s@.len() as int, s@.len() as int);
        }
    }
    if from == s.len() {
        return None;
    }
    let mut v: u64 = 0;
    let mut i: usize = from;
    while i < s.len()
        invariant
            from < s@.len(),
            from <= i <= s@.len(),
            v == value_to(s@, from as int, i as int),
            v <= limit,
            forall|k: int| from <= k < i ==> is_digit(#[trigger] s@[k]),
        decreases s@.len() - i,
    {
        let c: char = s[i];
        if !('0' <= c && c <= '9') {
            assert(!is_digit(s@[i as int]));
            return None;
        }
        let d: u64 = (c as u32 - '0' as u32) as u64;
        let next: u128 = (v as u128) * 10 + d as u128;
        proof {
            assert(next == value_to(s@, from as int, i + 1));
        }
        if next > limit as u128 {
            proof {
                if all_digits(s@, from as int) {
                    lemma_value_bound(s@, from as int, i + 1, s@.len() as int);
                }
            }
            return None;
        }
        v = next as u64;
        i = i + 1;
    }
    Some(v)
}

/// A number without a sign, or with a plus, if the text is one and it fits.
pub fn parse_u64(s: &Vec<char>) -> (r: Option<u64>)
    ensures
        r == (if all_digits(s@, digits_at(s@, false)) && value_to(
            s@,
            digits_at(s@, false),
            s@.len() as int,
        ) <= u64::MAX {
            Some(value_to(s@, digits_at(s@, false), s@.len() as int) as u64)
        } else {
            None
        }),
{
    let from: usize = if s.len() > 0 && s[0] == '+' {
        1
    } else {
        0
    };
    read_digits(s, from, u64::MAX)
}

/// The number that a text writes out, with its sign.
pub open spec fn signed_value(s: Seq<char>) -> int {
    let v = value_to(s, digits_at(s, true), s.len() as int);
    if s.len() > 0 && s[0] == '-' {
        -v
    } else {
        v
    }
}

/// A number with a sign, if the text is one and it fits.
pub fn parse_i32(s: &Vec<char>) -> (r: Option<i32>)
    ensures
        r == (if all_digits(s@, digits_at(s@, true)) && i32::MIN <= signed_value(s@) <= i32::MAX {
            Some(signed_value(s@) as i32)
        } else {
            None
        }),
{
    if s.len() > 0 && s[0] == '-' {
        match read_digits(s, 1, 0x8000_0000) {
            Some(v) => Some((0 - v as i64) as i32),
            None => None,
        }
    } else {
        let from: usize = if s.len() > 0 && s[0] == '+' {
            1
        } else {
            0
        };
        match read_digits(s, from, 0x7FFF_FFFF) {
            Some(v) => Some(v as i32),
            None => None,
        }
    }
}

/// The value of digits is their decimal value: each digit more makes it ten times what it
/// was, and the digit.
pub proof fn law_digits_count_by_tens(s: Seq<char>, from: int, n: int)
    requires
        0 <= from < n <= s.len(),
        forall|i: int| from <= i < n ==> is_digit(#[trigger] s[i]),
    ensures
        value_to(s, from, from) == 0,
        value_to(s, from, n) == 10 * value_to(s, from, n - 1) + (s[n - 1] as int - 48),
        0 <= value_to(s, from, n),
        value_to(s, from, n) >= value_to(s, from, n - 1),
    decreases n - from,
{
    assert(is_digit(s[n - 1]));
    if n - 1 > from {
        law_digits_count_by_tens(s, from, n - 1);
    }
}

/// A sign stands before the digits and turns the value: a minus only where signs are
/// taken.
pub proof fn law_sign_turns_the_value(s: Seq<char>)
    requires
        s.len() > 0,
    ensures
        s[0] == '-' ==> digits_at(s, true) == 1 && digits_at(s, false) == 0 && signed_value(s) == -value_to(
            s,
            1,
            s.len() as int,
        ),
        s[0] == '+' ==> digits_at(s, true) == 1 && digits_at(s, false) == 1 && signed_value(s) == value_to(
            s,
            1,
            s.len() as int,
        ),
        is_digit(s[0]) ==> digits_at(s, true) == 0 && signed_value(s) == value_to(s, 0, s.len() as int),
{
}

/// Words are parted by blanks: a space, a tab, the ends of a line and the other white space,
/// and by no letter, digit or sign. A run of blanks ends with the first that is none, and a
/// word with the first blank.
pub proof fn law_words_are_parted_by_blanks(c: char, s: Seq<char>, i: int)
    requires
        0 <= i <= s.len(),
    ensures
        is_blank(' '),
        is_blank('\t'),
        is_blank('\n'),
        is_blank('\r'),
        33 <= c as u32 <= 126 ==> !is_blank(c),
        i <= past_blanks(s, i) <= s.len(),
        i <= past_word(s, i) <= s.len(),
        past_blanks(s, i) < s.len() ==> !is_blank(s[past_blanks(s, i)]),
        past_word(s, i) < s.len() ==> is_blank(s[past_word(s, i)]),
        forall|k: int| i <= k < past_blanks(s, i) ==> is_blank(#[trigger] s[k]),
        forall|k: int| i <= k < past_word(s, i) ==> !is_blank(#[trigger] s[k]),
    decreases s.len() - i,
{
    if i < s.len() {
        law_words_are_parted_by_blanks(c, s, i + 1);
    }
}

} // verus!
