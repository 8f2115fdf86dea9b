//! Numbers as text: decimal and hexadecimal digits, and back.

use vstd::prelude::*;
use vstd::string::*;

verus! {

/// One more than the greatest `u64`.
pub open spec fn two64() -> int {
    0x1_0000_0000_0000_0000
}

/// The digit for a number below ten.
pub open spec fn digit(d: int) -> u8 {
    (48 + d) as u8
}

/// A number in decimal, without leading zeros.
pub open spec fn decimal(v: nat) -> Seq<u8>
    decreases v,
{
    if v < 10 {
        seq![digit(v as int)]
    } else {
        decimal(v / 10).push(digit((v % 10) as int))
    }
}

/// The digit for a number below sixteen.
pub open spec fn hex_digit(d: int) -> u8 {
    if d < 10 {
        (48 + d) as u8
    } else {
        (87 + d) as u8
    }
}

/// A number in hexadecimal, without leading zeros.
pub open spec fn hex(v: nat) -> Seq<u8>
    decreases v,
{
    if v < 16 {
        seq![hex_digit(v as int)]
    } else {
        hex(v / 16).push(hex_digit((v % 16) as int))
    }
}

/// The last `n` hexadecimal digits of a number.
pub open spec fn hex_pad(v: nat, n: nat) -> Seq<u8>
    decreases n,
{
    if n == 0 {
        Seq::empty()
    } else {
        hex_pad(v / 16, (n - 1) as nat).push(hex_digit((v % 16) as int))
    }
}

/// Append the digits that were collected from the last to the first.
fn put_reversed(out: &mut Vec<u8>, tmp: &Vec<u8>)
    ensures
        final(out)@ == old(out)@ + tmp@.reverse(),
{
    let mut n: usize = tmp.len();
    while n > 0
        invariant
            n <= tmp@.len(),
            out@ =~= old(out)@ + tmp@.reverse().take(tmp@.len() - n),
        decreases n,
    {
        n = n - 1;
        out.push(tmp[n]);
    }
    assert(tmp@.reverse().take(tmp@.len() as int) =~= tmp@.reverse());
}

/// Append some bytes.
pub fn put_bytes(out: &mut Vec<u8>, s: &[u8])
    ensures
        final(out)@ == old(out)@ + s@,
{
    let mut i: usize = 0;
    while i < s.len()
        invariant
            i <= s@.len(),
            out@ =~= old(out)@ + s@.take(i as int),
        decreases s@.len() - i,
    {
        out.push(s[i]);
        i = i + 1;
    }
    assert(s@.take(s@.len() as int) =~= s@);
}

/// Append a text.
pub fn put_str(out: &mut Vec<u8>, s: &str)
    ensures
        final(out)@ == old(out)@ + s.spec_bytes(),
{
    put_bytes(out, s.as_bytes());
}

/// Append a number in decimal.
pub fn put_u64(out: &mut Vec<u8>, v: u64)
    ensures
        final(out)@ == old(out)@ + decimal(v as nat),
{
    let mut tmp: Vec<u8> = Vec::new();
    let mut rest: u64 = v;
    while rest >= 10
        invariant
            decimal(v as nat) =~= decimal(rest as nat) + tmp@.reverse(),
        decreases rest,
    {
        let ghost tmp0 = tmp@;
        let ghost rest0 = rest;
        let d: u8 = (rest % 10) as u8;
        tmp.push(48 + d);
        rest = rest / 10;
        assert(tmp@.reverse() =~= seq![digit((rest0 % 10) as int)] + tmp0.reverse());
    }
    let ghost tmp0 = tmp@;
    tmp.push(48 + rest as u8);
    assert(tmp@.reverse() =~= seq![digit(rest as int)] + tmp0.reverse());
    put_reversed(out, &tmp);
}

fn nibble(d: u8) -> (c: u8)
    requires
        d < 16,
    ensures
        c == hex_digit(d as int),
{
    if d < 10 {
        48 + d
    } else {
        87 + d
    }
}

/// Append a number in hexadecimal, after `0x`.
pub fn put_hex(out: &mut Vec<u8>, v: u64)
    ensures
        final(out)@ == old(out)@ + seq![48u8, 120u8] + hex(v as nat),
{
    out.push(48);
    out.push(120);
    let ghost start = out@;
    let mut tmp: Vec<u8> = Vec::new();
    let mut rest: u64 = v;
    while rest >= 16
        invariant
            hex(v as nat) =~= hex(rest as nat) + tmp@.reverse(),
        decreases rest,
    {
        let ghost tmp0 = tmp@;
        let ghost rest0 = rest;
        let d: u8 = (rest % 16) as u8;
        tmp.push(nibble(d));
        rest = rest / 16;
        assert(tmp@.reverse() =~= seq![hex_digit((rest0 % 16) as int)] + tmp0.reverse());
    }
    let ghost tmp0 = tmp@;
    tmp.push(nibble(rest as u8));
    assert(tmp@.reverse() =~= seq![hex_digit(rest as int)] + tmp0.reverse());
    put_reversed(out, &tmp);
    assert(start =~= old(out)@ + seq![48u8, 120u8]);
}

/// Append the last `nibbles` hexadecimal digits of a number, after `0x`.
pub fn put_hex_pad(out: &mut Vec<u8>, v: u64, nibbles: usize)
    requires
        nibbles <= 16,
    ensures
        final(out)@ == old(out)@ + seq![48u8, 120u8] + hex_pad(v as nat, nibbles as nat),
{
    out.push(48);
    out.push(120);
    let ghost start = out@;
    let mut tmp: Vec<u8> = Vec::new();
    let mut rest: u64 = v;
    let mut i: usize = 0;
    while i < nibbles
        invariant
            i <= nibbles,
            hex_pad(v as nat, nibbles as nat) =~= hex_pad(rest as nat, (nibbles - i) as nat)
                + tmp@.reverse(),
        decreases nibbles - i,
    {
        let ghost tmp0 = tmp@;
        let ghost rest0 = rest;
        let d: u8 = (rest % 16) as u8;
        tmp.push(nibble(d));
        rest = rest / 16;
        i = i + 1;
        assert(tmp@.reverse() =~= seq![hex_digit((rest0 % 16) as int)] + tmp0.reverse());
    }
    put_reversed(out, &tmp);
    assert(start =~= old(out)@ + seq![48u8, 120u8]);
}

/// Whether a byte is a decimal digit.
pub open spec fn is_digit(c: u8) -> bool {
    48 <= c <= 57
}

/// How many digits a text begins with, from `i` on.
pub open spec fn digits_from(s: Seq<u8>, i: int) -> int
    decreases s.len() - i,
{
    if i < 0 || i >= s.len() || !is_digit(s[i]) {
        i
    } else {
        digits_from(s, i + 1)
    }
}

/// The value of the first `n` digits of a text.
pub open spec fn value_of(s: Seq<u8>, n: int) -> nat
    decreases n,
{
    if n <= 0 {
        0
    } else {
        value_of(s, n - 1) * 10 + (s[n - 1] - 48) as nat
    }
}

/// The number that a text begins with, zero if it begins with no digit. A number that
/// does not fit wraps.
pub fn parse_u64(s: &[u8]) -> (v: u64)
    ensures
        v == value_of(s@, digits_from(s@, 0)) % (two64() as nat),
{
    let mut v: u64 = 0;
    let mut i: usize = 0;
    proof {
        vstd::arithmetic::div_mod::lemma_small_mod(0, two64() as nat);
    }
    while i < s.len() && 48 <= s[i] && s[i] <= 57
        invariant
            i <= s@.len(),
            v == value_of(s@, i as int) % (two64() as nat),
            digits_from(s@, 0) == digits_from(s@, i as int),
        decreases s@.len() - i,
    {
        let d: u64 = (s[i] - 48) as u64;
        proof {
            let m = two64();
            let w = value_of(s@, i as int) as int;
            vstd::arithmetic::div_mod::lemma_mul_mod_noop_left(w, 10, m);
            vstd::arithmetic::div_mod::lemma_add_mod_noop(v * 10, d as int, m);
            vstd::arithmetic::div_mod::lemma_add_mod_noop(w * 10, d as int, m);
            vstd::arithmetic::div_mod::lemma_small_mod(d as nat, m as nat);
            assert(value_of(s@, i + 1) == w * 10 + d);
        }
        v = v.wrapping_mul(10).wrapping_add(d);
        i = i + 1;
    }
    v
}

/// Where the digits that a text begins with end, and the spaces after them.
pub fn after_num(s: &[u8]) -> (i: usize)
    ensures
        i <= s@.len(),
        i == spaces_from(s@, digits_from(s@, 0)),
{
    let mut i: usize = 0;
    while i < s.len() && 48 <= s[i] && s[i] <= 57
        invariant
            i <= s@.len(),
            digits_from(s@, 0) == digits_from(s@, i as int),
        decreases s@.len() - i,
    {
        i = i + 1;
    }
    let ghost end = i as int;
    while i < s.len() && s[i] == 32
        invariant
            i <= s@.len(),
            spaces_from(s@, end) == spaces_from(s@, i as int),
        decreases s@.len() - i,
    {
        i = i + 1;
    }
    i
}

/// Where the spaces that stand at `i` end.
pub open spec fn spaces_from(s: Seq<u8>, i: int) -> int
    decreases s.len() - i,
{
    if i < 0 || i >= s.len() || s[i] != 32 {
        i
    } else {
        spaces_from(s, i + 1)
    }
}

pub proof fn lemma_decimal_digits(v: nat)
    ensures
        decimal(v).len() >= 1,
        forall|i: int| 0 <= i < decimal(v).len() ==> is_digit(#[trigger] decimal(v)[i]),
    decreases v,
{
    if v >= 10 {
        lemma_decimal_digits(v / 10);
    }
}

proof fn lemma_value_of_prefix(a: Seq<u8>, b: Seq<u8>, n: int)
    requires
        n <= a.len(),
        n <= b.len(),
        forall|i: int| 0 <= i < n ==> a[i] == b[i],
    ensures
        value_of(a, n) == value_of(b, n),
    decreases n,
{
    if n > 0 {
        lemma_value_of_prefix(a, b, n - 1);
    }
}

proof fn lemma_decimal_value(v: nat)
    ensures
        value_of(decimal(v), decimal(v).len() as int) == v,
    decreases v,
{
    if v < 10 {
        reveal_with_fuel(value_of, 2);
    } else {
        lemma_decimal_value(v / 10);
        let d = decimal(v / 10);
        lemma_value_of_prefix(decimal(v), d, d.len() as int);
        vstd::arithmetic::div_mod::lemma_fundamental_div_mod(v as int, 10);
    }
}

pub proof fn lemma_digits_run(s: Seq<u8>, i: int, n: int)
    requires
        0 <= i <= n <= s.len(),
        forall|j: int| i <= j < n ==> is_digit(#[trigger] s[j]),
        n == s.len() || !is_digit(s[n]),
    ensures
        digits_from(s, i) == n,
    decreases n - i,
{
    if i < n {
        lemma_digits_run(s, i + 1, n);
    }
}

/// Reading back a number that was written in decimal gives the number, whatever text
/// follows it, if that does not begin with a digit.
pub proof fn law_decimal_reads_back(v: u64, rest: Seq<u8>)
    requires
        rest.len() == 0 || !is_digit(rest[0]),
    ensures
        ({
            let s = decimal(v as nat) + rest;
            value_of(s, digits_from(s, 0)) % (two64() as nat) == v
        }),
{
    let d = decimal(v as nat);
    let s = d + rest;
    lemma_decimal_digits(v as nat);
    assert forall|j: int| 0 <= j < d.len() implies is_digit(#[trigger] s[j]) by {
        assert(s[j] == d[j]);
    }
    lemma_digits_run(s, 0, d.len() as int);
    lemma_decimal_value(v as nat);
    lemma_value_of_prefix(s, d, d.len() as int);
    vstd::arithmetic::div_mod::lemma_small_mod(v as nat, two64() as nat);
}

/// The number that a hexadecimal digit stands for.
pub open spec fn hex_digit_value(c: u8) -> int {
    if 48 <= c <= 57 {
        c - 48
    } else {
        c - 87
    }
}

/// The number that the first `n` hexadecimal digits of a text stand for.
pub open spec fn hex_value(s: Seq<u8>, n: int) -> int
    decreases n,
{
    if n <= 0 {
        0
    } else {
        hex_value(s, n - 1) * 16 + hex_digit_value(s[n - 1])
    }
}

proof fn lemma_hex_value_prefix(a: Seq<u8>, b: Seq<u8>, n: int)
    requires
        0 <= n <= a.len(),
        n <= b.len(),
        forall|i: int| 0 <= i < n ==> #[trigger] a[i] == b[i],
    ensures
        hex_value(a, n) == hex_value(b, n),
    decreases n,
{
    if n > 0 {
        lemma_hex_value_prefix(a, b, n - 1);
        assert(a[n - 1] == b[n - 1]);
    }
}

/// A number that was written in hexadecimal reads back: sixteen for each place, with the
/// digits 0 to 9 and a to f, and no zero before it.
pub proof fn law_hex_reads_back(v: nat)
    ensures
        hex_value(hex(v), hex(v).len() as int) == v,
        hex(v).len() >= 1,
        v > 0 ==> hex(v)[0] != 48,
    decreases v,
{
    if v >= 16 {
        law_hex_reads_back(v / 16);
        let s = hex(v);
        let p = hex(v / 16);
        assert(s =~= p.push(hex_digit((v % 16) as int)));
        lemma_hex_value_prefix(s, p, p.len() as int);
        assert(s[0] == p[0]);
        assert(v == v / 16 * 16 + v % 16);
    } else {
        reveal_with_fuel(hex_value, 2);
        assert(hex(v)[0] == hex_digit(v as int));
    }
}

/// A number that was written in a fixed number of hexadecimal digits has that many, and
/// reads back where it fits in them.
pub proof fn law_padded_hex_reads_back(v: nat, n: nat, bound: nat)
    requires
        v < bound,
        bound == pow16(n),
    ensures
        hex_pad(v, n).len() == n,
        hex_value(hex_pad(v, n), n as int) == v,
    decreases n,
{
    if n > 0 {
        let b = pow16((n - 1) as nat);
        assert(v / 16 < b);
        law_padded_hex_reads_back(v / 16, (n - 1) as nat, b);
        let s = hex_pad(v, n);
        let p = hex_pad(v / 16, (n - 1) as nat);
        lemma_hex_value_prefix(s, p, p.len() as int);
        assert(v == v / 16 * 16 + v % 16);
    }
}

/// What sixteen comes to, taken `n` times.
pub open spec fn pow16(n: nat) -> nat
    decreases n,
{
    if n == 0 {
        1
    } else {
        16 * pow16((n - 1) as nat)
    }
}

} // verus!
