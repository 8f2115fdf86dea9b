//! Numbers as bytes, the lowest first.

use vstd::prelude::*;

verus! {

/// The number whose `n` bytes stand at `i`, the lowest first.
pub open spec fn le(s: Seq<u8>, i: int, n: nat) -> int
    decreases n,
{
    if n == 0 {
        0
    } else {
        s[i] + 256 * le(s, i + 1, (n - 1) as nat)
    }
}

/// The lowest `n` bytes of a number.
pub open spec fn le_bytes(v: int, n: nat) -> Seq<u8>
    decreases n,
{
    if n == 0 {
        Seq::empty()
    } else {
        seq![(v % 256) as u8] + le_bytes(v / 256, (n - 1) as nat)
    }
}

/// What `256` is multiplied by `n` times.
pub open spec fn pow256(n: nat) -> int
    decreases n,
{
    if n == 0 {
        1
    } else {
        256 * pow256((n - 1) as nat)
    }
}

/// Bytes and numbers are the same thing: a number that fits is read back from its bytes.
pub proof fn law_bytes_read_back(v: int, n: nat)
    requires
        0 <= v < pow256(n),
    ensures
        le_bytes(v, n).len() == n,
        le(le_bytes(v, n), 0, n) == v,
    decreases n,
{
    if n > 0 {
        let m = (n - 1) as nat;
        law_bytes_read_back(v / 256, m);
        let rest = le_bytes(v / 256, m);
        let s = le_bytes(v, n);
        assert(s.subrange(1, 1 + m as int) =~= rest.subrange(0, m as int));
        lemma_le_shift(s, rest, 1, 0, m);
    }
}

/// The number does not depend on where the bytes stand.
pub proof fn lemma_le_shift(a: Seq<u8>, b: Seq<u8>, i: int, j: int, n: nat)
    requires
        0 <= i,
        0 <= j,
        i + n <= a.len(),
        j + n <= b.len(),
        a.subrange(i, i + n) == b.subrange(j, j + n),
    ensures
        le(a, i, n) == le(b, j, n),
    decreases n,
{
    if n > 0 {
        assert(a[i] == a.subrange(i, i + n)[0]);
        assert(b[j] == b.subrange(j, j + n)[0]);
        assert(a.subrange(i + 1, i + n) =~= a.subrange(i, i + n).skip(1));
        assert(b.subrange(j + 1, j + n) =~= b.subrange(j, j + n).skip(1));
        lemma_le_shift(a, b, i + 1, j + 1, (n - 1) as nat);
    }
}

/// Read four bytes.
pub fn read_u32(s: &[u8], i: usize) -> (v: u32)
    requires
        i + 4 <= s@.len(),
    ensures
        v == le(s@, i as int, 4),
{
    proof {
        reveal_with_fuel(le, 5);
    }
    s[i] as u32 + 256 * (s[i + 1] as u32) + 65536 * (s[i + 2] as u32) + 16777216 * (s[i
        + 3] as u32)
}

/// Read eight bytes.
pub fn read_u64(s: &[u8], i: usize) -> (v: u64)
    requires
        i + 8 <= s@.len(),
    ensures
        v == le(s@, i as int, 8),
{
    assert(i + 8 <= s.len());
    let lo: u32 = read_u32(s, i);
    let hi: u32 = read_u32(s, i + 4);
    proof {
        reveal_with_fuel(le, 9);
    }
    lo as u64 + 0x1_0000_0000 * (hi as u64)
}

/// Append the four bytes of a number.
pub fn put_u32(out: &mut Vec<u8>, v: u32)
    ensures
        final(out)@ == old(out)@ + le_bytes(v as int, 4),
{
    out.push((v % 256) as u8);
    out.push((v / 256 % 256) as u8);
    out.push((v / 65536 % 256) as u8);
    out.push((v / 16777216) as u8);
    proof {
        reveal_with_fuel(le_bytes, 5);
        assert(v / 65536 == v / 256 / 256);
        assert(v / 16777216 == v / 65536 / 256);
        assert(out@ =~= old(out)@ + le_bytes(v as int, 4));
    }
}

/// Append the eight bytes of a number.
pub fn put_u64(out: &mut Vec<u8>, v: u64)
    ensures
        final(out)@ == old(out)@ + le_bytes(v as int, 8),
{
    let mut rest: u64 = v;
    let mut i: usize = 0;
    while i < 8
        invariant
            i <= 8,
            out@ + le_bytes(rest as int, (8 - i) as nat) =~= old(out)@ + le_bytes(v as int, 8),
        decreases 8 - i,
    {
        let ghost before = out@;
        let ghost n = (8 - i) as nat;
        out.push((rest % 256) as u8);
        proof {
            assert(le_bytes(rest as int, n) =~= seq![(rest % 256) as u8] + le_bytes(
                rest as int / 256,
                (n - 1) as nat,
            ));
            assert(before + le_bytes(rest as int, n) =~= out@ + le_bytes(
                rest as int / 256,
                (n - 1) as nat,
            ));
        }
        rest = rest / 256;
        i = i + 1;
    }
}

/// The bytes from `i` on up to the first zero.
pub open spec fn until_zero(s: Seq<u8>, i: int) -> Seq<u8>
    decreases s.len() - i,
{
    if i < 0 || i >= s.len() || s[i] == 0 {
        Seq::empty()
    } else {
        seq![s[i]] + until_zero(s, i + 1)
    }
}

/// Read the bytes from `i` on up to the first zero.
pub fn read_until_zero(s: &[u8], i: usize) -> (v: Vec<u8>)
    ensures
        v@ == until_zero(s@, i as int),
{
    let mut v: Vec<u8> = Vec::new();
    let mut j: usize = i;
    while j < s.len() && s[j] != 0
        invariant
            i <= j,
            until_zero(s@, i as int) =~= v@ + until_zero(s@, j as int),
        decreases s@.len() - j,
    {
        let ghost before = v@;
        v.push(s[j]);
        proof {
            assert(until_zero(s@, j as int) =~= seq![s@[j as int]] + until_zero(s@, j + 1));
            assert(before + until_zero(s@, j as int) =~= v@ + until_zero(s@, j + 1));
        }
        j = j + 1;
    }
    assert(until_zero(s@, j as int) =~= Seq::empty());
    v
}

/// Whether two texts are the same.
pub fn same(a: &[u8], b: &[u8]) -> (r: bool)
    ensures
        r == (a@ == b@),
{
    if a.len() != b.len() {
        return false;
    }
    let mut i: usize = 0;
    while i < a.len()
        invariant
            i <= a@.len(),
            a@.len() == b@.len(),
            forall|j: int| 0 <= j < i ==> a@[j] == b@[j],
        decreases a@.len() - i,
    {
        if a[i] != b[i] {
            return false;
        }
        i = i + 1;
    }
    assert(a@ =~= b@);
    true
}

/// A copy of a text.
pub fn copied(s: &[u8]) -> (v: Vec<u8>)
    ensures
        v@ == s@,
{
    let mut v: Vec<u8> = Vec::new();
    let mut i: usize = 0;
    while i < s.len()
        invariant
            i <= s@.len(),
            v@ =~= s@.take(i as int),
        decreases s@.len() - i,
    {
        v.push(s[i]);
        i = i + 1;
    }
    assert(s@.take(s@.len() as int) =~= s@);
    v
}

/// A text that holds no zero is read back from one that ends in a zero.
pub proof fn law_text_reads_back(s: Seq<u8>, rest: Seq<u8>, i: int)
    requires
        0 <= i <= s.len(),
        forall|j: int| 0 <= j < s.len() ==> #[trigger] s[j] != 0,
    ensures
        until_zero(s.push(0) + rest, i) == s.skip(i),
    decreases s.len() - i,
{
    let t = s.push(0) + rest;
    if i < s.len() {
        assert(t[i] == s[i]);
        law_text_reads_back(s, rest, i + 1);
        assert(s.skip(i) =~= seq![s[i]] + s.skip(i + 1));
    } else {
        assert(t[i] == 0);
        assert(s.skip(i) =~= Seq::empty());
    }
}

} // verus!
