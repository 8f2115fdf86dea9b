//! Randomness as a library call: a ChaCha20 generator that lives in the cell and
//! replaces its key every time it has run out of output.

use vstd::prelude::*;
use crate::bytes;

verus! {

/// Bytes of output between two keys.
pub const OUT: usize = 256;

/// Bytes of the stream that one key gives: the next key and the output, in whole blocks.
pub const KS_BYTES: usize = 320;

/// The sum, on numbers that wrap.
pub open spec fn plus(a: u32, b: u32) -> u32 {
    ((a + b) % 0x1_0000_0000) as u32
}

/// The bits moved to the left by `n`, those that fall off put back at the right.
pub open spec fn rotl(x: u32, n: u32) -> u32 {
    (x << n) | (x >> ((32 - n) as u32))
}

fn rotate(x: u32, n: u32) -> (r: u32)
    requires
        0 < n < 32,
    ensures
        r == rotl(x, n),
{
    (x << n) | (x >> (32 - n))
}

fn add32(a: u32, b: u32) -> (r: u32)
    ensures
        r == plus(a, b),
{
    a.wrapping_add(b)
}

/// Four words, stirred.
pub open spec fn stirred(a: u32, b: u32, c: u32, d: u32) -> (u32, u32, u32, u32) {
    let a1 = plus(a, b);
    let d1 = rotl(d ^ a1, 16);
    let c1 = plus(c, d1);
    let b1 = rotl(b ^ c1, 12);
    let a2 = plus(a1, b1);
    let d2 = rotl(d1 ^ a2, 8);
    let c2 = plus(c1, d2);
    let b2 = rotl(b1 ^ c2, 7);
    (a2, b2, c2, d2)
}

fn stir(a: u32, b: u32, c: u32, d: u32) -> (r: (u32, u32, u32, u32))
    ensures
        r == stirred(a, b, c, d),
{
    let a1: u32 = add32(a, b);
    let d1: u32 = rotate(d ^ a1, 16);
    let c1: u32 = add32(c, d1);
    let b1: u32 = rotate(b ^ c1, 12);
    let a2: u32 = add32(a1, b1);
    let d2: u32 = rotate(d1 ^ a2, 8);
    let c2: u32 = add32(c1, d2);
    let b2: u32 = rotate(b1 ^ c2, 7);
    (a2, b2, c2, d2)
}

/// The state with four of its words stirred.
pub open spec fn quarter_round(s: Seq<u32>, a: int, b: int, c: int, d: int) -> Seq<u32> {
    let r = stirred(s[a], s[b], s[c], s[d]);
    s.update(a, r.0).update(b, r.1).update(c, r.2).update(d, r.3)
}

fn quarter(s: &mut Vec<u32>, a: usize, b: usize, c: usize, d: usize)
    requires
        old(s)@.len() == 16,
        a < 16,
        b < 16,
        c < 16,
        d < 16,
    ensures
        final(s)@.len() == 16,
        final(s)@ == quarter_round(old(s)@, a as int, b as int, c as int, d as int),
{
    let r: (u32, u32, u32, u32) = stir(s[a], s[b], s[c], s[d]);
    s[a] = r.0;
    s[b] = r.1;
    s[c] = r.2;
    s[d] = r.3;
}

/// Two rounds: the four columns of the state, and then its four diagonals.
pub open spec fn double_round(s: Seq<u32>) -> Seq<u32> {
    let s = quarter_round(s, 0, 4, 8, 12);
    let s = quarter_round(s, 1, 5, 9, 13);
    let s = quarter_round(s, 2, 6, 10, 14);
    let s = quarter_round(s, 3, 7, 11, 15);
    let s = quarter_round(s, 0, 5, 10, 15);
    let s = quarter_round(s, 1, 6, 11, 12);
    let s = quarter_round(s, 2, 7, 8, 13);
    quarter_round(s, 3, 4, 9, 14)
}

/// `2 * n` rounds.
pub open spec fn rounds(s: Seq<u32>, n: nat) -> Seq<u32>
    decreases n,
{
    if n == 0 {
        s
    } else {
        double_round(rounds(s, (n - 1) as nat))
    }
}

/// The state that a block starts from: four constants, the key, the counter, the nonce.
pub open spec fn first_state(key: Seq<u8>, counter: u32, nonce: Seq<u8>) -> Seq<u32> {
    Seq::new(
        16,
        |i: int|
            if i == 0 {
                0x6170_7865
            } else if i == 1 {
                0x3320_646e
            } else if i == 2 {
                0x7962_2d32
            } else if i == 3 {
                0x6b20_6574
            } else if i < 12 {
                bytes::le(key, 4 * (i - 4), 4) as u32
            } else if i == 12 {
                counter
            } else {
                bytes::le(nonce, 4 * (i - 13), 4) as u32
            },
    )
}

/// The bytes of the first `n` words of the sum of two states.
pub open spec fn sum_bytes(a: Seq<u32>, b: Seq<u32>, n: nat) -> Seq<u8>
    decreases n,
{
    if n == 0 {
        Seq::empty()
    } else {
        sum_bytes(a, b, (n - 1) as nat) + bytes::le_bytes(plus(a[n - 1], b[n - 1]) as int, 4)
    }
}

/// A block of the stream: twenty rounds, added to the state they started from.
pub open spec fn block_of(key: Seq<u8>, counter: u32, nonce: Seq<u8>) -> Seq<u8> {
    let s = first_state(key, counter, nonce);
    sum_bytes(rounds(s, 10), s, 16)
}

proof fn lemma_block_len(a: Seq<u32>, b: Seq<u32>, n: nat)
    ensures
        sum_bytes(a, b, n).len() == 4 * n,
    decreases n,
{
    if n > 0 {
        lemma_block_len(a, b, (n - 1) as nat);
        reveal_with_fuel(bytes::le_bytes, 5);
    }
}

/// Compute the block of the stream for a key, a counter and a nonce.
pub fn block(key: &[u8; 32], counter: u32, nonce: &[u8; 12]) -> (out: Vec<u8>)
    ensures
        out@ == block_of(key@, counter, nonce@),
        out@.len() == 64,
{
    let mut s: Vec<u32> = Vec::new();
    s.push(0x6170_7865);
    s.push(0x3320_646e);
    s.push(0x7962_2d32);
    s.push(0x6b20_6574);
    let mut i: usize = 0;
    while i < 8
        invariant
            i <= 8,
            s@.len() == 4 + i,
            forall|j: int|
                0 <= j < s@.len() ==> #[trigger] s@[j] == first_state(key@, counter, nonce@)[j],
        decreases 8 - i,
    {
        s.push(bytes::read_u32(key.as_slice(), 4 * i));
        i = i + 1;
    }
    s.push(counter);
    let mut j: usize = 0;
    while j < 3
        invariant
            j <= 3,
            s@.len() == 13 + j,
            forall|k: int|
                0 <= k < s@.len() ==> #[trigger] s@[k] == first_state(key@, counter, nonce@)[k],
        decreases 3 - j,
    {
        s.push(bytes::read_u32(nonce.as_slice(), 4 * j));
        j = j + 1;
    }
    let ghost s0 = first_state(key@, counter, nonce@);
    assert(s@ =~= s0);
    let start: Vec<u32> = s.clone();
    assert(start@ =~= s0);
    let mut r: usize = 0;
    while r < 10
        invariant
            r <= 10,
            s@.len() == 16,
            s@ == rounds(s0, r as nat),
        decreases 10 - r,
    {
        quarter(&mut s, 0, 4, 8, 12);
        quarter(&mut s, 1, 5, 9, 13);
        quarter(&mut s, 2, 6, 10, 14);
        quarter(&mut s, 3, 7, 11, 15);
        quarter(&mut s, 0, 5, 10, 15);
        quarter(&mut s, 1, 6, 11, 12);
        quarter(&mut s, 2, 7, 8, 13);
        quarter(&mut s, 3, 4, 9, 14);
        r = r + 1;
    }
    let mut out: Vec<u8> = Vec::new();
    let mut w: usize = 0;
    while w < 16
        invariant
            w <= 16,
            s@.len() == 16,
            start@.len() == 16,
            out@ =~= sum_bytes(s@, start@, w as nat),
        decreases 16 - w,
    {
        bytes::put_u32(&mut out, s[w].wrapping_add(start[w]));
        w = w + 1;
    }
    proof {
        lemma_block_len(s@, start@, 16);
    }
    out
}

/// A generator: its key, the output that is left of it, and where that begins.
pub struct Drbg {
    pub key: [u8; 32],
    pub buf: [u8; 256],
    pub pos: usize,
}

/// What matters of a generator.
#[verifier::ext_equal]
pub struct DrbgState {
    pub key: Seq<u8>,
    pub buf: Seq<u8>,
    pub pos: int,
}

impl View for Drbg {
    type V = DrbgState;

    open spec fn view(&self) -> DrbgState {
        DrbgState { key: self.key@, buf: self.buf@, pos: self.pos as int }
    }
}

/// The first `n` blocks of the stream of a key.
pub open spec fn stream(key: Seq<u8>, n: nat) -> Seq<u8>
    decreases n,
{
    if n == 0 {
        Seq::empty()
    } else {
        stream(key, (n - 1) as nat) + block_of(key, (n - 1) as u32, Seq::new(12, |i: int| 0u8))
    }
}

/// A generator that has replaced its key: the first bytes of the stream are the new
/// key, those after it the output.
pub open spec fn refilled(key: Seq<u8>) -> DrbgState {
    let ks = stream(key, 5);
    DrbgState { key: ks.subrange(0, 32), buf: ks.subrange(32, 288), pos: 0 }
}

/// The generator when it is next asked for a byte.
pub open spec fn ready(s: DrbgState) -> DrbgState {
    if s.pos == OUT {
        refilled(s.key)
    } else {
        s
    }
}

/// The generator after `n` bytes.
pub open spec fn drawn(s: DrbgState, n: nat) -> DrbgState
    decreases n,
{
    if n == 0 {
        s
    } else {
        let r = ready(drawn(s, (n - 1) as nat));
        DrbgState { pos: r.pos + 1, ..r }
    }
}

/// The byte that a generator gives next.
pub open spec fn next_byte(s: DrbgState) -> u8 {
    let r = ready(s);
    r.buf[r.pos]
}

/// The next `n` bytes of a generator.
pub open spec fn output(s: DrbgState, n: nat) -> Seq<u8> {
    Seq::new(n, |i: int| next_byte(drawn(s, i as nat)))
}

impl Drbg {
    pub open spec fn wf(&self) -> bool {
        self.pos <= OUT
    }

    /// A generator with a key of its own and no output left.
    pub fn from_key(key: [u8; 32]) -> (d: Drbg)
        ensures
            d.wf(),
            d@.key == key@,
            d@.pos == OUT,
    {
        Drbg { key, buf: [0u8; 256], pos: OUT }
    }

    /// Replace the key and fill the output.
    fn refill(&mut self)
        ensures
            final(self).wf(),
            final(self)@ == refilled(old(self)@.key),
            forall|j: int|
                0 <= j < 32 ==> #[trigger] final(self).key@[j] == block_of(
                    old(self).key@,
                    0,
                    seq![0u8, 0, 0, 0, 0, 0, 0, 0, 0, 0, 0, 0],
                )[j],
            forall|j: int|
                0 <= j < 256 ==> #[trigger] final(self).buf@[j] == block_of(
                    old(self).key@,
                    ((32 + j) / 64) as u32,
                    seq![0u8, 0, 0, 0, 0, 0, 0, 0, 0, 0, 0, 0],
                )[(32 + j) % 64],
    {
        let nonce: [u8; 12] = [0u8; 12];
        let mut ks: Vec<u8> = Vec::new();
        let mut ctr: u32 = 0;
        while ctr < 5
            invariant
                *self == *old(self),
                ctr <= 5,
                nonce@ =~= Seq::new(12, |i: int| 0u8),
                ks@.len() == 64 * ctr,
                ks@ =~= stream(self.key@, ctr as nat),
            decreases 5 - ctr,
        {
            let mut blk: Vec<u8> = block(&self.key, ctr, &nonce);
            ks.append(&mut blk);
            ctr = ctr + 1;
        }
        let mut i: usize = 0;
        while i < 32
            invariant
                i <= 32,
                ks@.len() == 320,
                self.buf == old(self).buf,
                forall|j: int| 0 <= j < i ==> #[trigger] self.key@[j] == ks@[j],
            decreases 32 - i,
        {
            self.key[i] = ks[i];
            i = i + 1;
        }
        let mut k: usize = 0;
        while k < OUT
            invariant
                k <= OUT,
                ks@.len() == 320,
                forall|j: int| 0 <= j < 32 ==> #[trigger] self.key@[j] == ks@[j],
                forall|j: int| 0 <= j < k ==> #[trigger] self.buf@[j] == ks@[32 + j],
            decreases OUT - k,
        {
            self.buf[k] = ks[32 + k];
            k = k + 1;
        }
        self.pos = 0;
        assert(self.key@ =~= ks@.subrange(0, 32));
        assert(self.buf@ =~= ks@.subrange(32, 288));
        proof {
            assert forall|j: int| 0 <= j < 32 implies #[trigger] self.key@[j] == block_of(
                old(self).key@,
                0,
                seq![0u8, 0, 0, 0, 0, 0, 0, 0, 0, 0, 0, 0],
            )[j] by {
                law_refill_counts_its_blocks(old(self).key@, j);
            }
            assert forall|j: int| 0 <= j < 256 implies #[trigger] self.buf@[j] == block_of(
                old(self).key@,
                ((32 + j) / 64) as u32,
                seq![0u8, 0, 0, 0, 0, 0, 0, 0, 0, 0, 0, 0],
            )[(32 + j) % 64] by {
                law_refill_counts_its_blocks(old(self).key@, j);
            }
        }
    }

    /// Fill a buffer with random bytes.
    pub fn fill_bytes(&mut self, dst: &mut Vec<u8>)
        requires
            old(self).wf(),
        ensures
            final(self).wf(),
            final(dst)@ == output(old(self)@, old(dst)@.len()),
            final(self)@ == drawn(old(self)@, old(dst)@.len()),
    {
        let n: usize = dst.len();
        let mut i: usize = 0;
        while i < n
            invariant
                self.wf(),
                i <= n,
                dst@.len() == n,
                n == old(dst)@.len(),
                self@ == drawn(old(self)@, i as nat),
                forall|j: int|
                    0 <= j < i ==> #[trigger] dst@[j] == next_byte(drawn(old(self)@, j as nat)),
            decreases n - i,
        {
            let ghost before = self@;
            if self.pos == OUT {
                self.refill();
            }
            assert(self@ == ready(before));
            dst[i] = self.buf[self.pos];
            self.pos = self.pos + 1;
            assert(self@ =~= drawn(old(self)@, (i + 1) as nat));
            i = i + 1;
        }
        assert(dst@ =~= output(old(self)@, n as nat));
    }
}

/// The bytes of four words.
pub open spec fn seed_bytes(words: Seq<u64>, n: nat) -> Seq<u8>
    decreases n,
{
    if n == 0 {
        Seq::empty()
    } else {
        seed_bytes(words, (n - 1) as nat) + bytes::le_bytes(words[n - 1] as int, 8)
    }
}

/// A generator with four words of the kernel's randomness as its key.
pub fn init(words: [u64; 4]) -> (d: Drbg)
    ensures
        d.wf(),
        d@.key == seed_bytes(words@, 4),
        d@.pos == OUT,
{
    let mut seed: Vec<u8> = Vec::new();
    let mut i: usize = 0;
    while i < 4
        invariant
            i <= 4,
            seed@.len() == 8 * i,
            seed@ =~= seed_bytes(words@, i as nat),
        decreases 4 - i,
    {
        bytes::put_u64(&mut seed, words[i]);
        proof {
            reveal_with_fuel(bytes::le_bytes, 9);
        }
        i = i + 1;
    }
    let mut key: [u8; 32] = [0u8; 32];
    let mut j: usize = 0;
    while j < 32
        invariant
            j <= 32,
            seed@.len() == 32,
            forall|k: int| 0 <= k < j ==> #[trigger] key@[k] == seed@[k],
        decreases 32 - j,
    {
        key[j] = seed[j];
        j = j + 1;
    }
    assert(key@ =~= seed@);
    Drbg::from_key(key)
}

/// Fill a buffer with random bytes.
pub fn fill_bytes(d: &mut Drbg, dst: &mut Vec<u8>)
    requires
        old(d).wf(),
    ensures
        final(d).wf(),
        final(dst)@ == output(old(d)@, old(dst)@.len()),
        final(d)@ == drawn(old(d)@, old(dst)@.len()),
{
    d.fill_bytes(dst);
}

/// Eight random bytes, as a number.
pub fn next_u64(d: &mut Drbg) -> (v: u64)
    requires
        old(d).wf(),
    ensures
        final(d).wf(),
        v == bytes::le(output(old(d)@, 8), 0, 8),
        final(d)@ == drawn(old(d)@, 8),
{
    let mut b: Vec<u8> = vec![0u8; 8];
    d.fill_bytes(&mut b);
    bytes::read_u64(b.as_slice(), 0)
}

proof fn lemma_drawn_twice(s: DrbgState, n: nat, m: nat)
    ensures
        drawn(drawn(s, n), m) == drawn(s, n + m),
    decreases m,
{
    if m > 0 {
        lemma_drawn_twice(s, n, (m - 1) as nat);
    }
}

/// A generator gives one stream, however it is asked: what two draws give, one after
/// the other, is what one draw of both lengths gives.
pub proof fn law_draws_join(s: DrbgState, n: nat, m: nat)
    ensures
        output(s, n) + output(drawn(s, n), m) == output(s, n + m),
        drawn(drawn(s, n), m) == drawn(s, n + m),
{
    lemma_drawn_twice(s, n, m);
    assert forall|i: int| 0 <= i < m implies next_byte(#[trigger] drawn(drawn(s, n), i as nat)) == next_byte(
        drawn(s, (n + i) as nat),
    ) by {
        lemma_drawn_twice(s, n, i as nat);
    }
    assert(output(s, n) + output(drawn(s, n), m) =~= output(s, n + m));
}

/// The bytes of a word, as a block holds them: byte `j` of the block is byte `j % 4`, the
/// least first, of the sum of word `j / 4` before and after the rounds.
proof fn lemma_sum_byte(a: Seq<u32>, b: Seq<u32>, n: nat, w: int)
    requires
        0 <= w < n,
    ensures
        sum_bytes(a, b, n).len() == 4 * n,
        sum_bytes(a, b, n).subrange(4 * w, 4 * w + 4) == bytes::le_bytes(plus(a[w], b[w]) as int, 4),
    decreases n,
{
    lemma_block_len(a, b, n);
    lemma_block_len(a, b, (n - 1) as nat);
    let last = bytes::le_bytes(plus(a[n - 1], b[n - 1]) as int, 4);
    assert(last.len() == 4) by {
        reveal_with_fuel(bytes::pow256, 5);
        bytes::law_bytes_read_back(plus(a[n - 1], b[n - 1]) as int, 4);
    }
    if w < n - 1 {
        lemma_sum_byte(a, b, (n - 1) as nat, w);
        assert(sum_bytes(a, b, n).subrange(4 * w, 4 * w + 4) =~= sum_bytes(a, b, (n - 1) as nat).subrange(
            4 * w,
            4 * w + 4,
        ));
    } else {
        assert(sum_bytes(a, b, n).subrange(4 * w, 4 * w + 4) =~= last);
    }
}

proof fn lemma_stream_byte(key: Seq<u8>, n: nat, j: int)
    requires
        n <= 5,
        0 <= j < 64 * n,
    ensures
        stream(key, n).len() == 64 * n,
        stream(key, n)[j] == block_of(key, (j / 64) as u32, Seq::new(12, |i: int| 0u8))[j % 64],
    decreases n,
{
    let zero = Seq::new(12, |i: int| 0u8);
    let s = first_state(key, (n - 1) as u32, zero);
    lemma_block_len(rounds(s, 10), s, 16);
    lemma_stream_len(key, (n - 1) as nat);
    if j < 64 * (n - 1) {
        lemma_stream_byte(key, (n - 1) as nat, j);
    } else {
        assert(j / 64 == n - 1);
    }
}

proof fn lemma_stream_len(key: Seq<u8>, n: nat)
    ensures
        stream(key, n).len() == 64 * n,
    decreases n,
{
    if n > 0 {
        let s = first_state(key, (n - 1) as u32, Seq::new(12, |i: int| 0u8));
        lemma_block_len(rounds(s, 10), s, 16);
        lemma_stream_len(key, (n - 1) as nat);
    }
}

/// A refill is one run of the cipher under the old key and a nonce of zeros: the new key
/// is the first 32 bytes of block 0, and byte `j` of the output is byte `(32 + j) % 64` of
/// block `(32 + j) / 64`. So block `k` has counter `k`, and nothing of the old output or of
/// the old key is left.
pub proof fn law_refill_counts_its_blocks(key: Seq<u8>, j: int)
    ensures
        refilled(key).pos == 0,
        refilled(key).key.len() == 32,
        refilled(key).buf.len() == 256,
        0 <= j < 32 ==> refilled(key).key[j] == block_of(key, 0, seq![0u8, 0, 0, 0, 0, 0, 0, 0, 0, 0, 0, 0])[j],
        0 <= j < 256 ==> refilled(key).buf[j] == block_of(
            key,
            ((32 + j) / 64) as u32,
            seq![0u8, 0, 0, 0, 0, 0, 0, 0, 0, 0, 0, 0],
        )[(32 + j) % 64],
{
    assert(seq![0u8, 0, 0, 0, 0, 0, 0, 0, 0, 0, 0, 0] =~= Seq::new(12, |i: int| 0u8));
    lemma_stream_len(key, 5);
    if 0 <= j < 256 {
        lemma_stream_byte(key, 5, 32 + j);
    }
    if 0 <= j < 32 {
        lemma_stream_byte(key, 5, j);
    }
}

/// The state that a block starts from holds the cipher's four words, the eight words of
/// the key, the counter and the three words of the nonce, each word with its least byte
/// first. So two blocks with different counters never start from the same state.
pub proof fn law_states_differ_by_counter(key: Seq<u8>, a: u32, b: u32, nonce: Seq<u8>, k: int)
    ensures
        first_state(key, a, nonce).len() == 16,
        first_state(key, a, nonce)[0] == 0x6170_7865,
        first_state(key, a, nonce)[1] == 0x3320_646e,
        first_state(key, a, nonce)[2] == 0x7962_2d32,
        first_state(key, a, nonce)[3] == 0x6b20_6574,
        0 <= k < 8 ==> first_state(key, a, nonce)[4 + k] == key[4 * k] + 0x100 * key[4 * k + 1] + 0x1_0000
            * key[4 * k + 2] + 0x100_0000 * key[4 * k + 3],
        first_state(key, a, nonce)[12] == a,
        0 <= k < 3 ==> first_state(key, a, nonce)[13 + k] == nonce[4 * k] + 0x100 * nonce[4 * k + 1]
            + 0x1_0000 * nonce[4 * k + 2] + 0x100_0000 * nonce[4 * k + 3],
        a != b ==> first_state(key, a, nonce) != first_state(key, b, nonce),
{
    reveal_with_fuel(bytes::le, 5);
    if a != b {
        assert(first_state(key, a, nonce)[12] != first_state(key, b, nonce)[12]);
    }
}

/// A block is the state after the rounds and the state before them, added word by word:
/// word `w` of it, read with its least byte first, is their sum on 32 bits.
pub proof fn law_block_adds_its_start(key: Seq<u8>, counter: u32, nonce: Seq<u8>, w: int)
    requires
        0 <= w < 16,
    ensures
        block_of(key, counter, nonce).len() == 64,
        bytes::le(block_of(key, counter, nonce), 4 * w, 4) == (rounds(
            first_state(key, counter, nonce),
            10,
        )[w] + first_state(key, counter, nonce)[w]) % 0x1_0000_0000,
{
    let s = first_state(key, counter, nonce);
    let out = block_of(key, counter, nonce);
    lemma_sum_byte(rounds(s, 10), s, 16, w);
    let v = plus(rounds(s, 10)[w], s[w]);
    let part = bytes::le_bytes(v as int, 4);
    reveal_with_fuel(bytes::pow256, 5);
    bytes::law_bytes_read_back(v as int, 4);
    assert(part.subrange(0, 4) =~= part);
    bytes::lemma_le_shift(out, part, 4 * w, 0, 4);
}

/// Output is handed out once and in order: while some of it is left, byte `i` of a draw is
/// byte `pos + i` of the output, and only the place moves; with none left, the next byte
/// is the first after a new key.
pub proof fn law_output_is_handed_out_once(s: DrbgState, n: nat)
    requires
        0 <= s.pos <= OUT,
    ensures
        s.pos + n <= OUT ==> drawn(s, n) == (DrbgState { pos: s.pos + n, ..s }),
        s.pos + n <= OUT ==> forall|i: int|
            0 <= i < n ==> #[trigger] output(s, n)[i] == s.buf[s.pos + i],
        s.pos == OUT && 0 < n <= OUT ==> drawn(s, n) == (DrbgState { pos: n as int, ..refilled(s.key) }),
        s.pos == OUT && n <= OUT ==> forall|i: int|
            0 <= i < n ==> #[trigger] output(s, n)[i] == refilled(s.key).buf[i],
        output(s, n).len() == n,
    decreases n,
{
    if n > 0 {
        law_output_is_handed_out_once(s, (n - 1) as nat);
        assert(output(s, (n - 1) as nat) =~= output(s, n).drop_last());
        assert forall|i: int| s.pos + n <= OUT && 0 <= i < n implies #[trigger] output(s, n)[i] == s.buf[s.pos
            + i] by {
            if i < n - 1 {
                assert(output(s, n)[i] == output(s, (n - 1) as nat)[i]);
            }
        }
        assert forall|i: int| s.pos == OUT && n <= OUT && 0 <= i < n implies #[trigger] output(s, n)[i]
            == refilled(s.key).buf[i] by {
            if i < n - 1 {
                assert(output(s, n)[i] == output(s, (n - 1) as nat)[i]);
            }
        }
    }
}

/// The seed is the four words, each with its least byte first: word `i` reads back from
/// byte `8 * i` of the key on.
pub proof fn law_seed_holds_the_words(words: Seq<u64>, n: nat, i: int)
    requires
        0 <= i < n,
    ensures
        seed_bytes(words, n).len() == 8 * n,
        bytes::le(seed_bytes(words, n), 8 * i, 8) == words[i],
    decreases n,
{
    lemma_seed_len(words, n);
    lemma_seed_len(words, (n - 1) as nat);
    if i < n - 1 {
        law_seed_holds_the_words(words, (n - 1) as nat, i);
        let short = seed_bytes(words, (n - 1) as nat);
        assert(seed_bytes(words, n).subrange(8 * i, 8 * i + 8) =~= short.subrange(8 * i, 8 * i + 8));
        bytes::lemma_le_shift(seed_bytes(words, n), short, 8 * i, 8 * i, 8);
    } else {
        let part = bytes::le_bytes(words[i] as int, 8);
        reveal_with_fuel(bytes::pow256, 9);
        bytes::law_bytes_read_back(words[i] as int, 8);
        assert(part.subrange(0, 8) =~= part);
        assert(seed_bytes(words, n).subrange(8 * i, 8 * i + 8) =~= part);
        bytes::lemma_le_shift(seed_bytes(words, n), part, 8 * i, 0, 8);
    }
}

proof fn lemma_seed_len(words: Seq<u64>, n: nat)
    ensures
        seed_bytes(words, n).len() == 8 * n,
    decreases n,
{
    if n > 0 {
        lemma_seed_len(words, (n - 1) as nat);
        reveal_with_fuel(bytes::le_bytes, 9);
    }
}

} // verus!
