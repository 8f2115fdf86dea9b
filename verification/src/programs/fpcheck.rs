//! Whether the registers survive handing the processor to another cell: each cell fills
//! them with a pattern of its own, yields, and looks at what came back.

use vstd::prelude::*;

verus! {

/// How often a cell tries it.
pub const FP_ROUNDS: u32 = 4;

/// The exit code of a producer whose registers did not survive.
pub const FP_FAIL: u64 = 0x1F;

/// The contents of the registers.
pub struct Buf(pub Vec<u8>);

impl Buf {
    pub open spec fn view(&self) -> Seq<u8> {
        self.0@
    }

    /// Registers of `bytes` zeros.
    pub fn zeroed(bytes: usize) -> (b: Buf)
        ensures
            b@.len() == bytes,
            forall|i: int| 0 <= i < bytes ==> #[trigger] b@[i] == 0,
    {
        Buf(vec![0u8; bytes])
    }
}

/// What a round came to.
#[derive(Copy, Clone, PartialEq, Eq, Debug, Structural)]
pub enum Verdict {
    /// The registers came back as they were.
    Preserved,
    /// They came back with what the other cell had put there.
    PeerPattern,
    /// They came back with something else.
    Corrupted,
}

/// What a pattern is counted up from.
pub open spec fn base_of(role: u8, round: u32) -> int {
    (role * 0x5B + round) % 256
}

/// A byte of the pattern of a role in a round.
pub open spec fn pattern_byte(role: u8, round: u32, i: int) -> u8 {
    ((((base_of(role, round) + i) % 256) * 0x4D + 0x1F) % 256) as u8
}

/// The pattern of a role in a round.
pub open spec fn pattern_of(role: u8, round: u32, bytes: nat) -> Seq<u8> {
    Seq::new(bytes, |i: int| pattern_byte(role, round, i))
}

fn stirred(next: u8) -> (v: u8)
    ensures
        v == (next * 0x4D + 0x1F) % 256,
{
    proof {
        vstd::arithmetic::div_mod::lemma_add_mod_noop(next * 0x4D, 0x1F, 256);
    }
    next.wrapping_mul(0x4D).wrapping_add(0x1F)
}

/// The pattern of a role in a round.
pub fn pattern(role: u8, round: u32, bytes: usize) -> (b: Buf)
    ensures
        b@ == pattern_of(role, round, bytes as nat),
{
    let mut b: Buf = Buf::zeroed(bytes);
    let base: u8 = role.wrapping_mul(0x5B).wrapping_add((round % 256) as u8);
    proof {
        vstd::arithmetic::div_mod::lemma_add_mod_noop(role * 0x5B, round as int, 256);
    }
    let mut next: u8 = base;
    let mut i: usize = 0;
    while i < bytes
        invariant
            b@.len() == bytes,
            i <= bytes,
            base == base_of(role, round),
            next == (base + i) % 256,
            forall|k: int| 0 <= k < i ==> #[trigger] b@[k] == pattern_byte(role, round, k),
        decreases bytes - i,
    {
        b.0[i] = stirred(next);
        next = next.wrapping_add(1);
        i = i + 1;
    }
    b
}

/// The two roles have nothing in common in a round: their patterns differ in every byte,
/// so that registers of the one are never taken for those of the other.
pub proof fn law_patterns_differ_everywhere(round: u32, i: int)
    requires
        0 <= i,
    ensures
        pattern_byte(0, round, i) != pattern_byte(1, round, i),
{
    let a = ((base_of(0, round) + i) % 256) as u8;
    let b = ((base_of(1, round) + i) % 256) as u8;
    assert(a != b);
    assert(a != b ==> (a * 0x4D + 0x1F) % 256 != (b * 0x4D + 0x1F) % 256) by (bit_vector);
}

fn same_bytes(a: &Buf, b: &Buf) -> (r: bool)
    ensures
        r == (a@ == b@),
{
    if a.0.len() != b.0.len() {
        return false;
    }
    let mut i: usize = 0;
    while i < a.0.len()
        invariant
            a@.len() == b@.len(),
            i <= a@.len(),
            forall|k: int| 0 <= k < i ==> #[trigger] a@[k] == b@[k],
        decreases a@.len() - i,
    {
        if a.0[i] != b.0[i] {
            assert(a@[i as int] != b@[i as int]);
            return false;
        }
        i = i + 1;
    }
    assert(a@ =~= b@);
    true
}

/// What came back is what the other cell puts there, in one round or another.
pub open spec fn is_peers(out: Seq<u8>, peer_role: u8) -> bool {
    exists|r: u32| r < 256 && out == #[trigger] pattern_of(peer_role, r, out.len())
}

/// What a round came to, with what came back.
pub fn check(role: u8, peer_role: u8, round: u32, out: &Buf) -> (v: Verdict)
    ensures
        v == (if out@ == pattern_of(role, round, out@.len()) {
            Verdict::Preserved
        } else if is_peers(out@, peer_role) {
            Verdict::PeerPattern
        } else {
            Verdict::Corrupted
        }),
{
    let bytes: usize = out.0.len();
    if same_bytes(out, &pattern(role, round, bytes)) {
        return Verdict::Preserved;
    }
    let mut r: u32 = 0;
    while r < 256
        invariant
            r <= 256,
            bytes == out@.len(),
            out@ != pattern_of(role, round, out@.len()),
            forall|k: u32| k < r ==> out@ != #[trigger] pattern_of(peer_role, k, out@.len()),
        decreases 256 - r,
    {
        if same_bytes(out, &pattern(peer_role, r, bytes)) {
            assert(out@ == pattern_of(peer_role, r, out@.len()));
            return Verdict::PeerPattern;
        }
        r = r + 1;
    }
    Verdict::Corrupted
}

/// How the rounds of a cell came out.
#[derive(Copy, Clone, PartialEq, Eq, Debug, Structural)]
pub struct FpReport {
    pub preserved: u32,
    pub peer_seen: u32,
    pub corrupted: u32,
}

/// The roles of a cell and of the other.
pub open spec fn roles(is_producer: bool) -> (u8, u8) {
    if is_producer {
        (0, 1)
    } else {
        (1, 0)
    }
}

/// A round is preserved.
pub open spec fn kept(is_producer: bool, round: int, out: Seq<u8>) -> bool {
    out == pattern_of(roles(is_producer).0, round as u32, out.len())
}

/// How many of the first rounds were preserved.
pub open spec fn kept_before(is_producer: bool, outs: Seq<Buf>, n: int) -> int
    decreases n,
{
    if n <= 0 {
        0
    } else {
        kept_before(is_producer, outs, n - 1) + (if kept(is_producer, n - 1, outs[n - 1]@) {
            1int
        } else {
            0
        })
    }
}

/// How many of the first rounds came back with what the other cell had put there.
pub open spec fn peers_before(is_producer: bool, outs: Seq<Buf>, n: int) -> int
    decreases n,
{
    if n <= 0 {
        0
    } else {
        peers_before(is_producer, outs, n - 1) + (if !kept(is_producer, n - 1, outs[n - 1]@)
            && is_peers(outs[n - 1]@, roles(is_producer).1) {
            1int
        } else {
            0
        })
    }
}

/// All the rounds of a cell, with what came back in each.
pub fn fp_phase(is_producer: bool, outs: &Vec<Buf>) -> (r: FpReport)
    requires
        outs@.len() == FP_ROUNDS,
    ensures
        r.preserved == kept_before(is_producer, outs@, FP_ROUNDS as int),
        r.peer_seen == peers_before(is_producer, outs@, FP_ROUNDS as int),
        r.preserved + r.peer_seen + r.corrupted == FP_ROUNDS,
{
    let (role, peer_role): (u8, u8) = if is_producer {
        (0, 1)
    } else {
        (1, 0)
    };
    let mut r: FpReport = FpReport { preserved: 0, peer_seen: 0, corrupted: 0 };
    let mut round: u32 = 0;
    while round < FP_ROUNDS
        invariant
            outs@.len() == FP_ROUNDS,
            (role, peer_role) == roles(is_producer),
            round <= FP_ROUNDS,
            r.preserved == kept_before(is_producer, outs@, round as int),
            r.peer_seen == peers_before(is_producer, outs@, round as int),
            r.preserved + r.peer_seen + r.corrupted == round,
        decreases FP_ROUNDS - round,
    {
        match check(role, peer_role, round, &outs[round as usize]) {
            Verdict::Preserved => {
                r.preserved = r.preserved + 1;
            },
            Verdict::PeerPattern => {
                r.peer_seen = r.peer_seen + 1;
            },
            Verdict::Corrupted => {
                r.corrupted = r.corrupted + 1;
            },
        }
        round = round + 1;
    }
    r
}

/// All rounds were preserved.
pub fn all_preserved(r: FpReport) -> (b: bool)
    ensures
        b == (r.preserved == FP_ROUNDS),
{
    r.preserved == FP_ROUNDS
}

/// What a round kept is the program's own pattern of that round, and never counts as the
/// peer's: each round adds at most one to one of the two counts, and what was neither adds to
/// none. The two programs have each other's roles.
pub proof fn law_rounds_count_once(is_producer: bool, outs: Seq<Buf>, n: int)
    requires
        0 < n <= outs.len(),
    ensures
        roles(true) == (0u8, 1u8),
        roles(false) == (1u8, 0u8),
        roles(is_producer).0 == roles(!is_producer).1,
        kept(is_producer, n - 1, outs[n - 1]@) ==> kept_before(is_producer, outs, n) == kept_before(
            is_producer,
            outs,
            n - 1,
        ) + 1 && peers_before(is_producer, outs, n) == peers_before(is_producer, outs, n - 1),
        !kept(is_producer, n - 1, outs[n - 1]@) ==> kept_before(is_producer, outs, n) == kept_before(
            is_producer,
            outs,
            n - 1,
        ),
        kept(is_producer, n - 1, outs[n - 1]@) <==> forall|i: int|
            0 <= i < outs[n - 1]@.len() ==> #[trigger] outs[n - 1]@[i] == pattern_byte(
                roles(is_producer).0,
                (n - 1) as u32,
                i,
            ),
        kept_before(is_producer, outs, 0) == 0,
        peers_before(is_producer, outs, 0) == 0,
{
    let out = outs[n - 1]@;
    let p = pattern_of(roles(is_producer).0, (n - 1) as u32, out.len());
    if forall|i: int|
        0 <= i < out.len() ==> #[trigger] out[i] == pattern_byte(roles(is_producer).0, (n - 1) as u32, i) {
        assert(out =~= p);
    }
    if kept(is_producer, n - 1, out) {
        assert forall|i: int| 0 <= i < out.len() implies #[trigger] out[i] == pattern_byte(
            roles(is_producer).0,
            (n - 1) as u32,
            i,
        ) by {
            assert(out[i] == p[i]);
        }
    }
}

} // verus!
