//! Frames on the wire: the request for an address, the first segment of a connection, the
//! sum that protects a header, and the answers.

use vstd::prelude::*;

verus! {

/// This machine's address.
pub open spec fn guest_ip() -> Seq<u8> {
    seq![10u8, 0u8, 2u8, 15u8]
}

/// The gateway's address.
pub open spec fn gateway_ip() -> Seq<u8> {
    seq![10u8, 0u8, 2u8, 2u8]
}

/// The port that the connection goes to.
pub const SYN_PORT: u16 = 9;

/// The port that the connection comes from.
pub const SYN_SPORT: u16 = 40000;

/// A sixteen-bit number, the higher byte first.
pub open spec fn be16(v: int) -> Seq<u8> {
    seq![(v / 256 % 256) as u8, (v % 256) as u8]
}

fn put_be16(out: &mut Vec<u8>, v: u16)
    ensures
        final(out)@ == old(out)@ + be16(v as int),
{
    out.push((v / 256) as u8);
    out.push((v % 256) as u8);
    assert(out@ =~= old(out)@ + be16(v as int));
}

fn put_guest(out: &mut Vec<u8>)
    ensures
        final(out)@ == old(out)@ + guest_ip(),
{
    out.push(10);
    out.push(0);
    out.push(2);
    out.push(15);
    assert(out@ =~= old(out)@ + guest_ip());
}

fn put_gateway(out: &mut Vec<u8>)
    ensures
        final(out)@ == old(out)@ + gateway_ip(),
{
    out.push(10);
    out.push(0);
    out.push(2);
    out.push(2);
    assert(out@ =~= old(out)@ + gateway_ip());
}

fn put_mac(out: &mut Vec<u8>, mac: &[u8; 6])
    ensures
        final(out)@ == old(out)@ + mac@,
{
    crate::text::put_bytes(out, mac.as_slice());
}

/// The request, to everyone, for the gateway's address on the wire.
pub open spec fn arp_request(mac: Seq<u8>) -> Seq<u8> {
    seq![0xffu8, 0xffu8, 0xffu8, 0xffu8, 0xffu8, 0xffu8] + mac + be16(0x0806) + be16(1) + be16(
        0x0800,
    ) + seq![6u8, 4u8] + be16(1) + mac + guest_ip() + seq![0u8, 0u8, 0u8, 0u8, 0u8, 0u8]
        + gateway_ip()
}

/// The request, to everyone, for the gateway's address on the wire.
pub fn build_arp_request(mac: &[u8; 6]) -> (f: Vec<u8>)
    ensures
        f@ == arp_request(mac@),
        f@.len() == 42,
{
    let mut f: Vec<u8> = Vec::new();
    let mut i: usize = 0;
    while i < 6
        invariant
            i <= 6,
            f@ =~= Seq::new(i as nat, |j: int| 0xffu8),
        decreases 6 - i,
    {
        f.push(0xff);
        i = i + 1;
    }
    assert(f@ =~= seq![0xffu8, 0xffu8, 0xffu8, 0xffu8, 0xffu8, 0xffu8]);
    put_mac(&mut f, mac);
    put_be16(&mut f, 0x0806);
    put_be16(&mut f, 1);
    put_be16(&mut f, 0x0800);
    f.push(6);
    f.push(4);
    put_be16(&mut f, 1);
    put_mac(&mut f, mac);
    put_guest(&mut f);
    let ghost before = f@;
    let mut k: usize = 0;
    while k < 6
        invariant
            k <= 6,
            f@ =~= before + Seq::new(k as nat, |j: int| 0u8),
        decreases 6 - k,
    {
        f.push(0);
        k = k + 1;
    }
    put_gateway(&mut f);
    assert(f@ =~= arp_request(mac@));
    f
}

/// The sum of the sixteen-bit numbers from `i` on; a last byte counts as the higher byte
/// of one.
pub open spec fn word_sum(s: Seq<u8>, i: int) -> int
    decreases s.len() - i,
{
    if i < 0 || i >= s.len() {
        0
    } else if i + 1 == s.len() {
        s[i] * 256
    } else {
        s[i] * 256 + s[i + 1] + word_sum(s, i + 2)
    }
}

proof fn lemma_word_sum_bound(s: Seq<u8>, i: int)
    requires
        0 <= i,
    ensures
        0 <= word_sum(s, i),
        i <= s.len() ==> word_sum(s, i) <= 0xffff * ((s.len() - i + 1) / 2),
    decreases s.len() - i,
{
    if i + 1 < s.len() {
        lemma_word_sum_bound(s, i + 2);
    }
}

/// Add the sixteen-bit numbers of some bytes to a sum.
pub fn sum16(data: &[u8], acc: u32) -> (r: u32)
    requires
        data@.len() <= 0x1_0000,
        acc <= 0x7000_0000,
    ensures
        r == acc + word_sum(data@, 0),
{
    let mut r: u32 = acc;
    let mut i: usize = 0;
    proof {
        lemma_word_sum_bound(data@, 0);
    }
    while data.len() - i > 1
        invariant
            i <= data@.len() <= 0x1_0000,
            acc <= 0x7000_0000,
            r + word_sum(data@, i as int) == acc + word_sum(data@, 0),
            word_sum(data@, 0) <= 0xffff * ((data@.len() + 1) / 2),
        decreases data@.len() - i,
    {
        proof {
            lemma_word_sum_bound(data@, i as int);
            lemma_word_sum_bound(data@, i + 2);
        }
        r = r + (data[i] as u32 * 256 + data[i + 1] as u32);
        i = i + 2;
    }
    if i < data.len() {
        proof {
            lemma_word_sum_bound(data@, i as int);
        }
        r = r + data[i] as u32 * 256;
    }
    r
}

/// A sum with what does not fit into sixteen bits added back in.
pub open spec fn folded(x: int) -> int
    decreases x,
{
    if x < 0x1_0000 {
        x
    } else {
        folded(x % 0x1_0000 + x / 0x1_0000)
    }
}

/// The sum that protects some bytes, together with a sum from elsewhere.
pub open spec fn protecting(s: Seq<u8>, partial: int) -> int {
    0xffff - folded(partial + word_sum(s, 0))
}

proof fn lemma_folded(x: int)
    requires
        0 <= x,
    ensures
        0 <= folded(x) <= 0xffff,
        folded(x) % 0xffff == x % 0xffff,
        x > 0 ==> folded(x) > 0,
    decreases x,
{
    if x >= 0x1_0000 {
        let y = x % 0x1_0000 + x / 0x1_0000;
        lemma_folded(y);
        assert(x == y + 0xffff * (x / 0x1_0000));
        vstd::arithmetic::div_mod::lemma_mod_multiples_vanish(x / 0x1_0000, y, 0xffff);
        assert(0xffff * (x / 0x1_0000) + y == x);
    }
}

/// The sum that protects some bytes, together with a sum from elsewhere.
pub fn checksum(data: &[u8], partial: u32) -> (ck: u16)
    requires
        data@.len() <= 0x1_0000,
        partial <= 0x7000_0000,
    ensures
        ck == protecting(data@, partial as int),
{
    let mut acc: u32 = sum16(data, partial);
    let ghost total = acc as int;
    proof {
        lemma_folded(total);
    }
    while acc >= 0x1_0000
        invariant
            folded(acc as int) == folded(total),
        decreases acc,
    {
        acc = acc % 0x1_0000 + acc / 0x1_0000;
    }
    0xffff - acc as u16
}

/// The header of the first segment's packet, with a sum in place.
pub open spec fn ip_header(ck: int) -> Seq<u8> {
    seq![0x45u8, 0u8] + be16(40) + be16(0x1234) + be16(0x4000) + seq![64u8, 6u8] + be16(ck)
        + guest_ip() + gateway_ip()
}

/// The header of the first segment, with a sum in place.
pub open spec fn tcp_header(ck: int) -> Seq<u8> {
    be16(SYN_SPORT as int) + be16(SYN_PORT as int) + seq![
        0u8,
        0u8,
        0u8,
        1u8,
        0u8,
        0u8,
        0u8,
        0u8,
        80u8,
        2u8,
    ] + be16(1024) + be16(ck) + seq![0u8, 0u8]
}

/// What a segment's sum covers besides the segment.
pub open spec fn pseudo_header() -> Seq<u8> {
    guest_ip() + gateway_ip() + seq![0u8, 6u8] + be16(20)
}

/// The sum in the packet's header.
pub open spec fn ip_sum() -> int {
    protecting(ip_header(0), 0)
}

/// The sum in the segment's header.
pub open spec fn tcp_sum() -> int {
    protecting(tcp_header(0), word_sum(pseudo_header(), 0))
}

/// The first segment of a connection to the gateway.
pub open spec fn tcp_syn(mac: Seq<u8>, gw_mac: Seq<u8>) -> Seq<u8> {
    gw_mac + mac + be16(0x0800) + ip_header(ip_sum()) + tcp_header(tcp_sum())
}

fn build_ip_header(ck: u16) -> (h: Vec<u8>)
    ensures
        h@ == ip_header(ck as int),
        h@.len() == 20,
{
    let mut h: Vec<u8> = Vec::new();
    h.push(0x45);
    h.push(0);
    put_be16(&mut h, 40);
    put_be16(&mut h, 0x1234);
    put_be16(&mut h, 0x4000);
    h.push(64);
    h.push(6);
    put_be16(&mut h, ck);
    put_guest(&mut h);
    put_gateway(&mut h);
    assert(h@ =~= ip_header(ck as int));
    h
}

fn build_tcp_header(ck: u16) -> (h: Vec<u8>)
    ensures
        h@ == tcp_header(ck as int),
        h@.len() == 20,
{
    let mut h: Vec<u8> = Vec::new();
    put_be16(&mut h, SYN_SPORT);
    put_be16(&mut h, SYN_PORT);
    h.push(0);
    h.push(0);
    h.push(0);
    h.push(1);
    h.push(0);
    h.push(0);
    h.push(0);
    h.push(0);
    h.push(80);
    h.push(2);
    put_be16(&mut h, 1024);
    put_be16(&mut h, ck);
    h.push(0);
    h.push(0);
    assert(h@ =~= tcp_header(ck as int));
    h
}

/// The first segment of a connection to the gateway.
pub fn build_tcp_syn(mac: &[u8; 6], gw_mac: &[u8; 6]) -> (f: Vec<u8>)
    ensures
        f@ == tcp_syn(mac@, gw_mac@),
        f@.len() == 54,
{
    let bare_ip: Vec<u8> = build_ip_header(0);
    let ip_ck: u16 = checksum(bare_ip.as_slice(), 0);
    let mut pseudo: Vec<u8> = Vec::new();
    put_guest(&mut pseudo);
    put_gateway(&mut pseudo);
    pseudo.push(0);
    pseudo.push(6);
    put_be16(&mut pseudo, 20);
    assert(pseudo@ =~= pseudo_header());
    let partial: u32 = sum16(pseudo.as_slice(), 0);
    proof {
        lemma_word_sum_bound(pseudo@, 0);
    }
    let bare_tcp: Vec<u8> = build_tcp_header(0);
    let tcp_ck: u16 = checksum(bare_tcp.as_slice(), partial);
    let mut f: Vec<u8> = Vec::new();
    put_mac(&mut f, gw_mac);
    put_mac(&mut f, mac);
    put_be16(&mut f, 0x0800);
    let mut ip: Vec<u8> = build_ip_header(ip_ck);
    f.append(&mut ip);
    let mut tcp: Vec<u8> = build_tcp_header(tcp_ck);
    f.append(&mut tcp);
    assert(f@ =~= tcp_syn(mac@, gw_mac@));
    f
}

/// Whether a frame is the answer to the request for the gateway's address.
pub open spec fn arp_reply(f: Seq<u8>) -> bool {
    &&& f.len() >= 42
    &&& f.subrange(12, 14) == be16(0x0806)
    &&& f.subrange(20, 22) == be16(2)
    &&& f.subrange(28, 32) == gateway_ip()
}

/// Whether a frame is the answer to the request for the gateway's address.
pub fn is_gateway_arp_reply(f: &[u8]) -> (b: bool)
    ensures
        b == arp_reply(f@),
{
    if f.len() < 42 {
        return false;
    }
    proof {
        let s = f@;
        assert(s.subrange(12, 14) =~= seq![s[12], s[13]]);
        assert(s.subrange(20, 22) =~= seq![s[20], s[21]]);
        assert(s.subrange(28, 32) =~= seq![s[28], s[29], s[30], s[31]]);
        let a = be16(0x0806);
        let c = be16(2);
        let g = gateway_ip();
        assert(a[0] == 8 && a[1] == 6);
        assert(c[0] == 0 && c[1] == 2);
        if s.subrange(12, 14) == a {
            assert(s[12] == a[0] && s[13] == a[1]) by {
                assert(s.subrange(12, 14)[0] == s[12] && s.subrange(12, 14)[1] == s[13]);
            }
        }
        if s.subrange(20, 22) == c {
            assert(s[20] == c[0] && s[21] == c[1]) by {
                assert(s.subrange(20, 22)[0] == s[20] && s.subrange(20, 22)[1] == s[21]);
            }
        }
        if s.subrange(28, 32) == g {
            assert(s[28] == g[0] && s[29] == g[1] && s[30] == g[2] && s[31] == g[3]) by {
                let x = s.subrange(28, 32);
                assert(x[0] == s[28] && x[1] == s[29] && x[2] == s[30] && x[3] == s[31]);
            }
        }
    }
    let r: bool = f[12] == 8 && f[13] == 6 && f[20] == 0 && f[21] == 2 && f[28] == 10 && f[29] == 0
        && f[30] == 2 && f[31] == 2;
    proof {
        if r {
            assert(f@.subrange(12, 14) =~= be16(0x0806));
            assert(f@.subrange(20, 22) =~= be16(2));
            assert(f@.subrange(28, 32) =~= gateway_ip());
        }
    }
    r
}

/// Whether a frame is a segment from the gateway to the port that the connection comes
/// from.
pub open spec fn tcp_answer(f: Seq<u8>) -> bool {
    &&& f.len() >= 54
    &&& f.subrange(12, 14) == be16(0x0800)
    &&& f[14] / 16 == 4
    &&& f[23] == 6
    &&& f.subrange(26, 30) == gateway_ip()
    &&& f.subrange(36, 38) == be16(SYN_SPORT as int)
}

/// Whether a frame is a segment from the gateway to the port that the connection comes
/// from.
pub fn is_gateway_tcp_answer(f: &[u8]) -> (b: bool)
    ensures
        b == tcp_answer(f@),
{
    if f.len() < 54 {
        return false;
    }
    proof {
        let s = f@;
        let a = be16(0x0800);
        let c = be16(SYN_SPORT as int);
        let g = gateway_ip();
        assert(a[0] == 8 && a[1] == 0);
        assert(c[0] == 156 && c[1] == 64);
        if s.subrange(12, 14) == a {
            assert(s.subrange(12, 14)[0] == s[12] && s.subrange(12, 14)[1] == s[13]);
        }
        if s.subrange(36, 38) == c {
            assert(s.subrange(36, 38)[0] == s[36] && s.subrange(36, 38)[1] == s[37]);
        }
        if s.subrange(26, 30) == g {
            let x = s.subrange(26, 30);
            assert(x[0] == s[26] && x[1] == s[27] && x[2] == s[28] && x[3] == s[29]);
        }
    }
    let r: bool = f[12] == 8 && f[13] == 0 && f[14] / 16 == 4 && f[23] == 6 && f[26] == 10 && f[27]
        == 0 && f[28] == 2 && f[29] == 2 && f[36] == 156 && f[37] == 64;
    proof {
        if r {
            assert(f@.subrange(12, 14) =~= be16(0x0800));
            assert(f@.subrange(26, 30) =~= gateway_ip());
            assert(f@.subrange(36, 38) =~= be16(SYN_SPORT as int));
        }
    }
    r
}

proof fn lemma_word_sum_joins(a: Seq<u8>, b: Seq<u8>, i: int)
    requires
        a.len() % 2 == 0,
        0 <= i <= a.len(),
        i % 2 == 0,
    ensures
        word_sum(a + b, i) == word_sum(a, i) + word_sum(b, 0),
    decreases a.len() - i,
{
    let s = a + b;
    if i < a.len() {
        assert(s[i] == a[i] && s[i + 1] == a[i + 1]);
        lemma_word_sum_joins(a, b, i + 2);
    } else {
        assert(s.skip(a.len() as int) =~= b.skip(0));
        lemma_word_sum_shift(s, b, a.len() as int, 0);
    }
}

proof fn lemma_word_sum_shift(s: Seq<u8>, b: Seq<u8>, i: int, j: int)
    requires
        0 <= i,
        0 <= j,
        s.len() - i == b.len() - j,
        s.len() >= i,
        s.skip(i) == b.skip(j),
    ensures
        word_sum(s, i) == word_sum(b, j),
    decreases s.len() - i,
{
    if i < s.len() {
        assert(s[i] == s.skip(i)[0] && b[j] == b.skip(j)[0]);
        if i + 1 < s.len() {
            assert(s[i + 1] == s.skip(i)[1] && b[j + 1] == b.skip(j)[1]);
            assert(s.skip(i + 2) =~= s.skip(i).skip(2));
            assert(b.skip(j + 2) =~= b.skip(j).skip(2));
            lemma_word_sum_shift(s, b, i + 2, j + 2);
        }
    }
}

proof fn lemma_word_sum_of(v: int)
    requires
        0 <= v <= 0xffff,
    ensures
        word_sum(be16(v), 0) == v,
{
    reveal_with_fuel(word_sum, 3);
}

proof fn lemma_sum_cancels(sum: int, partial: int)
    requires
        0 <= sum,
        0 <= partial,
        sum + partial > 0,
    ensures
        folded(partial + sum + (0xffff - folded(partial + sum))) == 0xffff,
{
    let x = partial + sum;
    lemma_folded(x);
    let y = x + (0xffff - folded(x));
    lemma_folded(y);
    let f = folded(x);
    // x and its fold leave the same remainder, so that y leaves none.
    vstd::arithmetic::div_mod::lemma_fundamental_div_mod(x, 0xffff);
    vstd::arithmetic::div_mod::lemma_fundamental_div_mod(f, 0xffff);
    let q = x / 0xffff - f / 0xffff + 1;
    assert(y == 0xffff * q);
    vstd::arithmetic::div_mod::lemma_mod_multiples_basic(q, 0xffff);
    assert(0xffff * q == q * 0xffff);
    assert(folded(y) % 0xffff == 0);
}

/// Whoever adds up the packet's header, its sum included, finds that it is whole.
pub proof fn law_packet_sum_checks()
    ensures
        folded(word_sum(ip_header(ip_sum()), 0)) == 0xffff,
{
    let head = seq![0x45u8, 0u8] + be16(40) + be16(0x1234) + be16(0x4000) + seq![64u8, 6u8];
    let tail = guest_ip() + gateway_ip();
    assert(ip_header(0) =~= head + (be16(0) + tail));
    lemma_field_adds(head, tail, ip_sum(), 0);
    assert(ip_header(ip_sum()) =~= head + (be16(ip_sum()) + tail));
}

/// Whoever adds up the segment, its sum and what it covers besides included, finds that
/// it is whole.
pub proof fn law_segment_sum_checks()
    ensures
        folded(word_sum(pseudo_header(), 0) + word_sum(tcp_header(tcp_sum()), 0)) == 0xffff,
{
    let head = be16(SYN_SPORT as int) + be16(SYN_PORT as int) + seq![
        0u8,
        0u8,
        0u8,
        1u8,
        0u8,
        0u8,
        0u8,
        0u8,
        80u8,
        2u8,
    ] + be16(1024);
    let tail = seq![0u8, 0u8];
    lemma_word_sum_bound(pseudo_header(), 0);
    assert(tcp_header(0) =~= head + (be16(0) + tail));
    lemma_field_adds(head, tail, tcp_sum(), word_sum(pseudo_header(), 0));
    assert(tcp_header(tcp_sum()) =~= head + (be16(tcp_sum()) + tail));
}

/// A header whose sum is put where zeros stood adds up to a whole.
proof fn lemma_field_adds(head: Seq<u8>, tail: Seq<u8>, ck: int, partial: int)
    requires
        head.len() % 2 == 0,
        0 < head.len(),
        head[0] > 0,
        0 <= partial,
        ck == protecting(head + (be16(0) + tail), partial),
    ensures
        folded(partial + word_sum(head + (be16(ck) + tail), 0)) == 0xffff,
{
    let bare = head + (be16(0) + tail);
    lemma_word_sum_joins(head, be16(0) + tail, 0);
    lemma_word_sum_joins(be16(0), tail, 0);
    lemma_word_sum_of(0);
    lemma_word_sum_bound(bare, 0);
    lemma_word_sum_bound(head, 0);
    lemma_word_sum_bound(tail, 0);
    assert(word_sum(head, 0) > 0) by {
        lemma_word_sum_bound(head, 2);
    }
    lemma_folded(partial + word_sum(bare, 0));
    lemma_word_sum_joins(head, be16(ck) + tail, 0);
    lemma_word_sum_joins(be16(ck), tail, 0);
    lemma_word_sum_of(ck);
    lemma_sum_cancels(word_sum(bare, 0), partial);
}

/// A request goes to everybody and names both sides: the frame is for every station and
/// from the sender, of the type of address resolution, asks (it is no answer), and holds the
/// sender's addresses and the gateway's.
pub proof fn law_request_names_both_sides(mac: Seq<u8>, i: int)
    requires
        mac.len() == 6,
        0 <= i < 6,
    ensures
        arp_request(mac).len() == 42,
        arp_request(mac)[i] == 0xff,
        arp_request(mac)[6 + i] == mac[i],
        arp_request(mac)[12] == 8,
        arp_request(mac)[13] == 6,
        arp_request(mac)[20] == 0,
        arp_request(mac)[21] == 1,
        arp_request(mac)[22 + i] == mac[i],
        arp_request(mac).subrange(28, 32) == seq![10u8, 0u8, 2u8, 15u8],
        arp_request(mac).subrange(38, 42) == seq![10u8, 0u8, 2u8, 2u8],
        !arp_reply(arp_request(mac)),
{
    let f = arp_request(mac);
    assert(f.subrange(28, 32) =~= guest_ip());
    assert(f.subrange(38, 42) =~= gateway_ip());
    assert(f.subrange(20, 22)[1] == 1);
    assert(be16(2)[1] == 2);
}

/// What counts as the gateway's answer: a frame of address resolution, long enough, that
/// answers, from the gateway's address; nothing else does.
pub proof fn law_answer_is_the_gateways(f: Seq<u8>)
    requires
        f.len() >= 42,
    ensures
        arp_reply(f) <==> f[12] == 8 && f[13] == 6 && f[20] == 0 && f[21] == 2 && f[28] == 10 && f[29] == 0
            && f[30] == 2 && f[31] == 2,
{
    let a = f.subrange(12, 14);
    let b = f.subrange(20, 22);
    let c = f.subrange(28, 32);
    if arp_reply(f) {
        assert(a[0] == f[12] && a[1] == f[13] && b[0] == f[20] && b[1] == f[21]);
        assert(c[0] == f[28] && c[1] == f[29] && c[2] == f[30] && c[3] == f[31]);
    }
    if f[12] == 8 && f[13] == 6 && f[20] == 0 && f[21] == 2 && f[28] == 10 && f[29] == 0 && f[30] == 2 && f[31]
        == 2 {
        assert(a =~= be16(0x0806));
        assert(b =~= be16(2));
        assert(c =~= gateway_ip());
    }
}

/// What counts as an answer to the opened connection: a segment of the fourth version and
/// of TCP, from the gateway, to the port that the connection was opened from.
pub proof fn law_segment_answers_the_port(f: Seq<u8>)
    requires
        f.len() >= 54,
    ensures
        tcp_answer(f) <==> f[12] == 8 && f[13] == 0 && f[14] / 16 == 4 && f[23] == 6 && f[26] == 10 && f[27]
            == 0 && f[28] == 2 && f[29] == 2 && f[36] * 256 + f[37] == SYN_SPORT,
{
    let a = f.subrange(12, 14);
    let b = f.subrange(26, 30);
    let c = f.subrange(36, 38);
    if tcp_answer(f) {
        assert(a[0] == f[12] && a[1] == f[13] && c[0] == f[36] && c[1] == f[37]);
        assert(b[0] == f[26] && b[1] == f[27] && b[2] == f[28] && b[3] == f[29]);
    }
    if f[12] == 8 && f[13] == 0 && f[26] == 10 && f[27] == 0 && f[28] == 2 && f[29] == 2 && f[36] * 256 + f[37]
        == SYN_SPORT {
        assert(a =~= be16(0x0800));
        assert(b =~= gateway_ip());
        assert(c =~= be16(SYN_SPORT as int));
    }
}

/// The segment that opens a connection goes to the gateway's station, from this one, with
/// the two addresses and ports in their places, and is none that answers it.
pub proof fn law_opening_segment_is_addressed(mac: Seq<u8>, gw_mac: Seq<u8>, i: int)
    requires
        mac.len() == 6,
        gw_mac.len() == 6,
        0 <= i < 6,
    ensures
        ({
            let f = tcp_syn(mac, gw_mac);
            &&& f.len() == 54
            &&& f[i] == gw_mac[i]
            &&& f[6 + i] == mac[i]
            &&& f[12] == 8
            &&& f[13] == 0
            &&& f[23] == 6
            &&& f[26] == 10 && f[27] == 0 && f[28] == 2 && f[29] == 15
            &&& f[30] == 10 && f[31] == 0 && f[32] == 2 && f[33] == 2
            &&& f[34] * 256 + f[35] == SYN_SPORT
            &&& f[36] * 256 + f[37] == SYN_PORT
            &&& f[47] == 2
            &&& !tcp_answer(f)
        }),
{
    let f = tcp_syn(mac, gw_mac);
    assert(f.subrange(26, 30)[3] == f[29]);
    assert(gateway_ip()[3] == 2);
}

} // verus!
