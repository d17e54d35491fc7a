//! Which IP addresses belong to the public internet.
use vstd::arithmetic::power2::{lemma2_to64, pow2};
use vstd::prelude::*;

verus! {

/// An IP address: four octets, or eight 16-bit segments.
#[derive(Debug, Clone, Copy, PartialEq, Eq)]
pub enum IpAddress {
    V4([u8; 4]),
    V6([u16; 8]),
}

/// An IP address with a port.
#[derive(Debug, Clone, Copy, PartialEq, Eq)]
pub struct SocketAddress {
    pub ip: IpAddress,
    pub port: u16,
}

/// The 32-bit number of an IPv4 address written as four octets.
pub open spec fn v4(a: int, b: int, c: int, d: int) -> int {
    a * 0x1000000 + b * 0x10000 + c * 0x100 + d
}

/// `addr` lies in the block `net/prefix` of a 32-bit address space.
pub open spec fn in_block32(addr: int, net: int, prefix: nat) -> bool {
    addr / pow2((32 - prefix) as nat) as int == net / pow2((32 - prefix) as nat) as int
}

/// The IPv4 blocks that are not public internet: "this network", private,
/// shared (CGNAT), loopback, link-local, IETF assignments, documentation,
/// benchmarking, multicast and reserved.
pub open spec fn ipv4_is_special(a: int) -> bool {
    ||| in_block32(a, v4(0, 0, 0, 0), 8)
    ||| in_block32(a, v4(10, 0, 0, 0), 8)
    ||| in_block32(a, v4(100, 64, 0, 0), 10)
    ||| in_block32(a, v4(127, 0, 0, 0), 8)
    ||| in_block32(a, v4(169, 254, 0, 0), 16)
    ||| in_block32(a, v4(172, 16, 0, 0), 12)
    ||| in_block32(a, v4(192, 0, 0, 0), 24)
    ||| in_block32(a, v4(192, 0, 2, 0), 24)
    ||| in_block32(a, v4(192, 168, 0, 0), 16)
    ||| in_block32(a, v4(198, 18, 0, 0), 15)
    ||| in_block32(a, v4(198, 51, 100, 0), 24)
    ||| in_block32(a, v4(203, 0, 113, 0), 24)
    ||| in_block32(a, v4(224, 0, 0, 0), 3)
}

/// The IPv6 blocks that are not public internet, all given by a prefix of at
/// most 32 bits of the address (`top` is its first two segments): the first
/// segment zero (which holds `::` and `::1`), unique local, link-local,
/// multicast, `100::/16`, the IANA special-purpose `2001::/24` and
/// documentation.
pub open spec fn ipv6_is_special(top: int) -> bool {
    ||| in_block32(top, 0x0000_0000, 16)
    ||| in_block32(top, 0xfc00_0000, 7)
    ||| in_block32(top, 0xfe80_0000, 10)
    ||| in_block32(top, 0xff00_0000, 8)
    ||| in_block32(top, 0x0100_0000, 16)
    ||| in_block32(top, 0x2001_0000, 24)
    ||| in_block32(top, 0x2001_0db8, 32)
}

/// The IPv4 address that an IPv4-mapped IPv6 address (`::ffff:a.b.c.d`)
/// carries, as a 32-bit number.
pub open spec fn ipv4_mapped(s: Seq<u16>) -> Option<int> {
    if s.len() == 8 && s[0] == 0 && s[1] == 0 && s[2] == 0 && s[3] == 0 && s[4] == 0 && s[5]
        == 0xffff {
        Some(s[6] * 0x10000 + s[7])
    } else {
        None
    }
}

/// Whether an IP address belongs to the public internet.
pub open spec fn ip_is_public(ip: IpAddress) -> bool {
    match ip {
        IpAddress::V4(o) => !ipv4_is_special(v4(o@[0] as int, o@[1] as int, o@[2] as int, o@[3] as int)),
        IpAddress::V6(s) => match ipv4_mapped(s@) {
            Some(a) => !ipv4_is_special(a),
            None => !ipv6_is_special(s@[0] * 0x10000 + s@[1]),
        },
    }
}

/// How the blocks of `ipv4_is_special` cut an address given by its octets.
proof fn lemma_v4_prefixes(o0: int, o1: int, o2: int, o3: int)
    requires
        0 <= o0 < 256,
        0 <= o1 < 256,
        0 <= o2 < 256,
        0 <= o3 < 256,
    ensures
        ({
            let a = v4(o0, o1, o2, o3);
            &&& a / 0x1000000 == o0
            &&& a / 0x400000 == o0 * 4 + o1 / 64
            &&& a / 0x100000 == o0 * 16 + o1 / 16
            &&& a / 0x20000 == o0 * 128 + o1 / 2
            &&& a / 0x10000 == o0 * 256 + o1
            &&& a / 0x100 == o0 * 0x10000 + o1 * 0x100 + o2
            &&& a / 0x20000000 == o0 / 32
            &&& 0 <= o1 / 64 < 4
            &&& 0 <= o1 / 16 < 16
            &&& 0 <= o1 / 2 < 128
        }),
{
    let a = v4(o0, o1, o2, o3);
    assert(a / 0x1000000 == o0) by (nonlinear_arith)
        requires a == o0 * 0x1000000 + o1 * 0x10000 + o2 * 0x100 + o3, 0 <= o1 < 256, 0 <= o2 < 256, 0 <= o3 < 256;
    assert(a / 0x400000 == o0 * 4 + o1 / 64) by (nonlinear_arith)
        requires a == o0 * 0x1000000 + o1 * 0x10000 + o2 * 0x100 + o3, 0 <= o1 < 256, 0 <= o2 < 256, 0 <= o3 < 256;
    assert(a / 0x100000 == o0 * 16 + o1 / 16) by (nonlinear_arith)
        requires a == o0 * 0x1000000 + o1 * 0x10000 + o2 * 0x100 + o3, 0 <= o1 < 256, 0 <= o2 < 256, 0 <= o3 < 256;
    assert(a / 0x20000 == o0 * 128 + o1 / 2) by (nonlinear_arith)
        requires a == o0 * 0x1000000 + o1 * 0x10000 + o2 * 0x100 + o3, 0 <= o1 < 256, 0 <= o2 < 256, 0 <= o3 < 256;
    assert(a / 0x10000 == o0 * 256 + o1) by (nonlinear_arith)
        requires a == o0 * 0x1000000 + o1 * 0x10000 + o2 * 0x100 + o3, 0 <= o1 < 256, 0 <= o2 < 256, 0 <= o3 < 256;
    assert(a / 0x100 == o0 * 0x10000 + o1 * 0x100 + o2) by (nonlinear_arith)
        requires a == o0 * 0x1000000 + o1 * 0x10000 + o2 * 0x100 + o3, 0 <= o1 < 256, 0 <= o2 < 256, 0 <= o3 < 256;
    assert(a / 0x20000000 == o0 / 32) by (nonlinear_arith)
        requires a == o0 * 0x1000000 + o1 * 0x10000 + o2 * 0x100 + o3, 0 <= o0 < 256, 0 <= o1 < 256, 0 <= o2 < 256, 0 <= o3 < 256;
}

/// The block numbers of the networks in `ipv4_is_special`.
proof fn lemma_v4_nets()
    ensures
        v4(0, 0, 0, 0) / 0x1000000 == 0,
        v4(10, 0, 0, 0) / 0x1000000 == 10,
        v4(100, 64, 0, 0) / 0x400000 == 401,
        v4(127, 0, 0, 0) / 0x1000000 == 127,
        v4(169, 254, 0, 0) / 0x10000 == 43518,
        v4(172, 16, 0, 0) / 0x100000 == 2753,
        v4(192, 0, 0, 0) / 0x100 == 12582912,
        v4(192, 0, 2, 0) / 0x100 == 12582914,
        v4(192, 168, 0, 0) / 0x10000 == 49320,
        v4(198, 18, 0, 0) / 0x20000 == 25353,
        v4(198, 51, 100, 0) / 0x100 == 12989284,
        v4(203, 0, 113, 0) / 0x100 == 13303921,
        v4(224, 0, 0, 0) / 0x20000000 == 7,
{
    assert(0int / 0x1000000int == 0) by (nonlinear_arith);
    assert(167772160int / 0x1000000int == 10) by (nonlinear_arith);
    assert(1681915904int / 0x400000int == 401) by (nonlinear_arith);
    assert(2130706432int / 0x1000000int == 127) by (nonlinear_arith);
    assert(2851995648int / 0x10000int == 43518) by (nonlinear_arith);
    assert(2886729728int / 0x100000int == 2753) by (nonlinear_arith);
    assert(3221225472int / 0x100int == 12582912) by (nonlinear_arith);
    assert(3221225984int / 0x100int == 12582914) by (nonlinear_arith);
    assert(3232235520int / 0x10000int == 49320) by (nonlinear_arith);
    assert(3323068416int / 0x20000int == 25353) by (nonlinear_arith);
    assert(3325256704int / 0x100int == 12989284) by (nonlinear_arith);
    assert(3405803776int / 0x100int == 13303921) by (nonlinear_arith);
    assert(3758096384int / 0x20000000int == 7) by (nonlinear_arith);
}

/// Whether four octets form a public IPv4 address.
fn is_public_ipv4(o: [u8; 4]) -> (r: bool)
    ensures
        r == !ipv4_is_special(v4(o@[0] as int, o@[1] as int, o@[2] as int, o@[3] as int)),
{
    let o0 = o[0];
    let o1 = o[1];
    let o2 = o[2];
    proof {
        lemma2_to64();
        lemma_v4_prefixes(o0 as int, o1 as int, o2 as int, o@[3] as int);
        assert((o1 & 0b1100_0000) == 64 <==> o1 / 64 == 1) by (bit_vector);
        assert((o1 & 0xF0) == 16 <==> o1 / 16 == 1) by (bit_vector);
        assert((o1 & 0xFE) == 18 <==> o1 / 2 == 9) by (bit_vector);
        lemma_v4_nets();
    }
    !(o0 == 0 || o0 == 10 || (o0 == 100 && (o1 & 0b1100_0000) == 64) || o0 == 127 || (o0 == 169
        && o1 == 254) || (o0 == 172 && (o1 & 0xF0) == 16) || (o0 == 192 && o1 == 0 && o2 == 0) || (
    o0 == 192 && o1 == 0 && o2 == 2) || (o0 == 192 && o1 == 168) || (o0 == 198 && (o1 & 0xFE)
        == 18) || (o0 == 198 && o1 == 51 && o2 == 100) || (o0 == 203 && o1 == 0 && o2 == 113)
        || o0 >= 224)
}

/// How the blocks of `ipv6_is_special` cut the first two segments.
proof fn lemma_v6_prefixes(s0: int, s1: int)
    requires
        0 <= s0 < 0x10000,
        0 <= s1 < 0x10000,
    ensures
        ({
            let top = s0 * 0x10000 + s1;
            &&& top / 0x10000 == s0
            &&& top / 0x2000000 == s0 / 512
            &&& top / 0x400000 == s0 / 64
            &&& top / 0x1000000 == s0 / 256
            &&& top / 0x100 == s0 * 256 + s1 / 256
            &&& top / 1 == top
            &&& 0 <= s1 / 256 < 256
        }),
{
    let top = s0 * 0x10000 + s1;
    assert(top / 0x10000 == s0) by (nonlinear_arith)
        requires top == s0 * 0x10000 + s1, 0 <= s1 < 0x10000;
    assert(top / 0x2000000 == s0 / 512) by (nonlinear_arith)
        requires top == s0 * 0x10000 + s1, 0 <= s0 < 0x10000, 0 <= s1 < 0x10000;
    assert(top / 0x400000 == s0 / 64) by (nonlinear_arith)
        requires top == s0 * 0x10000 + s1, 0 <= s0 < 0x10000, 0 <= s1 < 0x10000;
    assert(top / 0x1000000 == s0 / 256) by (nonlinear_arith)
        requires top == s0 * 0x10000 + s1, 0 <= s0 < 0x10000, 0 <= s1 < 0x10000;
    assert(top / 0x100 == s0 * 256 + s1 / 256) by (nonlinear_arith)
        requires top == s0 * 0x10000 + s1, 0 <= s0 < 0x10000, 0 <= s1 < 0x10000;
    assert(top / 1 == top) by (nonlinear_arith);
    assert(0 <= s1 / 256 < 256) by (nonlinear_arith)
        requires 0 <= s1 < 0x10000;
}

/// The block numbers of the networks in `ipv6_is_special`.
proof fn lemma_v6_nets()
    ensures
        0x0000_0000int / 0x10000 == 0,
        0xfc00_0000int / 0x2000000 == 126,
        0xfe80_0000int / 0x400000 == 1018,
        0xff00_0000int / 0x1000000 == 255,
        0x0100_0000int / 0x10000 == 256,
        0x2001_0000int / 0x100 == 0x200100,
        0x2001_0db8int / 1 == 0x2001_0db8,
{
    assert(0x0000_0000int / 0x10000int == 0) by (nonlinear_arith);
    assert(0xfc00_0000int / 0x2000000int == 126) by (nonlinear_arith);
    assert(0xfe80_0000int / 0x400000int == 1018) by (nonlinear_arith);
    assert(0xff00_0000int / 0x1000000int == 255) by (nonlinear_arith);
    assert(0x0100_0000int / 0x10000int == 256) by (nonlinear_arith);
    assert(0x2001_0000int / 0x100int == 0x200100) by (nonlinear_arith);
    assert(0x2001_0db8int / 1int == 0x2001_0db8) by (nonlinear_arith);
}

/// The IPv4 address inside an IPv4-mapped IPv6 address, as `to_ipv4_mapped`
/// of the standard library finds it.
fn to_ipv4_mapped(s: [u16; 8]) -> (r: Option<[u8; 4]>)
    ensures
        match ipv4_mapped(s@) {
            Some(a) => r matches Some(o) && v4(o@[0] as int, o@[1] as int, o@[2] as int, o@[3] as int) == a,
            None => r is None,
        },
{
    if s[0] == 0 && s[1] == 0 && s[2] == 0 && s[3] == 0 && s[4] == 0 && s[5] == 0xffff {
        let ab = s[6];
        let cd = s[7];
        let a = (ab >> 8) as u8;
        let b = #[verifier::truncate] (ab as u8);
        let c = (cd >> 8) as u8;
        let d = #[verifier::truncate] (cd as u8);
        assert(((ab >> 8) as u8) as int * 256 + (ab as u8) as int == ab as int) by (bit_vector);
        assert(((cd >> 8) as u8) as int * 256 + (cd as u8) as int == cd as int) by (bit_vector);
        let o = [a, b, c, d];
        assert(o@[0] == a && o@[1] == b && o@[2] == c && o@[3] == d);
        Some(o)
    } else {
        None
    }
}

/// `::1`.
fn is_ipv6_loopback(s: [u16; 8]) -> (r: bool)
    ensures
        r == (s@ == seq![0u16, 0, 0, 0, 0, 0, 0, 1]),
{
    let r = s[0] == 0 && s[1] == 0 && s[2] == 0 && s[3] == 0 && s[4] == 0 && s[5] == 0 && s[6]
        == 0 && s[7] == 1;
    assert(r ==> s@ =~= seq![0u16, 0, 0, 0, 0, 0, 0, 1]);
    r
}

/// `::`.
fn is_ipv6_unspecified(s: [u16; 8]) -> (r: bool)
    ensures
        r == (s@ == seq![0u16, 0, 0, 0, 0, 0, 0, 0]),
{
    let r = s[0] == 0 && s[1] == 0 && s[2] == 0 && s[3] == 0 && s[4] == 0 && s[5] == 0 && s[6]
        == 0 && s[7] == 0;
    assert(r ==> s@ =~= seq![0u16, 0, 0, 0, 0, 0, 0, 0]);
    r
}

/// Whether eight segments form a public IPv6 address; an IPv4-mapped address
/// is judged by the IPv4 rules.
fn is_public_ipv6(s: [u16; 8]) -> (r: bool)
    ensures
        r == match ipv4_mapped(s@) {
            Some(a) => !ipv4_is_special(a),
            None => !ipv6_is_special(s@[0] * 0x10000 + s@[1]),
        },
{
    if let Some(mapped) = to_ipv4_mapped(s) {
        return is_public_ipv4(mapped);
    }
    let s0 = s[0];
    let s1 = s[1];
    proof {
        lemma2_to64();
        lemma_v6_prefixes(s0 as int, s1 as int);
        lemma_v6_nets();
        assert((s0 & 0xfe00) == 0xfc00 <==> s0 / 512 == 126) by (bit_vector);
        assert((s0 & 0xffc0) == 0xfe80 <==> s0 / 64 == 1018) by (bit_vector);
        assert((s0 & 0xff00) == 0xff00 <==> s0 / 256 == 255) by (bit_vector);
        assert((s1 & 0xff00) == 0 <==> s1 / 256 == 0) by (bit_vector);
    }
    let loopback = is_ipv6_loopback(s);
    let unspecified = is_ipv6_unspecified(s);
    proof {
        if loopback || unspecified {
            assert(s@[0] == 0);
        }
    }
    !(loopback || unspecified || s0 == 0 || (s0 & 0xfe00) == 0xfc00 || (s0 & 0xffc0) == 0xfe80
        || (s0 & 0xff00) == 0xff00 || s0 == 0x0100 || (s0 == 0x2001 && (s1 & 0xff00) == 0x0000)
        || (s0 == 0x2001 && s1 == 0x0db8))
}

/// Returns true if the IP belongs to the public internet: excludes private
/// ranges, loopback, link-local, CGNAT, documentation, benchmarking, multicast
/// and reserved blocks.
pub fn is_public_ip(ip: IpAddress) -> (r: bool)
    ensures
        r == ip_is_public(ip),
{
    match ip {
        IpAddress::V4(o) => is_public_ipv4(o),
        IpAddress::V6(s) => is_public_ipv6(s),
    }
}

/// An IPv4-mapped IPv6 address `::ffff:a.b.c.d` is public exactly when
/// `a.b.c.d` is.
pub proof fn lemma_mapped_follows_ipv4(o: [u8; 4], s: [u16; 8])
    requires
        s@[0] == 0 && s@[1] == 0 && s@[2] == 0 && s@[3] == 0 && s@[4] == 0,
        s@[5] == 0xffff,
        s@[6] == o@[0] * 256 + o@[1],
        s@[7] == o@[2] * 256 + o@[3],
    ensures
        ip_is_public(IpAddress::V6(s)) == ip_is_public(IpAddress::V4(o)),
{
}

/// An IPv4 address `a.b.c.d` is public exactly when it lies outside these
/// blocks: 0.0.0.0/8, 10.0.0.0/8, 100.64.0.0/10, 127.0.0.0/8, 169.254.0.0/16,
/// 172.16.0.0/12, 192.0.0.0/24, 192.0.2.0/24, 192.168.0.0/16, 198.18.0.0/15,
/// 198.51.100.0/24, 203.0.113.0/24 and 224.0.0.0/3, each written here as
/// ranges of octets.
pub proof fn lemma_ipv4_public_blocks(o: [u8; 4])
    ensures
        ip_is_public(IpAddress::V4(o)) <==> !({
            let (a, b, c) = (o@[0], o@[1], o@[2]);
            ||| a == 0
            ||| a == 10
            ||| (a == 100 && 64 <= b <= 127)
            ||| a == 127
            ||| (a == 169 && b == 254)
            ||| (a == 172 && 16 <= b <= 31)
            ||| (a == 192 && b == 0 && c == 0)
            ||| (a == 192 && b == 0 && c == 2)
            ||| (a == 192 && b == 168)
            ||| (a == 198 && 18 <= b <= 19)
            ||| (a == 198 && b == 51 && c == 100)
            ||| (a == 203 && b == 0 && c == 113)
            ||| a >= 224
        }),
{
    let (o0, o1, o2) = (o@[0], o@[1], o@[2]);
    lemma2_to64();
    lemma_v4_prefixes(o0 as int, o1 as int, o2 as int, o@[3] as int);
    lemma_v4_nets();
    assert(o1 / 64 == 1 <==> 64 <= o1 <= 127);
    assert(o1 / 16 == 1 <==> 16 <= o1 <= 31);
    assert(o1 / 2 == 9 <==> 18 <= o1 <= 19);
    assert(o0 / 32 == 7 <==> o0 >= 224);
}

/// An IPv6 address that is not IPv4-mapped is public exactly when its
/// segments lie outside these blocks: ::/16 (which holds :: and ::1),
/// fc00::/7, fe80::/10, ff00::/8, 100::/16, 2001::/24 and 2001:db8::/32, each
/// written here as ranges of the first two segments.
pub proof fn lemma_ipv6_public_blocks(s: [u16; 8])
    requires
        !(s@[0] == 0 && s@[1] == 0 && s@[2] == 0 && s@[3] == 0 && s@[4] == 0 && s@[5] == 0xffff),
    ensures
        ip_is_public(IpAddress::V6(s)) <==> !({
            let (a, b) = (s@[0], s@[1]);
            ||| a == 0
            ||| 0xfc00 <= a <= 0xfdff
            ||| 0xfe80 <= a <= 0xfebf
            ||| a >= 0xff00
            ||| a == 0x0100
            ||| (a == 0x2001 && b <= 0x00ff)
            ||| (a == 0x2001 && b == 0x0db8)
        }),
{
    let (s0, s1) = (s@[0], s@[1]);
    lemma2_to64();
    lemma_v6_prefixes(s0 as int, s1 as int);
    lemma_v6_nets();
    assert(s0 / 512 == 126 <==> 0xfc00 <= s0 <= 0xfdff);
    assert(s0 / 64 == 1018 <==> 0xfe80 <= s0 <= 0xfebf);
    assert(s0 / 256 == 255 <==> s0 >= 0xff00);
    assert(s1 / 256 == 0 <==> s1 <= 0x00ff);
}

/// The addresses of `addrs` whose verdict (at the same position) is `keep`,
/// in their order.
pub open spec fn addresses_with_verdict(
    addrs: Seq<SocketAddress>,
    verdicts: Seq<bool>,
    keep: bool,
) -> Seq<SocketAddress>
    decreases addrs.len(),
{
    if addrs.len() == 0 {
        Seq::empty()
    } else {
        let front = addresses_with_verdict(addrs.drop_last(), verdicts, keep);
        if verdicts[addrs.len() - 1] == keep {
            front.push(addrs.last())
        } else {
            front
        }
    }
}

/// Keeps the addresses that an IP filter accepted (`verdicts[i]` is the
/// filter's answer for `addrs[i].ip`). When it accepted none, the rejected IPs
/// come back as the error.
pub fn filter_addresses(addrs: Vec<SocketAddress>, verdicts: &Vec<bool>) -> (r: Result<
    Vec<SocketAddress>,
    Vec<IpAddress>,
>)
    requires
        verdicts@.len() == addrs@.len(),
    ensures
        ({
            let allowed = addresses_with_verdict(addrs@, verdicts@, true);
            let rejected = addresses_with_verdict(addrs@, verdicts@, false);
            if allowed.len() > 0 {
                r matches Ok(a) && a@ == allowed
            } else {
                &&& r matches Err(ips) && ips@ == rejected.map_values(|a: SocketAddress| a.ip)
                &&& rejected == addrs@
            }
        }),
{
    let mut allowed: Vec<SocketAddress> = Vec::new();
    let mut rejected: Vec<IpAddress> = Vec::new();
    let ghost rejected_addrs: Seq<SocketAddress> = Seq::empty();
    let n = addrs.len();
    for i in 0..n
        invariant
            n == addrs@.len(),
            verdicts@.len() == n,
            allowed@ == addresses_with_verdict(addrs@.take(i as int), verdicts@, true),
            rejected_addrs == addresses_with_verdict(addrs@.take(i as int), verdicts@, false),
            rejected@ == rejected_addrs.map_values(|a: SocketAddress| a.ip),
            allowed@.len() + rejected_addrs.len() == i,
    {
        proof {
            assert(addrs@.take(i + 1).drop_last() =~= addrs@.take(i as int));
        }
        let a = addrs[i];
        if verdicts[i] {
            allowed.push(a);
        } else {
            rejected.push(a.ip);
            proof {
                rejected_addrs = rejected_addrs.push(a);
            }
            assert(rejected@ =~= rejected_addrs.map_values(|a: SocketAddress| a.ip));
        }
    }
    proof {
        assert(addrs@.take(n as int) =~= addrs@);
        if allowed@.len() == 0 {
            lemma_all_rejected(addrs@, verdicts@);
        }
    }
    if allowed.len() > 0 {
        Ok(allowed)
    } else {
        Err(rejected)
    }
}

/// When no address is kept, every address is rejected.
proof fn lemma_all_rejected(addrs: Seq<SocketAddress>, verdicts: Seq<bool>)
    requires
        addresses_with_verdict(addrs, verdicts, true).len() == 0,
    ensures
        addresses_with_verdict(addrs, verdicts, false) == addrs,
    decreases addrs.len(),
{
    if addrs.len() > 0 {
        lemma_all_rejected(addrs.drop_last(), verdicts);
        assert(addrs.drop_last().push(addrs.last()) =~= addrs);
    }
}

/// When each verdict is whether the address's IP is public, the addresses
/// that `filter_addresses` keeps are all public and those it rejects are all
/// not: a filter built from `is_public_ip` lets no private or reserved address
/// through.
pub proof fn lemma_public_filter(addrs: Seq<SocketAddress>, verdicts: Seq<bool>)
    requires
        verdicts.len() >= addrs.len(),
        forall|i: int| 0 <= i < addrs.len() ==> verdicts[i] == ip_is_public(#[trigger] addrs[i].ip),
    ensures
        forall|k: int|
            0 <= k < addresses_with_verdict(addrs, verdicts, true).len() ==> ip_is_public(
                #[trigger] addresses_with_verdict(addrs, verdicts, true)[k].ip,
            ),
        forall|k: int|
            0 <= k < addresses_with_verdict(addrs, verdicts, false).len() ==> !ip_is_public(
                #[trigger] addresses_with_verdict(addrs, verdicts, false)[k].ip,
            ),
    decreases addrs.len(),
{
    if addrs.len() > 0 {
        let front = addrs.drop_last();
        assert forall|i: int| 0 <= i < front.len() implies verdicts[i] == ip_is_public(
            #[trigger] front[i].ip,
        ) by {
            assert(front[i] == addrs[i]);
        }
        lemma_public_filter(front, verdicts);
        assert(verdicts[addrs.len() - 1] == ip_is_public(addrs[addrs.len() - 1].ip));
    }
}

/// Kept and rejected addresses add up to all of them.
proof fn lemma_filter_counts(addrs: Seq<SocketAddress>, verdicts: Seq<bool>)
    ensures
        addresses_with_verdict(addrs, verdicts, true).len() + addresses_with_verdict(
            addrs,
            verdicts,
            false,
        ).len() == addrs.len(),
    decreases addrs.len(),
{
    if addrs.len() > 0 {
        lemma_filter_counts(addrs.drop_last(), verdicts);
    }
}

/// Each address in a list came from some position whose verdict chose it.
proof fn lemma_filter_sources(addrs: Seq<SocketAddress>, verdicts: Seq<bool>, keep: bool, k: int)
    requires
        0 <= k < addresses_with_verdict(addrs, verdicts, keep).len(),
    ensures
        exists|j: int|
            0 <= j < addrs.len() && addrs[j] == addresses_with_verdict(addrs, verdicts, keep)[k]
                && verdicts[j] == keep,
    decreases addrs.len(),
{
    let front = addrs.drop_last();
    let f = addresses_with_verdict(front, verdicts, keep);
    let last = addrs.len() - 1;
    if k < f.len() {
        lemma_filter_sources(front, verdicts, keep, k);
        let j = choose|j: int| 0 <= j < front.len() && front[j] == f[k] && verdicts[j] == keep;
        assert(addrs[j] == front[j]);
    } else {
        assert(addrs[last] == addresses_with_verdict(addrs, verdicts, keep)[k]);
    }
}

/// Each address is in the list that its verdict chooses.
proof fn lemma_filter_targets(addrs: Seq<SocketAddress>, verdicts: Seq<bool>, j: int)
    requires
        0 <= j < addrs.len(),
    ensures
        addresses_with_verdict(addrs, verdicts, verdicts[j]).contains(addrs[j]),
    decreases addrs.len(),
{
    let front = addrs.drop_last();
    let keep = verdicts[j];
    let all = addresses_with_verdict(addrs, verdicts, keep);
    if j < addrs.len() - 1 {
        lemma_filter_targets(front, verdicts, j);
        let f = addresses_with_verdict(front, verdicts, keep);
        assert(front[j] == addrs[j]);
        let k = choose|k: int| 0 <= k < f.len() && f[k] == front[j];
        assert(all[k] == f[k]);
    } else {
        assert(all[all.len() - 1] == addrs[j]);
    }
}

/// When every verdict is the same, that list holds every address in order.
proof fn lemma_filter_uniform(addrs: Seq<SocketAddress>, verdicts: Seq<bool>, keep: bool)
    requires
        forall|i: int| 0 <= i < addrs.len() ==> verdicts[i] == keep,
    ensures
        addresses_with_verdict(addrs, verdicts, keep) == addrs,
    decreases addrs.len(),
{
    if addrs.len() > 0 {
        lemma_filter_uniform(addrs.drop_last(), verdicts, keep);
        assert(addrs.drop_last().push(addrs.last()) =~= addrs);
    } else {
        assert(addrs =~= Seq::<SocketAddress>::empty());
    }
}

/// The filter splits the addresses in two: every address lands in exactly one
/// of the kept and the rejected lists, every accepted address is kept and
/// every kept one was accepted (and likewise for the rejected ones), so when
/// all are accepted all are kept in order, and when none is, none is kept.
pub proof fn lemma_filter_partition(addrs: Seq<SocketAddress>, verdicts: Seq<bool>)
    ensures
        addresses_with_verdict(addrs, verdicts, true).len() + addresses_with_verdict(
            addrs,
            verdicts,
            false,
        ).len() == addrs.len(),
        forall|keep: bool, k: int|
            0 <= k < addresses_with_verdict(addrs, verdicts, keep).len() ==> exists|j: int|
                0 <= j < addrs.len() && addrs[j] == #[trigger] addresses_with_verdict(
                    addrs,
                    verdicts,
                    keep,
                )[k] && verdicts[j] == keep,
        forall|j: int|
            0 <= j < addrs.len() ==> addresses_with_verdict(addrs, verdicts, verdicts[j]).contains(
                #[trigger] addrs[j],
            ),
        (forall|i: int| 0 <= i < addrs.len() ==> verdicts[i]) ==> addresses_with_verdict(
            addrs,
            verdicts,
            true,
        ) == addrs,
        (forall|i: int| 0 <= i < addrs.len() ==> !verdicts[i]) ==> addresses_with_verdict(
            addrs,
            verdicts,
            true,
        ).len() == 0,
{
    lemma_filter_counts(addrs, verdicts);
    assert forall|keep: bool, k: int|
        0 <= k < addresses_with_verdict(addrs, verdicts, keep).len() implies exists|j: int|
            0 <= j < addrs.len() && addrs[j] == #[trigger] addresses_with_verdict(
                addrs,
                verdicts,
                keep,
            )[k] && verdicts[j] == keep by {
        lemma_filter_sources(addrs, verdicts, keep, k);
    }
    assert forall|j: int| 0 <= j < addrs.len() implies addresses_with_verdict(
        addrs,
        verdicts,
        verdicts[j],
    ).contains(#[trigger] addrs[j]) by {
        lemma_filter_targets(addrs, verdicts, j);
    }
    if forall|i: int| 0 <= i < addrs.len() ==> verdicts[i] {
        lemma_filter_uniform(addrs, verdicts, true);
    }
    if forall|i: int| 0 <= i < addrs.len() ==> !verdicts[i] {
        lemma_filter_uniform(addrs, verdicts, false);
    }
}

/// Each IP with the same port, in order.
pub fn with_port(ips: &Vec<IpAddress>, port: u16) -> (r: Vec<SocketAddress>)
    ensures
        r@ == ips@.map_values(|ip: IpAddress| (SocketAddress { ip, port })),
{
    let mut r: Vec<SocketAddress> = Vec::new();
    for i in 0..ips.len()
        invariant
            r@ == ips@.take(i as int).map_values(|ip: IpAddress| (SocketAddress { ip, port })),
    {
        r.push(SocketAddress { ip: ips[i], port });
        assert(r@ =~= ips@.take(i + 1).map_values(|ip: IpAddress| (SocketAddress { ip, port })));
    }
    assert(ips@.take(ips.len() as int) =~= ips@);
    r
}

} // verus!
