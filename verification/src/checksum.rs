//! RFC 1071 internet checksums: sums of big-endian 16-bit words folded to
//! 16 bits, and the pseudo-header sums of TCP and UDP.
use vstd::prelude::*;
use crate::endian::{be16, be_read_u16, be_write_u16, put16};

verus! {

// ---------------------------------------------------------------------------
// Mathematical model
// ---------------------------------------------------------------------------

/// One folding step: the carries above bit 16 are added back to the low word.
pub open spec fn fold_carry(w: int) -> int {
    w / 0x1_0000 + w % 0x1_0000
}

/// Two folding steps, which bring every 32-bit sum down to 16 bits.
pub open spec fn fold_carries(w: int) -> int {
    fold_carry(fold_carry(w))
}

/// The `k`-th big-endian 16-bit word of `s`.
pub open spec fn word_at(s: Seq<u8>, k: int) -> int {
    be16(s, 2 * k)
}

/// The sum of the first `n` big-endian 16-bit words of `s`.
pub open spec fn word_sum(s: Seq<u8>, n: nat) -> int
    decreases n,
{
    if n == 0 {
        0
    } else {
        word_sum(s, (n - 1) as nat) + word_at(s, n - 1)
    }
}

/// The unfolded RFC 1071 sum of `s`: all its 16-bit words, and a last odd
/// byte padded with a zero byte on its right.
pub open spec fn raw_sum(s: Seq<u8>) -> int {
    word_sum(s, s.len() / 2) + if s.len() % 2 == 1 {
        s[s.len() - 1] * 256
    } else {
        0
    }
}

/// The RFC 1071 checksum of `s`, without the final complement.
pub open spec fn data_checksum(s: Seq<u8>) -> int {
    fold_carries(raw_sum(s))
}

/// The sum of a sequence of 16-bit words.
pub open spec fn word_total(ws: Seq<u16>) -> int
    decreases ws.len(),
{
    if ws.len() == 0 {
        0
    } else {
        word_total(ws.drop_last()) + ws.last()
    }
}

/// The protocol and length words of a pseudo header: a zero byte, the
/// protocol number and the length taken as a 16-bit big-endian value.
pub open spec fn proto_len_bytes(proto: u8, length: u32) -> Seq<u8> {
    let w = length % 0x1_0000;
    seq![0u8, proto, (w / 256) as u8, (w % 256) as u8]
}

/// The folded sum of a pseudo header made of the two addresses, the
/// protocol and the length.
pub open spec fn pseudo_header_sum(src: Seq<u8>, dst: Seq<u8>, proto: u8, length: u32) -> int {
    fold_carries(
        data_checksum(src) + data_checksum(dst) + data_checksum(proto_len_bytes(proto, length)),
    )
}

// ---------------------------------------------------------------------------
// Addresses and protocols
// ---------------------------------------------------------------------------

/// A 4-octet IPv4 address.
#[derive(Clone, Copy, PartialEq, Eq, Debug)]
pub struct Ipv4Address(pub [u8; 4]);

/// A 16-octet IPv6 address.
#[derive(Clone, Copy, PartialEq, Eq, Debug)]
pub struct Ipv6Address(pub [u8; 16]);

/// An IP address of either family.
#[derive(Clone, Copy, PartialEq, Eq, Debug)]
pub enum IpAddress {
    Ipv4(Ipv4Address),
    Ipv6(Ipv6Address),
}

/// The protocol carried in an IP packet, by its protocol number.
#[derive(Clone, Copy, PartialEq, Eq, Structural, Debug)]
pub enum IpProtocol {
    Tcp,
    Udp,
    Unknown(u8),
}

impl Ipv4Address {
    /// Builds an address from its four octets (which must be exactly four).
    pub fn from_bytes(data: &[u8]) -> (r: Ipv4Address)
        requires
            data@.len() == 4,
        ensures
            r.0@ == data@,
    {
        let r = Ipv4Address([data[0], data[1], data[2], data[3]]);
        assert(r.0@ =~= data@);
        r
    }

    /// The four octets of the address.
    pub fn as_bytes(&self) -> (r: &[u8])
        ensures
            r@ == self.0@,
    {
        self.0.as_slice()
    }
}

impl Ipv6Address {
    /// Builds an address from its sixteen octets (which must be exactly sixteen).
    pub fn from_bytes(data: &[u8]) -> (r: Ipv6Address)
        requires
            data@.len() == 16,
        ensures
            r.0@ == data@,
    {
        let r = Ipv6Address(
            [
                data[0],
                data[1],
                data[2],
                data[3],
                data[4],
                data[5],
                data[6],
                data[7],
                data[8],
                data[9],
                data[10],
                data[11],
                data[12],
                data[13],
                data[14],
                data[15],
            ],
        );
        assert(r.0@ =~= data@);
        r
    }

    /// The sixteen octets of the address.
    pub fn as_bytes(&self) -> (r: &[u8])
        ensures
            r@ == self.0@,
    {
        self.0.as_slice()
    }
}

/// The octets of an address of either family.
pub open spec fn address_bytes(a: IpAddress) -> Seq<u8> {
    match a {
        IpAddress::Ipv4(v4) => v4.0@,
        IpAddress::Ipv6(v6) => v6.0@,
    }
}

/// Whether two addresses belong to the same family.
pub open spec fn same_family(a: IpAddress, b: IpAddress) -> bool {
    (a is Ipv4 && b is Ipv4) || (a is Ipv6 && b is Ipv6)
}

/// The IANA protocol number of a protocol.
pub open spec fn protocol_number(p: IpProtocol) -> u8 {
    match p {
        IpProtocol::Tcp => 6,
        IpProtocol::Udp => 17,
        IpProtocol::Unknown(n) => n,
    }
}

impl IpProtocol {
    /// The IANA protocol number: 6 for TCP, 17 for UDP.
    pub fn number(&self) -> (r: u8)
        ensures
            r == protocol_number(*self),
    {
        match self {
            IpProtocol::Tcp => 6,
            IpProtocol::Udp => 17,
            IpProtocol::Unknown(n) => *n,
        }
    }
}

// ---------------------------------------------------------------------------
// Lemmas about the model
// ---------------------------------------------------------------------------

/// Every word sum is non-negative and at most 65535 per word.
pub proof fn lemma_word_sum_bound(s: Seq<u8>, n: nat)
    requires
        2 * n <= s.len(),
    ensures
        0 <= word_sum(s, n) <= n * 0xffff,
    decreases n,
{
    if n > 0 {
        lemma_word_sum_bound(s, (n - 1) as nat);
    }
}

/// Word sums only grow as more words are added.
pub proof fn lemma_word_sum_mono(s: Seq<u8>, m: nat, n: nat)
    requires
        m <= n,
        2 * n <= s.len(),
    ensures
        word_sum(s, m) <= word_sum(s, n),
    decreases n,
{
    if m < n {
        lemma_word_sum_mono(s, m, (n - 1) as nat);
    }
}

/// The unfolded sum of `s` is bounded by half its length (rounded up) times 2^16.
pub proof fn lemma_raw_sum_bound(s: Seq<u8>)
    ensures
        0 <= raw_sum(s) <= (s.len() + 1) * 0x8000,
{
    lemma_word_sum_bound(s, s.len() / 2);
}

/// Word totals of prefixes never exceed the total of the whole sequence.
pub proof fn lemma_word_total_prefix(ws: Seq<u16>, i: int)
    requires
        0 <= i <= ws.len(),
    ensures
        0 <= word_total(ws.take(i)) <= word_total(ws),
    decreases ws.len(),
{
    if i == ws.len() {
        assert(ws.take(i) =~= ws);
        lemma_word_total_nonneg(ws);
    } else {
        lemma_word_total_prefix(ws.drop_last(), i);
        assert(ws.drop_last().take(i) =~= ws.take(i));
    }
}

/// Word totals are never negative.
pub proof fn lemma_word_total_nonneg(ws: Seq<u16>)
    ensures
        0 <= word_total(ws),
    decreases ws.len(),
{
    if ws.len() > 0 {
        lemma_word_total_nonneg(ws.drop_last());
    }
}

/// Folding keeps the value of a sum modulo 65535, which is what the
/// ones'-complement arithmetic of the internet checksum works in.
pub proof fn lemma_fold_carry_mod(w: int)
    requires
        0 <= w,
    ensures
        fold_carry(w) % 0xffff == w % 0xffff,
        0 <= fold_carry(w) <= w,
{
    let q = w / 0x1_0000;
    let r = w % 0x1_0000;
    assert(w == 0x1_0000 * q + r);
    assert(w == 0xffff * q + (q + r)) by (nonlinear_arith)
        requires
            w == 0x1_0000 * q + r,
    ;
    vstd::arithmetic::div_mod::lemma_mod_multiples_vanish(q, q + r, 0xffff);
}

/// The two folding steps keep a 32-bit sum modulo 65535 and bring it to 16
/// bits: a folded checksum stands for the same ones'-complement value as
/// the sum it was folded from.
pub proof fn lemma_fold_carries_congruent(w: int)
    requires
        0 <= w <= 0xffff_ffff,
    ensures
        0 <= fold_carries(w) <= 0xffff,
        fold_carries(w) % 0xffff == w % 0xffff,
{
    lemma_fold_carry_mod(w);
    lemma_fold_carry_mod(fold_carry(w));
}

/// Adding bytes after `a` leaves the words inside `a` as they were.
proof fn lemma_word_sum_prefix(a: Seq<u8>, b: Seq<u8>, n: nat)
    requires
        2 * n <= a.len(),
    ensures
        word_sum(a + b, n) == word_sum(a, n),
    decreases n,
{
    if n > 0 {
        lemma_word_sum_prefix(a, b, (n - 1) as nat);
        assert((a + b)[2 * (n - 1)] == a[2 * (n - 1)]);
        assert((a + b)[2 * (n - 1) + 1] == a[2 * (n - 1) + 1]);
    }
}

/// After an even-length `a`, the words of `a + b` are those of `a` followed
/// by those of `b`.
proof fn lemma_word_sum_append(a: Seq<u8>, b: Seq<u8>, m: nat)
    requires
        a.len() % 2 == 0,
        2 * m <= b.len(),
    ensures
        word_sum(a + b, (a.len() / 2 + m) as nat) == word_sum(a, a.len() / 2) + word_sum(b, m),
    decreases m,
{
    if m == 0 {
        lemma_word_sum_prefix(a, b, a.len() / 2);
    } else {
        lemma_word_sum_append(a, b, (m - 1) as nat);
        let k = a.len() / 2 + m - 1;
        assert(2 * k == a.len() + 2 * (m - 1));
        assert((a + b)[2 * k] == b[2 * (m - 1)]);
        assert((a + b)[2 * k + 1] == b[2 * (m - 1) + 1]);
    }
}

/// The unfolded sum of an even-length `a` followed by `b` is the sum of the
/// two unfolded sums.
pub proof fn lemma_raw_sum_concat(a: Seq<u8>, b: Seq<u8>)
    requires
        a.len() % 2 == 0,
    ensures
        raw_sum(a + b) == raw_sum(a) + raw_sum(b),
{
    let ab = a + b;
    assert(ab.len() / 2 == a.len() / 2 + b.len() / 2);
    lemma_word_sum_append(a, b, b.len() / 2);
    if b.len() % 2 == 1 {
        assert(ab[ab.len() - 1] == b[b.len() - 1]);
    }
}

/// Two folded sums that differ by a multiple of 65535, and are zero
/// together, are equal: 0 and 0xffff are the only two 16-bit forms of one
/// ones'-complement value, and a folded sum is 0 only for a zero sum.
proof fn lemma_same_folded(u: int, v: int, k: int)
    requires
        0 <= u <= 0xffff,
        0 <= v <= 0xffff,
        u - v == 0xffff * k,
        u == 0 <==> v == 0,
    ensures
        u == v,
{
    assert(-1 <= k <= 1) by (nonlinear_arith)
        requires
            0 <= u <= 0xffff,
            0 <= v <= 0xffff,
            u - v == 0xffff * k,
    ;
}

/// RFC 1071 is incremental: folding the checksums of an even-length `a`
/// and of `b` together gives the checksum of `a + b`.
pub proof fn lemma_data_checksum_combine(a: Seq<u8>, b: Seq<u8>)
    requires
        a.len() % 2 == 0,
        raw_sum(a + b) <= u32::MAX,
    ensures
        fold_carries(data_checksum(a) + data_checksum(b)) == data_checksum(a + b),
{
    lemma_raw_sum_concat(a, b);
    lemma_raw_sum_bound(a);
    lemma_raw_sum_bound(b);
    let ra = raw_sum(a);
    let rb = raw_sum(b);
    lemma_fold_carries_exact(ra);
    lemma_fold_carries_exact(rb);
    lemma_fold_carries_exact(ra + rb);
    let x = data_checksum(a);
    let y = data_checksum(b);
    lemma_fold_carries_exact(x + y);
    let k1 = ra / 0x1_0000 + fold_carry(ra) / 0x1_0000;
    let k2 = rb / 0x1_0000 + fold_carry(rb) / 0x1_0000;
    let k3 = (ra + rb) / 0x1_0000 + fold_carry(ra + rb) / 0x1_0000;
    let k4 = (x + y) / 0x1_0000 + fold_carry(x + y) / 0x1_0000;
    lemma_same_folded(fold_carries(x + y), data_checksum(a + b), k3 - k1 - k2 - k4);
}

/// Replacing one aligned word changes the word sums by the difference.
proof fn lemma_word_sum_put(s: Seq<u8>, k: int, v: int, n: nat)
    requires
        0 <= k,
        2 * k + 1 < s.len(),
        2 * n <= s.len(),
        0 <= v <= 0xffff,
    ensures
        word_sum(put16(s, 2 * k, v), n) == word_sum(s, n) + if k < n {
            v - word_at(s, k)
        } else {
            0
        },
    decreases n,
{
    let t = put16(s, 2 * k, v);
    if n > 0 {
        lemma_word_sum_put(s, k, v, (n - 1) as nat);
        let j = n - 1;
        if j == k {
            assert(t[2 * j] == v / 256);
            assert(t[2 * j + 1] == v % 256);
        } else {
            assert(t[2 * j] == s[2 * j]);
            assert(t[2 * j + 1] == s[2 * j + 1]);
        }
    }
}

/// Replacing one aligned word changes the unfolded sum by the difference.
pub proof fn lemma_raw_sum_put(s: Seq<u8>, at: int, v: int)
    requires
        0 <= at,
        at % 2 == 0,
        at + 2 <= s.len(),
        0 <= v <= 0xffff,
    ensures
        raw_sum(put16(s, at, v)) == raw_sum(s) - be16(s, at) + v,
{
    let k = at / 2;
    assert(2 * k == at);
    lemma_word_sum_put(s, k, v, s.len() / 2);
    let t = put16(s, at, v);
    if s.len() % 2 == 1 {
        assert(t[s.len() - 1] == s[s.len() - 1]);
    }
}

/// A value of 16 bits folds to itself.
pub proof fn lemma_fold_carries_small(w: int)
    requires
        0 <= w <= 0xffff,
    ensures
        fold_carries(w) == w,
{
}

/// Folding subtracts a multiple of 65535.
proof fn lemma_fold_carries_exact(w: int)
    requires
        0 <= w <= 0xffff_ffff,
    ensures
        fold_carries(w) == w - 0xffff * (w / 0x1_0000 + fold_carry(w) / 0x1_0000),
        0 <= fold_carries(w) <= 0xffff,
        fold_carries(w) == 0 <==> w == 0,
{
}

/// The ones'-complement arithmetic behind a filled-in checksum, on the
/// multiples of 65535 that the foldings took away.
proof fn lemma_complement_sum(extra: int, r: int, d: int, sum: int, d2: int, total: int, k1: int, k2: int, k3: int, k4: int)
    requires
        0 <= extra <= 0xffff,
        0 <= r,
        0 <= total <= 0xffff,
        d == r - 0xffff * k1,
        sum == extra + d - 0xffff * k2,
        d2 == r + (0xffff - sum) - 0xffff * k3,
        total == extra + d2 - 0xffff * k4,
        0 <= d,
        0 <= d2,
        0 <= sum <= 0xffff,
        total == 0 ==> extra + d2 == 0,
        d2 == 0 ==> r + (0xffff - sum) == 0,
        r == 0 ==> d == 0,
        extra + d == 0 ==> sum == 0,
    ensures
        total == 0xffff,
{
    assert(total == 0xffff * (k1 + 1 + k2 - k3 - k4));
}

/// A checksum filled in the RFC 1071 way verifies: when the checksum field
/// of `s` (at an even offset) holds zero and receives the complement of the
/// folded sum of `extra` and of `s`, the folded sum of `extra` and of the
/// filled-in `s` is 0xffff (ones'-complement zero).
pub proof fn lemma_filled_checksum_verifies(s: Seq<u8>, at: int, extra: int)
    requires
        0 <= at,
        at % 2 == 0,
        at + 2 <= s.len(),
        s[at] == 0,
        s[at + 1] == 0,
        0 <= extra <= 0xffff,
        raw_sum(s) + 0xffff <= u32::MAX,
    ensures
        fold_carries(
            extra + data_checksum(
                put16(s, at, 0xffff - fold_carries(extra + data_checksum(s))),
            ),
        ) == 0xffff,
{
    let r = raw_sum(s);
    lemma_raw_sum_bound(s);
    let d = data_checksum(s);
    lemma_fold_carries_exact(r);
    let sum = fold_carries(extra + d);
    lemma_fold_carries_exact(extra + d);
    let c = 0xffff - sum;
    let t = put16(s, at, c);
    lemma_raw_sum_put(s, at, c);
    let d2 = data_checksum(t);
    lemma_fold_carries_exact(r + c);
    let total = fold_carries(extra + d2);
    lemma_fold_carries_exact(extra + d2);
    lemma_complement_sum(
        extra,
        r,
        d,
        sum,
        d2,
        total,
        r / 0x1_0000 + fold_carry(r) / 0x1_0000,
        (extra + d) / 0x1_0000 + fold_carry(extra + d) / 0x1_0000,
        (r + c) / 0x1_0000 + fold_carry(r + c) / 0x1_0000,
        (extra + d2) / 0x1_0000 + fold_carry(extra + d2) / 0x1_0000,
    );
}

/// Taking word `j` out of a sequence takes its value out of the total.
proof fn lemma_word_total_remove(ws: Seq<u16>, j: int)
    requires
        0 <= j < ws.len(),
    ensures
        word_total(ws) == word_total(ws.remove(j)) + ws[j],
    decreases ws.len(),
{
    if j == ws.len() - 1 {
        assert(ws.remove(j) =~= ws.drop_last());
    } else {
        lemma_word_total_remove(ws.drop_last(), j);
        assert(ws.remove(j).drop_last() =~= ws.drop_last().remove(j));
        assert(ws.remove(j).last() == ws.last());
    }
}

/// The order of the partial sums does not matter: two sequences with the
/// same words, each as often, have the same total, so [`combine`] gives the
/// same checksum for both.
pub proof fn lemma_combine_any_order(a: Seq<u16>, b: Seq<u16>)
    requires
        a.to_multiset() == b.to_multiset(),
    ensures
        word_total(a) == word_total(b),
        fold_carries(word_total(a)) == fold_carries(word_total(b)),
    decreases a.len(),
{
    vstd::seq_lib::to_multiset_len(a);
    vstd::seq_lib::to_multiset_len(b);
    if a.len() > 0 {
        let n = a.len() - 1;
        let x = a[n];
        assert(a.remove(n) =~= a.drop_last());
        vstd::seq_lib::to_multiset_remove(a, n);
        assert(a.contains(x));
        vstd::seq_lib::to_multiset_contains(a, x);
        vstd::seq_lib::to_multiset_contains(b, x);
        let j = choose|j: int| 0 <= j < b.len() && b[j] == x;
        vstd::seq_lib::to_multiset_remove(b, j);
        lemma_combine_any_order(a.drop_last(), b.remove(j));
        lemma_word_total_remove(b, j);
    }
}

/// A 16-bit value with its two bytes swapped.
pub open spec fn swap16(v: int) -> int {
    (v % 256) * 256 + v / 256
}

/// `d` with the two bytes of every 16-bit word swapped.
pub open spec fn swapped_pairs(d: Seq<u8>) -> Seq<u8> {
    Seq::new(d.len(), |i: int| if i % 2 == 0 { d[i + 1] } else { d[i - 1] })
}

/// The sum of the high bytes of the first `n` words of `d`.
spec fn high_byte_sum(d: Seq<u8>, n: nat) -> int
    decreases n,
{
    if n == 0 {
        0
    } else {
        high_byte_sum(d, (n - 1) as nat) + d[2 * (n - 1)]
    }
}

/// Swapping the bytes of every word multiplies the word sum by 256, less a
/// multiple of 65535: each swapped word is 256 times the word, less 65535
/// times its high byte.
proof fn lemma_word_sum_swapped(d: Seq<u8>, n: nat)
    requires
        d.len() % 2 == 0,
        2 * n <= d.len(),
    ensures
        word_sum(swapped_pairs(d), n) == 256 * word_sum(d, n) - 0xffff * high_byte_sum(d, n),
        0 <= 256 * high_byte_sum(d, n) <= word_sum(d, n),
    decreases n,
{
    if n > 0 {
        lemma_word_sum_swapped(d, (n - 1) as nat);
        let k = n - 1;
        let e = swapped_pairs(d);
        assert((2 * k) % 2 == 0);
        assert((2 * k + 1) % 2 == 1);
        assert(e[2 * k] == d[2 * k + 1]);
        assert(e[2 * k + 1] == d[2 * k]);
    }
}

/// RFC 1071 does not depend on byte order: the checksum of `d` with the
/// bytes of every word swapped is the checksum of `d` with its two bytes
/// swapped. Up to 131074 bytes (65537 words) both unfolded sums fit in 32
/// bits.
pub proof fn lemma_data_checksum_byte_order(d: Seq<u8>)
    requires
        d.len() % 2 == 0,
        d.len() <= 131074,
    ensures
        raw_sum(d) <= u32::MAX,
        raw_sum(swapped_pairs(d)) <= u32::MAX,
        data_checksum(swapped_pairs(d)) == swap16(data_checksum(d)),
{
    let e = swapped_pairs(d);
    let n = (d.len() / 2) as nat;
    lemma_word_sum_bound(d, n);
    lemma_word_sum_bound(e, n);
    assert(n * 0xffff <= u32::MAX) by (nonlinear_arith)
        requires
            n <= 65537,
    ;
    lemma_word_sum_swapped(d, n);
    let r = raw_sum(d);
    let re = raw_sum(e);
    let hs = high_byte_sum(d, n);
    assert(re == 256 * r - 0xffff * hs);
    lemma_fold_carries_exact(r);
    lemma_fold_carries_exact(re);
    let x = data_checksum(d);
    let y = data_checksum(e);
    let k1 = r / 0x1_0000 + fold_carry(r) / 0x1_0000;
    let k2 = re / 0x1_0000 + fold_carry(re) / 0x1_0000;
    assert(swap16(x) == 256 * x - 0xffff * (x / 256));
    assert(swap16(x) - y == 0xffff * (k2 - 256 * k1 + hs - x / 256)) by (nonlinear_arith)
        requires
            x == r - 0xffff * k1,
            y == re - 0xffff * k2,
            re == 256 * r - 0xffff * hs,
            swap16(x) == 256 * x - 0xffff * (x / 256),
    ;
    assert(0 <= swap16(x) <= 0xffff);
    assert(swap16(x) == 0 <==> x == 0);
    lemma_same_folded(swap16(x), y, k2 - 256 * k1 + hs - x / 256);
}

/// The pseudo-header sum is the standard one: the sum of the two addresses,
/// the protocol number and the length taken modulo 2^16, folded to 16 bits.
pub proof fn lemma_pseudo_header_sum_standard(src: Seq<u8>, dst: Seq<u8>, proto: u8, length: u32)
    requires
        src.len() <= 16,
        dst.len() <= 16,
    ensures
        pseudo_header_sum(src, dst, proto, length) == fold_carries(
            raw_sum(src) + raw_sum(dst) + proto + length % 0x1_0000,
        ),
{
    let pl = proto_len_bytes(proto, length);
    let w = length % 0x1_0000;
    assert(0 <= w / 256 < 256 && (w / 256) * 256 + w % 256 == w);
    assert(pl[0] == 0 && pl[1] == proto && pl[2] == w / 256 && pl[3] == w % 256);
    assert(word_sum(pl, 0) == 0);
    assert(word_sum(pl, 1) == proto);
    assert(word_sum(pl, 2) == proto + w);
    assert(raw_sum(pl) == proto + w);
    lemma_raw_sum_bound(src);
    lemma_raw_sum_bound(dst);
    let rs = raw_sum(src);
    let rd = raw_sum(dst);
    let rp = raw_sum(pl);
    lemma_fold_carries_exact(rs);
    lemma_fold_carries_exact(rd);
    lemma_fold_carries_exact(rp);
    let x = data_checksum(src);
    let y = data_checksum(dst);
    let z = data_checksum(pl);
    lemma_fold_carries_exact(x + y + z);
    lemma_fold_carries_exact(rs + rd + rp);
    let k1 = rs / 0x1_0000 + fold_carry(rs) / 0x1_0000;
    let k2 = rd / 0x1_0000 + fold_carry(rd) / 0x1_0000;
    let k3 = rp / 0x1_0000 + fold_carry(rp) / 0x1_0000;
    let k4 = (x + y + z) / 0x1_0000 + fold_carry(x + y + z) / 0x1_0000;
    let k5 = (rs + rd + rp) / 0x1_0000 + fold_carry(rs + rd + rp) / 0x1_0000;
    lemma_same_folded(
        fold_carries(x + y + z),
        fold_carries(rs + rd + rp),
        k5 - k1 - k2 - k3 - k4,
    );
}

// ---------------------------------------------------------------------------
// Executable checksums
// ---------------------------------------------------------------------------

/// Folds the carries of a 32-bit sum into 16 bits.
pub fn propagate_carries(word: u32) -> (r: u16)
    ensures
        r == fold_carries(word as int),
{
    let mut word = word;
    assert(word >> 16u32 == word / 0x1_0000 && word & 0xffffu32 == word % 0x1_0000)
        by (bit_vector);
    word = (word >> 16) + (word & 0xffff);
    assert(word >> 16u32 == word / 0x1_0000 && word & 0xffffu32 == word % 0x1_0000)
        by (bit_vector);
    word = (word >> 16) + (word & 0xffff);
    word as u16
}

/// The size of the chunks that [`data`] sums first.
pub const CHUNK_SIZE: usize = 32;

/// Compute an RFC 1071 compliant checksum (without the final complement).
pub fn data(buf: &[u8]) -> (r: u16)
    requires
        raw_sum(buf@) <= u32::MAX,
    ensures
        r == data_checksum(buf@),
{
    let len = buf.len();
    let mut accum: u32 = 0;
    let mut pos: usize = 0;
    proof {
        lemma_word_sum_bound(buf@, len as nat / 2);
    }
    // For each 32-byte chunk...
    while len - pos >= CHUNK_SIZE
        invariant
            len == buf@.len(),
            pos <= len,
            pos % 2 == 0,
            accum == word_sum(buf@, pos as nat / 2),
            raw_sum(buf@) <= u32::MAX,
            word_sum(buf@, len as nat / 2) <= raw_sum(buf@),
        decreases len - pos,
    {
        let chunk_end = pos + CHUNK_SIZE;
        // ... take by 2 bytes and sum them.
        while chunk_end - pos >= 2
            invariant
                len == buf@.len(),
                pos <= chunk_end <= len,
                pos % 2 == 0,
                chunk_end % 2 == 0,
                accum == word_sum(buf@, pos as nat / 2),
                raw_sum(buf@) <= u32::MAX,
                word_sum(buf@, len as nat / 2) <= raw_sum(buf@),
            decreases chunk_end - pos,
        {
            proof {
                lemma_word_sum_mono(buf@, (pos as nat / 2 + 1) as nat, len as nat / 2);
            }
            accum = accum + be_read_u16(buf, pos) as u32;
            pos = pos + 2;
        }
    }
    // Sum the rest that does not fit the last 32-byte chunk,
    // taking by 2 bytes.
    while len - pos >= 2
        invariant
            len == buf@.len(),
            pos <= len,
            pos % 2 == 0,
            accum == word_sum(buf@, pos as nat / 2),
            raw_sum(buf@) <= u32::MAX,
            word_sum(buf@, len as nat / 2) <= raw_sum(buf@),
        decreases len - pos,
    {
        proof {
            lemma_word_sum_mono(buf@, (pos as nat / 2 + 1) as nat, len as nat / 2);
        }
        accum = accum + be_read_u16(buf, pos) as u32;
        pos = pos + 2;
    }
    assert(pos as nat / 2 == len as nat / 2);
    if pos < len {
        let byte = buf[pos];
        assert((byte as u32) << 8u32 == byte * 256) by (bit_vector);
        accum = accum + ((byte as u32) << 8);
    }
    propagate_carries(accum)
}

/// Folds the sum of several partial checksums into one.
pub fn combine(checksums: &[u16]) -> (r: u16)
    requires
        word_total(checksums@) <= u32::MAX,
    ensures
        r == fold_carries(word_total(checksums@)),
{
    let mut accum: u32 = 0;
    let mut i: usize = 0;
    while i < checksums.len()
        invariant
            i <= checksums@.len(),
            accum == word_total(checksums@.take(i as int)),
            word_total(checksums@) <= u32::MAX,
        decreases checksums@.len() - i,
    {
        let word = checksums[i];
        assert(checksums@.take(i + 1).drop_last() =~= checksums@.take(i as int));
        proof {
            lemma_word_total_prefix(checksums@, i + 1);
        }
        accum = accum + word as u32;
        i = i + 1;
    }
    assert(checksums@.take(i as int) =~= checksums@);
    propagate_carries(accum)
}

/// The sum of three 16-bit words, as [`combine`] sees them.
proof fn lemma_word_total_three(a: u16, b: u16, c: u16)
    ensures
        word_total(seq![a, b, c]) == a + b + c,
{
    let s = seq![a, b, c];
    assert(s.drop_last() =~= seq![a, b]);
    lemma_word_total_two(a, b);
}

/// The sum of two 16-bit words, as [`combine`] sees them.
pub proof fn lemma_word_total_two(a: u16, b: u16)
    ensures
        word_total(seq![a, b]) == a + b,
{
    let s = seq![a, b];
    assert(s.drop_last() =~= seq![a]);
    assert(seq![a].drop_last() =~= Seq::<u16>::empty());
    assert(word_total(Seq::<u16>::empty()) == 0);
    assert(word_total(seq![a]) == a);
}

/// Sums a pseudo header from the raw bytes of two addresses.
fn pseudo_header_bytes(src: &[u8], dst: &[u8], next_header: IpProtocol, length: u32) -> (r: u16)
    requires
        src@.len() <= 16,
        dst@.len() <= 16,
    ensures
        r == pseudo_header_sum(src@, dst@, protocol_number(next_header), length),
{
    let mut proto_len = [0u8; 4];
    proto_len[1] = next_header.number();
    assert(length as u16 == length % 0x1_0000) by (bit_vector);
    be_write_u16(&mut proto_len, 2, length as u16);
    assert(proto_len@ =~= proto_len_bytes(protocol_number(next_header), length));
    proof {
        lemma_raw_sum_bound(src@);
        lemma_raw_sum_bound(dst@);
        lemma_raw_sum_bound(proto_len@);
    }
    let a = data(src);
    let b = data(dst);
    let c = data(proto_len.as_slice());
    let words: [u16; 3] = [a, b, c];
    proof {
        assert(words@ =~= seq![a, b, c]);
        lemma_word_total_three(a, b, c);
    }
    combine(words.as_slice())
}

/// The folded sum of an IPv4 pseudo header.
pub fn pseudo_header_v4(
    src_addr: &Ipv4Address,
    dst_addr: &Ipv4Address,
    next_header: IpProtocol,
    length: u32,
) -> (r: u16)
    ensures
        r == pseudo_header_sum(src_addr.0@, dst_addr.0@, protocol_number(next_header), length),
{
    pseudo_header_bytes(src_addr.as_bytes(), dst_addr.as_bytes(), next_header, length)
}

/// The folded sum of an IPv6 pseudo header.
pub fn pseudo_header_v6(
    src_addr: &Ipv6Address,
    dst_addr: &Ipv6Address,
    next_header: IpProtocol,
    length: u32,
) -> (r: u16)
    ensures
        r == pseudo_header_sum(src_addr.0@, dst_addr.0@, protocol_number(next_header), length),
{
    pseudo_header_bytes(src_addr.as_bytes(), dst_addr.as_bytes(), next_header, length)
}

/// The folded sum of the pseudo header of either family; both addresses
/// must belong to the same family.
pub fn pseudo_header(
    src_addr: &IpAddress,
    dst_addr: &IpAddress,
    next_header: IpProtocol,
    length: u32,
) -> (r: u16)
    requires
        same_family(*src_addr, *dst_addr),
    ensures
        r == pseudo_header_sum(
            address_bytes(*src_addr),
            address_bytes(*dst_addr),
            protocol_number(next_header),
            length,
        ),
{
    match (src_addr, dst_addr) {
        (IpAddress::Ipv4(src_addr), IpAddress::Ipv4(dst_addr)) => {
            pseudo_header_v4(src_addr, dst_addr, next_header, length)
        },
        (IpAddress::Ipv6(src_addr), IpAddress::Ipv6(dst_addr)) => {
            pseudo_header_v6(src_addr, dst_addr, next_header, length)
        },
        _ => {
            proof {
                assert(false);
            }
            0
        },
    }
}

/// The folded sum of a pseudo header followed by a transport header and
/// payload: the transport checksum before its final complement.
pub open spec fn partial_csum_sum(
    src: Seq<u8>,
    dst: Seq<u8>,
    proto: u8,
    length: u32,
    header: Seq<u8>,
) -> int {
    fold_carries(pseudo_header_sum(src, dst, proto, length) + data_checksum(header))
}

/// The transport checksum of `header` (transport header and payload) under
/// the pseudo header of the two addresses, before the final complement.
pub fn partial_csum(
    src_addr: &IpAddress,
    dst_addr: &IpAddress,
    next_header: IpProtocol,
    length: u32,
    header: &[u8],
) -> (r: u16)
    requires
        same_family(*src_addr, *dst_addr),
        raw_sum(header@) <= u32::MAX,
    ensures
        r == partial_csum_sum(
            address_bytes(*src_addr),
            address_bytes(*dst_addr),
            protocol_number(next_header),
            length,
            header@,
        ),
{
    let a = pseudo_header(src_addr, dst_addr, next_header, length);
    let b = data(header);
    let words: [u16; 2] = [a, b];
    proof {
        assert(words@ =~= seq![a, b]);
        lemma_word_total_two(a, b);
    }
    combine(words.as_slice())
}

} // verus!
