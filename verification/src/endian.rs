//! Big- and little-endian access to byte buffers.
//!
//! Network-order reads and writes go through `byteorder::NetworkEndian`; the
//! little-endian conversions of the virtio header go through `u16`'s own
//! byte conversions.
use vstd::prelude::*;
use byteorder::{ByteOrder, NetworkEndian};

verus! {

/// The big-endian 16-bit value stored at `s[at]`, `s[at + 1]`.
pub open spec fn be16(s: Seq<u8>, at: int) -> int {
    s[at] * 256 + s[at + 1]
}

/// The big-endian 32-bit value stored at `s[at]` .. `s[at + 3]`.
pub open spec fn be32(s: Seq<u8>, at: int) -> int {
    ((s[at] * 256 + s[at + 1]) * 256 + s[at + 2]) * 256 + s[at + 3]
}

/// `s` with the 16-bit value `v` (taken modulo 2^16) stored big-endian at `at`.
pub open spec fn put16(s: Seq<u8>, at: int, v: int) -> Seq<u8> {
    let w = v % 0x1_0000;
    s.update(at, (w / 256) as u8).update(at + 1, (w % 256) as u8)
}

/// `s` with the 32-bit value `v` (taken modulo 2^32) stored big-endian at `at`.
pub open spec fn put32(s: Seq<u8>, at: int, v: int) -> Seq<u8> {
    let w = v % 0x1_0000_0000;
    s.update(at, (w / 0x100_0000) as u8)
        .update(at + 1, ((w / 0x1_0000) % 256) as u8)
        .update(at + 2, ((w / 256) % 256) as u8)
        .update(at + 3, (w % 256) as u8)
}

/// `byteorder::NetworkEndian::read_u16` applied to `&buf[at..]`: the value of
/// the first two bytes of that slice read big-endian. The crate panics when
/// fewer than two bytes are given, which `requires` rules out.
#[verifier::external_body]
pub(crate) fn be_read_u16(buf: &[u8], at: usize) -> (r: u16)
    requires
        at + 2 <= buf@.len(),
    ensures
        r == be16(buf@, at as int),
{
    NetworkEndian::read_u16(&buf[at..])
}

/// `byteorder::NetworkEndian::read_u32` applied to `&buf[at..]`: the value of
/// the first four bytes of that slice read big-endian (panics on fewer bytes).
#[verifier::external_body]
pub(crate) fn be_read_u32(buf: &[u8], at: usize) -> (r: u32)
    requires
        at + 4 <= buf@.len(),
    ensures
        r == be32(buf@, at as int),
{
    NetworkEndian::read_u32(&buf[at..])
}

/// `byteorder::NetworkEndian::write_u16` applied to `&mut buf[at..]`: the two
/// bytes at `at` become `n` in big-endian order, the rest of `buf` is left
/// alone (panics on fewer than two bytes).
#[verifier::external_body]
pub(crate) fn be_write_u16(buf: &mut [u8], at: usize, n: u16)
    requires
        at + 2 <= old(buf)@.len(),
    ensures
        final(buf)@ == put16(old(buf)@, at as int, n as int),
{
    NetworkEndian::write_u16(&mut buf[at..], n)
}

/// `byteorder::NetworkEndian::write_u32` applied to `&mut buf[at..]`: the four
/// bytes at `at` become `n` in big-endian order, the rest of `buf` is left
/// alone (panics on fewer than four bytes).
#[verifier::external_body]
pub(crate) fn be_write_u32(buf: &mut [u8], at: usize, n: u32)
    requires
        at + 4 <= old(buf)@.len(),
    ensures
        final(buf)@ == put32(old(buf)@, at as int, n as int),
{
    NetworkEndian::write_u32(&mut buf[at..], n)
}

/// `u16::from_le_bytes`: the first byte is the low byte.
#[verifier::external_body]
pub(crate) fn u16_from_le_bytes(bytes: [u8; 2]) -> (r: u16)
    ensures
        r == bytes@[0] + bytes@[1] * 256,
{
    u16::from_le_bytes(bytes)
}

/// `u16::to_le_bytes`: the low byte first, then the high byte.
#[verifier::external_body]
pub(crate) fn u16_to_le_bytes(n: u16) -> (r: [u8; 2])
    ensures
        r@[0] == n % 256,
        r@[1] == n / 256,
{
    n.to_le_bytes()
}

/// Reading back a 16-bit value that was stored gives the value.
pub proof fn lemma_be16_put16(s: Seq<u8>, at: int, v: int)
    requires
        0 <= at,
        at + 2 <= s.len(),
        0 <= v <= 0xffff,
    ensures
        be16(put16(s, at, v), at) == v,
{
}

/// Storing the 16-bit value that is already at `at` changes nothing.
pub proof fn lemma_put16_be16(s: Seq<u8>, at: int)
    requires
        0 <= at,
        at + 2 <= s.len(),
    ensures
        put16(s, at, be16(s, at)) == s,
{
    let w = be16(s, at);
    vstd::arithmetic::div_mod::lemma_fundamental_div_mod_converse(w, 0x1_0000, 0, w);
    vstd::arithmetic::div_mod::lemma_fundamental_div_mod_converse(w, 256, s[at] as int, s[at + 1] as int);
    assert(put16(s, at, w) =~= s);
}

/// Storing the 32-bit value that is already at `at` changes nothing.
pub proof fn lemma_put32_be32(s: Seq<u8>, at: int)
    requires
        0 <= at,
        at + 4 <= s.len(),
    ensures
        put32(s, at, be32(s, at)) == s,
{
    let w = be32(s, at);
    let hi = s[at] * 256 + s[at + 1];
    let mid = hi * 256 + s[at + 2];
    vstd::arithmetic::div_mod::lemma_fundamental_div_mod_converse(w, 0x1_0000_0000, 0, w);
    vstd::arithmetic::div_mod::lemma_fundamental_div_mod_converse(w, 256, mid, s[at + 3] as int);
    vstd::arithmetic::div_mod::lemma_fundamental_div_mod_converse(w, 0x1_0000, hi, s[at + 2] * 256 + s[at + 3]);
    vstd::arithmetic::div_mod::lemma_fundamental_div_mod_converse(w, 0x100_0000, s[at] as int, (s[at + 1] * 256 + s[at + 2]) * 256 + s[at + 3]);
    vstd::arithmetic::div_mod::lemma_fundamental_div_mod_converse(mid, 256, hi, s[at + 2] as int);
    vstd::arithmetic::div_mod::lemma_fundamental_div_mod_converse(hi, 256, s[at] as int, s[at + 1] as int);
    assert(put32(s, at, w) =~= s);
}

/// Reading back a 32-bit value that was stored gives the value.
pub proof fn lemma_be32_put32(s: Seq<u8>, at: int, v: int)
    requires
        0 <= at,
        at + 4 <= s.len(),
        0 <= v <= 0xffff_ffff,
    ensures
        be32(put32(s, at, v), at) == v,
{
    let t = put32(s, at, v);
    let a = v / 0x100_0000;
    let b = (v / 0x1_0000) % 256;
    let c = (v / 256) % 256;
    let d = v % 256;
    assert(t[at] == a && t[at + 1] == b && t[at + 2] == c && t[at + 3] == d);
    assert(v / 0x1_0000 == a * 256 + b);
    assert(v / 256 == (v / 0x1_0000) * 256 + c);
    assert(v == (v / 256) * 256 + d);
}

} // verus!
