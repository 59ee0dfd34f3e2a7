//! Reading IPv4, IPv6, TCP and UDP headers with `smoltcp::wire`.
//!
//! Each function hands `smoltcp` the raw bytes of a packet and returns what
//! its packet view reports, as plain values.
use vstd::prelude::*;
use smoltcp::wire::{Ipv4Packet, Ipv6Packet, TcpPacket, UdpPacket};
use crate::endian::be16;

verus! {

/// The IPv4 header length (IHL times 4).
pub open spec fn ipv4_header_len_of(p: Seq<u8>) -> int {
    (p[0] % 16) * 4
}

/// The IPv4 total length field.
pub open spec fn ipv4_total_len_of(p: Seq<u8>) -> int {
    be16(p, 2)
}

/// `smoltcp`'s length check of an IPv4 packet: the fixed header is there,
/// and the header length, the total length and the buffer are in order.
pub open spec fn ipv4_len_ok(p: Seq<u8>) -> bool {
    &&& p.len() >= 20
    &&& p.len() >= ipv4_header_len_of(p)
    &&& ipv4_header_len_of(p) <= ipv4_total_len_of(p)
    &&& p.len() >= ipv4_total_len_of(p)
}

/// The IPv6 payload length field.
pub open spec fn ipv6_payload_len_of(p: Seq<u8>) -> int {
    be16(p, 4)
}

/// `smoltcp`'s length check of an IPv6 packet: the fixed 40-byte header and
/// the payload it announces are there.
pub open spec fn ipv6_len_ok(p: Seq<u8>) -> bool {
    p.len() >= 40 && p.len() >= 40 + ipv6_payload_len_of(p)
}

/// The TCP header length (data offset times 4).
pub open spec fn tcp_header_len_of(p: Seq<u8>) -> int {
    (p[12] / 16) * 4
}

/// `smoltcp`'s length check of a TCP packet: the fixed 20-byte header is
/// there, and the header length is at least 20 and within the buffer.
pub open spec fn tcp_len_ok(p: Seq<u8>) -> bool {
    p.len() >= 20 && p.len() >= tcp_header_len_of(p) && tcp_header_len_of(p) >= 20
}

/// The UDP length field.
pub open spec fn udp_len_of(p: Seq<u8>) -> int {
    be16(p, 4)
}

/// `smoltcp`'s length check of a UDP packet: the 8-byte header is there and
/// the length field lies between 8 and the buffer length.
pub open spec fn udp_len_ok(p: Seq<u8>) -> bool {
    p.len() >= 8 && p.len() >= udp_len_of(p) && udp_len_of(p) >= 8
}

/// `smoltcp::wire::Ipv4Packet::new_checked` succeeds exactly when its
/// `check_len` passes.
#[verifier::external_body]
pub(crate) fn ipv4_new_checked(pkt: &[u8]) -> (r: bool)
    ensures
        r == ipv4_len_ok(pkt@),
{
    Ipv4Packet::new_checked(pkt).is_ok()
}

/// `smoltcp::wire::Ipv4Packet::header_len`: the low nibble of the first
/// byte times 4 (it reads the first byte, so one must be there).
#[verifier::external_body]
pub(crate) fn ipv4_header_len(pkt: &[u8]) -> (r: u8)
    requires
        pkt@.len() >= 1,
    ensures
        r == ipv4_header_len_of(pkt@),
{
    Ipv4Packet::new_unchecked(pkt).header_len()
}

/// `smoltcp::wire::Ipv4Packet::next_header`, as its protocol number: byte 9.
#[verifier::external_body]
pub(crate) fn ipv4_next_header(pkt: &[u8]) -> (r: u8)
    requires
        pkt@.len() >= 10,
    ensures
        r == pkt@[9],
{
    u8::from(Ipv4Packet::new_unchecked(pkt).next_header())
}

/// `smoltcp::wire::Ipv4Packet::payload`: the bytes from the header length
/// to the total length (in range once the length check passed).
#[verifier::external_body]
pub(crate) fn ipv4_payload(pkt: &[u8]) -> (r: &[u8])
    requires
        ipv4_len_ok(pkt@),
    ensures
        r@ == pkt@.subrange(ipv4_header_len_of(pkt@), ipv4_total_len_of(pkt@)),
{
    Ipv4Packet::new_unchecked(pkt).payload()
}

/// `smoltcp::wire::Ipv6Packet::new_checked` succeeds exactly when its
/// `check_len` passes.
#[verifier::external_body]
pub(crate) fn ipv6_new_checked(pkt: &[u8]) -> (r: bool)
    ensures
        r == ipv6_len_ok(pkt@),
{
    Ipv6Packet::new_checked(pkt).is_ok()
}

/// `smoltcp::wire::Ipv6Packet::header_len`: the fixed header length, 40.
#[verifier::external_body]
pub(crate) fn ipv6_header_len(pkt: &[u8]) -> (r: usize)
    ensures
        r == 40,
{
    Ipv6Packet::new_unchecked(pkt).header_len()
}

/// `smoltcp::wire::Ipv6Packet::next_header`, as its protocol number: byte 6.
#[verifier::external_body]
pub(crate) fn ipv6_next_header(pkt: &[u8]) -> (r: u8)
    requires
        pkt@.len() >= 7,
    ensures
        r == pkt@[6],
{
    u8::from(Ipv6Packet::new_unchecked(pkt).next_header())
}

/// `smoltcp::wire::Ipv6Packet::payload`: the payload length bytes after the
/// 40-byte header (in range once the length check passed).
#[verifier::external_body]
pub(crate) fn ipv6_payload(pkt: &[u8]) -> (r: &[u8])
    requires
        ipv6_len_ok(pkt@),
    ensures
        r@ == pkt@.subrange(40, 40 + ipv6_payload_len_of(pkt@)),
{
    Ipv6Packet::new_unchecked(pkt).payload()
}

/// `smoltcp::wire::TcpPacket::new_checked` succeeds exactly when its
/// `check_len` passes.
#[verifier::external_body]
pub(crate) fn tcp_new_checked(pkt: &[u8]) -> (r: bool)
    ensures
        r == tcp_len_ok(pkt@),
{
    TcpPacket::new_checked(pkt).is_ok()
}

/// `smoltcp::wire::TcpPacket::header_len`: the data offset (high nibble of
/// byte 12) times 4; it reads bytes 12 and 13.
#[verifier::external_body]
pub(crate) fn tcp_header_len(pkt: &[u8]) -> (r: u8)
    requires
        pkt@.len() >= 14,
    ensures
        r == tcp_header_len_of(pkt@),
{
    TcpPacket::new_unchecked(pkt).header_len()
}

/// `smoltcp::wire::TcpPacket::payload`: the bytes after the header (in range
/// once the length check passed).
#[verifier::external_body]
pub(crate) fn tcp_payload(pkt: &[u8]) -> (r: &[u8])
    requires
        tcp_len_ok(pkt@),
    ensures
        r@ == pkt@.subrange(tcp_header_len_of(pkt@), pkt@.len() as int),
{
    TcpPacket::new_unchecked(pkt).payload()
}

/// `smoltcp::wire::UdpPacket::new_checked` succeeds exactly when its
/// `check_len` passes.
#[verifier::external_body]
pub(crate) fn udp_new_checked(pkt: &[u8]) -> (r: bool)
    ensures
        r == udp_len_ok(pkt@),
{
    UdpPacket::new_checked(pkt).is_ok()
}

/// `smoltcp::wire::UdpPacket::payload`: the bytes from 8 to the length
/// field (in range once the length check passed).
#[verifier::external_body]
pub(crate) fn udp_payload(pkt: &[u8]) -> (r: &[u8])
    requires
        udp_len_ok(pkt@),
    ensures
        r@ == pkt@.subrange(8, udp_len_of(pkt@)),
{
    UdpPacket::new_unchecked(pkt).payload()
}

} // verus!
