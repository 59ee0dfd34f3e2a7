//! Splitting of GSO super-packets read from a TUN device with a virtio net
//! header, and the virtio net header that describes a coalesced packet.
use vstd::prelude::*;
use bytes::BytesMut;
use crate::checksum::{
    self, data_checksum, fold_carries, lemma_raw_sum_bound, partial_csum_sum, raw_sum, IpAddress,
    IpProtocol, Ipv4Address, Ipv6Address, address_bytes, same_family, protocol_number,
};
use crate::endian::{be16, be32, be_read_u16, be_read_u32, be_write_u16, be_write_u32, put16, put32};
use crate::packet::{
    bytes_mut_as_mut_slice, bytes_mut_as_slice, bytes_mut_extend_from_slice, bytes_mut_freeze,
    bytes_mut_new, bytes_mut_reserve, bytes_mut_view, packets_view, TunPacket,
};
use crate::virtio::{
    zero_header, VirtioNetHeader, VIRTIO_NET_HDR_F_NEEDS_CSUM, VIRTIO_NET_HDR_GSO_NONE,
    VIRTIO_NET_HDR_GSO_TCPV4, VIRTIO_NET_HDR_GSO_TCPV6, VIRTIO_NET_HDR_GSO_UDP_L4,
};
use crate::wire::{
    ipv4_header_len, ipv4_header_len_of, ipv4_len_ok, ipv4_new_checked, ipv4_next_header,
    ipv4_payload, ipv4_total_len_of, ipv6_header_len, ipv6_len_ok, ipv6_new_checked,
    ipv6_next_header, ipv6_payload, ipv6_payload_len_of, tcp_header_len, tcp_header_len_of,
    tcp_len_ok, tcp_new_checked, tcp_payload, udp_len_of, udp_len_ok, udp_new_checked,
    udp_payload,
};

verus! {

#[verifier::external_type_specification]
#[verifier::external_body]
pub struct ExIoError(std::io::Error);

/// `std::io::Error::new` with kind `InvalidData` and the message `msg`.
/// `std::io::Error` is opaque here, so nothing is stated of the error value:
/// neither its kind nor its message.
#[verifier::external_body]
fn invalid_data(msg: String) -> std::io::Error {
    std::io::Error::new(std::io::ErrorKind::InvalidData, msg)
}

/// Offset of the flags byte in a TCP header.
pub const TCP_FLAGS_OFFSET: usize = 13;

/// The TCP FIN flag.
pub const TCP_FLAG_FIN: u8 = 0x01;

/// The TCP PSH flag.
pub const TCP_FLAG_PSH: u8 = 0x08;

/// Why a GSO super-packet is not split.
#[derive(Debug, Clone, Copy, PartialEq, Eq, Structural)]
pub enum OffloadError {
    /// The buffer ends before the data offset of the TCP header.
    TcpHeaderTooShort,
    /// The TCP header length (data offset times 4) lies outside 20..=60.
    TcpHeaderLengthInvalid(u8),
    /// The header and buffer are ones on which splitting would panic or not
    /// end (an out-of-range field, a length or number that overflows, an
    /// unknown GSO type, or a `gso_size` of zero).
    Unsplittable,
}

/// The decimal digit `d` as a character.
pub open spec fn digit_char(d: int) -> char {
    (48 + d) as char
}

/// The decimal representation of `n`, without leading zeros.
pub open spec fn decimal(n: u8) -> Seq<char> {
    if n >= 100 {
        seq![digit_char((n / 100) as int), digit_char(((n / 10) % 10) as int), digit_char((n % 10) as int)]
    } else if n >= 10 {
        seq![digit_char((n / 10) as int), digit_char((n % 10) as int)]
    } else {
        seq![digit_char(n as int)]
    }
}

/// The message of each refusal.
pub open spec fn offload_error_message(e: OffloadError) -> Seq<char> {
    match e {
        OffloadError::TcpHeaderTooShort => "tcp header length is too short"@,
        OffloadError::TcpHeaderLengthInvalid(n) => "tcp header lenght invalid: "@ + decimal(n),
        OffloadError::Unsplittable => "virtio net header does not describe a splittable packet"@,
    }
}

/// The decimal digit `d` as a one-character string.
fn digit_str(d: u8) -> (r: &'static str)
    requires
        d < 10,
    ensures
        r@ == seq![digit_char(d as int)],
{
    proof {
        reveal_strlit("0");
        reveal_strlit("1");
        reveal_strlit("2");
        reveal_strlit("3");
        reveal_strlit("4");
        reveal_strlit("5");
        reveal_strlit("6");
        reveal_strlit("7");
        reveal_strlit("8");
        reveal_strlit("9");
    }
    let r = if d == 0 {
        "0"
    } else if d == 1 {
        "1"
    } else if d == 2 {
        "2"
    } else if d == 3 {
        "3"
    } else if d == 4 {
        "4"
    } else if d == 5 {
        "5"
    } else if d == 6 {
        "6"
    } else if d == 7 {
        "7"
    } else if d == 8 {
        "8"
    } else {
        "9"
    };
    assert(r@ =~= seq![digit_char(d as int)]);
    r
}

impl OffloadError {
    /// The message that describes the refusal.
    pub fn message(&self) -> (r: String)
        ensures
            r@ == offload_error_message(*self),
    {
        match self {
            OffloadError::TcpHeaderTooShort => "tcp header length is too short".to_owned(),
            OffloadError::TcpHeaderLengthInvalid(n) => {
                let n = *n;
                let mut msg = "tcp header lenght invalid: ".to_owned();
                let ghost prefix = msg@;
                if n >= 100 {
                    msg.append(digit_str(n / 100));
                    msg.append(digit_str((n / 10) % 10));
                    msg.append(digit_str(n % 10));
                } else if n >= 10 {
                    msg.append(digit_str(n / 10));
                    msg.append(digit_str(n % 10));
                } else {
                    msg.append(digit_str(n));
                }
                assert(msg@ =~= prefix + decimal(n));
                msg
            },
            OffloadError::Unsplittable => "virtio net header does not describe a splittable packet".to_owned(),
        }
    }
}

/// The refusal of a refused TCP super-packet.
pub open spec fn gso_refusal(h: VirtioNetHeader, b: Seq<u8>) -> OffloadError {
    let cs = h.checksum_start as int;
    if b.len() < cs + 12 {
        OffloadError::TcpHeaderTooShort
    } else {
        OffloadError::TcpHeaderLengthInvalid(tcp_header_len_at(b, cs) as u8)
    }
}

// ---------------------------------------------------------------------------
// GSO: splitting a super-packet
// ---------------------------------------------------------------------------

/// Whether the GSO type asks for TCP segmentation.
pub open spec fn is_tcp_gso(gso_type: u8) -> bool {
    gso_type == VIRTIO_NET_HDR_GSO_TCPV4 || gso_type == VIRTIO_NET_HDR_GSO_TCPV6
}

/// The TCP header length that the data offset of the TCP header at `cs` gives.
pub open spec fn tcp_header_len_at(b: Seq<u8>, cs: int) -> int {
    ((b[cs + 12] >> 4u8) * 4) as int
}

/// Whether a GSO super-packet is refused: a TCP one whose header is cut
/// short or has a length outside 20..=60.
pub open spec fn gso_refused(h: VirtioNetHeader, b: Seq<u8>) -> bool {
    let cs = h.checksum_start as int;
    &&& h.gso_type != VIRTIO_NET_HDR_GSO_NONE
    &&& h.gso_type != VIRTIO_NET_HDR_GSO_UDP_L4
    &&& b.len() < cs + 12 || !(20 <= tcp_header_len_at(b, cs) <= 60)
}

/// Where the data of the super-packet begins: after the 8-byte UDP header,
/// or after the TCP header whose length the data offset gives.
pub open spec fn gso_header_len(h: VirtioNetHeader, b: Seq<u8>) -> int {
    let cs = h.checksum_start as int;
    if h.gso_type == VIRTIO_NET_HDR_GSO_UDP_L4 {
        cs + 8
    } else {
        cs + tcp_header_len_at(b, cs)
    }
}

/// Whether the packet is IPv6 (version 6), else it is taken as IPv4.
pub open spec fn is_ipv6_packet(b: Seq<u8>) -> bool {
    b[0] >> 4u8 == 6
}

/// The super-packet with its IPv4 header checksum cleared.
pub open spec fn cleared_ip_checksum(b: Seq<u8>) -> Seq<u8> {
    if is_ipv6_packet(b) {
        b
    } else {
        b.update(10, 0).update(11, 0)
    }
}

/// Where segment `i` takes its data from.
pub open spec fn seg_start(hl: int, gso: int, i: int) -> int {
    hl + i * gso
}

/// Whether segment `i` is the last one: it reaches the end of the data.
pub open spec fn seg_is_last(hl: int, gso: int, len: int, i: int) -> bool {
    seg_start(hl, gso, i) + gso >= len
}

/// Where the data of segment `i` ends: `gso` bytes on, or the end of the data.
pub open spec fn seg_end(hl: int, gso: int, len: int, i: int) -> int {
    if seg_is_last(hl, gso, len, i) {
        len
    } else {
        seg_start(hl, gso, i) + gso
    }
}

/// The number of segments: the data after `hl` cut into pieces of `gso`
/// bytes, the last one possibly shorter.
pub open spec fn seg_count(hl: int, gso: int, len: int) -> int {
    if hl >= len || gso <= 0 {
        0
    } else {
        (len - hl + gso - 1) / gso
    }
}

/// The IP header of a segment of `total` bytes: IPv4 gets its total length,
/// its identification and a header checksum; IPv6 its payload length.
pub open spec fn seg_ip_header(p: Seq<u8>, cs: int, total: int, is_v6: bool, ident: int) -> Seq<u8> {
    let base = p.subrange(0, cs);
    if is_v6 {
        put16(base, 4, total - cs)
    } else {
        let q = put16(put16(base, 2, total), 4, ident);
        put16(q, 10, 0xffff - data_checksum(q))
    }
}

/// The transport header of a segment: UDP gets its length; TCP its sequence
/// number, and FIN and PSH cleared but in the last segment.
pub open spec fn seg_transport_header(
    p: Seq<u8>,
    cs: int,
    hl: int,
    plen: int,
    is_tcp: bool,
    seq: int,
    is_last: bool,
) -> Seq<u8> {
    let t = p.subrange(cs, hl);
    if !is_tcp {
        put16(t, 4, 8 + plen)
    } else {
        let t1 = put32(t, 4, seq);
        if is_last {
            t1
        } else {
            t1.update(13, t1[13] & !(TCP_FLAG_FIN | TCP_FLAG_PSH))
        }
    }
}

/// The source address bytes of the packet.
pub open spec fn src_address_bytes(p: Seq<u8>, is_v6: bool) -> Seq<u8> {
    if is_v6 {
        p.subrange(8, 24)
    } else {
        p.subrange(12, 16)
    }
}

/// The destination address bytes of the packet.
pub open spec fn dst_address_bytes(p: Seq<u8>, is_v6: bool) -> Seq<u8> {
    if is_v6 {
        p.subrange(24, 40)
    } else {
        p.subrange(16, 20)
    }
}

/// The protocol number of the transport.
pub open spec fn gso_protocol_number(is_tcp: bool) -> u8 {
    if is_tcp {
        IPPROTO_TCP
    } else {
        IPPROTO_UDP
    }
}

/// Segment `i` before its transport checksum is filled in.
pub open spec fn seg_unsummed(
    p: Seq<u8>,
    cs: int,
    hl: int,
    gso: int,
    is_v6: bool,
    is_tcp: bool,
    seq: int,
    ident: int,
    i: int,
) -> Seq<u8> {
    let start = seg_start(hl, gso, i);
    let end = seg_end(hl, gso, p.len() as int, i);
    let plen = end - start;
    seg_ip_header(p, cs, hl + plen, is_v6, ident + i) + seg_transport_header(
        p,
        cs,
        hl,
        plen,
        is_tcp,
        seq + i * gso,
        seg_is_last(hl, gso, p.len() as int, i),
    ) + p.subrange(start, end)
}

/// Segment `i` of the super-packet `p` (IPv4 header checksum cleared): its IP
/// and transport headers filled in for it, its share of the data, and the
/// transport checksum over pseudo header, transport header and data.
pub open spec fn segment(
    p: Seq<u8>,
    cs: int,
    co: int,
    hl: int,
    gso: int,
    is_v6: bool,
    is_tcp: bool,
    seq: int,
    ident: int,
    i: int,
) -> Seq<u8> {
    let u = seg_unsummed(p, cs, hl, gso, is_v6, is_tcp, seq, ident, i);
    let z = cleared_field(u, cs + co);
    let plen = seg_end(hl, gso, p.len() as int, i) - seg_start(hl, gso, i);
    let sum = partial_csum_sum(
        src_address_bytes(p, is_v6),
        dst_address_bytes(p, is_v6),
        gso_protocol_number(is_tcp),
        (hl - cs + plen) as u32,
        z.subrange(cs, z.len() as int),
    );
    put16(z, cs + co, 0xffff - sum)
}

/// `s` with the two bytes of the 16-bit field at `at` cleared.
pub open spec fn cleared_field(s: Seq<u8>, at: int) -> Seq<u8> {
    s.update(at, 0).update(at + 1, 0)
}

/// What segment `i` needs so that building it does not panic: its length
/// fits the 16-bit length fields and holds the checksum field, the IPv4
/// header reaches the checksum field and the identification does not
/// overflow, and the TCP sequence number does not overflow.
pub open spec fn segment_defined(
    p: Seq<u8>,
    cs: int,
    co: int,
    hl: int,
    gso: int,
    is_v6: bool,
    is_tcp: bool,
    seq: int,
    ident: int,
    i: int,
) -> bool {
    let total = hl + seg_end(hl, gso, p.len() as int, i) - seg_start(hl, gso, i);
    &&& total <= 0xffff
    &&& cs + co + 2 <= total
    &&& !is_v6 ==> cs >= 12 && ident + i <= 0xffff
    &&& is_v6 ==> cs >= 6
    &&& is_tcp ==> seq + i * gso <= u32::MAX
}

/// The TCP sequence number of the super-packet (0 for UDP).
pub open spec fn gso_seq(h: VirtioNetHeader, b: Seq<u8>) -> int {
    if is_tcp_gso(h.gso_type) {
        be32(b, h.checksum_start + 4)
    } else {
        0
    }
}

/// The segments of an accepted GSO super-packet.
pub open spec fn gso_segments(h: VirtioNetHeader, b: Seq<u8>) -> Seq<Seq<u8>> {
    let cs = h.checksum_start as int;
    let hl = gso_header_len(h, b);
    let gso = h.gso_size as int;
    let p = cleared_ip_checksum(b);
    Seq::new(
        seg_count(hl, gso, b.len() as int) as nat,
        |i: int|
            segment(
                p,
                cs,
                h.checksum_offset as int,
                hl,
                gso,
                is_ipv6_packet(b),
                is_tcp_gso(h.gso_type),
                gso_seq(h, b),
                be16(b, 4),
                i,
            ),
    )
}

/// What an accepted GSO super-packet needs so that splitting it does not
/// panic or run forever.
pub open spec fn gso_defined(h: VirtioNetHeader, b: Seq<u8>) -> bool {
    let cs = h.checksum_start as int;
    let hl = gso_header_len(h, b);
    let gso = h.gso_size as int;
    let len = b.len() as int;
    let is_v6 = is_ipv6_packet(b);
    let p = cleared_ip_checksum(b);
    &&& len <= isize::MAX
    &&& hl <= 0xffff
    &&& len >= 1
    &&& is_v6 ==> len >= 40
    &&& !is_v6 ==> len >= 20
    &&& hl < len ==> gso > 0
    &&& seg_count(hl, gso, len) <= u32::MAX
    &&& forall|i: int|
        0 <= i < seg_count(hl, gso, len) ==> #[trigger] segment_defined(
            p,
            cs,
            h.checksum_offset as int,
            hl,
            gso,
            is_v6,
            is_tcp_gso(h.gso_type),
            gso_seq(h, b),
            be16(b, 4),
            i,
        )
}

/// The packet without GSO: its checksum filled in when the header asks for
/// it, else as it is.
pub open spec fn plain_packet(h: VirtioNetHeader, b: Seq<u8>) -> Seq<u8> {
    let cs = h.checksum_start as int;
    let at = cs + h.checksum_offset;
    if h.flags & VIRTIO_NET_HDR_F_NEEDS_CSUM != 0 {
        let z = cleared_field(b, at);
        put16(z, at, 0xffff - fold_carries(be16(b, at) + data_checksum(z.subrange(cs, z.len() as int))))
    } else {
        b
    }
}

/// The inputs on which [`handle_virtio_read`] neither panics nor runs
/// forever: the checksum of a plain packet lies within it, a GSO type is UDP
/// or TCP, the TCP header length byte is there when it is read, and an
/// accepted super-packet can be split.
pub open spec fn virtio_read_defined(h: VirtioNetHeader, b: Seq<u8>) -> bool {
    let cs = h.checksum_start as int;
    let at = cs + h.checksum_offset;
    if h.gso_type == VIRTIO_NET_HDR_GSO_NONE {
        h.flags & VIRTIO_NET_HDR_F_NEEDS_CSUM != 0 ==> {
            &&& at + 2 <= b.len()
            &&& raw_sum(b.update(at, 0).update(at + 1, 0).subrange(cs, b.len() as int)) <= u32::MAX
        }
    } else {
        &&& h.gso_type == VIRTIO_NET_HDR_GSO_UDP_L4 || is_tcp_gso(h.gso_type)
        &&& h.gso_type == VIRTIO_NET_HDR_GSO_UDP_L4 ==> cs + 8 <= 0xffff
        &&& is_tcp_gso(h.gso_type) ==> b.len() != cs + 12
        &&& !gso_refused(h, b) ==> gso_defined(h, b)
    }
}

/// What [`handle_virtio_read`] gives: the packet itself without GSO, nothing
/// for a refused super-packet, else its segments.
pub open spec fn virtio_read_output(h: VirtioNetHeader, b: Seq<u8>) -> Option<Seq<Seq<u8>>> {
    if h.gso_type == VIRTIO_NET_HDR_GSO_NONE {
        Some(seq![plain_packet(h, b)])
    } else if gso_refused(h, b) {
        None
    } else {
        Some(gso_segments(h, b))
    }
}

/// Segment `i` exists exactly when it starts before the end of the data.
pub proof fn lemma_seg_count(hl: int, gso: int, len: int, i: int)
    requires
        hl < len,
        gso > 0,
        0 <= i,
    ensures
        (i < seg_count(hl, gso, len)) <==> (seg_start(hl, gso, i) < len),
{
    let n = len - hl;
    let c = (n + gso - 1) / gso;
    let r = (n + gso - 1) % gso;
    vstd::arithmetic::div_mod::lemma_fundamental_div_mod(n + gso - 1, gso);
    assert(0 <= r < gso) by {
        vstd::arithmetic::div_mod::lemma_mod_bound(n + gso - 1, gso);
    }
    if i < c {
        assert(i * gso < n) by (nonlinear_arith)
            requires
                i < c,
                n + gso - 1 == gso * c + r,
                0 <= r,
                gso > 0,
        ;
    } else {
        assert(i * gso >= n) by (nonlinear_arith)
            requires
                i >= c,
                n + gso - 1 == gso * c + r,
                r < gso,
                gso > 0,
        ;
    }
}

/// Fills in the checksum of a packet that is not split: the sum of what the
/// checksum field held and of the bytes from `csum_start`, with the field
/// cleared, complemented.
fn fill_plain_checksum(buf: &mut BytesMut, csum_start: usize, csum_offset: usize)
    requires
        csum_start <= 0xffff,
        csum_offset <= 0xffff,
        csum_start + csum_offset + 2 <= bytes_mut_view(*old(buf)).len(),
        raw_sum(
            bytes_mut_view(*old(buf)).update((csum_start + csum_offset) as int, 0).update(
                csum_start + csum_offset + 1,
                0,
            ).subrange(csum_start as int, bytes_mut_view(*old(buf)).len() as int),
        ) <= u32::MAX,
    ensures
        bytes_mut_view(*final(buf)) == ({
            let b = bytes_mut_view(*old(buf));
            let at = csum_start + csum_offset;
            let z = b.update(at, 0).update(at + 1, 0);
            put16(
                z,
                at,
                0xffff - fold_carries(
                    be16(b, at) + data_checksum(z.subrange(csum_start as int, z.len() as int)),
                ),
            )
        }),
{
    let ghost b = bytes_mut_view(*buf);
    let at = csum_start + csum_offset;
    let init_csum = be_read_u16(bytes_mut_as_slice(buf), at);
    {
        let s = bytes_mut_as_mut_slice(buf);
        s[at] = 0;
        s[at + 1] = 0;
    }
    let len = bytes_mut_as_slice(buf).len();
    let sum = checksum::data(&bytes_mut_as_slice(buf)[csum_start..len]);
    let words: [u16; 2] = [init_csum, sum];
    proof {
        assert(words@ =~= seq![init_csum, sum]);
        checksum::lemma_word_total_two(init_csum, sum);
    }
    let combined = checksum::combine(words.as_slice());
    let csum = !combined;
    assert(!combined == 0xffff - combined) by (bit_vector);
    let s = bytes_mut_as_mut_slice(buf);
    be_write_u16(s, at, csum);
}

/// Starts a segment with the IP header of `buf`, filled in for a segment of
/// `total_len` bytes with identification `identification` (IPv4).
fn segment_ip_header(
    buf: &[u8],
    checksum_start: usize,
    total_len: usize,
    is_ipv6: bool,
    identification: u16,
) -> (r: BytesMut)
    requires
        checksum_start <= total_len <= 0xffff,
        checksum_start <= buf@.len(),
        !is_ipv6 ==> checksum_start >= 12,
        is_ipv6 ==> checksum_start >= 6,
    ensures
        bytes_mut_view(r) == seg_ip_header(
            buf@,
            checksum_start as int,
            total_len as int,
            is_ipv6,
            identification as int,
        ),
{
    let ghost p = buf@;
    let ghost cs = checksum_start as int;
    let mut new_packet = bytes_mut_new();
    bytes_mut_reserve(&mut new_packet, total_len);
    bytes_mut_extend_from_slice(&mut new_packet, &buf[0..checksum_start]);
    if !is_ipv6 {
        {
            let s = bytes_mut_as_mut_slice(&mut new_packet);
            be_write_u16(s, 2, total_len as u16);
            be_write_u16(s, 4, identification);
        }
        let ghost q = bytes_mut_view(new_packet);
        assert(q =~= put16(put16(p.subrange(0, cs), 2, total_len as int), 4, identification as int));
        assert(q.subrange(0, cs) =~= q);
        proof {
            lemma_raw_sum_bound(q);
        }
        let ip_sum = checksum::data(&bytes_mut_as_slice(&new_packet)[0..checksum_start]);
        let ip_checksum = !ip_sum;
        assert(!ip_sum == 0xffff - ip_sum) by (bit_vector);
        let s = bytes_mut_as_mut_slice(&mut new_packet);
        be_write_u16(s, 10, ip_checksum);
    } else {
        // for ipv6, we just need to set the total length
        let s = bytes_mut_as_mut_slice(&mut new_packet);
        be_write_u16(s, 4, (total_len - checksum_start) as u16);
    }
    new_packet
}

/// Appends the transport header of `buf` to `new_packet`, filled in for a
/// segment with `payload_len` bytes of data: the UDP length, or the TCP
/// sequence number and, but in the last segment, FIN and PSH cleared.
fn append_transport_header(
    new_packet: &mut BytesMut,
    buf: &[u8],
    checksum_start: usize,
    header_len: usize,
    payload_len: usize,
    protocol: IpProtocol,
    tcp_seq: u32,
    is_last: bool,
)
    requires
        bytes_mut_view(*old(new_packet)).len() == checksum_start,
        checksum_start <= header_len <= 0xffff,
        header_len <= buf@.len(),
        payload_len <= 0xffff - header_len,
        protocol == IpProtocol::Tcp || protocol == IpProtocol::Udp,
        protocol == IpProtocol::Udp ==> header_len == checksum_start + 8,
        protocol == IpProtocol::Tcp ==> header_len >= checksum_start + 20,
    ensures
        bytes_mut_view(*final(new_packet)) == bytes_mut_view(*old(new_packet))
            + seg_transport_header(
            buf@,
            checksum_start as int,
            header_len as int,
            payload_len as int,
            protocol == IpProtocol::Tcp,
            tcp_seq as int,
            is_last,
        ),
{
    let ghost ip = bytes_mut_view(*new_packet);
    let ghost t0 = buf@.subrange(checksum_start as int, header_len as int);
    bytes_mut_extend_from_slice(new_packet, &buf[checksum_start..header_len]);
    if protocol == IpProtocol::Udp {
        let s = bytes_mut_as_mut_slice(new_packet);
        be_write_u16(s, checksum_start + 4, 8 + payload_len as u16);
        assert(s@ =~= ip + put16(t0, 4, 8 + payload_len));
    } else {
        // seq
        let s = bytes_mut_as_mut_slice(new_packet);
        be_write_u32(s, checksum_start + 4, tcp_seq);
        let ghost t1 = put32(t0, 4, tcp_seq as int);
        assert(s@ =~= ip + t1);
        // flag
        if !is_last {
            // only the last packet has the FIN and PSH flag
            s[checksum_start + TCP_FLAGS_OFFSET] = s[checksum_start + TCP_FLAGS_OFFSET] & !(
            TCP_FLAG_FIN | TCP_FLAG_PSH);
            assert(s@ =~= ip + t1.update(13, t1[13] & !(TCP_FLAG_FIN | TCP_FLAG_PSH)));
        }
    }
}

/// Fills in the transport checksum of a segment: the checksum field is
/// cleared, then receives the complement of the sum of the pseudo header
/// and of everything from `checksum_start`.
fn fill_transport_checksum(
    new_packet: &mut BytesMut,
    checksum_start: usize,
    checksum_offset: usize,
    src: &IpAddress,
    dst: &IpAddress,
    protocol: IpProtocol,
    length: u32,
)
    requires
        same_family(*src, *dst),
        checksum_start + checksum_offset + 2 <= bytes_mut_view(*old(new_packet)).len() <= 0xffff,
    ensures
        bytes_mut_view(*final(new_packet)) == ({
            let z = cleared_field(
                bytes_mut_view(*old(new_packet)),
                checksum_start + checksum_offset,
            );
            put16(
                z,
                checksum_start + checksum_offset,
                0xffff - partial_csum_sum(
                    address_bytes(*src),
                    address_bytes(*dst),
                    protocol_number(protocol),
                    length,
                    z.subrange(checksum_start as int, z.len() as int),
                ),
            )
        }),
{
    {
        // the checksum covers the transport header with its checksum field cleared
        let s = bytes_mut_as_mut_slice(new_packet);
        s[checksum_start + checksum_offset] = 0;
        s[checksum_start + checksum_offset + 1] = 0;
    }
    let ghost u = bytes_mut_view(*new_packet);
    proof {
        lemma_raw_sum_bound(u.subrange(checksum_start as int, u.len() as int));
    }
    let total_len = bytes_mut_as_slice(new_packet).len();
    let sum = checksum::partial_csum(
        src,
        dst,
        protocol,
        length,
        &bytes_mut_as_slice(new_packet)[checksum_start..total_len],
    );
    let partial_csum = !sum;
    assert(!sum == 0xffff - sum) by (bit_vector);
    let s = bytes_mut_as_mut_slice(new_packet);
    be_write_u16(s, checksum_start + checksum_offset, partial_csum);
}

/// Builds segment `i` of the super-packet `buf` (IPv4 header checksum
/// cleared), whose data starts at `start`.
fn build_segment(
    buf: &[u8],
    checksum_start: usize,
    checksum_offset: usize,
    header_len: usize,
    gso_size: usize,
    is_ipv6: bool,
    protocol: IpProtocol,
    tcp_seq: Option<u32>,
    identification: u16,
    src: &IpAddress,
    dst: &IpAddress,
    i: u32,
    start: usize,
) -> (r: BytesMut)
    requires
        buf@.len() <= isize::MAX,
        checksum_start <= header_len,
        header_len <= 0xffff,
        gso_size <= 0xffff,
        gso_size > 0,
        protocol == IpProtocol::Tcp || protocol == IpProtocol::Udp,
        protocol == IpProtocol::Udp ==> header_len == checksum_start + 8,
        protocol == IpProtocol::Tcp ==> header_len >= checksum_start + 20 && tcp_seq is Some,
        start == seg_start(header_len as int, gso_size as int, i as int),
        start < buf@.len(),
        address_bytes(*src) == src_address_bytes(buf@, is_ipv6),
        address_bytes(*dst) == dst_address_bytes(buf@, is_ipv6),
        same_family(*src, *dst),
        segment_defined(
            buf@,
            checksum_start as int,
            checksum_offset as int,
            header_len as int,
            gso_size as int,
            is_ipv6,
            protocol == IpProtocol::Tcp,
            match tcp_seq {
                Some(seq) => seq as int,
                None => 0,
            },
            identification as int,
            i as int,
        ),
    ensures
        bytes_mut_view(r) == segment(
            buf@,
            checksum_start as int,
            checksum_offset as int,
            header_len as int,
            gso_size as int,
            is_ipv6,
            protocol == IpProtocol::Tcp,
            match tcp_seq {
                Some(seq) => seq as int,
                None => 0,
            },
            identification as int,
            i as int,
        ),
{
    let ghost p = buf@;
    let ghost hl = header_len as int;
    let ghost g = gso_size as int;
    let ghost seq: int = match tcp_seq {
        Some(seq) => seq as int,
        None => 0,
    };
    let end = buf.len();
    let mut packet_end = start + gso_size;
    let mut is_last = false;
    if packet_end >= end {
        packet_end = end;
        is_last = true;
    }
    assert(is_last == seg_is_last(hl, g, p.len() as int, i as int));
    assert(packet_end == seg_end(hl, g, p.len() as int, i as int));
    let split_payload = &buf[start..packet_end];
    let payload_len = split_payload.len();
    let total_len = header_len + payload_len;
    // a. copy ip header, and fill i) total length ii) identification iii) checksum
    let ident = if !is_ipv6 {
        identification + i as u16
    } else {
        identification
    };
    let mut new_packet = segment_ip_header(buf, checksum_start, total_len, is_ipv6, ident);
    // b. copy tcp/udp header
    //      for udp: i) fix the total length ii) calculate the checksum
    //      for tcp: i) fix the seq number ii) fix the flag iii) calculate the checksum
    let seq_start = if protocol == IpProtocol::Tcp {
        tcp_seq.unwrap() + i * gso_size as u32
    } else {
        0
    };
    append_transport_header(
        &mut new_packet,
        buf,
        checksum_start,
        header_len,
        payload_len,
        protocol,
        seq_start,
        is_last,
    );
    // c. copy the payload, now all the packet is ready except the checksum in step b
    bytes_mut_extend_from_slice(&mut new_packet, split_payload);
    assert(bytes_mut_view(new_packet) =~= seg_unsummed(
        p,
        checksum_start as int,
        hl,
        g,
        is_ipv6,
        protocol == IpProtocol::Tcp,
        seq,
        identification as int,
        i as int,
    ));
    // calculate the transport layer checksum: pseudo header + transport layer header + data
    fill_transport_checksum(
        &mut new_packet,
        checksum_start,
        checksum_offset,
        src,
        dst,
        protocol,
        (header_len - checksum_start + payload_len) as u32,
    );
    new_packet
}

/// Splits a packet read with a virtio net header; see [`handle_virtio_read`].
fn read_packets(hdr: VirtioNetHeader, buf: BytesMut) -> (r: Result<Vec<TunPacket>, OffloadError>)
    requires
        virtio_read_defined(hdr, bytes_mut_view(buf)),
    ensures
        match r {
            Ok(packets) => virtio_read_output(hdr, bytes_mut_view(buf)) == Some(
                packets_view(packets@),
            ),
            Err(e) => virtio_read_output(hdr, bytes_mut_view(buf)) is None && e == gso_refusal(
                hdr,
                bytes_mut_view(buf),
            ),
        },
{
    let ghost b = bytes_mut_view(buf);
    let mut hdr = hdr;
    let mut buf = buf;
    let mut packets: Vec<TunPacket> = Vec::new();

    if hdr.gso_type == VIRTIO_NET_HDR_GSO_NONE {
        if hdr.flags & VIRTIO_NET_HDR_F_NEEDS_CSUM != 0 {
            let csum_start = hdr.checksum_start as usize;
            let csum_offset = hdr.checksum_offset as usize;
            fill_plain_checksum(&mut buf, csum_start, csum_offset);
        }
        let packet = TunPacket::from_bytes(bytes_mut_freeze(buf));
        packets.push(packet);
        assert(packets_view(packets@) =~= seq![plain_packet(hdr, b)]);
        return Ok(packets);
    }
    // The header length is not trusted: it is computed from the tcp/udp header.
    let real_header_len = if hdr.gso_type == VIRTIO_NET_HDR_GSO_UDP_L4 {
        // udp header length is 8
        hdr.checksum_start + 8
    } else {
        // `requires`: the GSO type is TCPV4 or TCPV6.
        // The tcp header length is the data offset (high 4 bits of byte 12) times 4.
        let s = bytes_mut_as_slice(&buf);
        if s.len() < hdr.checksum_start as usize + 12 {
            return Err(OffloadError::TcpHeaderTooShort);
        }
        let data_offset = s[hdr.checksum_start as usize + 12];
        assert(data_offset >> 4u8 <= 15) by (bit_vector);
        let tcp_hdr_length = (data_offset >> 4) * 4;
        if !(20 <= tcp_hdr_length && tcp_hdr_length <= 60) {
            return Err(OffloadError::TcpHeaderLengthInvalid(tcp_hdr_length));
        }
        hdr.checksum_start + tcp_hdr_length as u16
    };
    assert(!gso_refused(hdr, b));
    assert(real_header_len == gso_header_len(hdr, b));
    let protocol = if hdr.gso_type == VIRTIO_NET_HDR_GSO_UDP_L4 {
        IpProtocol::Udp
    } else {
        IpProtocol::Tcp
    };
    let tcp_seq = if protocol == IpProtocol::Tcp {
        Some(be_read_u32(bytes_mut_as_slice(&buf), hdr.checksum_start as usize + 4))
    } else {
        None
    };
    hdr.header_len = real_header_len;
    let checksum_start = hdr.checksum_start as usize;
    let checksum_offset = hdr.checksum_offset as usize;
    let header_len = hdr.header_len as usize;
    let gso_size = hdr.gso_size as usize;

    let is_ipv6 = bytes_mut_as_slice(&buf)[0] >> 4 == 6;
    if !is_ipv6 {
        // clear checksum
        let s = bytes_mut_as_mut_slice(&mut buf);
        s[10] = 0;
        s[11] = 0;
    }
    let s = bytes_mut_as_slice(&buf);
    assert(s@ == cleared_ip_checksum(b));
    let (src, dst) = if is_ipv6 {
        let src = Ipv6Address::from_bytes(&s[8..24]);
        let dst = Ipv6Address::from_bytes(&s[24..40]);
        (IpAddress::Ipv6(src), IpAddress::Ipv6(dst))
    } else {
        let src = Ipv4Address::from_bytes(&s[12..16]);
        let dst = Ipv4Address::from_bytes(&s[16..20]);
        (IpAddress::Ipv4(src), IpAddress::Ipv4(dst))
    };
    // Split the payload, which starts at hdr.header_len, by gso_size.
    let packet_data_start = hdr.header_len as usize;
    let end = s.len();
    let mut start = packet_data_start;
    let mut i: u32 = 0;
    let identification = be_read_u16(s, 4);
    let ghost seq: int = match tcp_seq {
        Some(seq) => seq as int,
        None => 0,
    };
    let ghost count = seg_count(header_len as int, gso_size as int, end as int);
    assert(seq == gso_seq(hdr, b));
    while start < end
        invariant
            s@ == cleared_ip_checksum(b),
            end == s@.len(),
            b.len() == s@.len(),
            virtio_read_defined(hdr, b),
            !gso_refused(hdr, b),
            hdr.header_len == gso_header_len(hdr, b),
            header_len == hdr.header_len,
            checksum_start == hdr.checksum_start,
            checksum_offset == hdr.checksum_offset,
            gso_size == hdr.gso_size,
            is_ipv6 == is_ipv6_packet(b),
            protocol == IpProtocol::Tcp <==> is_tcp_gso(hdr.gso_type),
            protocol == IpProtocol::Tcp || protocol == IpProtocol::Udp,
            protocol == IpProtocol::Udp ==> header_len == checksum_start + 8,
            protocol == IpProtocol::Tcp ==> header_len >= checksum_start + 20 && tcp_seq is Some,
            seq == (match tcp_seq {
                Some(seq) => seq as int,
                None => 0,
            }),
            seq == gso_seq(hdr, b),
            gso_defined(hdr, b),
            header_len <= start,
            identification == be16(b, 4),
            address_bytes(src) == src_address_bytes(s@, is_ipv6),
            address_bytes(dst) == dst_address_bytes(s@, is_ipv6),
            same_family(src, dst),
            count == seg_count(header_len as int, gso_size as int, end as int),
            start == seg_start(header_len as int, gso_size as int, i as int),
            i <= count,
            packets@.len() == i,
            forall|j: int|
                0 <= j < i ==> #[trigger] packets_view(packets@)[j] == gso_segments(hdr, b)[j],
        decreases count - i,
    {
        proof {
            assert(header_len < end);
            assert(gso_size > 0);
            lemma_seg_count(header_len as int, gso_size as int, end as int, i as int);
            assert(segment_defined(
                cleared_ip_checksum(b),
                hdr.checksum_start as int,
                hdr.checksum_offset as int,
                gso_header_len(hdr, b),
                hdr.gso_size as int,
                is_ipv6_packet(b),
                is_tcp_gso(hdr.gso_type),
                gso_seq(hdr, b),
                be16(b, 4),
                i as int,
            ));
        }
        let new_packet = build_segment(
            s,
            checksum_start,
            checksum_offset,
            header_len,
            gso_size,
            is_ipv6,
            protocol,
            tcp_seq,
            identification,
            &src,
            &dst,
            i,
            start,
        );
        let ghost old_packets = packets@;
        packets.push(TunPacket::from_bytes(bytes_mut_freeze(new_packet)));
        proof {
            assert forall|j: int| 0 <= j < i + 1 implies #[trigger] packets_view(packets@)[j]
                == gso_segments(hdr, b)[j] by {
                if j < i {
                    assert(packets@[j] == old_packets[j]);
                    assert(packets_view(old_packets)[j] == gso_segments(hdr, b)[j]);
                }
            }
            assert(start + gso_size == seg_start(header_len as int, gso_size as int, i + 1))
                by (nonlinear_arith)
                requires
                    start == header_len + i * gso_size,
            ;
        }
        start += gso_size;
        i += 1;
    }
    proof {
        if header_len < end {
            lemma_seg_count(header_len as int, gso_size as int, end as int, i as int);
        }
        assert(packets_view(packets@) =~= gso_segments(hdr, b));
    }
    Ok(packets)
}

/// hdr: the virtio header split off the front of the buffer;
/// buf: the packet that follows it.
///
/// A packet without GSO comes back as it is, its checksum filled in when
/// the header asks for it. A GSO super-packet comes back split into
/// segments of `gso_size` bytes of data, each with its own IP and transport
/// headers and checksums; a TCP super-packet whose TCP header is cut short
/// or has an invalid length is refused with an error of kind `InvalidData`
/// whose message is that of the [`OffloadError`].
pub fn handle_virtio_read(hdr: VirtioNetHeader, buf: BytesMut) -> (r: Result<
    Vec<TunPacket>,
    std::io::Error,
>)
    requires
        virtio_read_defined(hdr, bytes_mut_view(buf)),
    ensures
        match r {
            Ok(packets) => virtio_read_output(hdr, bytes_mut_view(buf)) == Some(
                packets_view(packets@),
            ),
            Err(_) => virtio_read_output(hdr, bytes_mut_view(buf)) is None,
        },
{
    match read_packets(hdr, buf) {
        Ok(packets) => Ok(packets),
        Err(e) => Err(invalid_data(e.message())),
    }
}

/// [`handle_virtio_read`] on any header and buffer: where splitting would
/// panic or not end, it refuses with `Unsplittable`; a refused TCP
/// super-packet gives the reason.
pub fn try_handle_virtio_read(hdr: VirtioNetHeader, buf: BytesMut) -> (r: Result<
    Vec<TunPacket>,
    OffloadError,
>)
    ensures
        !virtio_read_defined(hdr, bytes_mut_view(buf)) ==> r == Err::<Vec<TunPacket>, OffloadError>(
            OffloadError::Unsplittable,
        ),
        virtio_read_defined(hdr, bytes_mut_view(buf)) ==> match r {
            Ok(packets) => virtio_read_output(hdr, bytes_mut_view(buf)) == Some(
                packets_view(packets@),
            ),
            Err(e) => virtio_read_output(hdr, bytes_mut_view(buf)) is None && e == gso_refusal(
                hdr,
                bytes_mut_view(buf),
            ),
        },
{
    if !virtio_read_is_defined(&hdr, bytes_mut_as_slice(&buf)) {
        return Err(OffloadError::Unsplittable);
    }
    read_packets(hdr, buf)
}

/// Whether the unfolded sum of `s` fits in 32 bits.
fn raw_sum_fits_u32(s: &[u8]) -> (r: bool)
    ensures
        r == (raw_sum(s@) <= u32::MAX),
{
    let len = s.len();
    let mut accum: u64 = 0;
    let mut pos: usize = 0;
    while len - pos >= 2
        invariant
            len == s@.len(),
            pos <= len,
            pos % 2 == 0,
            accum == checksum::word_sum(s@, pos as nat / 2),
            accum <= u32::MAX,
        decreases len - pos,
    {
        proof {
            checksum::lemma_word_sum_bound(s@, (pos as nat / 2 + 1) as nat);
        }
        accum = accum + be_read_u16(s, pos) as u64;
        pos = pos + 2;
        if accum > u32::MAX as u64 {
            proof {
                checksum::lemma_word_sum_mono(s@, pos as nat / 2, len as nat / 2);
            }
            return false;
        }
    }
    assert(pos as nat / 2 == len as nat / 2);
    if pos < len {
        accum = accum + s[pos] as u64 * 256;
    }
    accum <= u32::MAX as u64
}

/// Whether segment `i` of the plan can be built, as [`segment_defined`] says.
fn segment_is_defined(
    len: u64,
    cs: u64,
    co: u64,
    hl: u64,
    gso: u64,
    is_v6: bool,
    is_tcp: bool,
    seq: u64,
    ident: u64,
    i: u64,
) -> (r: bool)
    requires
        hl < len <= isize::MAX,
        0 < gso <= 0xffff,
        cs <= 0xffff,
        co <= 0xffff,
        seq <= u32::MAX,
        ident <= 0xffff,
        i <= u32::MAX,
        hl + i * gso < len,
    ensures
        r == ({
            let total = hl + seg_end(hl as int, gso as int, len as int, i as int) - seg_start(
                hl as int,
                gso as int,
                i as int,
            );
            &&& total <= 0xffff
            &&& cs + co + 2 <= total
            &&& !is_v6 ==> cs >= 12 && ident + i <= 0xffff
            &&& is_v6 ==> cs >= 6
            &&& is_tcp ==> seq + i * gso <= u32::MAX
        }),
{
    let start = hl + i * gso;
    let end = if start + gso >= len {
        len
    } else {
        start + gso
    };
    let total = hl + (end - start);
    if total > 0xffff || cs + co + 2 > total {
        return false;
    }
    if !is_v6 && (cs < 12 || ident + i > 0xffff) {
        return false;
    }
    if is_v6 && cs < 6 {
        return false;
    }
    if is_tcp && seq + i * gso > u32::MAX as u64 {
        return false;
    }
    true
}

/// Whether an accepted GSO super-packet can be split, as [`gso_defined`] says.
fn gso_is_defined(h: &VirtioNetHeader, b: &[u8], hl: usize) -> (r: bool)
    requires
        h.gso_type == VIRTIO_NET_HDR_GSO_UDP_L4 || is_tcp_gso(h.gso_type),
        !gso_refused(*h, b@),
        hl == gso_header_len(*h, b@),
        is_tcp_gso(h.gso_type) ==> b@.len() > h.checksum_start + 12,
    ensures
        r == gso_defined(*h, b@),
{
    let len = b.len();
    if len > isize::MAX as usize || hl > 0xffff || len < 1 {
        return false;
    }
    let is_v6 = b[0] >> 4 == 6;
    if (is_v6 && len < 40) || (!is_v6 && len < 20) {
        return false;
    }
    if hl >= len {
        assert(seg_count(hl as int, h.gso_size as int, len as int) == 0);
        return true;
    }
    let gso = h.gso_size as u64;
    if gso == 0 {
        return false;
    }
    let count = (len as u64 - hl as u64 + gso - 1) / gso;
    if count > u32::MAX as u64 {
        return false;
    }
    let is_tcp = is_tcp_gso_type(h.gso_type);
    let cs = h.checksum_start as u64;
    let seq: u64 = if is_tcp {
        be_read_u32(b, h.checksum_start as usize + 4) as u64
    } else {
        0
    };
    let ident = be_read_u16(b, 4) as u64;
    let ghost p = cleared_ip_checksum(b@);
    assert(p.len() == b@.len());
    let mut i: u64 = 0;
    while i < count
        invariant
            len == b@.len(),
            hl < len <= isize::MAX,
            0 < gso <= 0xffff,
            gso == h.gso_size,
            cs == h.checksum_start,
            hl == gso_header_len(*h, b@),
            count == seg_count(hl as int, gso as int, len as int),
            count <= u32::MAX,
            i <= count,
            seq == gso_seq(*h, b@),
            ident == be16(b@, 4),
            is_v6 == is_ipv6_packet(b@),
            is_tcp == is_tcp_gso(h.gso_type),
            p == cleared_ip_checksum(b@),
            p.len() == len,
            forall|j: int|
                0 <= j < i ==> #[trigger] segment_defined(
                    p,
                    cs as int,
                    h.checksum_offset as int,
                    hl as int,
                    gso as int,
                    is_v6,
                    is_tcp,
                    seq as int,
                    ident as int,
                    j,
                ),
        decreases count - i,
    {
        proof {
            lemma_seg_count(hl as int, gso as int, len as int, i as int);
            assert(i * gso <= u32::MAX * 0xffff) by (nonlinear_arith)
                requires
                    i <= u32::MAX,
                    gso <= 0xffff,
            ;
        }
        if !segment_is_defined(
            len as u64,
            cs,
            h.checksum_offset as u64,
            hl as u64,
            gso,
            is_v6,
            is_tcp,
            seq,
            ident,
            i,
        ) {
            assert(!segment_defined(
                cleared_ip_checksum(b@),
                h.checksum_start as int,
                h.checksum_offset as int,
                gso_header_len(*h, b@),
                h.gso_size as int,
                is_ipv6_packet(b@),
                is_tcp_gso(h.gso_type),
                gso_seq(*h, b@),
                be16(b@, 4),
                i as int,
            ));
            return false;
        }
        i = i + 1;
    }
    true
}

/// Whether the GSO type asks for TCP segmentation.
fn is_tcp_gso_type(gso_type: u8) -> (r: bool)
    ensures
        r == is_tcp_gso(gso_type),
{
    gso_type == VIRTIO_NET_HDR_GSO_TCPV4 || gso_type == VIRTIO_NET_HDR_GSO_TCPV6
}

/// Whether [`handle_virtio_read`] can take `h` and `b`: exactly
/// [`virtio_read_defined`].
pub fn virtio_read_is_defined(h: &VirtioNetHeader, b: &[u8]) -> (r: bool)
    ensures
        r == virtio_read_defined(*h, b@),
{
    let len = b.len();
    let cs = h.checksum_start as usize;
    let co = h.checksum_offset as usize;
    if h.gso_type == VIRTIO_NET_HDR_GSO_NONE {
        if h.flags & VIRTIO_NET_HDR_F_NEEDS_CSUM == 0 {
            return true;
        }
        if cs + co + 2 > len {
            return false;
        }
        let mut rest: Vec<u8> = Vec::new();
        rest.extend_from_slice(&b[cs..len]);
        rest.set(co, 0);
        rest.set(co + 1, 0);
        assert(rest@ =~= cleared_field(b@, (cs + co) as int).subrange(cs as int, len as int));
        return raw_sum_fits_u32(rest.as_slice());
    }
    let is_udp = h.gso_type == VIRTIO_NET_HDR_GSO_UDP_L4;
    let is_tcp = is_tcp_gso_type(h.gso_type);
    if !is_udp && !is_tcp {
        return false;
    }
    let hl: usize = if is_udp {
        if cs + 8 > 0xffff {
            return false;
        }
        cs + 8
    } else {
        if len == cs + 12 {
            return false;
        }
        if len < cs + 12 {
            // refused before anything can panic
            return true;
        }
        let data_offset = b[cs + 12];
        assert(data_offset >> 4u8 <= 15) by (bit_vector);
        let tcp_hdr_length = (data_offset >> 4) * 4;
        if !(20 <= tcp_hdr_length && tcp_hdr_length <= 60) {
            return true;
        }
        cs + tcp_hdr_length as usize
    };
    gso_is_defined(h, b, hl)
}

// ---------------------------------------------------------------------------
// GRO: the header of a coalesced packet
// ---------------------------------------------------------------------------

/// The protocol number of TCP.
pub const IPPROTO_TCP: u8 = 6;

/// The protocol number of UDP.
pub const IPPROTO_UDP: u8 = 17;

/// Whether `upper` is a TCP or UDP packet, as the protocol number says,
/// that passes `smoltcp`'s length check.
pub open spec fn gro_transport_ok(proto: u8, upper: Seq<u8>) -> bool {
    ||| proto == IPPROTO_TCP && tcp_len_ok(upper)
    ||| proto == IPPROTO_UDP && udp_len_ok(upper)
}

/// The IPv4 payload of a packet that passes the length check.
pub open spec fn ipv4_payload_of(p: Seq<u8>) -> Seq<u8> {
    p.subrange(ipv4_header_len_of(p), ipv4_total_len_of(p))
}

/// The IPv6 payload of a packet that passes the length check.
pub open spec fn ipv6_payload_of(p: Seq<u8>) -> Seq<u8> {
    p.subrange(40, 40 + ipv6_payload_len_of(p))
}

/// The packets that [`handle_gro`] describes: IPv4 or IPv6 packets that pass
/// `smoltcp`'s checks and carry TCP or UDP.
pub open spec fn gro_accepts(p: Seq<u8>) -> bool {
    &&& p.len() >= 1
    &&& p[0] >> 4u8 == 4 ==> ipv4_len_ok(p) && gro_transport_ok(p[9], ipv4_payload_of(p))
    &&& p[0] >> 4u8 == 6 ==> ipv6_len_ok(p) && gro_transport_ok(p[6], ipv6_payload_of(p))
    &&& p[0] >> 4u8 == 4 || p[0] >> 4u8 == 6
}

/// The header of a coalesced TCP or UDP packet whose transport header starts
/// at `ip_header_len`.
pub open spec fn gro_header_for(ip_header_len: int, proto: u8, upper: Seq<u8>, is_v6: bool) -> VirtioNetHeader {
    if proto == IPPROTO_TCP {
        VirtioNetHeader {
            flags: VIRTIO_NET_HDR_F_NEEDS_CSUM,
            gso_type: if is_v6 {
                VIRTIO_NET_HDR_GSO_TCPV6
            } else {
                VIRTIO_NET_HDR_GSO_TCPV4
            },
            header_len: (ip_header_len + tcp_header_len_of(upper)) as u16,
            gso_size: (upper.len() - tcp_header_len_of(upper)) as u16,
            checksum_start: ip_header_len as u16,
            checksum_offset: 16,
        }
    } else {
        VirtioNetHeader {
            flags: VIRTIO_NET_HDR_F_NEEDS_CSUM,
            gso_type: VIRTIO_NET_HDR_GSO_UDP_L4,
            header_len: (ip_header_len + 8) as u16,
            gso_size: (udp_len_of(upper) - 8) as u16,
            checksum_start: ip_header_len as u16,
            checksum_offset: 6,
        }
    }
}

/// The header that describes the coalesced packet `p`.
pub open spec fn gro_header(p: Seq<u8>) -> VirtioNetHeader {
    if p[0] >> 4u8 == 4 {
        gro_header_for(ipv4_header_len_of(p), p[9], ipv4_payload_of(p), false)
    } else {
        gro_header_for(40, p[6], ipv6_payload_of(p), true)
    }
}

/// The header that announces `pkt`, an IP packet with all fields filled, as
/// a coalesced packet whose checksum the receiver has to compute: the GSO
/// type, where the transport header and its checksum are, where the data
/// begins, and the data size. The packet's own checksums are not trusted.
pub fn handle_gro(pkt: &[u8]) -> (r: VirtioNetHeader)
    requires
        gro_accepts(pkt@),
    ensures
        r == gro_header(pkt@),
{
    let mut vnet_hdr = VirtioNetHeader::default();
    vnet_hdr.flags = VIRTIO_NET_HDR_F_NEEDS_CSUM;
    let version = pkt[0] >> 4;
    if version == 4 {
        handle_ipv4(&mut vnet_hdr, pkt);
    } else {
        // `requires`: the version is 4 or 6.
        handle_ipv6(&mut vnet_hdr, pkt);
    }
    vnet_hdr
}

/// The header with only the checksum flag set, from which [`handle_gro`] starts.
pub open spec fn gro_start_header() -> VirtioNetHeader {
    VirtioNetHeader { flags: VIRTIO_NET_HDR_F_NEEDS_CSUM, ..zero_header() }
}

fn handle_ipv4(hdr: &mut VirtioNetHeader, pkt: &[u8])
    requires
        *old(hdr) == gro_start_header(),
        pkt@.len() >= 1,
        pkt@[0] >> 4u8 == 4,
        ipv4_len_ok(pkt@),
        gro_transport_ok(pkt@[9], ipv4_payload_of(pkt@)),
    ensures
        *final(hdr) == gro_header(pkt@),
{
    let checked = ipv4_new_checked(pkt);
    assert(checked);
    hdr.checksum_start = ipv4_header_len(pkt) as u16;
    hdr.header_len = hdr.checksum_start;
    let next_header = ipv4_next_header(pkt);
    let payload = ipv4_payload(pkt);
    if next_header == IPPROTO_TCP {
        handle_tcp(hdr, payload, false);
    } else {
        // `requires`: the protocol is TCP or UDP.
        handle_udp(hdr, payload);
    }
}

fn handle_ipv6(hdr: &mut VirtioNetHeader, pkt: &[u8])
    requires
        *old(hdr) == gro_start_header(),
        ipv6_len_ok(pkt@),
        gro_transport_ok(pkt@[6], ipv6_payload_of(pkt@)),
    ensures
        *final(hdr) == gro_header_for(40, pkt@[6], ipv6_payload_of(pkt@), true),
{
    let checked = ipv6_new_checked(pkt);
    assert(checked);
    hdr.checksum_start = ipv6_header_len(pkt) as u16;
    hdr.header_len = hdr.checksum_start;
    let next_header = ipv6_next_header(pkt);
    let payload = ipv6_payload(pkt);
    if next_header == IPPROTO_TCP {
        handle_tcp(hdr, payload, true);
    } else {
        // `requires`: the protocol is TCP or UDP.
        handle_udp(hdr, payload);
    }
}

fn handle_tcp(hdr: &mut VirtioNetHeader, upper: &[u8], is_v6: bool)
    requires
        tcp_len_ok(upper@),
        upper@.len() <= 0xffff,
        old(hdr).checksum_start <= 60,
        old(hdr).header_len == old(hdr).checksum_start,
        old(hdr).flags == VIRTIO_NET_HDR_F_NEEDS_CSUM,
    ensures
        *final(hdr) == gro_header_for(
            old(hdr).checksum_start as int,
            IPPROTO_TCP,
            upper@,
            is_v6,
        ),
{
    let checked = tcp_new_checked(upper);
    assert(checked);
    hdr.gso_type = if is_v6 {
        VIRTIO_NET_HDR_GSO_TCPV6
    } else {
        VIRTIO_NET_HDR_GSO_TCPV4
    };
    hdr.header_len = hdr.header_len + tcp_header_len(upper) as u16;
    hdr.checksum_offset = 16;
    hdr.gso_size = tcp_payload(upper).len() as u16;
}

fn handle_udp(hdr: &mut VirtioNetHeader, upper: &[u8])
    requires
        udp_len_ok(upper@),
        old(hdr).checksum_start <= 60,
        old(hdr).header_len == old(hdr).checksum_start,
        old(hdr).flags == VIRTIO_NET_HDR_F_NEEDS_CSUM,
    ensures
        *final(hdr) == gro_header_for(
            old(hdr).checksum_start as int,
            IPPROTO_UDP,
            upper@,
            false,
        ),
{
    let checked = udp_new_checked(upper);
    assert(checked);
    hdr.gso_type = VIRTIO_NET_HDR_GSO_UDP_L4;
    hdr.header_len = hdr.header_len + 8;
    hdr.checksum_offset = 6;
    hdr.gso_size = udp_payload(upper).len() as u16;
}

/// What the GRO header of every accepted packet says, read off the packet's
/// own bytes: the receiver is asked to compute the checksum
/// (`NEEDS_CSUM`), the transport header starts after the IP header (IHL
/// times 4, or the 40 fixed bytes of IPv6), the checksum field is at offset
/// 16 of a TCP header and 6 of a UDP header whatever the IP version, the
/// GSO type follows the transport and the IP version, the headers end after
/// the TCP data offset times 4 or the 8 bytes of UDP, and the data size is
/// what the IP length (TCP) or the UDP length leaves after the headers.
pub proof fn lemma_gro_header_fields(p: Seq<u8>)
    requires
        gro_accepts(p),
    ensures
        ({
            let h = gro_header(p);
            let v4 = p[0] >> 4u8 == 4;
            let cs: int = if v4 { (p[0] % 16) * 4 } else { 40 };
            let proto = if v4 { p[9] } else { p[6] };
            let is_tcp = proto == 6;
            let ip_end: int = if v4 { p[2] * 256 + p[3] } else { 40 + p[4] * 256 + p[5] };
            let thl: int = if is_tcp { (p[cs + 12] / 16) * 4 } else { 8 };
            &&& h.flags == VIRTIO_NET_HDR_F_NEEDS_CSUM
            &&& h.checksum_start == cs
            &&& h.checksum_offset == if is_tcp { 16int } else { 6int }
            &&& h.gso_type == if !is_tcp {
                VIRTIO_NET_HDR_GSO_UDP_L4
            } else if v4 {
                VIRTIO_NET_HDR_GSO_TCPV4
            } else {
                VIRTIO_NET_HDR_GSO_TCPV6
            }
            &&& h.header_len == cs + thl
            &&& h.gso_size == if is_tcp {
                ip_end - cs - thl
            } else {
                p[cs + 4] * 256 + p[cs + 5] - 8
            }
        }),
{
    let v4 = p[0] >> 4u8 == 4;
    let cs: int = if v4 { ipv4_header_len_of(p) } else { 40 };
    let upper = if v4 { ipv4_payload_of(p) } else { ipv6_payload_of(p) };
    assert(v4 ==> cs <= 60);
    assert(upper.len() <= 0xffff);
    assert(upper.len() >= 8);
    if (if v4 { p[9] } else { p[6] }) == IPPROTO_TCP {
        assert(upper[12] == p[cs + 12]);
    } else {
        assert(upper[4] == p[cs + 4] && upper[5] == p[cs + 5]);
    }
    assert(upper.len() == (if v4 { ipv4_total_len_of(p) } else { 40 + ipv6_payload_len_of(p) }) - cs);
}

} // verus!
