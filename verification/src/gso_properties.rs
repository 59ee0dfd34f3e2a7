//! What splitting a GSO super-packet keeps: the data, the lengths the
//! headers announce, and checksums that verify.
use vstd::prelude::*;
use crate::checksum::{
    data_checksum, fold_carries, lemma_filled_checksum_verifies, lemma_fold_carries_congruent,
    lemma_fold_carries_small, lemma_pseudo_header_sum_standard, lemma_raw_sum_bound, pseudo_header_sum, raw_sum,
};
use crate::endian::{
    be16, be32, lemma_be16_put16, lemma_be32_put32, lemma_put16_be16, lemma_put32_be32, put16, put32,
};
use crate::offload::{
    gro_accepts, gro_header, ipv4_payload_of, ipv6_payload_of, lemma_seg_count, tcp_header_len_at,
    IPPROTO_TCP, IPPROTO_UDP,
    cleared_field, cleared_ip_checksum, dst_address_bytes, gso_defined, gso_header_len, gso_protocol_number,
    gso_refusal, gso_refused, gso_segments, gso_seq, is_ipv6_packet, is_tcp_gso, plain_packet, seg_count,
    seg_end, seg_ip_header, seg_is_last, seg_start, seg_transport_header, seg_unsummed, segment,
    segment_defined, src_address_bytes, virtio_read_defined, virtio_read_output, TCP_FLAGS_OFFSET, TCP_FLAG_FIN,
    TCP_FLAG_PSH,
};
use crate::virtio::{VirtioNetHeader, VIRTIO_NET_HDR_F_NEEDS_CSUM, VIRTIO_NET_HDR_GSO_NONE};
use crate::wire::{
    ipv4_header_len_of, ipv4_total_len_of, ipv6_payload_len_of, tcp_header_len_of, udp_len_of,
};

verus! {

/// The data of the first `n` segments, joined in order.
pub open spec fn joined_data(b: Seq<u8>, hl: int, gso: int, n: nat) -> Seq<u8>
    decreases n,
{
    if n == 0 {
        Seq::empty()
    } else {
        joined_data(b, hl, gso, (n - 1) as nat) + b.subrange(
            seg_start(hl, gso, n - 1),
            seg_end(hl, gso, b.len() as int, n - 1),
        )
    }
}

/// Whether the per-segment header fields (UDP length; TCP sequence number
/// and flags) lie apart from the checksum field at `co`.
pub open spec fn checksum_field_apart(is_tcp: bool, co: int) -> bool {
    if is_tcp {
        (co + 1 < 4 || co > 7) && (co + 1 < 13 || co > 13)
    } else {
        co + 1 < 4 || co > 5
    }
}

/// Whether `h` and `b` make an accepted GSO super-packet that can be split.
pub open spec fn gso_accepted(h: VirtioNetHeader, b: Seq<u8>) -> bool {
    &&& h.gso_type != VIRTIO_NET_HDR_GSO_NONE
    &&& virtio_read_defined(h, b)
    &&& !gso_refused(h, b)
}

/// The pieces a segment is made of.
proof fn lemma_segment_shape(h: VirtioNetHeader, b: Seq<u8>, i: int)
    requires
        gso_accepted(h, b),
        0 <= i < seg_count(gso_header_len(h, b), h.gso_size as int, b.len() as int),
    ensures
        ({
            let cs = h.checksum_start as int;
            let co = h.checksum_offset as int;
            let hl = gso_header_len(h, b);
            let g = h.gso_size as int;
            let p = cleared_ip_checksum(b);
            let start = seg_start(hl, g, i);
            let end = seg_end(hl, g, b.len() as int, i);
            let u = seg_unsummed(
                p,
                cs,
                hl,
                g,
                is_ipv6_packet(b),
                is_tcp_gso(h.gso_type),
                gso_seq(h, b),
                be16(b, 4),
                i,
            );
            let seg = gso_segments(h, b)[i];
            &&& gso_defined(h, b)
            &&& segment_defined(
                p,
                cs,
                co,
                hl,
                g,
                is_ipv6_packet(b),
                is_tcp_gso(h.gso_type),
                gso_seq(h, b),
                be16(b, 4),
                i,
            )
            &&& hl <= start < end <= b.len()
            &&& end - start <= g
            &&& u.len() == hl + end - start
            &&& seg.len() == u.len()
            &&& u.subrange(0, cs) == seg_ip_header(
                p,
                cs,
                hl + end - start,
                is_ipv6_packet(b),
                be16(b, 4) + i,
            )
            &&& u.subrange(cs, hl) == seg_transport_header(
                p,
                cs,
                hl,
                end - start,
                is_tcp_gso(h.gso_type),
                gso_seq(h, b) + i * g,
                seg_is_last(hl, g, b.len() as int, i),
            )
            &&& u.subrange(hl, u.len() as int) == b.subrange(start, end)
            &&& seg == segment(
                p,
                cs,
                co,
                hl,
                g,
                is_ipv6_packet(b),
                is_tcp_gso(h.gso_type),
                gso_seq(h, b),
                be16(b, 4),
                i,
            )
            &&& forall|k: int|
                0 <= k < seg.len() && k != cs + co && k != cs + co + 1 ==> #[trigger] seg[k]
                    == u[k]
        }),
{
    let cs = h.checksum_start as int;
    let hl = gso_header_len(h, b);
    let g = h.gso_size as int;
    let len = b.len() as int;
    let p = cleared_ip_checksum(b);
    assert(gso_defined(h, b));
    assert(hl < len);
    assert(g > 0);
    assert(i * g >= 0) by (nonlinear_arith)
        requires
            i >= 0,
            g > 0,
    ;
    crate::offload::lemma_seg_count(hl, g, len, i);
    let start = seg_start(hl, g, i);
    let end = seg_end(hl, g, len, i);
    let ip = seg_ip_header(p, cs, hl + end - start, is_ipv6_packet(b), be16(b, 4) + i);
    let tp = seg_transport_header(
        p,
        cs,
        hl,
        end - start,
        is_tcp_gso(h.gso_type),
        gso_seq(h, b) + i * g,
        seg_is_last(hl, g, len, i),
    );
    let pay = p.subrange(start, end);
    let u = ip + tp + pay;
    assert(segment_defined(
        p,
        cs,
        h.checksum_offset as int,
        hl,
        g,
        is_ipv6_packet(b),
        is_tcp_gso(h.gso_type),
        gso_seq(h, b),
        be16(b, 4),
        i,
    ));
    assert(hl >= cs + 8);
    assert(ip.len() == cs);
    assert(tp.len() == hl - cs);
    assert(u.subrange(0, cs) =~= ip);
    assert(u.subrange(cs, hl) =~= tp);
    assert(u.subrange(hl, u.len() as int) =~= pay);
    assert(pay =~= b.subrange(start, end));
}

/// Segmentation keeps the data: every segment but the last carries exactly
/// `gso_size` bytes of data, the last at most that many, and the data of the
/// segments joined in order is the data of the super-packet. Where the
/// checksum field lies in the transport header, the bytes of each segment
/// after its headers are its piece of that data.
pub proof fn lemma_gso_keeps_data(h: VirtioNetHeader, b: Seq<u8>)
    requires
        gso_accepted(h, b),
    ensures
        ({
            let hl = gso_header_len(h, b);
            let g = h.gso_size as int;
            let len = b.len() as int;
            let n = seg_count(hl, g, len);
            &&& hl < len ==> joined_data(b, hl, g, n as nat) == b.subrange(hl, len)
            &&& forall|i: int|
                0 <= i < n - 1 ==> #[trigger] seg_end(hl, g, len, i) - seg_start(hl, g, i) == g
            &&& n > 0 ==> 0 < seg_end(hl, g, len, n - 1) - seg_start(hl, g, n - 1) <= g
            &&& h.checksum_start + h.checksum_offset + 2 <= hl ==> forall|i: int|
                0 <= i < n ==> (#[trigger] gso_segments(h, b)[i]).subrange(
                    hl,
                    gso_segments(h, b)[i].len() as int,
                ) == b.subrange(seg_start(hl, g, i), seg_end(hl, g, len, i))
        }),
{
    let hl = gso_header_len(h, b);
    let g = h.gso_size as int;
    let len = b.len() as int;
    let n = seg_count(hl, g, len);
    assert(gso_defined(h, b));
    if hl < len {
        assert(g > 0);
        lemma_joined_data(b, hl, g, n);
        assert forall|i: int| 0 <= i < n - 1 implies #[trigger] seg_end(hl, g, len, i) - seg_start(
            hl,
            g,
            i,
        ) == g by {
            crate::offload::lemma_seg_count(hl, g, len, i + 1);
            assert(seg_start(hl, g, i + 1) == seg_start(hl, g, i) + g) by (nonlinear_arith);
        }
        if n > 0 {
            lemma_segment_shape(h, b, n - 1);
        }
    }
    if h.checksum_start + h.checksum_offset + 2 <= hl {
        assert forall|i: int| 0 <= i < n implies (#[trigger] gso_segments(h, b)[i]).subrange(
            hl,
            gso_segments(h, b)[i].len() as int,
        ) == b.subrange(seg_start(hl, g, i), seg_end(hl, g, len, i)) by {
            lemma_segment_shape(h, b, i);
            let seg = gso_segments(h, b)[i];
            let u = seg_unsummed(
                cleared_ip_checksum(b),
                h.checksum_start as int,
                hl,
                g,
                is_ipv6_packet(b),
                is_tcp_gso(h.gso_type),
                gso_seq(h, b),
                be16(b, 4),
                i,
            );
            assert(seg.subrange(hl, seg.len() as int) =~= u.subrange(hl, u.len() as int));
        }
    }
}

/// The joined data of the first `m` segments reaches the end of segment `m - 1`.
proof fn lemma_joined_data(b: Seq<u8>, hl: int, g: int, m: int)
    requires
        0 <= hl < b.len(),
        g > 0,
        0 <= m <= seg_count(hl, g, b.len() as int),
    ensures
        m == 0 ==> joined_data(b, hl, g, m as nat) == Seq::<u8>::empty(),
        m > 0 ==> joined_data(b, hl, g, m as nat) == b.subrange(
            hl,
            seg_end(hl, g, b.len() as int, m - 1),
        ),
        m == seg_count(hl, g, b.len() as int) ==> joined_data(b, hl, g, m as nat) == b.subrange(
            hl,
            b.len() as int,
        ),
    decreases m,
{
    let len = b.len() as int;
    let n = seg_count(hl, g, len);
    assert(n >= 1) by {
        crate::offload::lemma_seg_count(hl, g, len, 0);
    }
    if m > 0 {
        lemma_joined_data(b, hl, g, m - 1);
        crate::offload::lemma_seg_count(hl, g, len, m - 1);
        assert(m - 1 >= 0);
        assert((m - 1) * g >= 0) by (nonlinear_arith)
            requires
                m - 1 >= 0,
                g > 0,
        ;
        if m > 1 {
            crate::offload::lemma_seg_count(hl, g, len, m - 2);
            assert(seg_start(hl, g, m - 1) == seg_start(hl, g, m - 2) + g) by (nonlinear_arith);
            assert(!seg_is_last(hl, g, len, m - 2));
            assert(seg_end(hl, g, len, m - 2) == seg_start(hl, g, m - 1));
        }
        let prev = if m > 1 {
            seg_end(hl, g, len, m - 2)
        } else {
            hl
        };
        assert(b.subrange(hl, prev) + b.subrange(seg_start(hl, g, m - 1), seg_end(hl, g, len, m - 1))
            =~= b.subrange(hl, seg_end(hl, g, len, m - 1)));
    }
    if m == n && m > 0 {
        crate::offload::lemma_seg_count(hl, g, len, m);
        assert(seg_start(hl, g, m) == seg_start(hl, g, m - 1) + g) by (nonlinear_arith);
        assert(seg_is_last(hl, g, len, m - 1));
    }
}

/// The per-segment fields of an IP header: the IPv4 total length and
/// identification, the IPv6 payload length.
proof fn lemma_ip_header_fields(p: Seq<u8>, cs: int, total: int, is_v6: bool, ident: int)
    requires
        cs <= total <= 0xffff,
        cs <= p.len(),
        !is_v6 ==> 0 <= ident <= 0xffff,
        !is_v6 ==> cs >= 12,
        is_v6 ==> cs >= 6,
    ensures
        ({
            let ip = seg_ip_header(p, cs, total, is_v6, ident);
            &&& !is_v6 ==> be16(ip, 2) == total && be16(ip, 4) == ident
            &&& is_v6 ==> be16(ip, 4) == total - cs
        }),
{
    let base = p.subrange(0, cs);
    if is_v6 {
        lemma_be16_put16(base, 4, total - cs);
    } else {
        let q1 = put16(base, 2, total);
        let q = put16(q1, 4, ident);
        lemma_be16_put16(base, 2, total);
        lemma_be16_put16(q1, 4, ident);
        let ip = put16(q, 10, 0xffff - data_checksum(q));
        assert(ip[2] == q1[2] && ip[3] == q1[3] && ip[4] == q[4] && ip[5] == q[5]);
    }
}

/// Each segment announces its own length in its IP header: its IPv4 total
/// length is its length and its identification is the super-packet's plus
/// its index; its IPv6 payload length is its length after the IPv6 header.
/// Its length is the header length plus its data.
#[verifier::rlimit(60)]
pub proof fn lemma_segment_ip_fields(h: VirtioNetHeader, b: Seq<u8>, i: int)
    requires
        gso_accepted(h, b),
        0 <= i < seg_count(gso_header_len(h, b), h.gso_size as int, b.len() as int),
    ensures
        ({
            let cs = h.checksum_start as int;
            let hl = gso_header_len(h, b);
            let g = h.gso_size as int;
            let seg = gso_segments(h, b)[i];
            &&& seg.len() == hl + seg_end(hl, g, b.len() as int, i) - seg_start(hl, g, i)
            &&& !is_ipv6_packet(b) ==> be16(seg, 2) == seg.len() && be16(seg, 4) == be16(b, 4) + i
            &&& is_ipv6_packet(b) ==> be16(seg, 4) == seg.len() - cs
        }),
{
    lemma_segment_shape(h, b, i);
    let cs = h.checksum_start as int;
    let hl = gso_header_len(h, b);
    let g = h.gso_size as int;
    let len = b.len() as int;
    let p = cleared_ip_checksum(b);
    let start = seg_start(hl, g, i);
    let end = seg_end(hl, g, len, i);
    let total = hl + end - start;
    let seg = gso_segments(h, b)[i];
    let u = seg_unsummed(
        p,
        cs,
        hl,
        g,
        is_ipv6_packet(b),
        is_tcp_gso(h.gso_type),
        gso_seq(h, b),
        be16(b, 4),
        i,
    );
    let ip = seg_ip_header(p, cs, total, is_ipv6_packet(b), be16(b, 4) + i);
    lemma_ip_header_fields(p, cs, total, is_ipv6_packet(b), be16(b, 4) + i);
    assert forall|k: int| 0 <= k < cs implies seg[k] == ip[k] by {
        assert(seg[k] == u[k]);
        assert(u.subrange(0, cs)[k] == u[k]);
    }
    if !is_ipv6_packet(b) {
        assert(seg[2] == ip[2] && seg[3] == ip[3] && seg[4] == ip[4] && seg[5] == ip[5]);
    } else {
        assert(seg[4] == ip[4] && seg[5] == ip[5]);
    }
}

/// The per-segment fields of a TCP transport header: the sequence number,
/// and the flags byte with FIN and PSH cleared but in the last segment.
proof fn lemma_tcp_header_fields(p: Seq<u8>, cs: int, hl: int, plen: int, seq: int, is_last: bool)
    requires
        0 <= cs,
        cs + 20 <= hl <= p.len(),
        0 <= seq <= u32::MAX,
    ensures
        ({
            let tp = seg_transport_header(p, cs, hl, plen, true, seq, is_last);
            &&& be32(tp, 4) == seq
            &&& is_last ==> tp[13] == p[cs + 13]
            &&& !is_last ==> tp[13] & (TCP_FLAG_FIN | TCP_FLAG_PSH) == 0
        }),
{
    let t = p.subrange(cs, hl);
    let t1 = put32(t, 4, seq);
    lemma_be32_put32(t, 4, seq);
    let x = t1[13];
    assert(x == p[cs + 13]);
    assert(x & !(TCP_FLAG_FIN | TCP_FLAG_PSH) & (TCP_FLAG_FIN | TCP_FLAG_PSH) == 0)
        by (bit_vector);
    let t2 = t1.update(13, x & !(TCP_FLAG_FIN | TCP_FLAG_PSH));
    assert(t2[4] == t1[4] && t2[5] == t1[5] && t2[6] == t1[6] && t2[7] == t1[7]);
}

/// Each segment announces itself in its transport header (where the
/// checksum field lies apart from these fields): its UDP length is its
/// length after the IP header; its TCP sequence number is the
/// super-packet's plus the data before it; and FIN and PSH are cleared in
/// every TCP segment but the last, which keeps the flags of the
/// super-packet.
#[verifier::rlimit(60)]
pub proof fn lemma_segment_transport_fields(h: VirtioNetHeader, b: Seq<u8>, i: int)
    requires
        gso_accepted(h, b),
        0 <= i < seg_count(gso_header_len(h, b), h.gso_size as int, b.len() as int),
        checksum_field_apart(is_tcp_gso(h.gso_type), h.checksum_offset as int),
    ensures
        ({
            let cs = h.checksum_start as int;
            let hl = gso_header_len(h, b);
            let g = h.gso_size as int;
            let len = b.len() as int;
            let seg = gso_segments(h, b)[i];
            &&& !is_tcp_gso(h.gso_type) ==> be16(seg, cs + 4) == seg.len() - cs
            &&& is_tcp_gso(h.gso_type) ==> be32(seg, cs + 4) == gso_seq(h, b) + i * g
            &&& is_tcp_gso(h.gso_type) && !seg_is_last(hl, g, len, i) ==> seg[cs + TCP_FLAGS_OFFSET]
                & (TCP_FLAG_FIN | TCP_FLAG_PSH) == 0
            &&& is_tcp_gso(h.gso_type) && seg_is_last(hl, g, len, i) ==> seg[cs + TCP_FLAGS_OFFSET]
                == b[cs + TCP_FLAGS_OFFSET]
        }),
{
    lemma_segment_shape(h, b, i);
    let cs = h.checksum_start as int;
    let co = h.checksum_offset as int;
    let hl = gso_header_len(h, b);
    let g = h.gso_size as int;
    let len = b.len() as int;
    let p = cleared_ip_checksum(b);
    let start = seg_start(hl, g, i);
    let end = seg_end(hl, g, len, i);
    let seg = gso_segments(h, b)[i];
    let tcp = is_tcp_gso(h.gso_type);
    let u = seg_unsummed(p, cs, hl, g, is_ipv6_packet(b), tcp, gso_seq(h, b), be16(b, 4), i);
    let tp = seg_transport_header(
        p,
        cs,
        hl,
        end - start,
        tcp,
        gso_seq(h, b) + i * g,
        seg_is_last(hl, g, len, i),
    );
    assert forall|k: int| cs <= k < hl && k != cs + co && k != cs + co + 1 implies seg[k]
        == tp[k - cs] by {
        assert(seg[k] == u[k]);
        assert(u.subrange(cs, hl)[k - cs] == u[k]);
    }
    if tcp {
        lemma_tcp_header_fields(p, cs, hl, end - start, gso_seq(h, b) + i * g, seg_is_last(hl, g, len, i));
        assert(seg[cs + 4] == tp[4] && seg[cs + 5] == tp[5] && seg[cs + 6] == tp[6] && seg[cs + 7]
            == tp[7]);
        assert(seg[cs + 13] == tp[13]);
    } else {
        lemma_be16_put16(p.subrange(cs, hl), 4, 8 + end - start);
        assert(seg[cs + 4] == tp[4] && seg[cs + 5] == tp[5]);
    }
}

/// Each IPv4 segment carries a valid header checksum: the RFC 1071 sum of
/// its IP header is 0xffff.
pub proof fn lemma_ipv4_header_checksum(h: VirtioNetHeader, b: Seq<u8>, i: int)
    requires
        gso_accepted(h, b),
        0 <= i < seg_count(gso_header_len(h, b), h.gso_size as int, b.len() as int),
        !is_ipv6_packet(b),
    ensures
        data_checksum(gso_segments(h, b)[i].subrange(0, h.checksum_start as int)) == 0xffff,
{
    lemma_segment_shape(h, b, i);
    let cs = h.checksum_start as int;
    let hl = gso_header_len(h, b);
    let g = h.gso_size as int;
    let len = b.len() as int;
    let p = cleared_ip_checksum(b);
    let start = seg_start(hl, g, i);
    let end = seg_end(hl, g, len, i);
    let total = hl + end - start;
    let seg = gso_segments(h, b)[i];
    let u = seg_unsummed(
        p,
        cs,
        hl,
        g,
        is_ipv6_packet(b),
        is_tcp_gso(h.gso_type),
        gso_seq(h, b),
        be16(b, 4),
        i,
    );
    let q = put16(put16(p.subrange(0, cs), 2, total), 4, be16(b, 4) + i);
    let ip = seg_ip_header(p, cs, total, false, be16(b, 4) + i);
    assert(seg.subrange(0, cs) =~= u.subrange(0, cs));
    assert(q[10] == 0 && q[11] == 0);
    lemma_raw_sum_bound(q);
    lemma_fold_carries_congruent(raw_sum(q));
    lemma_fold_carries_small(data_checksum(q));
    lemma_filled_checksum_verifies(q, 10, 0);
    lemma_raw_sum_bound(ip);
    lemma_fold_carries_congruent(raw_sum(ip));
    lemma_fold_carries_small(data_checksum(ip));
}

/// Each segment carries a valid transport checksum: the folded sum of its
/// pseudo header and of its transport header and data is 0xffff, whatever
/// the checksum field of the super-packet held (for a checksum field at an
/// even offset from `checksum_start`).
#[verifier::rlimit(60)]
pub proof fn lemma_transport_checksum(h: VirtioNetHeader, b: Seq<u8>, i: int)
    requires
        gso_accepted(h, b),
        0 <= i < seg_count(gso_header_len(h, b), h.gso_size as int, b.len() as int),
        h.checksum_offset % 2 == 0,
    ensures
        ({
            let seg = gso_segments(h, b)[i];
            let cs = h.checksum_start as int;
            let p = cleared_ip_checksum(b);
            fold_carries(
                pseudo_header_sum(
                    src_address_bytes(p, is_ipv6_packet(b)),
                    dst_address_bytes(p, is_ipv6_packet(b)),
                    gso_protocol_number(is_tcp_gso(h.gso_type)),
                    (seg.len() - cs) as u32,
                ) + data_checksum(seg.subrange(cs, seg.len() as int)),
            ) == 0xffff
        }),
{
    lemma_segment_shape(h, b, i);
    let cs = h.checksum_start as int;
    let co = h.checksum_offset as int;
    let hl = gso_header_len(h, b);
    let g = h.gso_size as int;
    let len = b.len() as int;
    let p = cleared_ip_checksum(b);
    let v6 = is_ipv6_packet(b);
    let tcp = is_tcp_gso(h.gso_type);
    let start = seg_start(hl, g, i);
    let end = seg_end(hl, g, len, i);
    let seg = gso_segments(h, b)[i];
    let u = seg_unsummed(p, cs, hl, g, v6, tcp, gso_seq(h, b), be16(b, 4), i);
    let z = cleared_field(u, cs + co);
    let v = z.subrange(cs, z.len() as int);
    let src = src_address_bytes(p, v6);
    let dst = dst_address_bytes(p, v6);
    let proto = gso_protocol_number(tcp);
    let length = (hl - cs + end - start) as u32;
    let a = data_checksum(src);
    let d = data_checksum(dst);
    let e = data_checksum(crate::checksum::proto_len_bytes(proto, length));
    lemma_raw_sum_bound(src);
    lemma_raw_sum_bound(dst);
    lemma_raw_sum_bound(crate::checksum::proto_len_bytes(proto, length));
    lemma_fold_carries_congruent(raw_sum(src));
    lemma_fold_carries_congruent(raw_sum(dst));
    lemma_fold_carries_congruent(raw_sum(crate::checksum::proto_len_bytes(proto, length)));
    lemma_fold_carries_congruent(a + d + e);
    let extra = pseudo_header_sum(src, dst, proto, length);
    assert(v[co] == 0 && v[co + 1] == 0);
    lemma_raw_sum_bound(v);
    assert(seg.subrange(cs, seg.len() as int) =~= put16(
        v,
        co,
        0xffff - fold_carries(extra + data_checksum(v)),
    ));
    lemma_filled_checksum_verifies(v, co, extra);
}

/// A packet that is not split gets a checksum that completes the partial
/// sum its checksum field held: the folded sum of that partial sum and of
/// everything from `checksum_start` is 0xffff (for a checksum field at an
/// even offset from `checksum_start`, on packets whose sum leaves room for
/// the field's value).
pub proof fn lemma_plain_checksum_completes(h: VirtioNetHeader, b: Seq<u8>)
    requires
        h.gso_type == VIRTIO_NET_HDR_GSO_NONE,
        h.flags & VIRTIO_NET_HDR_F_NEEDS_CSUM != 0,
        virtio_read_defined(h, b),
        h.checksum_offset % 2 == 0,
        raw_sum(
            b.update(h.checksum_start + h.checksum_offset, 0).update(
                h.checksum_start + h.checksum_offset + 1,
                0,
            ).subrange(h.checksum_start as int, b.len() as int),
        ) + 0xffff <= u32::MAX,
    ensures
        ({
            let cs = h.checksum_start as int;
            let out = plain_packet(h, b);
            fold_carries(
                be16(b, cs + h.checksum_offset) + data_checksum(out.subrange(cs, out.len() as int)),
            ) == 0xffff
        }),
{
    let cs = h.checksum_start as int;
    let co = h.checksum_offset as int;
    let at = cs + co;
    let z = b.update(at, 0).update(at + 1, 0);
    let zs = z.subrange(cs, z.len() as int);
    let extra = be16(b, at);
    let out = plain_packet(h, b);
    assert(zs[co] == 0 && zs[co + 1] == 0);
    assert(out.subrange(cs, out.len() as int) =~= put16(
        zs,
        co,
        0xffff - fold_carries(extra + data_checksum(zs)),
    ));
    lemma_filled_checksum_verifies(zs, co, extra);
}

/// A segment holds its transport header and fits a 16-bit length.
proof fn lemma_segment_len(h: VirtioNetHeader, b: Seq<u8>, i: int)
    requires
        gso_accepted(h, b),
        0 <= i < seg_count(gso_header_len(h, b), h.gso_size as int, b.len() as int),
    ensures
        h.checksum_start < gso_segments(h, b)[i].len() <= 0xffff,
{
    lemma_segment_shape(h, b, i);
}

/// A checksum that verifies against [`pseudo_header_sum`] verifies against
/// the standard pseudo-header sum.
proof fn lemma_standard_pseudo_header_form(src: Seq<u8>, dst: Seq<u8>, proto: u8, len: int, body: Seq<u8>)
    requires
        src.len() <= 16,
        dst.len() <= 16,
        0 <= len <= 0xffff,
        fold_carries(pseudo_header_sum(src, dst, proto, len as u32) + data_checksum(body)) == 0xffff,
    ensures
        fold_carries(fold_carries(raw_sum(src) + raw_sum(dst) + proto + len) + data_checksum(body))
            == 0xffff,
{
    let l = len as u32;
    assert(l == len);
    vstd::arithmetic::div_mod::lemma_small_mod(l as nat, 0x1_0000);
    lemma_pseudo_header_sum_standard(src, dst, proto, l);
    let x = raw_sum(src) + raw_sum(dst) + proto + l % 0x1_0000;
    assert(x == raw_sum(src) + raw_sum(dst) + proto + len);
}

/// Each segment's transport checksum verifies against the standard pseudo
/// header: the super-packet's source and destination addresses, the
/// protocol number (6 for TCP, 17 for UDP) and the segment's transport
/// length, summed with the transport header and data and folded, give
/// 0xffff (for a checksum field at an even offset).
#[verifier::spinoff_prover]
pub proof fn lemma_transport_checksum_standard(h: VirtioNetHeader, b: Seq<u8>, i: int)
    requires
        gso_accepted(h, b),
        0 <= i < seg_count(gso_header_len(h, b), h.gso_size as int, b.len() as int),
        h.checksum_offset % 2 == 0,
    ensures
        ({
            let seg = gso_segments(h, b)[i];
            let cs = h.checksum_start as int;
            let v6 = is_ipv6_packet(b);
            let src = if v6 { b.subrange(8, 24) } else { b.subrange(12, 16) };
            let dst = if v6 { b.subrange(24, 40) } else { b.subrange(16, 20) };
            let proto: int = if is_tcp_gso(h.gso_type) { 6 } else { 17 };
            fold_carries(
                fold_carries(raw_sum(src) + raw_sum(dst) + proto + (seg.len() - cs))
                    + data_checksum(seg.subrange(cs, seg.len() as int)),
            ) == 0xffff
        }),
{
    let seg = gso_segments(h, b)[i];
    let cs = h.checksum_start as int;
    let v6 = is_ipv6_packet(b);
    let p = cleared_ip_checksum(b);
    let src = src_address_bytes(p, v6);
    let dst = dst_address_bytes(p, v6);
    let proto = gso_protocol_number(is_tcp_gso(h.gso_type));
    let body = seg.subrange(cs, seg.len() as int);
    assert(src =~= (if v6 { b.subrange(8, 24) } else { b.subrange(12, 16) }));
    assert(dst =~= (if v6 { b.subrange(24, 40) } else { b.subrange(16, 20) }));
    lemma_transport_checksum(h, b, i);
    lemma_segment_len(h, b, i);
    lemma_standard_pseudo_header_form(src, dst, proto, seg.len() - cs, body);
}

/// The `header_len` that the caller passes is never trusted: two headers
/// that differ in it alone are taken on the same inputs, give the same
/// packets, and are refused for the same reason.
pub proof fn lemma_header_len_ignored(h1: VirtioNetHeader, h2: VirtioNetHeader, b: Seq<u8>)
    requires
        h1.flags == h2.flags,
        h1.gso_type == h2.gso_type,
        h1.gso_size == h2.gso_size,
        h1.checksum_start == h2.checksum_start,
        h1.checksum_offset == h2.checksum_offset,
    ensures
        virtio_read_defined(h1, b) == virtio_read_defined(h2, b),
        virtio_read_output(h1, b) == virtio_read_output(h2, b),
        gso_refusal(h1, b) == gso_refusal(h2, b),
{
    assert(gso_header_len(h1, b) == gso_header_len(h2, b));
    assert(gso_seq(h1, b) == gso_seq(h2, b));
    assert(gso_segments(h1, b) =~= gso_segments(h2, b));
    assert(gso_defined(h1, b) == gso_defined(h2, b));
    assert(plain_packet(h1, b) == plain_packet(h2, b));
}

/// The transport packet that an IPv4 or IPv6 packet carries.
pub open spec fn gro_upper(p: Seq<u8>) -> Seq<u8> {
    if p[0] >> 4u8 == 4 {
        ipv4_payload_of(p)
    } else {
        ipv6_payload_of(p)
    }
}

/// The protocol number of the transport packet.
pub open spec fn gro_proto(p: Seq<u8>) -> u8 {
    if p[0] >> 4u8 == 4 {
        p[9]
    } else {
        p[6]
    }
}

/// The packets that describe themselves fully: [`handle_gro`] takes them,
/// the IP length fields (and the UDP length) cover exactly the buffer, an
/// IPv4 header has at least its 20 fixed bytes, the packet fits a 16-bit
/// length, and some data follows the transport header.
pub open spec fn gro_round_trip_ok(p: Seq<u8>) -> bool {
    &&& gro_accepts(p)
    &&& p.len() <= 0xffff
    &&& p[0] >> 4u8 == 4 ==> ipv4_header_len_of(p) >= 20 && ipv4_total_len_of(p) == p.len()
    &&& p[0] >> 4u8 == 6 ==> 40 + ipv6_payload_len_of(p) == p.len()
    &&& gro_proto(p) == IPPROTO_UDP ==> udp_len_of(gro_upper(p)) == gro_upper(p).len()
    &&& gro_header(p).gso_size > 0
}

/// Where GRO puts the headers of a packet that describes itself fully: the
/// transport packet runs from `checksum_start` to the end, and the data
/// after the transport header is exactly one `gso_size`.
proof fn lemma_gro_layout(p: Seq<u8>)
    requires
        gro_round_trip_ok(p),
    ensures
        ({
            let h = gro_header(p);
            let cs = h.checksum_start as int;
            let hl = gso_header_len(h, p);
            &&& h.gso_type != VIRTIO_NET_HDR_GSO_NONE
            &&& (p[0] >> 4u8 == 4) != is_ipv6_packet(p)
            &&& cs == if is_ipv6_packet(p) { 40 } else { ipv4_header_len_of(p) }
            &&& gro_upper(p) == p.subrange(cs, p.len() as int)
            &&& (gro_proto(p) == IPPROTO_TCP) == is_tcp_gso(h.gso_type)
            &&& is_tcp_gso(h.gso_type) ==> hl == cs + tcp_header_len_of(gro_upper(p))
                && 20 <= tcp_header_len_of(gro_upper(p)) <= 60
            &&& !is_tcp_gso(h.gso_type) ==> hl == cs + 8 && udp_len_of(gro_upper(p)) == p.len() - cs
            &&& hl + h.gso_size == p.len()
            &&& cs < hl
            &&& cs + h.checksum_offset + 2 <= hl
            &&& !gso_refused(h, p)
            &&& seg_count(hl, h.gso_size as int, p.len() as int) == 1
        }),
{
    let h = gro_header(p);
    let upper = gro_upper(p);
    let cs = h.checksum_start as int;
    let len = p.len() as int;
    assert(upper =~= p.subrange(cs, len));
    if gro_proto(p) == IPPROTO_TCP {
        let x = p[cs + 12];
        assert(x >> 4u8 == x / 16) by (bit_vector);
        assert(upper[12] == x);
        assert(tcp_header_len_at(p, cs) == tcp_header_len_of(upper));
    }
    let hl = gso_header_len(h, p);
    let gso = h.gso_size as int;
    lemma_seg_count(hl, gso, len, 0);
    lemma_seg_count(hl, gso, len, 1);
}

/// A packet that describes itself fully can be split under its GRO header.
proof fn lemma_gro_defined(p: Seq<u8>)
    requires
        gro_round_trip_ok(p),
    ensures
        virtio_read_defined(gro_header(p), p),
{
    lemma_gro_layout(p);
    let h = gro_header(p);
    let cs = h.checksum_start as int;
    let co = h.checksum_offset as int;
    let len = p.len() as int;
    let hl = gso_header_len(h, p);
    let gso = h.gso_size as int;
    let q = cleared_ip_checksum(p);
    let is_v6 = is_ipv6_packet(p);
    let is_tcp = is_tcp_gso(h.gso_type);
    let seq = gso_seq(h, p);
    let ident = be16(p, 4);
    assert forall|i: int| 0 <= i < seg_count(hl, gso, len) implies #[trigger] segment_defined(
        q,
        cs,
        co,
        hl,
        gso,
        is_v6,
        is_tcp,
        seq,
        ident,
        i,
    ) by {
        assert(i == 0);
    }
    assert(gso_defined(h, p));
}

/// Under its GRO header, the one segment of a packet that describes itself
/// fully is, before its transport checksum is filled in, the packet with a
/// new IPv4 header checksum.
proof fn lemma_gro_unsummed(p: Seq<u8>)
    requires
        gro_round_trip_ok(p),
    ensures
        ({
            let h = gro_header(p);
            let u = seg_unsummed(
                cleared_ip_checksum(p),
                h.checksum_start as int,
                gso_header_len(h, p),
                h.gso_size as int,
                is_ipv6_packet(p),
                is_tcp_gso(h.gso_type),
                gso_seq(h, p),
                be16(p, 4),
                0,
            );
            &&& u.len() == p.len()
            &&& forall|k: int|
                0 <= k < p.len() && !(!is_ipv6_packet(p) && 10 <= k < 12) ==> #[trigger] u[k] == p[k]
        }),
{
    lemma_gro_layout(p);
    let h = gro_header(p);
    let cs = h.checksum_start as int;
    let len = p.len() as int;
    let hl = gso_header_len(h, p);
    let gso = h.gso_size as int;
    let q = cleared_ip_checksum(p);
    let is_v6 = is_ipv6_packet(p);
    let is_tcp = is_tcp_gso(h.gso_type);
    let seq = gso_seq(h, p);
    let ident = be16(p, 4);
    let base = q.subrange(0, cs);
    let ip = seg_ip_header(q, cs, len, is_v6, ident);
    if is_v6 {
        assert(be16(base, 4) == len - cs);
        lemma_put16_be16(base, 4);
    } else {
        assert(be16(base, 2) == len);
        lemma_put16_be16(base, 2);
        assert(be16(base, 4) == ident);
        lemma_put16_be16(base, 4);
    }
    assert(ip.len() == cs);
    assert forall|k: int| 0 <= k < cs && !(!is_v6 && 10 <= k < 12) implies ip[k] == p[k] by {}
    let t = q.subrange(cs, hl);
    let th = seg_transport_header(q, cs, hl, len - hl, is_tcp, seq, true);
    if is_tcp {
        assert(be32(t, 4) == seq);
        lemma_put32_be32(t, 4);
    } else {
        assert(be16(t, 4) == 8 + (len - hl));
        lemma_put16_be16(t, 4);
    }
    assert(th =~= p.subrange(cs, hl));
    let u = seg_unsummed(q, cs, hl, gso, is_v6, is_tcp, seq, ident, 0);
    assert(u == ip + th + q.subrange(hl, len));
    assert forall|k: int| 0 <= k < len && !(!is_v6 && 10 <= k < 12) implies #[trigger] u[k] == p[k] by {
        if k < cs {
            assert(u[k] == ip[k]);
        } else if k < hl {
            assert(u[k] == th[k - cs]);
        } else {
            assert(u[k] == q[k]);
        }
    }
}

/// GRO then GSO gives the packet back: splitting a packet under the header
/// that [`handle_gro`] gives for it yields one segment, equal to the packet
/// but for the IPv4 header checksum and the transport checksum, which are
/// computed anew.
pub proof fn lemma_gro_then_gso(p: Seq<u8>)
    requires
        gro_round_trip_ok(p),
    ensures
        virtio_read_defined(gro_header(p), p),
        ({
            let h = gro_header(p);
            let at = h.checksum_start + h.checksum_offset;
            virtio_read_output(h, p) matches Some(segs) && {
                &&& segs.len() == 1
                &&& segs[0].len() == p.len()
                &&& forall|k: int|
                    0 <= k < p.len() && !(p[0] >> 4u8 == 4 && 10 <= k < 12) && !(at <= k < at + 2)
                        ==> #[trigger] segs[0][k] == p[k]
            }
        }),
{
    lemma_gro_layout(p);
    lemma_gro_defined(p);
    lemma_gro_unsummed(p);
    let h = gro_header(p);
    let cs = h.checksum_start as int;
    let co = h.checksum_offset as int;
    let len = p.len() as int;
    let hl = gso_header_len(h, p);
    let gso = h.gso_size as int;
    let q = cleared_ip_checksum(p);
    let is_v6 = is_ipv6_packet(p);
    let is_tcp = is_tcp_gso(h.gso_type);
    let seq = gso_seq(h, p);
    let ident = be16(p, 4);
    let u = seg_unsummed(q, cs, hl, gso, is_v6, is_tcp, seq, ident, 0);
    let segs = gso_segments(h, p);
    assert(segs.len() == 1);
    let seg = segs[0];
    assert(seg == segment(q, cs, co, hl, gso, is_v6, is_tcp, seq, ident, 0));
    let at = cs + co;
    assert forall|k: int|
        0 <= k < len && !(p[0] >> 4u8 == 4 && 10 <= k < 12) && !(at <= k < at + 2) implies #[trigger] seg[k]
        == p[k] by {
        assert(seg[k] == u[k]);
    }
}

/// Without GSO the packet comes back alone and as it was, but for the two
/// bytes of the checksum field, which are written only when the header asks
/// for the checksum.
pub proof fn lemma_plain_packet_unchanged(h: VirtioNetHeader, b: Seq<u8>)
    requires
        h.gso_type == VIRTIO_NET_HDR_GSO_NONE,
        virtio_read_defined(h, b),
    ensures
        ({
            let at = h.checksum_start + h.checksum_offset;
            virtio_read_output(h, b) matches Some(ps) && {
                &&& ps.len() == 1
                &&& ps[0].len() == b.len()
                &&& h.flags & VIRTIO_NET_HDR_F_NEEDS_CSUM == 0 ==> ps[0] == b
                &&& forall|k: int|
                    0 <= k < b.len() && !(at <= k < at + 2) ==> #[trigger] ps[0][k] == b[k]
            }
        }),
{
}

/// Each segment's IP and transport headers are those of the super-packet
/// but for the fields that splitting rewrites: the IPv4 total length,
/// identification and header checksum, or the IPv6 payload length; the UDP
/// length, or the TCP sequence number and the FIN and PSH flags; and the
/// transport checksum field. In particular the TCP acknowledgment number,
/// window, urgent pointer and options, and the other TCP flags, stay.
pub proof fn lemma_segment_headers_copied(h: VirtioNetHeader, b: Seq<u8>, i: int)
    requires
        gso_accepted(h, b),
        0 <= i < seg_count(gso_header_len(h, b), h.gso_size as int, b.len() as int),
    ensures
        ({
            let cs = h.checksum_start as int;
            let at = cs + h.checksum_offset;
            let hl = gso_header_len(h, b);
            let is_tcp = is_tcp_gso(h.gso_type);
            let v6 = is_ipv6_packet(b);
            let seg = gso_segments(h, b)[i];
            &&& forall|k: int|
                0 <= k < hl && !(at <= k < at + 2) && !(v6 && 4 <= k < 6) && !(!v6 && (2 <= k < 6
                    || 10 <= k < 12)) && !(!is_tcp && cs + 4 <= k < cs + 6) && !(is_tcp && (cs + 4
                    <= k < cs + 8 || k == cs + TCP_FLAGS_OFFSET)) ==> #[trigger] seg[k] == b[k]
            &&& is_tcp && !(at <= cs + TCP_FLAGS_OFFSET < at + 2) ==> seg[cs + TCP_FLAGS_OFFSET]
                & !(TCP_FLAG_FIN | TCP_FLAG_PSH) == b[cs + TCP_FLAGS_OFFSET] & !(TCP_FLAG_FIN
                | TCP_FLAG_PSH)
        }),
{
    lemma_segment_shape(h, b, i);
    let cs = h.checksum_start as int;
    let co = h.checksum_offset as int;
    let at = cs + co;
    let hl = gso_header_len(h, b);
    let g = h.gso_size as int;
    let len = b.len() as int;
    let q = cleared_ip_checksum(b);
    let is_tcp = is_tcp_gso(h.gso_type);
    let v6 = is_ipv6_packet(b);
    let start = seg_start(hl, g, i);
    let end = seg_end(hl, g, len, i);
    let u = seg_unsummed(q, cs, hl, g, v6, is_tcp, gso_seq(h, b), be16(b, 4), i);
    let ip = seg_ip_header(q, cs, hl + end - start, v6, be16(b, 4) + i);
    let th = seg_transport_header(
        q,
        cs,
        hl,
        end - start,
        is_tcp,
        gso_seq(h, b) + i * g,
        seg_is_last(hl, g, len, i),
    );
    let seg = gso_segments(h, b)[i];
    assert forall|k: int|
        0 <= k < hl && !(at <= k < at + 2) && !(v6 && 4 <= k < 6) && !(!v6 && (2 <= k < 6 || 10
            <= k < 12)) && !(!is_tcp && cs + 4 <= k < cs + 6) && !(is_tcp && (cs + 4 <= k < cs
            + 8 || k == cs + TCP_FLAGS_OFFSET)) implies #[trigger] seg[k] == b[k] by {
        assert(seg[k] == u[k]);
        if k < cs {
            assert(u[k] == u.subrange(0, cs)[k]);
            assert(ip[k] == q[k]);
        } else {
            assert(u[k] == u.subrange(cs, hl)[k - cs]);
            assert(th[k - cs] == q[k]);
        }
    }
    if is_tcp && !(at <= cs + TCP_FLAGS_OFFSET < at + 2) {
        let k = cs + TCP_FLAGS_OFFSET;
        assert(seg[k] == u[k]);
        assert(u[k] == u.subrange(cs, hl)[k - cs]);
        let x = q[k];
        assert(x == b[k]);
        let m = !(TCP_FLAG_FIN | TCP_FLAG_PSH);
        assert(x & m & m == x & m) by (bit_vector);
    }
}

} // verus!
