use bytes::BytesMut;
use smoltcp::wire::{IpAddress, Ipv4Address, Ipv4Packet, Ipv6Address, TcpPacket, UdpPacket};
use tun::offload::{handle_gro, handle_virtio_read, try_handle_virtio_read, virtio_read_is_defined, OffloadError};
use tun::packet::TunPacket;
use tun::virtio::{
    VirtioNetHeader, VIRTIO_NET_HDR_F_NEEDS_CSUM, VIRTIO_NET_HDR_GSO_NONE,
    VIRTIO_NET_HDR_GSO_TCPV4, VIRTIO_NET_HDR_GSO_TCPV6, VIRTIO_NET_HDR_GSO_UDP_L4,
};

const SRC4: [u8; 4] = [10, 0, 0, 1];
const DST4: [u8; 4] = [10, 0, 0, 2];

fn src6() -> [u8; 16] {
    let mut a = [0u8; 16];
    a[0] = 0xfd;
    a[15] = 1;
    a
}

fn dst6() -> [u8; 16] {
    let mut a = [0u8; 16];
    a[0] = 0xfd;
    a[15] = 2;
    a
}

fn ipv4_header(total_len: usize, proto: u8, ident: u16) -> Vec<u8> {
    let mut h = vec![0x45, 0x00];
    h.extend_from_slice(&(total_len as u16).to_be_bytes());
    h.extend_from_slice(&ident.to_be_bytes());
    h.extend_from_slice(&[0x40, 0x00, 64, proto, 0xab, 0xcd]);
    h.extend_from_slice(&SRC4);
    h.extend_from_slice(&DST4);
    h
}

fn ipv6_header(payload_len: usize, proto: u8) -> Vec<u8> {
    let mut h = vec![0x60, 0, 0, 0];
    h.extend_from_slice(&(payload_len as u16).to_be_bytes());
    h.extend_from_slice(&[proto, 64]);
    h.extend_from_slice(&src6());
    h.extend_from_slice(&dst6());
    h
}

fn udp_header(len: usize) -> Vec<u8> {
    let mut h = vec![0x30, 0x39, 0x00, 0x35];
    h.extend_from_slice(&(len as u16).to_be_bytes());
    h.extend_from_slice(&[0, 0]);
    h
}

fn tcp_header(seq: u32, data_offset: u8, flags: u8, header_len: usize) -> Vec<u8> {
    let mut h = vec![0x30, 0x39, 0x00, 0x50];
    h.extend_from_slice(&seq.to_be_bytes());
    h.extend_from_slice(&[0, 0, 0, 1]);
    h.push(data_offset);
    h.push(flags);
    h.extend_from_slice(&[0xff, 0xff, 0, 0, 0, 0]);
    h.resize(header_len, 0x01);
    h
}

fn payload(n: usize) -> Vec<u8> {
    (0..n).map(|i| (i * 13 % 256) as u8).collect()
}

fn gso_header(gso_type: u8, gso_size: u16, cs: u16, co: u16) -> VirtioNetHeader {
    VirtioNetHeader {
        flags: VIRTIO_NET_HDR_F_NEEDS_CSUM,
        gso_type,
        header_len: 0,
        gso_size,
        checksum_start: cs,
        checksum_offset: co,
    }
}

fn bytes_of(p: &TunPacket) -> Vec<u8> {
    p.get_bytes().to_vec()
}

fn v4(a: [u8; 4]) -> IpAddress {
    IpAddress::Ipv4(Ipv4Address::from_bytes(&a))
}

fn v6(a: [u8; 16]) -> IpAddress {
    IpAddress::Ipv6(Ipv6Address::from_bytes(&a))
}

#[test]
fn plain_packet_without_checksum_request_is_unchanged() {
    let mut pkt = ipv4_header(20 + 8 + 5, 17, 7);
    pkt.extend(udp_header(13));
    pkt.extend(payload(5));
    let mut hdr = gso_header(VIRTIO_NET_HDR_GSO_NONE, 0, 20, 6);
    hdr.flags = 0;
    let out = handle_virtio_read(hdr, BytesMut::from(&pkt[..])).unwrap();
    assert_eq!(out.len(), 1);
    assert_eq!(bytes_of(&out[0]), pkt);
}

#[test]
fn plain_packet_checksum_is_completed() {
    let data = payload(37);
    let udp_len = 8 + data.len();
    let mut pkt = ipv4_header(20 + udp_len, 17, 7);
    pkt.extend(udp_header(udp_len));
    pkt.extend(&data);
    // The checksum field holds the partial sum of the pseudo header.
    let pseudo = tun::checksum::pseudo_header_v4(
        &tun::checksum::Ipv4Address(SRC4),
        &tun::checksum::Ipv4Address(DST4),
        tun::checksum::IpProtocol::Udp,
        udp_len as u32,
    );
    pkt[26..28].copy_from_slice(&pseudo.to_be_bytes());
    let hdr = gso_header(VIRTIO_NET_HDR_GSO_NONE, 0, 20, 6);
    let out = handle_virtio_read(hdr, BytesMut::from(&pkt[..])).unwrap();
    assert_eq!(out.len(), 1);
    let seg = bytes_of(&out[0]);
    assert_eq!(seg.len(), pkt.len());
    assert_eq!(&seg[..26], &pkt[..26]);
    assert_eq!(&seg[28..], &pkt[28..]);
    let udp = UdpPacket::new_checked(&seg[20..]).unwrap();
    assert_ne!(udp.checksum(), 0);
    assert!(udp.verify_checksum(&v4(SRC4), &v4(DST4)));
}

#[test]
fn udp_v4_gso_splits_into_segments() {
    let data = payload(2500);
    let mut pkt = ipv4_header(20 + 8 + data.len(), 17, 0x1234);
    pkt.extend(udp_header(8 + data.len()));
    pkt.extend(&data);
    let hdr = gso_header(VIRTIO_NET_HDR_GSO_UDP_L4, 1000, 20, 6);
    let out = handle_virtio_read(hdr, BytesMut::from(&pkt[..])).unwrap();
    assert_eq!(out.len(), 3);
    let sizes = [1000usize, 1000, 500];
    let mut joined = Vec::new();
    for (i, p) in out.iter().enumerate() {
        let seg = bytes_of(p);
        assert_eq!(seg.len(), 28 + sizes[i]);
        let ip = Ipv4Packet::new_checked(&seg[..]).unwrap();
        assert_eq!(ip.total_len() as usize, seg.len());
        assert_eq!(ip.ident(), 0x1234 + i as u16);
        assert!(ip.verify_checksum());
        let udp = UdpPacket::new_checked(ip.payload()).unwrap();
        assert_eq!(udp.len() as usize, 8 + sizes[i]);
        assert_ne!(udp.checksum(), 0);
        assert!(udp.verify_checksum(&v4(SRC4), &v4(DST4)));
        joined.extend_from_slice(udp.payload());
    }
    assert_eq!(joined, data);
}

#[test]
fn udp_v4_gso_even_split_keeps_sizes() {
    let data = payload(3000);
    let mut pkt = ipv4_header(20 + 8 + data.len(), 17, 1);
    pkt.extend(udp_header(8 + data.len()));
    pkt.extend(&data);
    let hdr = gso_header(VIRTIO_NET_HDR_GSO_UDP_L4, 1000, 20, 6);
    let out = handle_virtio_read(hdr, BytesMut::from(&pkt[..])).unwrap();
    assert_eq!(out.len(), 3);
    for p in &out {
        assert_eq!(bytes_of(p).len(), 1028);
    }
}

#[test]
fn gso_without_data_gives_no_segments() {
    let pkt_hdr = {
        let mut p = ipv4_header(28, 17, 1);
        p.extend(udp_header(8));
        p
    };
    let hdr = gso_header(VIRTIO_NET_HDR_GSO_UDP_L4, 1000, 20, 6);
    let out = handle_virtio_read(hdr, BytesMut::from(&pkt_hdr[..])).unwrap();
    assert_eq!(out.len(), 0);
}

#[test]
fn tcp_v4_gso_fixes_seq_and_flags() {
    let data = payload(2500);
    let mut pkt = ipv4_header(20 + 20 + data.len(), 6, 0x0100);
    // FIN | PSH | ACK
    pkt.extend(tcp_header(0xffff_f000, 0x50, 0x19, 20));
    pkt.extend(&data);
    let hdr = gso_header(VIRTIO_NET_HDR_GSO_TCPV4, 1000, 20, 16);
    let out = handle_virtio_read(hdr, BytesMut::from(&pkt[..])).unwrap();
    assert_eq!(out.len(), 3);
    let sizes = [1000usize, 1000, 500];
    let mut joined = Vec::new();
    for (i, p) in out.iter().enumerate() {
        let seg = bytes_of(p);
        assert_eq!(seg.len(), 40 + sizes[i]);
        let ip = Ipv4Packet::new_checked(&seg[..]).unwrap();
        assert_eq!(ip.total_len() as usize, seg.len());
        assert_eq!(ip.ident(), 0x0100 + i as u16);
        assert!(ip.verify_checksum());
        let tcp = TcpPacket::new_checked(ip.payload()).unwrap();
        assert_eq!(tcp.seq_number().0 as u32, 0xffff_f000u32.wrapping_add(1000 * i as u32));
        let last = i == 2;
        assert_eq!(tcp.fin(), last);
        assert_eq!(tcp.psh(), last);
        assert!(tcp.ack());
        assert!(tcp.verify_checksum(&v4(SRC4), &v4(DST4)));
        joined.extend_from_slice(tcp.payload());
    }
    assert_eq!(joined, data);
}

#[test]
fn tcp_gso_last_segment_keeps_flags_on_even_split() {
    let data = payload(2000);
    let mut pkt = ipv4_header(20 + 20 + data.len(), 6, 5);
    pkt.extend(tcp_header(100, 0x50, 0x19, 20));
    pkt.extend(&data);
    let hdr = gso_header(VIRTIO_NET_HDR_GSO_TCPV4, 1000, 20, 16);
    let out = handle_virtio_read(hdr, BytesMut::from(&pkt[..])).unwrap();
    assert_eq!(out.len(), 2);
    let first = bytes_of(&out[0]);
    let last = bytes_of(&out[1]);
    assert_eq!(first[33], 0x10);
    assert_eq!(last[33], 0x19);
}

#[test]
fn tcp_gso_with_options_uses_data_offset() {
    let data = payload(100);
    let mut pkt = ipv4_header(20 + 32 + data.len(), 6, 5);
    pkt.extend(tcp_header(1, 0x80, 0x18, 32));
    pkt.extend(&data);
    let hdr = gso_header(VIRTIO_NET_HDR_GSO_TCPV4, 60, 20, 16);
    let out = handle_virtio_read(hdr, BytesMut::from(&pkt[..])).unwrap();
    assert_eq!(out.len(), 2);
    assert_eq!(bytes_of(&out[0]).len(), 20 + 32 + 60);
    assert_eq!(bytes_of(&out[1]).len(), 20 + 32 + 40);
    let seg = bytes_of(&out[1]);
    let tcp = TcpPacket::new_checked(&seg[20..]).unwrap();
    assert_eq!(tcp.seq_number().0, 61);
    assert!(tcp.verify_checksum(&v4(SRC4), &v4(DST4)));
}

#[test]
fn tcp_gso_short_header_is_refused() {
    let mut pkt = ipv4_header(20 + 10, 6, 5);
    pkt.extend(vec![0u8; 10]);
    let hdr = gso_header(VIRTIO_NET_HDR_GSO_TCPV4, 1000, 20, 16);
    let err = handle_virtio_read(hdr, BytesMut::from(&pkt[..])).err().unwrap();
    assert_eq!(err.kind(), std::io::ErrorKind::InvalidData);
    assert_eq!(err.to_string(), "tcp header length is too short");
}

#[test]
fn tcp_gso_invalid_header_length_is_refused() {
    let data = payload(100);
    let mut pkt = ipv4_header(20 + 20 + data.len(), 6, 5);
    // data offset 4: a 16-byte header, below the minimum of 20
    pkt.extend(tcp_header(1, 0x40, 0x18, 20));
    pkt.extend(&data);
    let hdr = gso_header(VIRTIO_NET_HDR_GSO_TCPV4, 60, 20, 16);
    let err = handle_virtio_read(hdr, BytesMut::from(&pkt[..])).err().unwrap();
    assert_eq!(err.kind(), std::io::ErrorKind::InvalidData);
    assert_eq!(err.to_string(), "tcp header lenght invalid: 16");
}

#[test]
fn udp_v6_gso_sets_payload_length() {
    let data = payload(1500);
    let mut pkt = ipv6_header(8 + data.len(), 17);
    pkt.extend(udp_header(8 + data.len()));
    pkt.extend(&data);
    let hdr = gso_header(VIRTIO_NET_HDR_GSO_UDP_L4, 1000, 40, 6);
    let out = handle_virtio_read(hdr, BytesMut::from(&pkt[..])).unwrap();
    assert_eq!(out.len(), 2);
    let sizes = [1000usize, 500];
    for (i, p) in out.iter().enumerate() {
        let seg = bytes_of(p);
        assert_eq!(seg.len(), 48 + sizes[i]);
        let ip = smoltcp::wire::Ipv6Packet::new_checked(&seg[..]).unwrap();
        assert_eq!(ip.payload_len() as usize, 8 + sizes[i]);
        let udp = UdpPacket::new_checked(ip.payload()).unwrap();
        assert!(udp.verify_checksum(&v6(src6()), &v6(dst6())));
    }
}

#[test]
fn tcp_v6_gso() {
    let data = payload(300);
    let mut pkt = ipv6_header(20 + data.len(), 6);
    pkt.extend(tcp_header(7, 0x50, 0x18, 20));
    pkt.extend(&data);
    let hdr = gso_header(VIRTIO_NET_HDR_GSO_TCPV6, 200, 40, 16);
    let out = handle_virtio_read(hdr, BytesMut::from(&pkt[..])).unwrap();
    assert_eq!(out.len(), 2);
    for (i, p) in out.iter().enumerate() {
        let seg = bytes_of(p);
        let tcp = TcpPacket::new_checked(&seg[40..]).unwrap();
        assert_eq!(tcp.seq_number().0, 7 + 200 * i as i32);
        assert!(tcp.verify_checksum(&v6(src6()), &v6(dst6())));
    }
}

#[test]
fn gro_header_of_ipv4_tcp() {
    let data = payload(100);
    let mut pkt = ipv4_header(20 + 32 + data.len(), 6, 5);
    pkt.extend(tcp_header(1, 0x80, 0x18, 32));
    pkt.extend(&data);
    let h = handle_gro(&pkt);
    assert_eq!(h.flags, VIRTIO_NET_HDR_F_NEEDS_CSUM);
    assert_eq!(h.gso_type, VIRTIO_NET_HDR_GSO_TCPV4);
    assert_eq!(h.checksum_start, 20);
    assert_eq!(h.header_len, 52);
    assert_eq!(h.checksum_offset, 16);
    assert_eq!(h.gso_size, 100);
}

#[test]
fn gro_header_of_ipv4_udp() {
    let data = payload(77);
    let mut pkt = ipv4_header(20 + 8 + data.len(), 17, 5);
    pkt.extend(udp_header(8 + data.len()));
    pkt.extend(&data);
    let h = handle_gro(&pkt);
    assert_eq!(h.gso_type, VIRTIO_NET_HDR_GSO_UDP_L4);
    assert_eq!(h.checksum_start, 20);
    assert_eq!(h.header_len, 28);
    assert_eq!(h.checksum_offset, 6);
    assert_eq!(h.gso_size, 77);
}

#[test]
fn gro_header_of_ipv6_tcp_and_udp() {
    let data = payload(64);
    let mut pkt = ipv6_header(20 + data.len(), 6);
    pkt.extend(tcp_header(1, 0x50, 0x18, 20));
    pkt.extend(&data);
    let h = handle_gro(&pkt);
    assert_eq!(h.gso_type, VIRTIO_NET_HDR_GSO_TCPV6);
    assert_eq!(h.checksum_start, 40);
    assert_eq!(h.header_len, 60);
    assert_eq!(h.gso_size, 64);

    let mut pkt = ipv6_header(8 + data.len(), 17);
    pkt.extend(udp_header(8 + data.len()));
    pkt.extend(&data);
    let h = handle_gro(&pkt);
    assert_eq!(h.gso_type, VIRTIO_NET_HDR_GSO_UDP_L4);
    assert_eq!(h.checksum_start, 40);
    assert_eq!(h.header_len, 48);
    assert_eq!(h.checksum_offset, 6);
    assert_eq!(h.gso_size, 64);
}

#[test]
fn gro_header_splits_back_into_one_segment() {
    let data = payload(500);
    let mut pkt = ipv4_header(20 + 8 + data.len(), 17, 9);
    pkt.extend(udp_header(8 + data.len()));
    pkt.extend(&data);
    let h = handle_gro(&pkt);
    let out = handle_virtio_read(h, BytesMut::from(&pkt[..])).unwrap();
    assert_eq!(out.len(), 1);
    let seg = bytes_of(&out[0]);
    assert_eq!(seg.len(), pkt.len());
    assert_eq!(&seg[28..], &data[..]);
    let udp = UdpPacket::new_checked(&seg[20..]).unwrap();
    assert!(udp.verify_checksum(&v4(SRC4), &v4(DST4)));
}

fn with_field(mut pkt: Vec<u8>, at: usize, value: u16) -> Vec<u8> {
    pkt[at..at + 2].copy_from_slice(&value.to_be_bytes());
    pkt
}

#[test]
fn tcp_v4_gso_ignores_old_checksum_field() {
    let data = payload(6);
    let mut pkt = ipv4_header(20 + 20 + data.len(), 6, 0x0100);
    pkt.extend(tcp_header(1000, 0x50, 0x18, 20));
    pkt.extend(&data);
    let pkt = with_field(pkt, 36, 0x1234);
    let hdr = gso_header(VIRTIO_NET_HDR_GSO_TCPV4, 3, 20, 16);
    let out = handle_virtio_read(hdr, BytesMut::from(&pkt[..])).unwrap();
    assert_eq!(out.len(), 2);
    for (i, p) in out.iter().enumerate() {
        let seg = bytes_of(p);
        assert_eq!(seg.len(), 43);
        let ip = Ipv4Packet::new_checked(&seg[..]).unwrap();
        assert!(ip.verify_checksum());
        let tcp = TcpPacket::new_checked(ip.payload()).unwrap();
        assert_eq!(tcp.seq_number().0, 1000 + 3 * i as i32);
        assert!(tcp.verify_checksum(&v4(SRC4), &v4(DST4)));
    }
}

#[test]
fn udp_v4_gso_ignores_old_checksum_field() {
    let data = payload(2500);
    let mut pkt = ipv4_header(20 + 8 + data.len(), 17, 0x1234);
    pkt.extend(udp_header(8 + data.len()));
    pkt.extend(&data);
    let pkt = with_field(pkt, 26, 0xbeef);
    let hdr = gso_header(VIRTIO_NET_HDR_GSO_UDP_L4, 1000, 20, 6);
    let out = handle_virtio_read(hdr, BytesMut::from(&pkt[..])).unwrap();
    assert_eq!(out.len(), 3);
    for p in &out {
        let seg = bytes_of(p);
        let udp = UdpPacket::new_checked(&seg[20..]).unwrap();
        assert!(udp.verify_checksum(&v4(SRC4), &v4(DST4)));
    }
}

#[test]
fn tcp_v6_gso_ignores_old_checksum_field() {
    let data = payload(300);
    let mut pkt = ipv6_header(20 + data.len(), 6);
    pkt.extend(tcp_header(7, 0x50, 0x18, 20));
    pkt.extend(&data);
    let pkt = with_field(pkt, 56, 0xffff);
    let hdr = gso_header(VIRTIO_NET_HDR_GSO_TCPV6, 200, 40, 16);
    let out = handle_virtio_read(hdr, BytesMut::from(&pkt[..])).unwrap();
    assert_eq!(out.len(), 2);
    for p in &out {
        let seg = bytes_of(p);
        let tcp = TcpPacket::new_checked(&seg[40..]).unwrap();
        assert!(tcp.verify_checksum(&v6(src6()), &v6(dst6())));
    }
}

#[test]
fn segments_do_not_depend_on_header_len() {
    let data = payload(700);
    let mut pkt = ipv4_header(20 + 20 + data.len(), 6, 3);
    pkt.extend(tcp_header(5, 0x50, 0x18, 20));
    pkt.extend(&data);
    let mut h1 = gso_header(VIRTIO_NET_HDR_GSO_TCPV4, 300, 20, 16);
    h1.header_len = 40;
    let mut h2 = h1;
    h2.header_len = 999;
    let a = handle_virtio_read(h1, BytesMut::from(&pkt[..])).unwrap();
    let b = handle_virtio_read(h2, BytesMut::from(&pkt[..])).unwrap();
    assert_eq!(a.len(), 3);
    let a: Vec<Vec<u8>> = a.iter().map(bytes_of).collect();
    let b: Vec<Vec<u8>> = b.iter().map(bytes_of).collect();
    assert_eq!(a, b);
}

#[test]
fn try_read_gives_the_refusals() {
    let mut pkt = ipv4_header(20 + 10, 6, 5);
    pkt.extend(vec![0u8; 10]);
    let hdr = gso_header(VIRTIO_NET_HDR_GSO_TCPV4, 1000, 20, 16);
    let e = try_handle_virtio_read(hdr, BytesMut::from(&pkt[..])).err().unwrap();
    assert_eq!(e, OffloadError::TcpHeaderTooShort);

    let data = payload(100);
    let mut pkt = ipv4_header(20 + 20 + data.len(), 6, 5);
    pkt.extend(tcp_header(1, 0x40, 0x18, 20));
    pkt.extend(&data);
    let hdr = gso_header(VIRTIO_NET_HDR_GSO_TCPV4, 60, 20, 16);
    let e = try_handle_virtio_read(hdr, BytesMut::from(&pkt[..])).err().unwrap();
    assert_eq!(e, OffloadError::TcpHeaderLengthInvalid(16));
}

#[test]
fn try_read_refuses_unsplittable_input() {
    let data = payload(100);
    let mut pkt = ipv4_header(20 + 8 + data.len(), 17, 5);
    pkt.extend(udp_header(8 + data.len()));
    pkt.extend(&data);
    // an unknown GSO type
    let hdr = gso_header(3, 60, 20, 6);
    assert!(!virtio_read_is_defined(&hdr, &pkt));
    let e = try_handle_virtio_read(hdr, BytesMut::from(&pkt[..])).err().unwrap();
    assert_eq!(e, OffloadError::Unsplittable);
    // a gso_size of zero with data to split
    let hdr = gso_header(VIRTIO_NET_HDR_GSO_UDP_L4, 0, 20, 6);
    let e = try_handle_virtio_read(hdr, BytesMut::from(&pkt[..])).err().unwrap();
    assert_eq!(e, OffloadError::Unsplittable);
    // a TCP buffer that ends exactly before the data offset byte
    let short = pkt[..32].to_vec();
    let hdr = gso_header(VIRTIO_NET_HDR_GSO_TCPV4, 60, 20, 16);
    let e = try_handle_virtio_read(hdr, BytesMut::from(&short[..])).err().unwrap();
    assert_eq!(e, OffloadError::Unsplittable);
    // a checksum field beyond the end of a plain packet
    let hdr = gso_header(VIRTIO_NET_HDR_GSO_NONE, 0, 20, 200);
    let e = try_handle_virtio_read(hdr, BytesMut::from(&pkt[..])).err().unwrap();
    assert_eq!(e, OffloadError::Unsplittable);
}

#[test]
fn try_read_splits_like_handle_virtio_read() {
    let data = payload(2500);
    let mut pkt = ipv4_header(20 + 8 + data.len(), 17, 0x1234);
    pkt.extend(udp_header(8 + data.len()));
    pkt.extend(&data);
    let hdr = gso_header(VIRTIO_NET_HDR_GSO_UDP_L4, 1000, 20, 6);
    assert!(virtio_read_is_defined(&hdr, &pkt));
    let a = try_handle_virtio_read(hdr, BytesMut::from(&pkt[..])).unwrap();
    let b = handle_virtio_read(hdr, BytesMut::from(&pkt[..])).unwrap();
    let a: Vec<Vec<u8>> = a.iter().map(bytes_of).collect();
    let b: Vec<Vec<u8>> = b.iter().map(bytes_of).collect();
    assert_eq!(a.len(), 3);
    assert_eq!(a, b);
}

#[test]
fn offload_error_messages() {
    assert_eq!(OffloadError::TcpHeaderTooShort.message(), "tcp header length is too short");
    assert_eq!(OffloadError::TcpHeaderLengthInvalid(4).message(), "tcp header lenght invalid: 4");
    assert_eq!(OffloadError::TcpHeaderLengthInvalid(16).message(), "tcp header lenght invalid: 16");
    assert_eq!(OffloadError::TcpHeaderLengthInvalid(124).message(), "tcp header lenght invalid: 124");
    assert_eq!(
        OffloadError::Unsplittable.message(),
        "virtio net header does not describe a splittable packet"
    );
}

fn assert_round_trip(pkt: &[u8], ip_sum: bool) {
    let h = handle_gro(pkt);
    let out = handle_virtio_read(h, BytesMut::from(pkt)).unwrap();
    assert_eq!(out.len(), 1);
    let seg = bytes_of(&out[0]);
    assert_eq!(seg.len(), pkt.len());
    let at = (h.checksum_start + h.checksum_offset) as usize;
    for k in 0..pkt.len() {
        let ip_checksum = ip_sum && (10..12).contains(&k);
        if !ip_checksum && !(at..at + 2).contains(&k) {
            assert_eq!(seg[k], pkt[k], "byte {}", k);
        }
    }
}

#[test]
fn gro_then_gso_gives_tcp_packets_back() {
    let data = payload(300);
    let mut pkt = ipv4_header(20 + 32 + data.len(), 6, 77);
    pkt.extend(tcp_header(0xdead_beef, 0x80, 0x19, 32));
    pkt.extend(&data);
    let pkt = with_field(pkt, 36, 0x4321);
    assert_round_trip(&pkt, true);
    let seg = {
        let h = handle_gro(&pkt);
        bytes_of(&handle_virtio_read(h, BytesMut::from(&pkt[..])).unwrap()[0])
    };
    let ip = Ipv4Packet::new_checked(&seg[..]).unwrap();
    assert!(ip.verify_checksum());
    let tcp = TcpPacket::new_checked(ip.payload()).unwrap();
    assert!(tcp.fin() && tcp.psh());
    assert!(tcp.verify_checksum(&v4(SRC4), &v4(DST4)));

    let mut pkt6 = ipv6_header(20 + data.len(), 6);
    pkt6.extend(tcp_header(3, 0x50, 0x18, 20));
    pkt6.extend(&data);
    assert_round_trip(&pkt6, false);
}

#[test]
fn gro_then_gso_gives_udp_packets_back() {
    let data = payload(64);
    let mut pkt6 = ipv6_header(8 + data.len(), 17);
    pkt6.extend(udp_header(8 + data.len()));
    pkt6.extend(&data);
    let pkt6 = with_field(pkt6, 46, 0x0f0f);
    assert_round_trip(&pkt6, false);
}
