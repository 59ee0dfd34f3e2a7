use tun::checksum::{
    combine, data, partial_csum, propagate_carries, pseudo_header, pseudo_header_v4,
    pseudo_header_v6, IpAddress, IpProtocol, Ipv4Address, Ipv6Address,
};

#[test]
fn propagate_carries_folds_twice() {
    assert_eq!(propagate_carries(0), 0);
    assert_eq!(propagate_carries(0x0001_fffe), 0xffff);
    assert_eq!(propagate_carries(0x0002_ddf0), 0xddf2);
    assert_eq!(propagate_carries(0xffff_ffff), 0xffff);
    assert_eq!(propagate_carries(0x0001_0000), 0x0001);
}

#[test]
fn data_rfc1071_example() {
    // RFC 1071, section 3: the words 0001 f203 f4f5 f6f7 sum to 2ddf0, folded ddf2.
    let bytes = [0x00u8, 0x01, 0xf2, 0x03, 0xf4, 0xf5, 0xf6, 0xf7];
    assert_eq!(data(&bytes), 0xddf2);
}

#[test]
fn data_odd_length_pads_last_byte() {
    assert_eq!(data(&[0x12]), 0x1200);
    assert_eq!(data(&[0x00, 0x01, 0x02]), 0x0201);
    assert_eq!(data(&[]), 0);
}

#[test]
fn data_crosses_chunks() {
    // 70 bytes: two 32-byte chunks and a 6-byte rest.
    let bytes: Vec<u8> = (0..70u32).map(|i| (i * 7 % 251) as u8).collect();
    let mut sum: u32 = 0;
    for pair in bytes.chunks(2) {
        sum += ((pair[0] as u32) << 8) | pair.get(1).copied().unwrap_or(0) as u32;
    }
    while sum > 0xffff {
        sum = (sum >> 16) + (sum & 0xffff);
    }
    assert_eq!(data(&bytes) as u32, sum);
}

#[test]
fn combine_adds_with_end_around_carry() {
    assert_eq!(combine(&[]), 0);
    assert_eq!(combine(&[0x1234]), 0x1234);
    assert_eq!(combine(&[0xffff, 0x0001]), 0x0001);
    assert_eq!(combine(&[0x8000, 0x8000, 0x8000]), 0x8001);
}

#[test]
fn data_is_incremental() {
    let a = [0x45u8, 0x00, 0x12, 0x34];
    let b = [0xde, 0xad, 0xbe, 0xef, 0x01];
    let mut ab = a.to_vec();
    ab.extend_from_slice(&b);
    let joined = combine(&[data(&a), data(&b)]) as u32 % 0xffff;
    assert_eq!(joined, data(&ab) as u32 % 0xffff);
}

#[test]
fn pseudo_header_v4_value() {
    let src = Ipv4Address([192, 168, 0, 1]);
    let dst = Ipv4Address([192, 168, 0, 199]);
    // c0a8 + 0001 + c0a8 + 00c7 + 0011 + 000a = 18233 -> 8234
    assert_eq!(pseudo_header_v4(&src, &dst, IpProtocol::Udp, 10), 0x8234);
    assert_eq!(
        pseudo_header(&IpAddress::Ipv4(src), &IpAddress::Ipv4(dst), IpProtocol::Udp, 10),
        0x8234
    );
}

#[test]
fn pseudo_header_v6_value() {
    let mut s = [0u8; 16];
    let mut d = [0u8; 16];
    s[0] = 0xfe;
    s[1] = 0x80;
    s[15] = 1;
    d[0] = 0xfe;
    d[1] = 0x80;
    d[15] = 2;
    let src = Ipv6Address(s);
    let dst = Ipv6Address(d);
    // fe80 + 0001 + fe80 + 0002 + 0006 + 0014 = 1fd1d -> fd1e
    assert_eq!(pseudo_header_v6(&src, &dst, IpProtocol::Tcp, 20), 0xfd1e);
}

#[test]
fn pseudo_header_length_is_taken_as_16_bits() {
    let src = Ipv4Address([10, 0, 0, 1]);
    let dst = Ipv4Address([10, 0, 0, 2]);
    assert_eq!(
        pseudo_header_v4(&src, &dst, IpProtocol::Unknown(1), 0x1_0005),
        pseudo_header_v4(&src, &dst, IpProtocol::Unknown(1), 5)
    );
}

#[test]
fn partial_csum_matches_smoltcp() {
    let src = [10u8, 0, 0, 1];
    let dst = [10u8, 0, 0, 2];
    let udp = [0x30u8, 0x39, 0x00, 0x35, 0x00, 0x0b, 0x00, 0x00, b'a', b'b', b'c'];
    let sum = partial_csum(
        &IpAddress::Ipv4(Ipv4Address(src)),
        &IpAddress::Ipv4(Ipv4Address(dst)),
        IpProtocol::Udp,
        udp.len() as u32,
        &udp,
    );
    let mut filled = udp;
    filled[6..8].copy_from_slice(&(!sum).to_be_bytes());
    let pkt = smoltcp::wire::UdpPacket::new_checked(&filled[..]).unwrap();
    let s = smoltcp::wire::IpAddress::Ipv4(smoltcp::wire::Ipv4Address::from_bytes(&src));
    let d = smoltcp::wire::IpAddress::Ipv4(smoltcp::wire::Ipv4Address::from_bytes(&dst));
    assert!(pkt.verify_checksum(&s, &d));
}

#[test]
fn address_bytes() {
    let a = Ipv4Address::from_bytes(&[1, 2, 3, 4]);
    assert_eq!(a.as_bytes(), &[1, 2, 3, 4]);
    let b: Vec<u8> = (0..16).collect();
    let a6 = Ipv6Address::from_bytes(&b);
    assert_eq!(a6.as_bytes(), &b[..]);
    assert_eq!(IpProtocol::Tcp.number(), 6);
    assert_eq!(IpProtocol::Udp.number(), 17);
    assert_eq!(IpProtocol::Unknown(58).number(), 58);
}

#[test]
fn data_does_not_depend_on_byte_order() {
    // RFC 1071, section 2(B): swapping the bytes of every word swaps the sum.
    let bytes = [0x00u8, 0x01, 0xf2, 0x03, 0xf4, 0xf5, 0xf6, 0xf7];
    let swapped = [0x01u8, 0x00, 0x03, 0xf2, 0xf5, 0xf4, 0xf7, 0xf6];
    assert_eq!(data(&swapped), 0xf2dd);
    assert_eq!(data(&swapped), data(&bytes).swap_bytes());
    let long: Vec<u8> = (0..1000u32).map(|i| (i * 37 % 251) as u8).collect();
    let long_swapped: Vec<u8> = long.chunks(2).flat_map(|w| [w[1], w[0]]).collect();
    assert_eq!(data(&long_swapped), data(&long).swap_bytes());
}

#[test]
fn combine_does_not_depend_on_order() {
    let a = [0xffffu16, 0x0001, 0x1234, 0xfedc];
    let b = [0x1234u16, 0xfedc, 0x0001, 0xffff];
    assert_eq!(combine(&a), combine(&b));
    assert_eq!(combine(&a), 0x1112);
}

#[test]
fn data_of_halves_combines_exactly() {
    let whole: Vec<u8> = (0..301u32).map(|i| (i * 91 % 256) as u8).collect();
    for split in [0usize, 2, 32, 150, 300] {
        let (a, b) = whole.split_at(split);
        assert_eq!(combine(&[data(a), data(b)]), data(&whole));
    }
    assert_eq!(combine(&[data(&[]), data(&[])]), data(&[]));
}
