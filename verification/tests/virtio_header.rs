use tun::error::Error;
use tun::virtio::{
    VirtioNetHeader, VIRTIO_NET_HDR_F_NEEDS_CSUM, VIRTIO_NET_HDR_GSO_TCPV4,
    VIRTIO_NET_HDR_GSO_UDP_L4,
};

fn sample() -> VirtioNetHeader {
    VirtioNetHeader {
        flags: VIRTIO_NET_HDR_F_NEEDS_CSUM,
        gso_type: VIRTIO_NET_HDR_GSO_TCPV4,
        header_len: 0x0142,
        gso_size: 1448,
        checksum_start: 20,
        checksum_offset: 16,
    }
}

#[test]
fn size_is_ten_bytes() {
    assert_eq!(VirtioNetHeader::size(), 10);
}

#[test]
fn encode_is_little_endian() {
    let bytes = sample().encode();
    assert_eq!(bytes, [0x01, 0x01, 0x42, 0x01, 0xa8, 0x05, 20, 0, 16, 0]);
}

#[test]
fn decode_reads_fields() {
    let data = [0x01u8, 0x05, 0x1c, 0x00, 0xe8, 0x03, 0x14, 0x00, 0x06, 0x00, 0xff, 0xee];
    let h = VirtioNetHeader::decode(&data).ok().unwrap();
    assert_eq!(h.flags, 1);
    assert_eq!(h.gso_type, VIRTIO_NET_HDR_GSO_UDP_L4);
    assert_eq!(h.header_len, 28);
    assert_eq!(h.gso_size, 1000);
    assert_eq!(h.checksum_start, 20);
    assert_eq!(h.checksum_offset, 6);
}

#[test]
fn decode_short_buffer_is_refused() {
    let data = [0u8; 9];
    assert!(matches!(VirtioNetHeader::decode(&data), Err(Error::BufferTooSmall)));
    assert!(matches!(VirtioNetHeader::decode(&[]), Err(Error::BufferTooSmall)));
}

#[test]
fn decode_encode_roundtrip() {
    let h = sample();
    let bytes = h.encode();
    let back = VirtioNetHeader::decode(&bytes).ok().unwrap();
    assert!(back == h);
}

#[test]
fn encode_decode_roundtrip_keeps_prefix() {
    let data: Vec<u8> = (0u8..16).map(|x| x.wrapping_mul(37)).collect();
    let h = VirtioNetHeader::decode(&data).ok().unwrap();
    assert_eq!(&h.encode()[..], &data[..10]);
}

#[test]
fn default_is_all_zero() {
    let h = VirtioNetHeader::default();
    assert_eq!(h.encode(), [0u8; 10]);
}

#[test]
fn names_of_flags_and_gso_types() {
    let mut h = sample();
    assert_eq!(h.flags_name(), "VIRTIO_NET_HDR_F_NEEDS_CSUM");
    assert_eq!(h.gso_type_name(), "VIRTIO_NET_HDR_GSO_TCPV4");
    h.flags = 0x02;
    h.gso_type = 0x80;
    assert_eq!(h.flags_name(), "VIRTIO_NET_HDR_F_DATA_VALID");
    assert_eq!(h.gso_type_name(), "VIRTIO_NET_HDR_GSO_ECN");
    h.flags = 0x03;
    h.gso_type = 0x07;
    assert_eq!(h.flags_name(), "unknown");
    assert_eq!(h.gso_type_name(), "unknown");
}

#[test]
fn error_messages() {
    assert_eq!(Error::BufferTooSmall.message(), "buffer too small");
    assert_eq!(Error::InvalidConfig.message(), "invalid configuration");
    assert_eq!(Error::OffloadTcpPshFlagSet.message(), "offload TCP PSH flag set");
}
