//! The virtio net header (`virtio_net_hdr` of `<linux/virtio_net.h>`), kept
//! in host (little-endian) byte order.
use vstd::prelude::*;
use crate::endian::{u16_from_le_bytes, u16_to_le_bytes};
use crate::error::Error;

verus! {

// flags
/// Use `checksum_start` and `checksum_offset`.
pub const VIRTIO_NET_HDR_F_NEEDS_CSUM: u8 = 0x01;
/// The checksum is valid.
pub const VIRTIO_NET_HDR_F_DATA_VALID: u8 = 0x02;
/// Receive-segment-coalescing information in the checksum fields.
pub const VIRTIO_NET_HDR_F_RSC_INFO: u8 = 0x04;

// gso_type
/// Not a GSO frame.
pub const VIRTIO_NET_HDR_GSO_NONE: u8 = 0x00;
/// GSO frame, IPv4 TCP (TSO).
pub const VIRTIO_NET_HDR_GSO_TCPV4: u8 = 0x01;
/// GSO frame, IPv4 UDP (UFO).
pub const VIRTIO_NET_HDR_GSO_UDP: u8 = 0x03;
/// GSO frame, IPv6 TCP.
pub const VIRTIO_NET_HDR_GSO_TCPV6: u8 = 0x04;
/// GSO frame, IPv4 and IPv6 UDP (USO).
pub const VIRTIO_NET_HDR_GSO_UDP_L4: u8 = 0x05;
/// TCP has ECN set.
pub const VIRTIO_NET_HDR_GSO_ECN: u8 = 0x80;

/// The size of the header on the wire, in bytes.
pub const VIRTIO_NET_HEADER_SIZE: usize = 10;

/// virtio_net_hdr, host (little) endian, not network (big) endian.
#[derive(Clone, Copy, PartialEq, Eq, Structural)]
pub struct VirtioNetHeader {
    /// F_NEEDS_CSUM | F_DATA_VALID | F_RSC_INFO
    pub flags: u8,
    /// GSO_NONE | GSO_TCPV4 | GSO_UDP | GSO_TCPV6 | GSO_UDP_L4 | GSO_ECN
    pub gso_type: u8,
    /// Offset of the packet data; not to be trusted, it is computed anew:
    /// for UDP it is `checksum_start + 8` (the UDP header size); for TCP it
    /// is `checksum_start` plus the TCP header length, which is the data
    /// offset (the high 4 bits of the 12th byte of the TCP header) times 4,
    /// between 20 and 60.
    pub header_len: u16,
    /// The size the user program shall split the packet into.
    pub gso_size: u16,
    /// Offset of the UDP or TCP header.
    pub checksum_start: u16,
    /// Offset of the checksum field inside the UDP or TCP header:
    /// `checksum_start + checksum_offset` is where the checksum field is.
    pub checksum_offset: u16,
}

impl Default for VirtioNetHeader {
    fn default() -> (r: VirtioNetHeader)
        ensures
            r == zero_header(),
    {
        VirtioNetHeader {
            flags: 0,
            gso_type: 0,
            header_len: 0,
            gso_size: 0,
            checksum_start: 0,
            checksum_offset: 0,
        }
    }
}

/// The header whose fields are all zero.
pub open spec fn zero_header() -> VirtioNetHeader {
    VirtioNetHeader {
        flags: 0,
        gso_type: 0,
        header_len: 0,
        gso_size: 0,
        checksum_start: 0,
        checksum_offset: 0,
    }
}

/// The little-endian 16-bit value at `s[at]`, `s[at + 1]`.
pub open spec fn le16(s: Seq<u8>, at: int) -> u16 {
    (s[at] + s[at + 1] * 256) as u16
}

/// The low byte of a 16-bit value.
pub open spec fn lo(v: u16) -> u8 {
    (v % 256) as u8
}

/// The high byte of a 16-bit value.
pub open spec fn hi(v: u16) -> u8 {
    (v / 256) as u8
}

/// The header that the first ten bytes of `d` encode.
pub open spec fn spec_decode(d: Seq<u8>) -> VirtioNetHeader {
    VirtioNetHeader {
        flags: d[0],
        gso_type: d[1],
        header_len: le16(d, 2),
        gso_size: le16(d, 4),
        checksum_start: le16(d, 6),
        checksum_offset: le16(d, 8),
    }
}

/// The ten bytes that encode `h`.
pub open spec fn spec_encode(h: VirtioNetHeader) -> Seq<u8> {
    seq![
        h.flags,
        h.gso_type,
        lo(h.header_len),
        hi(h.header_len),
        lo(h.gso_size),
        hi(h.gso_size),
        lo(h.checksum_start),
        hi(h.checksum_start),
        lo(h.checksum_offset),
        hi(h.checksum_offset),
    ]
}

/// The name of a `flags` value that holds exactly one flag, else "unknown".
pub open spec fn flags_name_of(flags: u8) -> &'static str {
    if flags == VIRTIO_NET_HDR_F_NEEDS_CSUM {
        "VIRTIO_NET_HDR_F_NEEDS_CSUM"
    } else if flags == VIRTIO_NET_HDR_F_DATA_VALID {
        "VIRTIO_NET_HDR_F_DATA_VALID"
    } else if flags == VIRTIO_NET_HDR_F_RSC_INFO {
        "VIRTIO_NET_HDR_F_RSC_INFO"
    } else {
        "unknown"
    }
}

/// The name of a `gso_type` value, else "unknown".
pub open spec fn gso_type_name_of(gso_type: u8) -> &'static str {
    if gso_type == VIRTIO_NET_HDR_GSO_NONE {
        "VIRTIO_NET_HDR_GSO_NONE"
    } else if gso_type == VIRTIO_NET_HDR_GSO_TCPV4 {
        "VIRTIO_NET_HDR_GSO_TCPV4"
    } else if gso_type == VIRTIO_NET_HDR_GSO_UDP {
        "VIRTIO_NET_HDR_GSO_UDP"
    } else if gso_type == VIRTIO_NET_HDR_GSO_TCPV6 {
        "VIRTIO_NET_HDR_GSO_TCPV6"
    } else if gso_type == VIRTIO_NET_HDR_GSO_UDP_L4 {
        "VIRTIO_NET_HDR_GSO_UDP_L4"
    } else if gso_type == VIRTIO_NET_HDR_GSO_ECN {
        "VIRTIO_NET_HDR_GSO_ECN"
    } else {
        "unknown"
    }
}

impl VirtioNetHeader {
    /// The size of the header on the wire, in bytes.
    pub fn size() -> (r: usize)
        ensures
            r == VIRTIO_NET_HEADER_SIZE,
    {
        VIRTIO_NET_HEADER_SIZE
    }

    /// Reads a header from the first ten bytes of `data`; fails with
    /// `BufferTooSmall` when there are fewer.
    pub fn decode(data: &[u8]) -> (r: Result<VirtioNetHeader, Error>)
        ensures
            data@.len() < VIRTIO_NET_HEADER_SIZE ==> r == Err::<VirtioNetHeader, Error>(
                Error::BufferTooSmall,
            ),
            data@.len() >= VIRTIO_NET_HEADER_SIZE ==> r == Ok::<VirtioNetHeader, Error>(
                spec_decode(data@),
            ),
    {
        if data.len() < VIRTIO_NET_HEADER_SIZE {
            return Err(Error::BufferTooSmall);
        }
        let hdr = &data[0..VIRTIO_NET_HEADER_SIZE];
        let flags = hdr[0];
        let gso_type = hdr[1];
        let header_len = u16_from_le_bytes([hdr[2], hdr[3]]);
        let gso_size = u16_from_le_bytes([hdr[4], hdr[5]]);
        let checksum_start = u16_from_le_bytes([hdr[6], hdr[7]]);
        let checksum_offset = u16_from_le_bytes([hdr[8], hdr[9]]);
        Ok(VirtioNetHeader { flags, gso_type, header_len, gso_size, checksum_start, checksum_offset })
    }

    /// Writes the header as ten bytes.
    pub fn encode(&self) -> (r: [u8; 10])
        ensures
            r@ == spec_encode(*self),
    {
        let mut buf = [0u8; 10];
        buf[0] = self.flags;
        buf[1] = self.gso_type;
        let b = u16_to_le_bytes(self.header_len);
        buf[2] = b[0];
        buf[3] = b[1];
        let b = u16_to_le_bytes(self.gso_size);
        buf[4] = b[0];
        buf[5] = b[1];
        let b = u16_to_le_bytes(self.checksum_start);
        buf[6] = b[0];
        buf[7] = b[1];
        let b = u16_to_le_bytes(self.checksum_offset);
        buf[8] = b[0];
        buf[9] = b[1];
        assert(buf@ =~= spec_encode(*self));
        buf
    }

    /// The name of the header's `flags` as the debug output shows it.
    pub fn flags_name(&self) -> (r: &'static str)
        ensures
            r@ == flags_name_of(self.flags)@,
    {
        if self.flags == VIRTIO_NET_HDR_F_NEEDS_CSUM {
            "VIRTIO_NET_HDR_F_NEEDS_CSUM"
        } else if self.flags == VIRTIO_NET_HDR_F_DATA_VALID {
            "VIRTIO_NET_HDR_F_DATA_VALID"
        } else if self.flags == VIRTIO_NET_HDR_F_RSC_INFO {
            "VIRTIO_NET_HDR_F_RSC_INFO"
        } else {
            "unknown"
        }
    }

    /// The name of the header's `gso_type` as the debug output shows it.
    pub fn gso_type_name(&self) -> (r: &'static str)
        ensures
            r@ == gso_type_name_of(self.gso_type)@,
    {
        if self.gso_type == VIRTIO_NET_HDR_GSO_NONE {
            "VIRTIO_NET_HDR_GSO_NONE"
        } else if self.gso_type == VIRTIO_NET_HDR_GSO_TCPV4 {
            "VIRTIO_NET_HDR_GSO_TCPV4"
        } else if self.gso_type == VIRTIO_NET_HDR_GSO_UDP {
            "VIRTIO_NET_HDR_GSO_UDP"
        } else if self.gso_type == VIRTIO_NET_HDR_GSO_TCPV6 {
            "VIRTIO_NET_HDR_GSO_TCPV6"
        } else if self.gso_type == VIRTIO_NET_HDR_GSO_UDP_L4 {
            "VIRTIO_NET_HDR_GSO_UDP_L4"
        } else if self.gso_type == VIRTIO_NET_HDR_GSO_ECN {
            "VIRTIO_NET_HDR_GSO_ECN"
        } else {
            "unknown"
        }
    }
}

/// Decoding what was encoded gives back the header.
pub proof fn lemma_decode_encode(h: VirtioNetHeader)
    ensures
        spec_encode(h).len() == VIRTIO_NET_HEADER_SIZE,
        spec_decode(spec_encode(h)) == h,
{
    let e = spec_encode(h);
    assert(le16(e, 2) == h.header_len);
    assert(le16(e, 4) == h.gso_size);
    assert(le16(e, 6) == h.checksum_start);
    assert(le16(e, 8) == h.checksum_offset);
}

/// Encoding what was decoded gives back the ten bytes that were read.
pub proof fn lemma_encode_decode(d: Seq<u8>)
    requires
        d.len() >= VIRTIO_NET_HEADER_SIZE,
    ensures
        spec_encode(spec_decode(d)) == d.take(VIRTIO_NET_HEADER_SIZE as int),
{
    let h = spec_decode(d);
    assert(spec_encode(h) =~= d.take(VIRTIO_NET_HEADER_SIZE as int));
}

} // verus!
