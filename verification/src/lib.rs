//! Offload support for TUN devices with a virtio net header: the header's
//! wire format, RFC 1071 checksums, the splitting of GSO super-packets and
//! the header that describes a coalesced (GRO) packet.
pub mod checksum;
pub mod endian;
pub mod error;
pub mod virtio;
pub mod packet;
pub mod wire;
pub mod offload;
pub mod gso_properties;

pub use error::Error;
pub use offload::{handle_gro, handle_virtio_read, try_handle_virtio_read, OffloadError};
pub use packet::TunPacket;
