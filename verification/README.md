# tun offload

Offload support for TUN devices that carry a virtio net header
(`IFF_VNET_HDR`): the header's wire format, RFC 1071 checksums, the
splitting of GSO super-packets into segments, and the header that announces
a coalesced (GRO) packet. The library is written in Verus. Its own functions
in `src/` are verified against their contracts; the small wrappers that call
`byteorder`, `bytes`, `smoltcp` and `std` are trusted, and each states in its
doc comment what its contract claims of the outside function.

- `src/virtio.rs`: `VirtioNetHeader`, its encoding and decoding.
- `src/checksum.rs`: internet checksums and pseudo headers, with the laws of
  RFC 1071 (incremental sums, order and byte-order independence).
- `src/offload.rs`: `handle_virtio_read` (GSO splitting), its checked form
  `try_handle_virtio_read`, and `handle_gro`.
- `src/gso_properties.rs`: what splitting keeps (data, lengths, and
  transport checksums that verify whatever the checksum field held), that
  `header_len` is ignored, and that GRO then GSO gives a packet back.
- `src/endian.rs`, `src/wire.rs`, `src/packet.rs`: the trusted calls into
  `byteorder`, `smoltcp` and `bytes`.
- `app/`: the error type with `thiserror` and the header's debug output.
