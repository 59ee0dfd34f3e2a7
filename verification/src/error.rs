//! The library's error type.
use vstd::prelude::*;

verus! {

/// Errors of the TUN device layer.
#[derive(Debug, Clone, Copy, PartialEq, Eq, Structural)]
pub enum Error {
    InvalidConfig,
    NotImplemented,
    NameTooLong,
    InvalidName,
    InvalidAddress,
    InvalidDescriptor,
    UnsupportedLayer,
    InvalidQueuesNumber,
    VnetHdr,
    BufferTooSmall,
    OffloadFlowNotFound,
    OffloadItemInvalidChecksum,
    OffloadPacketInvalidChecksum,
    OffloadTcpPshFlagSet,
}

impl Error {
    /// The message that describes the error.
    pub fn message(&self) -> (r: &'static str)
        ensures
            r@ == error_message(*self)@,
    {
        match self {
            Error::InvalidConfig => "invalid configuration",
            Error::NotImplemented => "not implementated",
            Error::NameTooLong => "device name too long",
            Error::InvalidName => "invalid device name",
            Error::InvalidAddress => "invalid address",
            Error::InvalidDescriptor => "invalid file descriptor",
            Error::UnsupportedLayer => "unsuported network layer of operation",
            Error::InvalidQueuesNumber => "invalid queues number",
            Error::VnetHdr => "vnet_hdr error",
            Error::BufferTooSmall => "buffer too small",
            Error::OffloadFlowNotFound => "offload flow not found",
            Error::OffloadItemInvalidChecksum => "offload item invalid checksum",
            Error::OffloadPacketInvalidChecksum => "offload packet invalid checksum",
            Error::OffloadTcpPshFlagSet => "offload TCP PSH flag set",
        }
    }
}

/// The message of each error.
pub open spec fn error_message(e: Error) -> &'static str {
    match e {
        Error::InvalidConfig => "invalid configuration",
        Error::NotImplemented => "not implementated",
        Error::NameTooLong => "device name too long",
        Error::InvalidName => "invalid device name",
        Error::InvalidAddress => "invalid address",
        Error::InvalidDescriptor => "invalid file descriptor",
        Error::UnsupportedLayer => "unsuported network layer of operation",
        Error::InvalidQueuesNumber => "invalid queues number",
        Error::VnetHdr => "vnet_hdr error",
        Error::BufferTooSmall => "buffer too small",
        Error::OffloadFlowNotFound => "offload flow not found",
        Error::OffloadItemInvalidChecksum => "offload item invalid checksum",
        Error::OffloadPacketInvalidChecksum => "offload packet invalid checksum",
        Error::OffloadTcpPshFlagSet => "offload TCP PSH flag set",
    }
}

} // verus!
