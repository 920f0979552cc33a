//! OTA (Over-The-Air) firmware update module.
//!
//! Transport-agnostic: the decisions of an update live here, the transport
//! (HTTP over embassy-net) and the flash writes are driven from outside.

pub mod http_client;
pub mod json;
pub mod ota_client;
pub mod ota_writer;
pub mod protocol;
pub mod url;

pub use http_client::{OtaCheckResult, OtaCommand};
pub use json::FirmwareInfo;
pub use ota_client::OtaClient;
pub use ota_writer::OtaWriterState;

use vstd::prelude::*;

verus! {

/// OTA update error types.
#[derive(Debug, Clone, Copy, PartialEq, Eq, Structural)]
pub enum OtaError {
    /// Error during OTA begin operation
    BeginFailed,
    /// Error writing firmware data
    WriteFailed,
    /// Error finalizing OTA update
    FinalizeFailed,
    /// Error setting boot partition
    SetBootPartitionFailed,
    /// Network/transport error
    TransportError,
    /// Invalid firmware data
    InvalidFirmware,
}

} // verus!
