//! Verified core of an ESP32-C3 Embassy firmware: the OTA update protocol
//! logic (URL building, firmware-info parsing, drogue-ajour command handling,
//! the download and flashing state machines) and the network helpers.

pub mod network;
pub mod ota;
