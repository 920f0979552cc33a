[package]
name = "rust-embassy"
version = "0.1.0"
edition = "2021"
publish = false

[dependencies]
drogue-ajour-protocol = "=0.6.0"
serde_cbor = "=0.11.2"
reqwless = { version = "=0.14.0", default-features = false }
embassy-net = { version = "=0.9.1", features = ["tcp", "dns", "dhcpv4", "proto-ipv4", "medium-ethernet"] }
embassy-time = "=0.5.1"
embassy-executor = "=0.10.0"
embedded-hal = "=1.0.0"
shtcx = "=1.0.0"
defmt = "=1.2.0"
static_cell = "=2.1.1"
esp-hal = "*"
esp-hal-embassy = "*"
esp-wifi = "*"
esp-alloc = "*"
esp-bootloader-esp-idf = "*"
esp-hal-ota = "*"
esp-storage = "*"
esp-ota = "*"
rtt-target = "*"
