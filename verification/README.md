# rust-embassy

Firmware for an ESP32-C3 (Embassy async runtime, WiFi, temperature sensor,
over-the-air updates with the drogue-ajour protocol), with its decision logic
in a library verified with Verus.

## Layout

- `src/` — the verified library `rust_embassy`:
  - `ota/url.rs` — building `http://host:port/path` into a byte buffer;
  - `ota/json.rs` — reading `{"size":..,"checksum":..,"version":".."}` from the
    `/dfu/info` endpoint, and the proof that the server's format reads back;
  - `ota/protocol.rs` — CBOR encoding of `Status` and decoding of `Command`
    (`serde_cbor` + `drogue-ajour-protocol`, behind trusted wrappers);
  - `ota/http_client.rs` — request bodies, reading replies, the update check
    and the download state machine;
  - `ota/ota_client.rs` — the flash plan of an update from a complete image;
  - `ota/ota_writer.rs` — the state of the chunk writer;
  - `network.rs` — the WiFi reconnect policy and the network stack seed.
- `app/` — the firmware around it: `main`, WiFi and embassy-net setup, the
  HTTP transport (reqwless), the flash operations (esp-ota, esp-hal-ota) and
  the temperature sensor (shtcx, floating point).
- `tests/` — tests of the library.
