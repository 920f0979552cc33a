//! The drogue-ajour firmware update protocol as it travels over the wire:
//! `Status` messages from the device and `Command` replies from the server,
//! both CBOR-encoded with `serde_cbor`.

use drogue_ajour_protocol::Command;
use vstd::prelude::*;

verus! {

/// A `Command` of the drogue-ajour protocol as decoded from the server's
/// reply, holding what the device reads of it.
#[derive(Debug)]
pub enum ProtocolCommand {
    /// Wait before polling again.
    Wait { poll: Option<u32> },
    /// The server considers `version` current.
    Sync { version: Vec<u8>, poll: Option<u32> },
    /// Write `data` at `offset` of the image of `version`.
    Write { version: Vec<u8>, offset: u32, data: Vec<u8> },
    /// The whole image of `version` is sent; `checksum` is its CRC32.
    Swap { version: Vec<u8>, checksum: Vec<u8> },
}

/// Mathematical form of a [`ProtocolCommand`].
pub enum CommandView {
    Wait { poll: Option<u32> },
    Sync { version: Seq<u8>, poll: Option<u32> },
    Write { version: Seq<u8>, offset: u32, data: Seq<u8> },
    Swap { version: Seq<u8>, checksum: Seq<u8> },
}

impl View for ProtocolCommand {
    type V = CommandView;

    open spec fn view(&self) -> CommandView {
        match self {
            ProtocolCommand::Wait { poll } => CommandView::Wait { poll: *poll },
            ProtocolCommand::Sync { version, poll } => CommandView::Sync {
                version: version@,
                poll: *poll,
            },
            ProtocolCommand::Write { version, offset, data } => CommandView::Write {
                version: version@,
                offset: *offset,
                data: data@,
            },
            ProtocolCommand::Swap { version, checksum } => CommandView::Swap {
                version: version@,
                checksum: checksum@,
            },
        }
    }
}

/// The bytes that `serde_cbor::to_vec` makes of
/// `Status::first(version, mtu, correlation_id)`, or `None` where it fails.
pub uninterp spec fn cbor_first_status(
    version: Seq<u8>,
    mtu: Option<u32>,
    correlation_id: Option<u32>,
) -> Option<Seq<u8>>;

/// The bytes that `serde_cbor::to_vec` makes of
/// `Status::update(version, mtu, offset, next_version, correlation_id)`, or
/// `None` where it fails.
pub uninterp spec fn cbor_update_status(
    version: Seq<u8>,
    mtu: Option<u32>,
    offset: u32,
    next_version: Seq<u8>,
    correlation_id: Option<u32>,
) -> Option<Seq<u8>>;

/// The `Command` that `serde_cbor::from_slice` reads from `body`, or `None`
/// where the bytes are not the CBOR form of a command.
pub uninterp spec fn cbor_command(body: Seq<u8>) -> Option<CommandView>;

/// Serializes `drogue_ajour_protocol::Status::first(..)` with
/// `serde_cbor::to_vec`. Trusted: the result is exactly the named encoding of
/// the arguments; what those bytes are is not stated here.
#[verifier::external_body]
pub(crate) fn encode_first_status(
    version: &[u8],
    mtu: Option<u32>,
    correlation_id: Option<u32>,
) -> (r: Option<Vec<u8>>)
    ensures
        r matches Some(v) ==> cbor_first_status(version@, mtu, correlation_id) == Some(v@),
        r is None ==> cbor_first_status(version@, mtu, correlation_id) is None,
{
    let status = drogue_ajour_protocol::Status::first(version, mtu, correlation_id);
    serde_cbor::to_vec(&status).ok()
}

/// Serializes `drogue_ajour_protocol::Status::update(..)` with
/// `serde_cbor::to_vec`. Trusted: the result is exactly the named encoding of
/// the arguments; what those bytes are is not stated here.
#[verifier::external_body]
pub(crate) fn encode_update_status(
    version: &[u8],
    mtu: Option<u32>,
    offset: u32,
    next_version: &[u8],
    correlation_id: Option<u32>,
) -> (r: Option<Vec<u8>>)
    ensures
        r matches Some(v) ==> cbor_update_status(version@, mtu, offset, next_version@, correlation_id)
            == Some(v@),
        r is None ==> cbor_update_status(version@, mtu, offset, next_version@, correlation_id) is None,
{
    let status = drogue_ajour_protocol::Status::update(version, mtu, offset, next_version, correlation_id);
    serde_cbor::to_vec(&status).ok()
}

/// Deserializes a `drogue_ajour_protocol::Command` with
/// `serde_cbor::from_slice` and copies out its fields (the correlation id is
/// not kept). Trusted: the result is exactly the named decoding of `body`;
/// which byte strings decode, and to what, is not stated here.
#[verifier::external_body]
pub(crate) fn decode_command(body: &[u8]) -> (r: Option<ProtocolCommand>)
    ensures
        r matches Some(c) ==> cbor_command(body@) == Some(c@),
        r is None ==> cbor_command(body@) is None,
{
    match serde_cbor::from_slice::<Command<'_>>(body) {
        Ok(Command::Wait { poll, .. }) => Some(ProtocolCommand::Wait { poll }),
        Ok(Command::Sync { version, poll, .. }) => Some(ProtocolCommand::Sync { version: version.to_vec(), poll }),
        Ok(Command::Write { version, offset, data, .. }) => Some(ProtocolCommand::Write { version: version.to_vec(), offset, data: data.to_vec() }),
        Ok(Command::Swap { version, checksum, .. }) => Some(ProtocolCommand::Swap { version: version.to_vec(), checksum: checksum.to_vec() }),
        Err(_) => None,
    }
}

} // verus!
