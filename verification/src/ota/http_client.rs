//! Decisions of the OTA HTTP client: what is sent to the server, how its
//! replies are read, and the download loop of the drogue-ajour protocol.
//!
//! The requests themselves (`POST /dfu`, `GET /dfu/info` over embassy-net)
//! are made by the caller, who hands the replies to the functions here.

use vstd::prelude::*;
use vstd::utf8::{pop_first_scalar, valid_utf8, valid_utf8_concat};
use vstd::string::StringSliceAdditionalSpecFns;
use crate::ota::OtaError;
use crate::ota::json::{
    FirmwareInfo,
    checksum_key,
    firmware_info_of,
    info_json,
    is_digit,
    lemma_decimal_reads_back,
    lemma_info_json_reads_back,
    number_pattern,
    parse_firmware_info,
    size_key,
    string_pattern,
    version_key,
};
use crate::ota::url::decimal;
use crate::ota::protocol::{
    CommandView,
    ProtocolCommand,
    cbor_command,
    cbor_first_status,
    cbor_update_status,
    decode_command,
    encode_first_status,
    encode_update_status,
};

verus! {

/// Maximum chunk size for firmware data (4KB), announced to the server as MTU.
pub const MAX_CHUNK_SIZE: u32 = 4096;

/// HTTP status of a successful reply.
pub const HTTP_OK: u16 = 200;

/// Poll interval, in seconds, assumed when a `Wait` command names none.
pub const DEFAULT_POLL_SECS: u32 = 60;

/// Result of an OTA check operation.
#[derive(Debug, PartialEq, Eq, Structural)]
pub enum OtaCheckResult {
    /// No update available, device is up to date.
    UpToDate,
    /// Update available, contains firmware size and checksum.
    UpdateAvailable {
        /// Total firmware size in bytes.
        size: u32,
        /// Expected CRC32 checksum.
        checksum: u32,
    },
}

/// Owned version of a drogue-ajour `Command` for use after deserialization.
#[derive(Debug)]
pub enum OtaCommand {
    /// Wait for specified seconds before retry.
    Wait { poll: u32 },
    /// Server confirms current version is synced.
    Sync { version: Vec<u8> },
    /// Write firmware chunk at offset.
    Write { version: Vec<u8>, offset: u32, data: Vec<u8> },
    /// Swap to new firmware with checksum verification.
    Swap { version: Vec<u8>, checksum: Vec<u8> },
}

/// Mathematical form of an [`OtaCommand`].
pub enum OtaCommandView {
    Wait { poll: u32 },
    Sync { version: Seq<u8> },
    Write { version: Seq<u8>, offset: u32, data: Seq<u8> },
    Swap { version: Seq<u8>, checksum: Seq<u8> },
}

impl View for OtaCommand {
    type V = OtaCommandView;

    open spec fn view(&self) -> OtaCommandView {
        match self {
            OtaCommand::Wait { poll } => OtaCommandView::Wait { poll: *poll },
            OtaCommand::Sync { version } => OtaCommandView::Sync { version: version@ },
            OtaCommand::Write { version, offset, data } => OtaCommandView::Write {
                version: version@,
                offset: *offset,
                data: data@,
            },
            OtaCommand::Swap { version, checksum } => OtaCommandView::Swap {
                version: version@,
                checksum: checksum@,
            },
        }
    }
}

/// The owned command that a protocol command becomes: a `Wait` without a
/// poll interval waits [`DEFAULT_POLL_SECS`].
pub open spec fn owned_command(c: CommandView) -> OtaCommandView {
    match c {
        CommandView::Wait { poll } => OtaCommandView::Wait {
            poll: match poll {
                Some(p) => p,
                None => DEFAULT_POLL_SECS,
            },
        },
        CommandView::Sync { version, poll } => OtaCommandView::Sync { version },
        CommandView::Write { version, offset, data } => OtaCommandView::Write {
            version,
            offset,
            data,
        },
        CommandView::Swap { version, checksum } => OtaCommandView::Swap { version, checksum },
    }
}

/// The big-endian `u32` in the first four bytes of `checksum`, or 0 when it
/// is shorter.
pub open spec fn be_checksum(checksum: Seq<u8>) -> u32 {
    if checksum.len() >= 4 {
        (checksum[0] * 0x1000000 + checksum[1] * 0x10000 + checksum[2] * 0x100 + checksum[3]) as u32
    } else {
        0
    }
}

/// The four big-endian bytes of `x`, as `u32::to_be_bytes` gives them.
pub open spec fn be_bytes(x: u32) -> Seq<u8> {
    seq![
        (x / 0x1000000) as u8,
        ((x / 0x10000) % 0x100) as u8,
        ((x / 0x100) % 0x100) as u8,
        (x % 0x100) as u8,
    ]
}

/// Whether the server's command announces an update: `Write` and `Swap` do,
/// `Sync` and `Wait` do not.
pub open spec fn announces_update_of(cmd: OtaCommandView) -> bool {
    cmd is Write || cmd is Swap
}

/// What a check for updates reports: when the server announces an update,
/// the total size of the new image from its `/dfu/info` metadata (`info` as
/// size and checksum) and its expected CRC32: the one a `Swap` carries as
/// big-endian bytes, else the metadata's; without an announced update, up
/// to date.
pub open spec fn check_result_of(cmd: OtaCommandView, info: Option<(u32, u32)>) -> OtaCheckResult {
    match (cmd, info) {
        (OtaCommandView::Write { .. }, Some((size, checksum))) => OtaCheckResult::UpdateAvailable {
            size,
            checksum,
        },
        (OtaCommandView::Swap { checksum, .. }, Some((size, _))) => OtaCheckResult::UpdateAvailable {
            size,
            checksum: be_checksum(checksum),
        },
        _ => OtaCheckResult::UpToDate,
    }
}

fn copy_bytes(v: &Vec<u8>) -> (r: Vec<u8>)
    ensures
        r@ == v@,
{
    vstd::slice::slice_to_vec(v.as_slice())
}

impl OtaCommand {
    /// Converts a decoded protocol command to the owned command; a `Wait`
    /// without a poll interval waits [`DEFAULT_POLL_SECS`].
    pub fn from_command(cmd: &ProtocolCommand) -> (r: OtaCommand)
        ensures
            r@ == owned_command(cmd@),
    {
        match cmd {
            ProtocolCommand::Wait { poll } => OtaCommand::Wait {
                poll: match poll {
                    Some(p) => *p,
                    None => DEFAULT_POLL_SECS,
                },
            },
            ProtocolCommand::Sync { version, .. } => OtaCommand::Sync { version: copy_bytes(version) },
            ProtocolCommand::Write { version, offset, data } => OtaCommand::Write {
                version: copy_bytes(version),
                offset: *offset,
                data: copy_bytes(data),
            },
            ProtocolCommand::Swap { version, checksum } => OtaCommand::Swap {
                version: copy_bytes(version),
                checksum: copy_bytes(checksum),
            },
        }
    }
}

/// Reads a CRC32 sent as four big-endian bytes; 0 when fewer are given.
pub fn checksum_from_bytes(checksum: &[u8]) -> (r: u32)
    ensures
        r == be_checksum(checksum@),
{
    if checksum.len() >= 4 {
        (checksum[0] as u32) * 0x1000000 + (checksum[1] as u32) * 0x10000 + (checksum[2] as u32)
            * 0x100 + checksum[3] as u32
    } else {
        0
    }
}

/// The CBOR body of the first `Status` of an exchange: the device's firmware
/// version and the chunk size it accepts.
pub fn first_status_body(firmware_version: &[u8]) -> (r: Result<Vec<u8>, OtaError>)
    ensures
        r matches Ok(b) ==> cbor_first_status(firmware_version@, Some(MAX_CHUNK_SIZE), None) == Some(
            b@,
        ),
        r matches Err(e) ==> e == OtaError::TransportError && cbor_first_status(
            firmware_version@,
            Some(MAX_CHUNK_SIZE),
            None,
        ) is None,
{
    match encode_first_status(firmware_version, Some(MAX_CHUNK_SIZE), None) {
        Some(b) => Ok(b),
        None => Err(OtaError::TransportError),
    }
}

/// The CBOR body of a `Status` that reports download progress: the device's
/// firmware version, the chunk size, the next offset wanted and the version
/// being downloaded.
pub fn update_status_body(firmware_version: &[u8], offset: u32, target_version: &[u8]) -> (r: Result<
    Vec<u8>,
    OtaError,
>)
    ensures
        r matches Ok(b) ==> cbor_update_status(
            firmware_version@,
            Some(MAX_CHUNK_SIZE),
            offset,
            target_version@,
            None,
        ) == Some(b@),
        r matches Err(e) ==> e == OtaError::TransportError && cbor_update_status(
            firmware_version@,
            Some(MAX_CHUNK_SIZE),
            offset,
            target_version@,
            None,
        ) is None,
{
    match encode_update_status(firmware_version, Some(MAX_CHUNK_SIZE), offset, target_version, None) {
        Some(b) => Ok(b),
        None => Err(OtaError::TransportError),
    }
}

/// Reads the server's reply to a `Status`: anything but HTTP 200 is a
/// transport error, a body that is no CBOR command is invalid.
pub fn command_from_response(status: u16, body: &[u8]) -> (r: Result<OtaCommand, OtaError>)
    ensures
        status != HTTP_OK ==> r == Err::<OtaCommand, OtaError>(OtaError::TransportError),
        status == HTTP_OK && cbor_command(body@) is None ==> r == Err::<OtaCommand, OtaError>(
            OtaError::InvalidFirmware,
        ),
        status == HTTP_OK && cbor_command(body@) is Some ==> (r matches Ok(c) && c@ == owned_command(
            cbor_command(body@)->0,
        )),
{
    if status != HTTP_OK {
        return Err(OtaError::TransportError);
    }
    match decode_command(body) {
        Some(cmd) => Ok(OtaCommand::from_command(&cmd)),
        None => Err(OtaError::InvalidFirmware),
    }
}

/// Whether the server's command announces an update (`Write` or `Swap`),
/// so that the image's metadata is needed to report it.
pub fn announces_update(command: &OtaCommand) -> (r: bool)
    ensures
        r == announces_update_of(command@),
{
    match command {
        OtaCommand::Write { .. } | OtaCommand::Swap { .. } => true,
        OtaCommand::Sync { .. } | OtaCommand::Wait { .. } => false,
    }
}

/// What a check for updates reports for the server's command. An announced
/// update is reported with the total firmware size from the image's
/// metadata `info`, which must then be given, and the expected CRC32 that a
/// `Swap` carries, or for a `Write` the metadata's; `Sync` and `Wait` report
/// the device up to date.
pub fn check_result(command: &OtaCommand, info: Option<&FirmwareInfo>) -> (r: OtaCheckResult)
    requires
        announces_update_of(command@) ==> info is Some,
    ensures
        r == check_result_of(
            command@,
            match info {
                Some(i) => Some((i.size, i.checksum)),
                None => None,
            },
        ),
{
    match (command, info) {
        (OtaCommand::Write { .. }, Some(i)) => OtaCheckResult::UpdateAvailable {
            size: i.size,
            checksum: i.checksum,
        },
        (OtaCommand::Swap { checksum, .. }, Some(i)) => OtaCheckResult::UpdateAvailable {
            size: i.size,
            checksum: checksum_from_bytes(checksum.as_slice()),
        },
        _ => OtaCheckResult::UpToDate,
    }
}

/// `core::str::from_utf8`. Trusted: it succeeds exactly on valid UTF-8, and
/// the text it returns has the given bytes.
#[verifier::external_body]
fn str_from_utf8(bytes: &[u8]) -> (r: Option<&str>)
    ensures
        r is Some <==> valid_utf8(bytes@),
        r matches Some(s) ==> s.spec_bytes() == bytes@,
{
    core::str::from_utf8(bytes).ok()
}

/// What the reply of `/dfu/info` yields: anything but HTTP 200 is a
/// transport error, a body that is not UTF-8 is invalid, else the body is
/// parsed as firmware info.
pub open spec fn info_of_response(status: u16, body: Seq<u8>) -> Result<(u32, u32, Seq<u8>), OtaError> {
    if status != HTTP_OK {
        Err(OtaError::TransportError)
    } else if !valid_utf8(body) {
        Err(OtaError::InvalidFirmware)
    } else {
        firmware_info_of(body)
    }
}

/// Reads the reply of the `/dfu/info` endpoint.
pub fn info_from_response(status: u16, body: &[u8]) -> (r: Result<FirmwareInfo, OtaError>)
    ensures
        match r {
            Ok(info) => info_of_response(status, body@) == Ok::<(u32, u32, Seq<u8>), OtaError>(
                (info.size, info.checksum, info.version@),
            ),
            Err(e) => info_of_response(status, body@) == Err::<(u32, u32, Seq<u8>), OtaError>(e),
        },
{
    if status != HTTP_OK {
        return Err(OtaError::TransportError);
    }
    match str_from_utf8(body) {
        None => Err(OtaError::InvalidFirmware),
        Some(text) => parse_firmware_info(text),
    }
}

/// What one step of the download loop asks for next.
#[derive(Debug, PartialEq, Eq, Structural)]
pub enum DownloadStep {
    /// Hand the chunk at `offset` to the writer, then report progress with
    /// the state's offset and target version.
    Chunk { offset: u32 },
    /// The download is complete; `checksum` is the CRC32 to verify.
    Complete { checksum: u32 },
    /// The download ends with this error.
    Failed(OtaError),
}

/// One step of a download with offset `offset` and target version `target`
/// so far: the new offset, the new target version and what comes next.
/// A `Write` moves the offset past its data and fixes the target version
/// if none is known yet; a `Swap` completes the download with its
/// checksum; `Sync` and `Wait` end it with an error.
pub open spec fn download_step(offset: u32, target: Seq<u8>, cmd: OtaCommandView) -> (
    u32,
    Seq<u8>,
    DownloadStep,
) {
    match cmd {
        OtaCommandView::Write { version, offset: at, data } => (
            (at + (data.len() as u32)) as u32,
            if target.len() == 0 {
                version
            } else {
                target
            },
            DownloadStep::Chunk { offset: at },
        ),
        OtaCommandView::Swap { checksum, .. } => (
            offset,
            target,
            DownloadStep::Complete { checksum: be_checksum(checksum) },
        ),
        OtaCommandView::Sync { .. } => (offset, target, DownloadStep::Failed(OtaError::InvalidFirmware)),
        OtaCommandView::Wait { .. } => (offset, target, DownloadStep::Failed(OtaError::TransportError)),
    }
}

/// Progress of a firmware download.
pub struct DownloadState {
    /// Offset after the last chunk received.
    pub current_offset: u32,
    /// Version being downloaded, taken from the first chunk.
    pub target_version: Vec<u8>,
}

impl DownloadState {
    /// Nothing received yet.
    pub fn new() -> (s: Self)
        ensures
            s.current_offset == 0,
            s.target_version@ == Seq::<u8>::empty(),
    {
        DownloadState { current_offset: 0, target_version: Vec::new() }
    }

    /// Takes the server's command: a `Write` moves the offset past its data
    /// and fixes the target version if none is known yet; a `Swap` completes
    /// the download with its checksum; `Sync` and `Wait` end it with an error.
    pub fn on_command(&mut self, command: &OtaCommand) -> (step: DownloadStep)
        requires
            command@ matches OtaCommandView::Write { offset, data, .. } ==> offset + (data.len() as u32)
                <= u32::MAX,
        ensures
            (final(self).current_offset, final(self).target_version@, step) == download_step(
                old(self).current_offset,
                old(self).target_version@,
                command@,
            ),
    {
        match command {
            OtaCommand::Write { version, offset, data } => {
                if self.target_version.len() == 0 {
                    self.target_version = copy_bytes(version);
                }
                self.current_offset = *offset + data.len() as u32;
                DownloadStep::Chunk { offset: *offset }
            },
            OtaCommand::Swap { checksum, .. } => DownloadStep::Complete {
                checksum: checksum_from_bytes(checksum.as_slice()),
            },
            OtaCommand::Sync { .. } => DownloadStep::Failed(OtaError::InvalidFirmware),
            OtaCommand::Wait { .. } => DownloadStep::Failed(OtaError::TransportError),
        }
    }
}

/// A CRC32 that the server sends as its four big-endian bytes
/// (`u32::to_be_bytes`) reads back unchanged.
pub proof fn lemma_checksum_reads_back(crc: u32)
    ensures
        be_checksum(be_bytes(crc)) == crc,
{
    let b = be_bytes(crc);
    assert(b.len() == 4);
    assert(crc == (crc / 0x1000000) * 0x1000000 + ((crc / 0x10000) % 0x100) * 0x10000 + ((crc
        / 0x100) % 0x100) * 0x100 + crc % 0x100) by (nonlinear_arith);
}

/// The reply of a drogue-ajour server that serves `image` for `version` in
/// chunks of `chunk` bytes, to a device that reports `offset`: the chunk at
/// `offset`, or, once the whole image is sent, `Swap` with the image's CRC32
/// `crc` as four big-endian bytes.
pub open spec fn served_reply(image: Seq<u8>, chunk: nat, version: Seq<u8>, crc: u32, offset: nat) -> OtaCommandView {
    if offset >= image.len() {
        OtaCommandView::Swap { version, checksum: be_bytes(crc) }
    } else {
        OtaCommandView::Write {
            version,
            offset: offset as u32,
            data: image.subrange(
                offset as int,
                served_chunk_end(offset as int, chunk, image.len() as int),
            ),
        }
    }
}

/// A download from such a server, from the point where the device reports
/// `offset` with download state `(offset, target)`: the chunks handed to the
/// writer as (offset, bytes), in order, and the step that ends the download.
/// The device's first status carries no offset, which the server reads as 0.
pub open spec fn download_run(
    image: Seq<u8>,
    chunk: nat,
    version: Seq<u8>,
    crc: u32,
    offset: u32,
    target: Seq<u8>,
) -> (Seq<(u32, Seq<u8>)>, DownloadStep)
    decreases image.len() - offset,
{
    let cmd = served_reply(image, chunk, version, crc, offset as nat);
    let (next, next_target, step) = download_step(offset, target, cmd);
    match step {
        DownloadStep::Chunk { offset: at } => {
            if offset < next && next <= image.len() {
                let (rest, last) = download_run(image, chunk, version, crc, next, next_target);
                (seq![(at, cmd->data)] + rest, last)
            } else {
                (Seq::empty(), step)
            }
        },
        _ => (Seq::empty(), step),
    }
}

/// The bytes of a sequence of chunks, in order.
pub open spec fn chunk_bytes(chunks: Seq<(u32, Seq<u8>)>) -> Seq<u8>
    decreases chunks.len(),
{
    if chunks.len() == 0 {
        Seq::empty()
    } else {
        chunks[0].1 + chunk_bytes(chunks.drop_first())
    }
}

/// Each chunk starts where the previous one ended, the first at `start`.
pub open spec fn chunks_contiguous(chunks: Seq<(u32, Seq<u8>)>, start: int) -> bool
    decreases chunks.len(),
{
    chunks.len() == 0 || (chunks[0].0 == start && chunks_contiguous(
        chunks.drop_first(),
        start + chunks[0].1.len(),
    ))
}

/// Every chunk holds between 1 and `chunk` bytes.
pub open spec fn chunks_sized(chunks: Seq<(u32, Seq<u8>)>, chunk: nat) -> bool {
    forall|i: int| 0 <= i < chunks.len() ==> 0 < #[trigger] chunks[i].1.len() <= chunk
}

proof fn lemma_download_run_from(
    image: Seq<u8>,
    chunk: nat,
    version: Seq<u8>,
    crc: u32,
    offset: u32,
    target: Seq<u8>,
)
    requires
        chunk > 0,
        image.len() <= u32::MAX,
        offset <= image.len(),
    ensures
        ({
            let (chunks, last) = download_run(image, chunk, version, crc, offset, target);
            &&& last == DownloadStep::Complete { checksum: crc }
            &&& chunk_bytes(chunks) == image.subrange(offset as int, image.len() as int)
            &&& chunks_contiguous(chunks, offset as int)
            &&& chunks_sized(chunks, chunk)
        }),
    decreases image.len() - offset,
{
    let cmd = served_reply(image, chunk, version, crc, offset as nat);
    let (next, next_target, step) = download_step(offset, target, cmd);
    lemma_checksum_reads_back(crc);
    if offset < image.len() {
        let end: int = served_chunk_end(offset as int, chunk, image.len() as int);
        let data = image.subrange(offset as int, end);
        assert(next == end);
        lemma_download_run_from(image, chunk, version, crc, next, next_target);
        let (rest, last) = download_run(image, chunk, version, crc, next, next_target);
        let chunks = seq![(offset, data)] + rest;
        assert(download_run(image, chunk, version, crc, offset, target) == (chunks, last));
        assert(chunks.drop_first() =~= rest);
        assert(chunks[0] == (offset, data));
        assert(chunk_bytes(chunks) == data + chunk_bytes(rest));
        assert(data + image.subrange(end, image.len() as int) =~= image.subrange(
            offset as int,
            image.len() as int,
        ));
        assert forall|i: int| 0 <= i < chunks.len() implies 0 < #[trigger] chunks[i].1.len()
            <= chunk by {
            if i > 0 {
                assert(chunks[i] == rest[i - 1]);
            }
        }
    } else {
        assert(image.subrange(offset as int, image.len() as int) =~= Seq::<u8>::empty());
    }
}

/// A download from a server that serves `image` (at most `u32::MAX` bytes)
/// in chunks of `chunk > 0` bytes: the chunks handed to the writer start at
/// offset 0, each starts where the previous one ended, each holds between 1
/// and `chunk` bytes, together they are the image, and the download
/// completes with the image's CRC32 that the server sent.
pub proof fn lemma_download_from_server(image: Seq<u8>, chunk: nat, version: Seq<u8>, crc: u32)
    requires
        chunk > 0,
        image.len() <= u32::MAX,
    ensures
        ({
            let (chunks, last) = download_run(image, chunk, version, crc, 0, Seq::empty());
            &&& last == DownloadStep::Complete { checksum: crc }
            &&& chunk_bytes(chunks) == image
            &&& chunks_contiguous(chunks, 0)
            &&& chunks_sized(chunks, chunk)
        }),
{
    lemma_download_run_from(image, chunk, version, crc, 0, Seq::empty());
    assert(image.subrange(0, image.len() as int) =~= image);
}

/// Every reply of such a server meets what `DownloadState::on_command`
/// requires: a chunk's end fits in 32 bits.
pub proof fn lemma_served_reply_fits(image: Seq<u8>, chunk: nat, version: Seq<u8>, crc: u32, offset: nat)
    requires
        image.len() <= u32::MAX,
    ensures
        served_reply(image, chunk, version, crc, offset) matches OtaCommandView::Write { offset: at, data, .. }
            ==> at + (data.len() as u32) <= u32::MAX,
{
}

/// End of the chunk of `chunk` bytes that starts at `start` in an image of
/// `len` bytes.
pub open spec fn served_chunk_end(start: int, chunk: nat, len: int) -> int {
    if start + chunk < len {
        start + chunk
    } else {
        len
    }
}

proof fn lemma_download_run_boundaries(
    image: Seq<u8>,
    chunk: nat,
    version: Seq<u8>,
    crc: u32,
    offset: u32,
    target: Seq<u8>,
)
    requires
        chunk > 0,
        image.len() <= u32::MAX,
        offset <= image.len(),
    ensures
        ({
            let chunks = download_run(image, chunk, version, crc, offset, target).0;
            &&& chunks.len() == (image.len() - offset + chunk - 1) / (chunk as int)
            &&& forall|i: int|
                0 <= i < chunks.len() ==> #[trigger] chunks[i] == (
                    (offset + i * chunk) as u32,
                    image.subrange(
                        offset + i * chunk,
                        served_chunk_end(offset + i * chunk, chunk, image.len() as int),
                    ),
                )
        }),
    decreases image.len() - offset,
{
    let n = image.len() as int;
    let k = chunk as int;
    let cmd = served_reply(image, chunk, version, crc, offset as nat);
    let (next, next_target, step) = download_step(offset, target, cmd);
    if offset < n {
        let end = served_chunk_end(offset as int, chunk, n);
        let data = image.subrange(offset as int, end);
        assert(next == end);
        lemma_download_run_boundaries(image, chunk, version, crc, next, next_target);
        let rest = download_run(image, chunk, version, crc, next, next_target).0;
        let chunks = seq![(offset, data)] + rest;
        assert(download_run(image, chunk, version, crc, offset, target).0 == chunks);
        if offset + k < n {
            assert((n - offset + k - 1) / k == (n - next + k - 1) / k + 1) by (nonlinear_arith)
                requires
                    next == offset + k,
                    k > 0,
            ;
            assert forall|i: int| 0 <= i < chunks.len() implies #[trigger] chunks[i] == (
                (offset + i * k) as u32,
                image.subrange(offset + i * k, served_chunk_end(offset + i * k, chunk, n)),
            ) by {
                if i > 0 {
                    assert(chunks[i] == rest[i - 1]);
                    assert(next + (i - 1) * k == offset + i * k) by (nonlinear_arith)
                        requires
                            next == offset + k,
                    ;
                } else {
                    assert(0 * k == 0) by (nonlinear_arith);
                }
            }
        } else {
            assert(next == n);
            assert(rest.len() == 0) by {
                assert((n - next + k - 1) / k == 0) by (nonlinear_arith)
                    requires
                        next == n,
                        k > 0,
                ;
            }
            assert((n - offset + k - 1) / k == 1) by (nonlinear_arith)
                requires
                    0 < n - offset <= k,
            ;
            assert forall|i: int| 0 <= i < chunks.len() implies #[trigger] chunks[i] == (
                (offset + i * k) as u32,
                image.subrange(offset + i * k, served_chunk_end(offset + i * k, chunk, n)),
            ) by {
                assert(i == 0);
                assert(0 * k == 0) by (nonlinear_arith);
            }
        }
    } else {
        assert((n - offset + k - 1) / k == 0) by (nonlinear_arith)
            requires
                offset == n,
                k > 0,
        ;
    }
}

/// The chunks of a download from a server that serves `image` (at most
/// `u32::MAX` bytes) in chunks of `chunk > 0` bytes are exactly the
/// server's chunks: there are `ceil(len / chunk)` of them, and chunk `i`
/// holds the image's bytes `i * chunk .. min((i + 1) * chunk, len)` at
/// offset `i * chunk`.
pub proof fn lemma_download_chunk_boundaries(image: Seq<u8>, chunk: nat, version: Seq<u8>, crc: u32)
    requires
        chunk > 0,
        image.len() <= u32::MAX,
    ensures
        ({
            let chunks = download_run(image, chunk, version, crc, 0, Seq::empty()).0;
            &&& chunks.len() == (image.len() + chunk - 1) / (chunk as int)
            &&& forall|i: int|
                0 <= i < chunks.len() ==> #[trigger] chunks[i] == (
                    (i * chunk) as u32,
                    image.subrange(i * chunk, served_chunk_end(i * chunk, chunk, image.len() as int)),
                )
        }),
{
    lemma_download_run_boundaries(image, chunk, version, crc, 0, Seq::empty());
}

// ---------------------------------------------------------------------------
// Laws of the replies and of the update check
// ---------------------------------------------------------------------------

/// The owned command is the decoded command field for field: a `Write`
/// keeps its version, offset and data, a `Sync` its version, a `Swap` its
/// version and checksum bytes, and a `Wait` its poll interval, or waits 60
/// seconds when the server gave none.
pub proof fn lemma_owned_command_keeps_fields(c: CommandView)
    ensures
        c matches CommandView::Write { version, offset, data } ==> owned_command(c)
            == (OtaCommandView::Write { version, offset, data }),
        c matches CommandView::Sync { version, .. } ==> owned_command(c) == (OtaCommandView::Sync {
            version,
        }),
        c matches CommandView::Swap { version, checksum } ==> owned_command(c)
            == (OtaCommandView::Swap { version, checksum }),
        c matches CommandView::Wait { poll: Some(p) } ==> owned_command(c) == (OtaCommandView::Wait {
            poll: p,
        }),
        c matches CommandView::Wait { poll: None } ==> owned_command(c) == (OtaCommandView::Wait {
            poll: 60,
        }),
{
}

/// The verdict of an update check: a `Sync` or a `Wait` leaves the device up
/// to date whatever metadata is at hand; a `Write` announces an update of
/// the metadata's total size and CRC32; a `Swap` announces an update of the
/// metadata's total size with the CRC32 it carries, read big-endian, so that
/// a `Swap` carrying `u32::to_be_bytes(crc)` reports `crc`.
pub proof fn lemma_check_result_verdict(cmd: OtaCommandView, info: Option<(u32, u32)>, crc: u32)
    ensures
        cmd is Sync || cmd is Wait ==> check_result_of(cmd, info) == OtaCheckResult::UpToDate,
        info matches Some((size, sum)) ==> (cmd is Write ==> check_result_of(cmd, info) == (
        OtaCheckResult::UpdateAvailable { size, checksum: sum })),
        info matches Some((size, sum)) ==> (cmd is Swap ==> check_result_of(cmd, info) is UpdateAvailable
            && check_result_of(cmd, info)->size == size),
        info matches Some((size, sum)) ==> (cmd matches OtaCommandView::Swap { checksum, .. } ==> (
        checksum == be_bytes(crc) ==> check_result_of(cmd, info) == (OtaCheckResult::UpdateAvailable {
            size,
            checksum: crc,
        }))),
        cmd is Write || cmd is Swap <==> announces_update_of(cmd),
{
    lemma_checksum_reads_back(crc);
}

/// The steps of a download: a `Write` hands over its chunk at its own
/// offset and moves the offset just past the chunk, fixing the target
/// version on the first chunk only; a `Swap` carrying `u32::to_be_bytes(crc)`
/// completes the download with `crc`; a `Sync` ends it as invalid firmware
/// and a `Wait` as a transport error. Only a `Write` changes the state.
pub proof fn lemma_download_step_verdicts(offset: u32, target: Seq<u8>, cmd: OtaCommandView, crc: u32)
    ensures
        cmd matches OtaCommandView::Write { version, offset: at, data } ==> (at + data.len()
            <= u32::MAX ==> {
            &&& download_step(offset, target, cmd).0 == at + data.len()
            &&& download_step(offset, target, cmd).2 == (DownloadStep::Chunk { offset: at })
            &&& target.len() == 0 ==> download_step(offset, target, cmd).1 == version
            &&& target.len() != 0 ==> download_step(offset, target, cmd).1 == target
        }),
        cmd matches OtaCommandView::Swap { checksum, .. } ==> (checksum == be_bytes(crc)
            ==> download_step(offset, target, cmd) == (offset, target, DownloadStep::Complete {
            checksum: crc,
        })),
        cmd is Sync ==> download_step(offset, target, cmd) == (offset, target, DownloadStep::Failed(
            OtaError::InvalidFirmware,
        )),
        cmd is Wait ==> download_step(offset, target, cmd) == (offset, target, DownloadStep::Failed(
            OtaError::TransportError,
        )),
{
    lemma_checksum_reads_back(crc);
}

/// A byte string of ASCII bytes is valid UTF-8.
proof fn lemma_ascii_valid_utf8(s: Seq<u8>)
    requires
        forall|i: int| 0 <= i < s.len() ==> #[trigger] s[i] < 128,
    ensures
        valid_utf8(s),
    decreases s.len(),
{
    if s.len() > 0 {
        let b = s[0];
        assert(b < 128);
        assert((b & 0x7fu8) as u32 <= 0x7f) by (bit_vector);
        let rest = s.subrange(1, s.len() as int);
        assert(pop_first_scalar(s) =~= rest);
        lemma_ascii_valid_utf8(rest);
    }
}

/// The metadata reply: anything but HTTP 200 is a transport error; with
/// HTTP 200 a body that is not UTF-8 is invalid firmware, and a UTF-8 body
/// reads exactly as `parse_firmware_info` reads it; in particular the
/// server's body `{"size":S,"checksum":C,"version":"V"}` reads back as
/// (S, C, V) for every `u32` size and checksum and every UTF-8 version
/// without `"`.
pub proof fn lemma_info_reply(status: u16, body: Seq<u8>, size: u32, checksum: u32, version: Seq<u8>)
    ensures
        status != 200 ==> info_of_response(status, body) == Err::<(u32, u32, Seq<u8>), OtaError>(
            OtaError::TransportError,
        ),
        status == 200 && !valid_utf8(body) ==> info_of_response(status, body) == Err::<
            (u32, u32, Seq<u8>),
            OtaError,
        >(OtaError::InvalidFirmware),
        status == 200 && valid_utf8(body) ==> info_of_response(status, body) == firmware_info_of(body),
        valid_utf8(version) && (forall|i: int| 0 <= i < version.len() ==> #[trigger] version[i] != 34u8)
            ==> info_of_response(200, info_json(size, checksum, version)) == Ok::<
            (u32, u32, Seq<u8>),
            OtaError,
        >((size, checksum, version)),
{
    if valid_utf8(version) && (forall|i: int| 0 <= i < version.len() ==> #[trigger] version[i] != 34u8) {
        lemma_info_json_reads_back(size, checksum, version);
        lemma_decimal_reads_back(size as nat);
        lemma_decimal_reads_back(checksum as nat);
        let d1 = decimal(size as nat);
        let d2 = decimal(checksum as nat);
        assert forall|i: int| 0 <= i < d1.len() implies #[trigger] d1[i] < 128 by {
            assert(is_digit(d1[i]));
        }
        assert forall|i: int| 0 <= i < d2.len() implies #[trigger] d2[i] < 128 by {
            assert(is_digit(d2[i]));
        }
        lemma_ascii_valid_utf8(d1);
        lemma_ascii_valid_utf8(d2);
        let p1 = number_pattern(size_key());
        let p2 = number_pattern(checksum_key());
        let p3 = string_pattern(version_key());
        assert(p1 =~= seq![34u8, 115u8, 105u8, 122u8, 101u8, 34u8, 58u8]);
        assert(p2 =~= seq![34u8, 99u8, 104u8, 101u8, 99u8, 107u8, 115u8, 117u8, 109u8, 34u8, 58u8]);
        assert(p3 =~= seq![34u8, 118u8, 101u8, 114u8, 115u8, 105u8, 111u8, 110u8, 34u8, 58u8, 34u8]);
        lemma_ascii_valid_utf8(p1);
        lemma_ascii_valid_utf8(p2);
        lemma_ascii_valid_utf8(p3);
        lemma_ascii_valid_utf8(seq![123u8]);
        lemma_ascii_valid_utf8(seq![44u8]);
        lemma_ascii_valid_utf8(seq![34u8, 125u8]);
        let j1 = seq![123u8] + p1;
        let j2 = j1 + d1;
        let j3 = j2 + seq![44u8];
        let j4 = j3 + p2;
        let j5 = j4 + d2;
        let j6 = j5 + seq![44u8];
        let j7 = j6 + p3;
        let j8 = j7 + version;
        let j9 = j8 + seq![34u8, 125u8];
        valid_utf8_concat(seq![123u8], p1);
        valid_utf8_concat(j1, d1);
        valid_utf8_concat(j2, seq![44u8]);
        valid_utf8_concat(j3, p2);
        valid_utf8_concat(j4, d2);
        valid_utf8_concat(j5, seq![44u8]);
        valid_utf8_concat(j6, p3);
        valid_utf8_concat(j7, version);
        valid_utf8_concat(j8, seq![34u8, 125u8]);
        assert(j9 == info_json(size, checksum, version));
    }
}

/// A checksum is read from exactly its first four bytes, big-endian: the
/// four big-endian bytes of the result are those bytes; fewer than four
/// bytes read as 0.
pub proof fn lemma_be_checksum_reads_first_four(checksum: Seq<u8>)
    ensures
        checksum.len() < 4 ==> be_checksum(checksum) == 0,
        checksum.len() >= 4 ==> be_bytes(be_checksum(checksum)) == checksum.subrange(0, 4),
{
    if checksum.len() >= 4 {
        let a = checksum[0];
        let b = checksum[1];
        let c = checksum[2];
        let d = checksum[3];
        let x: int = a * 0x1000000 + b * 0x10000 + c * 0x100 + d;
        assert(x / 0x1000000 == a && (x / 0x10000) % 0x100 == b && (x / 0x100) % 0x100 == c && x
            % 0x100 == d) by (nonlinear_arith)
            requires
                x == a * 0x1000000 + b * 0x10000 + c * 0x100 + d,
                a < 256,
                b < 256,
                c < 256,
                d < 256,
        ;
        assert(be_bytes(be_checksum(checksum)) =~= checksum.subrange(0, 4));
    }
}

} // verus!
