//! Decisions of the OTA firmware writer, which streams downloaded chunks to
//! the OTA partition with esp-hal-ota.
//!
//! The flash operations are performed by the caller; this state decides
//! whether a write may start and how each outcome is reported.

use vstd::prelude::*;
use crate::ota::OtaError;

verus! {

/// State of an OTA writer: whether an update has been begun.
#[derive(Debug, Clone, Copy, PartialEq, Eq, Structural)]
pub struct OtaWriterState {
    /// Whether OTA has been started.
    pub started: bool,
}

impl OtaWriterState {
    /// A writer whose OTA handle was (`opened`) or was not created; failing
    /// to create it is reported as `BeginFailed`.
    pub fn new(opened: bool) -> (r: Result<Self, OtaError>)
        ensures
            opened ==> r == Ok::<Self, OtaError>(OtaWriterState { started: false }),
            !opened ==> r == Err::<Self, OtaError>(OtaError::BeginFailed),
    {
        if opened {
            Ok(OtaWriterState { started: false })
        } else {
            Err(OtaError::BeginFailed)
        }
    }

    /// Records the outcome of beginning an update (`ota_begin`): on success
    /// the writer is started, else `BeginFailed` and nothing changes.
    pub fn begin(&mut self, begun: bool) -> (r: Result<(), OtaError>)
        ensures
            begun ==> r == Ok::<(), OtaError>(()) && final(self).started,
            !begun ==> r == Err::<(), OtaError>(OtaError::BeginFailed) && *final(self) == *old(
                self,
            ),
    {
        if begun {
            self.started = true;
            Ok(())
        } else {
            Err(OtaError::BeginFailed)
        }
    }

    /// Whether a chunk may be written: only once the update has begun.
    pub fn check_write(&self) -> (r: Result<(), OtaError>)
        ensures
            self.started ==> r == Ok::<(), OtaError>(()),
            !self.started ==> r == Err::<(), OtaError>(OtaError::WriteFailed),
    {
        if self.started {
            Ok(())
        } else {
            Err(OtaError::WriteFailed)
        }
    }

    /// Reports a chunk write (`ota_write_chunk`): `Some(complete)` when it
    /// succeeded, telling whether this was the final chunk; a failed write is
    /// `WriteFailed`.
    pub fn chunk_written(outcome: Option<bool>) -> (r: Result<bool, OtaError>)
        ensures
            outcome matches Some(c) ==> r == Ok::<bool, OtaError>(c),
            outcome is None ==> r == Err::<bool, OtaError>(OtaError::WriteFailed),
    {
        match outcome {
            Some(complete) => Ok(complete),
            None => Err(OtaError::WriteFailed),
        }
    }

    /// Reports finalizing (`ota_flush`): a failure is `FinalizeFailed`.
    pub fn finalized(flushed: bool) -> (r: Result<(), OtaError>)
        ensures
            flushed ==> r == Ok::<(), OtaError>(()),
            !flushed ==> r == Err::<(), OtaError>(OtaError::FinalizeFailed),
    {
        if flushed {
            Ok(())
        } else {
            Err(OtaError::FinalizeFailed)
        }
    }
}

} // verus!
