//! OTA client for managing firmware updates.
//!
//! An update from a complete image runs as a fixed sequence of flash
//! operations: begin, write the image in 4KB chunks, finalize, make the new
//! partition the boot partition, restart. [`FlashUpdate`] decides that
//! sequence; the caller performs each operation and reports whether it
//! succeeded.

use vstd::prelude::*;
use crate::ota::OtaError;

verus! {

/// Size of the chunks in which an image is written to flash.
pub const FLASH_CHUNK_SIZE: usize = 4096;

/// The next flash operation of an update.
#[derive(Debug, Clone, Copy, PartialEq, Eq, Structural)]
pub enum FlashAction {
    /// Open the next OTA partition (erasing it).
    Begin,
    /// Write the image bytes `start..end`.
    Write { start: usize, end: usize },
    /// Finalize and validate the written image.
    Finalize,
    /// Make the new partition the boot partition.
    SetBootPartition,
    /// Restart into the new firmware; the update is done.
    Restart,
    /// The update has failed with this error.
    Fail(OtaError),
}

/// End of the chunk that starts at `start` in an image of `len` bytes.
pub open spec fn chunk_end(start: int, len: int) -> int {
    if start + FLASH_CHUNK_SIZE < len {
        start + FLASH_CHUNK_SIZE
    } else {
        len
    }
}

/// What follows once the image's first `written` bytes are on flash.
pub open spec fn after_written(written: int, len: int) -> FlashAction {
    if written == len {
        FlashAction::Finalize
    } else {
        FlashAction::Write { start: written as usize, end: chunk_end(written, len) as usize }
    }
}

/// Progress of an update from an image of a known length.
pub struct FlashUpdate {
    len: usize,
    written: usize,
    action: FlashAction,
}

/// Mathematical form of a [`FlashUpdate`]: image length, bytes written so
/// far, and the operation due next.
pub struct FlashUpdateView {
    pub len: nat,
    pub written: nat,
    pub action: FlashAction,
}

impl View for FlashUpdate {
    type V = FlashUpdateView;

    closed spec fn view(&self) -> FlashUpdateView {
        FlashUpdateView { len: self.len as nat, written: self.written as nat, action: self.action }
    }
}

impl FlashUpdateView {
    /// The bytes written are a prefix of the image, and the operation due
    /// next fits that progress.
    pub open spec fn wf(self) -> bool {
        &&& self.written <= self.len
        &&& match self.action {
            FlashAction::Begin => self.written == 0,
            FlashAction::Write { start, end } => {
                &&& start == self.written
                &&& start < self.len
                &&& end == chunk_end(start as int, self.len as int)
            },
            FlashAction::Finalize | FlashAction::SetBootPartition | FlashAction::Restart => self.written
                == self.len,
            FlashAction::Fail(_) => true,
        }
    }

    /// The state after the due operation ends, successfully or not.
    pub open spec fn advanced(self, succeeded: bool) -> FlashUpdateView {
        match self.action {
            FlashAction::Begin => if succeeded {
                FlashUpdateView { action: after_written(0, self.len as int), ..self }
            } else {
                FlashUpdateView { action: FlashAction::Fail(OtaError::BeginFailed), ..self }
            },
            FlashAction::Write { start, end } => if succeeded {
                FlashUpdateView {
                    written: end as nat,
                    action: after_written(end as int, self.len as int),
                    ..self
                }
            } else {
                FlashUpdateView { action: FlashAction::Fail(OtaError::WriteFailed), ..self }
            },
            FlashAction::Finalize => if succeeded {
                FlashUpdateView { action: FlashAction::SetBootPartition, ..self }
            } else {
                FlashUpdateView { action: FlashAction::Fail(OtaError::FinalizeFailed), ..self }
            },
            FlashAction::SetBootPartition => if succeeded {
                FlashUpdateView { action: FlashAction::Restart, ..self }
            } else {
                FlashUpdateView {
                    action: FlashAction::Fail(OtaError::SetBootPartitionFailed),
                    ..self
                }
            },
            FlashAction::Restart | FlashAction::Fail(_) => self,
        }
    }
}

impl FlashUpdate {
    /// The bytes written are a prefix of the image, and the operation due
    /// next fits that progress.
    #[verifier::type_invariant]
    spec fn well_formed(self) -> bool {
        self@.wf()
    }

    /// An update of an image of `len` bytes; nothing done yet.
    pub fn new(len: usize) -> (s: Self)
        ensures
            s@ == (FlashUpdateView { len: len as nat, written: 0, action: FlashAction::Begin }),
            s@.wf(),
    {
        FlashUpdate { len, written: 0, action: FlashAction::Begin }
    }

    /// The operation due next.
    pub fn action(&self) -> (a: FlashAction)
        ensures
            a == self@.action,
    {
        self.action
    }

    /// Records how the due operation ended and moves to the next one.
    /// After `Restart` or a failure nothing changes.
    pub fn advance(&mut self, succeeded: bool)
        ensures
            final(self)@ == old(self)@.advanced(succeeded),
            final(self)@.wf(),
    {
        proof {
            use_type_invariant(&*self);
        }
        let (written, action): (usize, FlashAction) = match self.action {
            FlashAction::Begin => if succeeded {
                (self.written, self.next_after(0))
            } else {
                (self.written, FlashAction::Fail(OtaError::BeginFailed))
            },
            FlashAction::Write { start, end } => if succeeded {
                (end, self.next_after(end))
            } else {
                (self.written, FlashAction::Fail(OtaError::WriteFailed))
            },
            FlashAction::Finalize => if succeeded {
                (self.written, FlashAction::SetBootPartition)
            } else {
                (self.written, FlashAction::Fail(OtaError::FinalizeFailed))
            },
            FlashAction::SetBootPartition => if succeeded {
                (self.written, FlashAction::Restart)
            } else {
                (self.written, FlashAction::Fail(OtaError::SetBootPartitionFailed))
            },
            FlashAction::Restart | FlashAction::Fail(_) => (self.written, self.action),
        };
        *self = FlashUpdate { len: self.len, written, action };
    }

    fn next_after(&self, written: usize) -> (a: FlashAction)
        requires
            written <= self.len,
        ensures
            a == after_written(written as int, self.len as int),
    {
        if written == self.len {
            FlashAction::Finalize
        } else if self.len - written > FLASH_CHUNK_SIZE {
            FlashAction::Write { start: written, end: written + FLASH_CHUNK_SIZE }
        } else {
            FlashAction::Write { start: written, end: self.len }
        }
    }
}

/// OTA client for managing firmware updates.
pub struct OtaClient {}

impl OtaClient {
    /// Creates a new OTA client instance.
    pub fn new() -> (c: Self)
        ensures
            c == (OtaClient {}),
    {
        OtaClient {}
    }

    /// Plans the update of the firmware from a complete image of
    /// `firmware_len` bytes.
    pub fn plan_update(&self, firmware_len: usize) -> (u: FlashUpdate)
        ensures
            u@ == (FlashUpdateView {
                len: firmware_len as nat,
                written: 0,
                action: FlashAction::Begin,
            }),
            u@.wf(),
    {
        FlashUpdate::new(firmware_len)
    }

    /// Checks if rollback is available: it is not yet.
    pub fn rollback_available(&self) -> (r: bool)
        ensures
            !r,
    {
        false
    }

    /// Performs rollback to the previous firmware version: not implemented
    /// yet, so it always fails.
    pub fn rollback(&mut self) -> (r: Result<(), OtaError>)
        ensures
            r == Err::<(), OtaError>(OtaError::FinalizeFailed),
    {
        Err(OtaError::FinalizeFailed)
    }
}

impl Default for OtaClient {
    fn default() -> (c: Self)
        ensures
            c == (OtaClient {}),
    {
        OtaClient::new()
    }
}

/// An update of an image of `len` bytes before anything is done.
pub open spec fn update_start(len: nat) -> FlashUpdateView {
    FlashUpdateView { len, written: 0, action: FlashAction::Begin }
}

/// The state after `n` operations in a row have succeeded.
pub open spec fn after_successes(v: FlashUpdateView, n: nat) -> FlashUpdateView
    decreases n,
{
    if n == 0 {
        v
    } else {
        after_successes(v, (n - 1) as nat).advanced(true)
    }
}

/// Number of chunks of [`FLASH_CHUNK_SIZE`] bytes in an image of `len` bytes.
pub open spec fn chunk_count(len: nat) -> nat {
    ((len + FLASH_CHUNK_SIZE - 1) / FLASH_CHUNK_SIZE as int) as nat
}

/// While all succeeds, after `begin` and `k` chunk writes the first
/// `min(k * 4096, len)` bytes are written, and the next operation writes the
/// following chunk, or finalizes once the image is complete.
proof fn lemma_progress(len: nat, k: nat)
    requires
        len <= usize::MAX,
        k <= chunk_count(len),
    ensures
        ({
            let w: nat = if k * FLASH_CHUNK_SIZE < len {
                (k * FLASH_CHUNK_SIZE) as nat
            } else {
                len
            };
            after_successes(update_start(len), k + 1) == FlashUpdateView {
                len,
                written: w,
                action: after_written(w as int, len as int),
            }
        }),
    decreases k,
{
    let start = update_start(len);
    assert(after_successes(start, k + 1) == after_successes(start, k).advanced(true));
    if k > 0 {
        lemma_progress(len, (k - 1) as nat);
        assert((k - 1) * FLASH_CHUNK_SIZE < len) by (nonlinear_arith)
            requires
                k >= 1,
                k <= (len + FLASH_CHUNK_SIZE - 1) / FLASH_CHUNK_SIZE as int,
                FLASH_CHUNK_SIZE == 4096,
        ;
        assert(k * FLASH_CHUNK_SIZE == (k - 1) * FLASH_CHUNK_SIZE + FLASH_CHUNK_SIZE) by (
        nonlinear_arith);
        let wp = ((k - 1) * FLASH_CHUNK_SIZE) as nat;
        let prev = after_successes(start, k);
        assert(prev.written == wp);
        assert(prev.action == FlashAction::Write {
            start: wp as usize,
            end: chunk_end(wp as int, len as int) as usize,
        });
    }
}

/// An update in which every operation succeeds begins, writes the image in
/// `chunk_count(len)` chunks, finalizes once all `len` bytes are written,
/// sets the boot partition and then restarts.
pub proof fn lemma_update_succeeds(len: nat)
    requires
        len <= usize::MAX,
    ensures
        after_successes(update_start(len), chunk_count(len) + 1).written == len,
        after_successes(update_start(len), chunk_count(len) + 1).action == FlashAction::Finalize,
        after_successes(update_start(len), chunk_count(len) + 2).action
            == FlashAction::SetBootPartition,
        after_successes(update_start(len), chunk_count(len) + 3).action == FlashAction::Restart,
{
    let c = chunk_count(len);
    lemma_progress(len, c);
    assert(c * FLASH_CHUNK_SIZE >= len) by (nonlinear_arith)
        requires
            c == (len + FLASH_CHUNK_SIZE - 1) / FLASH_CHUNK_SIZE as int,
            FLASH_CHUNK_SIZE == 4096,
    ;
    assert(after_successes(update_start(len), c + 2) == after_successes(update_start(len), c + 1).advanced(true));
    assert(after_successes(update_start(len), c + 3) == after_successes(update_start(len), c + 2).advanced(true));
}

/// A failed operation ends the update with its stage's error, at whatever
/// point of the update it fails, and writes nothing more: a failed begin is
/// `BeginFailed`, a failed write of any chunk `WriteFailed`, a failed
/// finalize `FinalizeFailed`, a failed switch of the boot partition
/// `SetBootPartitionFailed`. After a restart or a failure nothing changes
/// any more, whatever is reported.
pub proof fn lemma_failure_ends_update(v: FlashUpdateView, succeeded: bool)
    requires
        v.wf(),
    ensures
        v.advanced(false).written == v.written,
        v.advanced(false).len == v.len,
        v.action is Begin ==> v.advanced(false).action == FlashAction::Fail(OtaError::BeginFailed),
        v.action is Write ==> v.advanced(false).action == FlashAction::Fail(OtaError::WriteFailed),
        v.action is Finalize ==> v.advanced(false).action == FlashAction::Fail(
            OtaError::FinalizeFailed,
        ),
        v.action is SetBootPartition ==> v.advanced(false).action == FlashAction::Fail(
            OtaError::SetBootPartitionFailed,
        ),
        v.action is Restart || v.action is Fail ==> v.advanced(succeeded) == v,
{
}

/// A successful chunk write moves the written prefix to the chunk's end;
/// chunks are non-empty and at most [`FLASH_CHUNK_SIZE`] bytes, each
/// starts where the last one ended, and the update finalizes exactly when
/// the whole image is written.
pub proof fn lemma_write_success_advances(v: FlashUpdateView)
    requires
        v.wf(),
        v.action is Write,
    ensures
        v.action->start == v.written,
        v.action->start < v.action->end <= v.len,
        v.action->end - v.action->start <= FLASH_CHUNK_SIZE,
        v.action->end < v.len ==> v.action->end - v.action->start == FLASH_CHUNK_SIZE,
        v.advanced(true).written == v.action->end,
        v.advanced(true).action is Finalize <==> v.action->end == v.len,
        v.advanced(true).action is Write ==> v.advanced(true).action->start == v.action->end,
        v.advanced(true).action is Finalize || v.advanced(true).action is Write,
{
}

/// The other stages in success: a successful begin starts writing at 0 with
/// a full chunk (or the whole image when shorter), or finalizes an empty
/// image; a successful finalize switches the boot partition, and a
/// successful switch restarts. None of them writes anything.
pub proof fn lemma_stage_success(v: FlashUpdateView)
    requires
        v.wf(),
    ensures
        !(v.action is Write) ==> v.advanced(true).written == v.written,
        v.action is Begin && v.len == 0 ==> v.advanced(true).action == FlashAction::Finalize,
        v.action is Begin && v.len > 0 ==> v.advanced(true).action == (FlashAction::Write {
            start: 0,
            end: if v.len < FLASH_CHUNK_SIZE {
                v.len as usize
            } else {
                FLASH_CHUNK_SIZE
            },
        }),
        v.action is Finalize ==> v.advanced(true).action == FlashAction::SetBootPartition,
        v.action is SetBootPartition ==> v.advanced(true).action == FlashAction::Restart,
{
}

} // verus!
