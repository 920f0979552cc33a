//! Network helpers: the decisions taken while bringing WiFi and the
//! embassy-net stack up. The radio and the stack are driven by the caller.

use vstd::prelude::*;

verus! {

/// Pause, in milliseconds, before retrying after a disconnect or a failed
/// connection attempt.
pub const RETRY_DELAY_MS: u64 = 5000;

/// Seed of the network stack from two random words: `hi` in the upper and
/// `lo` in the lower 32 bits.
pub fn net_seed(hi: u32, lo: u32) -> (seed: u64)
    ensures
        seed == hi as int * 0x1_0000_0000 + lo as int,
{
    (hi as u64) * 0x1_0000_0000u64 + lo as u64
}

/// The next operation of the WiFi connection task.
#[derive(Debug, Clone, Copy, PartialEq, Eq, Structural)]
pub enum WifiAction {
    /// Read the WiFi state; the outcome tells whether the station is connected.
    CheckConnected,
    /// Wait until the station disconnects, then pause for [`RETRY_DELAY_MS`].
    AwaitDisconnect,
    /// Read whether the driver is started; the outcome tells.
    CheckStarted,
    /// Set the client configuration and start the driver.
    ConfigureAndStart,
    /// Connect to the access point; the outcome tells whether it succeeded.
    Connect,
    /// Pause for [`RETRY_DELAY_MS`] before checking again.
    PauseBeforeRetry,
}

/// The operation that follows `action` when it ended with `outcome`.
pub open spec fn wifi_next_spec(action: WifiAction, outcome: bool) -> WifiAction {
    match action {
        WifiAction::CheckConnected => if outcome {
            WifiAction::AwaitDisconnect
        } else {
            WifiAction::CheckStarted
        },
        WifiAction::AwaitDisconnect => WifiAction::CheckStarted,
        WifiAction::CheckStarted => if outcome {
            WifiAction::Connect
        } else {
            WifiAction::ConfigureAndStart
        },
        WifiAction::ConfigureAndStart => WifiAction::Connect,
        WifiAction::Connect => if outcome {
            WifiAction::CheckConnected
        } else {
            WifiAction::PauseBeforeRetry
        },
        WifiAction::PauseBeforeRetry => WifiAction::CheckConnected,
    }
}

/// The WiFi connection task's policy: while connected it waits for a
/// disconnect; it configures and starts the driver only when it is not
/// started; after a failed connection attempt it pauses before retrying.
pub fn wifi_next(action: WifiAction, outcome: bool) -> (next: WifiAction)
    ensures
        next == wifi_next_spec(action, outcome),
{
    match action {
        WifiAction::CheckConnected => if outcome {
            WifiAction::AwaitDisconnect
        } else {
            WifiAction::CheckStarted
        },
        WifiAction::AwaitDisconnect => WifiAction::CheckStarted,
        WifiAction::CheckStarted => if outcome {
            WifiAction::Connect
        } else {
            WifiAction::ConfigureAndStart
        },
        WifiAction::ConfigureAndStart => WifiAction::Connect,
        WifiAction::Connect => if outcome {
            WifiAction::CheckConnected
        } else {
            WifiAction::PauseBeforeRetry
        },
        WifiAction::PauseBeforeRetry => WifiAction::CheckConnected,
    }
}

/// How long the connection task pauses, in milliseconds, once `action` is
/// done: [`RETRY_DELAY_MS`] after a disconnect and before a retry, else not
/// at all.
pub open spec fn pause_ms_spec(action: WifiAction) -> u64 {
    match action {
        WifiAction::AwaitDisconnect | WifiAction::PauseBeforeRetry => RETRY_DELAY_MS,
        _ => 0,
    }
}

/// How long the connection task pauses, in milliseconds, once `action` is done.
pub fn pause_ms(action: WifiAction) -> (ms: u64)
    ensures
        ms == pause_ms_spec(action),
{
    match action {
        WifiAction::AwaitDisconnect | WifiAction::PauseBeforeRetry => RETRY_DELAY_MS,
        _ => 0,
    }
}

/// The operation of the connection task after `n` operations that began at
/// `start` ended with `outcomes[0]`, ..., `outcomes[n - 1]`.
pub open spec fn wifi_after(start: WifiAction, outcomes: Seq<bool>, n: nat) -> WifiAction
    decreases n,
{
    if n == 0 {
        start
    } else {
        wifi_next_spec(wifi_after(start, outcomes, (n - 1) as nat), outcomes[n - 1])
    }
}

/// Over any run of the connection task: after a failed connection attempt,
/// the next attempt comes only after a pause of [`RETRY_DELAY_MS`]; while
/// the station is connected, the next attempt comes only after the task has
/// waited for a disconnect and then paused [`RETRY_DELAY_MS`].
pub proof fn lemma_wifi_pauses_before_reconnect(start: WifiAction, outcomes: Seq<bool>, i: nat, j: nat)
    requires
        i < j <= outcomes.len(),
        wifi_after(start, outcomes, j) == WifiAction::Connect,
    ensures
        wifi_after(start, outcomes, i) == WifiAction::Connect && !outcomes[i as int] ==> {
            &&& i + 1 < j
            &&& wifi_after(start, outcomes, i + 1) == WifiAction::PauseBeforeRetry
            &&& pause_ms_spec(wifi_after(start, outcomes, i + 1)) == RETRY_DELAY_MS
        },
        wifi_after(start, outcomes, i) == WifiAction::CheckConnected && outcomes[i as int] ==> {
            &&& i + 1 < j
            &&& wifi_after(start, outcomes, i + 1) == WifiAction::AwaitDisconnect
            &&& pause_ms_spec(wifi_after(start, outcomes, i + 1)) == RETRY_DELAY_MS
        },
{
    assert(wifi_after(start, outcomes, i + 1) == wifi_next_spec(
        wifi_after(start, outcomes, i),
        outcomes[i as int],
    ));
}

/// The connection task's policy step by step: a connected station waits
/// for its disconnect, an unconnected one checks the driver; the driver is
/// configured and started only when it is not started, and then connected;
/// a started driver is connected at once; a successful connection is
/// watched again, a failed one pauses [`RETRY_DELAY_MS`] before the next
/// round; every operation has a next one.
pub proof fn lemma_wifi_policy(outcome: bool)
    ensures
        wifi_next_spec(WifiAction::CheckConnected, true) == WifiAction::AwaitDisconnect,
        wifi_next_spec(WifiAction::CheckConnected, false) == WifiAction::CheckStarted,
        wifi_next_spec(WifiAction::AwaitDisconnect, outcome) == WifiAction::CheckStarted,
        wifi_next_spec(WifiAction::CheckStarted, true) == WifiAction::Connect,
        wifi_next_spec(WifiAction::CheckStarted, false) == WifiAction::ConfigureAndStart,
        wifi_next_spec(WifiAction::ConfigureAndStart, outcome) == WifiAction::Connect,
        wifi_next_spec(WifiAction::Connect, true) == WifiAction::CheckConnected,
        wifi_next_spec(WifiAction::Connect, false) == WifiAction::PauseBeforeRetry,
        wifi_next_spec(WifiAction::PauseBeforeRetry, outcome) == WifiAction::CheckConnected,
        pause_ms_spec(WifiAction::AwaitDisconnect) == 5000,
        pause_ms_spec(WifiAction::PauseBeforeRetry) == 5000,
        pause_ms_spec(WifiAction::Connect) == 0,
        pause_ms_spec(WifiAction::CheckConnected) == 0,
        pause_ms_spec(WifiAction::CheckStarted) == 0,
        pause_ms_spec(WifiAction::ConfigureAndStart) == 0,
{
}

} // verus!
