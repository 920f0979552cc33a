use rust_embassy::ota::OtaError;
use rust_embassy::ota::ota_client::{FlashAction, FlashUpdate, OtaClient};
use rust_embassy::ota::ota_writer::OtaWriterState;

#[test]
fn test_ota_client_new() {
    // Arrange & Act
    let client = OtaClient::new();

    // Assert
    // Client should be successfully created (compile-time check)
    drop(client);
}

#[test]
fn test_ota_client_default() {
    // Arrange & Act
    let client = OtaClient::default();

    // Assert
    // Default should create valid client
    drop(client);
}

#[test]
fn test_rollback_available_returns_false() {
    // Arrange
    let client = OtaClient::new();

    // Act
    let available = client.rollback_available();

    // Assert
    assert!(!available, "Rollback should not be available yet");
}

#[test]
fn rollback_is_not_implemented() {
    let mut client = OtaClient::new();
    assert_eq!(client.rollback(), Err(OtaError::FinalizeFailed));
}

/// Runs a plan in which every operation succeeds and collects the actions.
fn run_all_ok(len: usize) -> Vec<FlashAction> {
    let client = OtaClient::new();
    let mut plan = client.plan_update(len);
    let mut actions = Vec::new();
    loop {
        let action = plan.action();
        actions.push(action);
        if action == FlashAction::Restart {
            return actions;
        }
        plan.advance(true);
    }
}

#[test]
fn update_writes_image_in_4k_chunks() {
    let actions = run_all_ok(10000);
    assert_eq!(
        actions,
        vec![
            FlashAction::Begin,
            FlashAction::Write { start: 0, end: 4096 },
            FlashAction::Write { start: 4096, end: 8192 },
            FlashAction::Write { start: 8192, end: 10000 },
            FlashAction::Finalize,
            FlashAction::SetBootPartition,
            FlashAction::Restart,
        ]
    );
}

#[test]
fn update_of_exact_multiple_has_no_empty_chunk() {
    let actions = run_all_ok(8192);
    assert_eq!(
        actions,
        vec![
            FlashAction::Begin,
            FlashAction::Write { start: 0, end: 4096 },
            FlashAction::Write { start: 4096, end: 8192 },
            FlashAction::Finalize,
            FlashAction::SetBootPartition,
            FlashAction::Restart,
        ]
    );
}

#[test]
fn update_of_empty_image_writes_nothing() {
    let actions = run_all_ok(0);
    assert_eq!(
        actions,
        vec![
            FlashAction::Begin,
            FlashAction::Finalize,
            FlashAction::SetBootPartition,
            FlashAction::Restart,
        ]
    );
}

#[test]
fn update_failures_map_to_their_stage() {
    let mut plan = FlashUpdate::new(100);
    plan.advance(false);
    assert_eq!(plan.action(), FlashAction::Fail(OtaError::BeginFailed));
    // nothing happens after a failure
    plan.advance(true);
    assert_eq!(plan.action(), FlashAction::Fail(OtaError::BeginFailed));

    let mut plan = FlashUpdate::new(100);
    plan.advance(true);
    assert_eq!(plan.action(), FlashAction::Write { start: 0, end: 100 });
    plan.advance(false);
    assert_eq!(plan.action(), FlashAction::Fail(OtaError::WriteFailed));

    let mut plan = FlashUpdate::new(100);
    plan.advance(true);
    plan.advance(true);
    assert_eq!(plan.action(), FlashAction::Finalize);
    plan.advance(false);
    assert_eq!(plan.action(), FlashAction::Fail(OtaError::FinalizeFailed));

    let mut plan = FlashUpdate::new(100);
    plan.advance(true);
    plan.advance(true);
    plan.advance(true);
    assert_eq!(plan.action(), FlashAction::SetBootPartition);
    plan.advance(false);
    assert_eq!(plan.action(), FlashAction::Fail(OtaError::SetBootPartitionFailed));
}

#[test]
fn writer_refuses_chunks_before_begin() {
    let mut writer = OtaWriterState::new(true).unwrap();
    assert!(!writer.started);
    assert_eq!(writer.check_write(), Err(OtaError::WriteFailed));
    assert_eq!(writer.begin(false), Err(OtaError::BeginFailed));
    assert!(!writer.started);
    assert_eq!(writer.begin(true), Ok(()));
    assert!(writer.started);
    assert_eq!(writer.check_write(), Ok(()));
}

#[test]
fn writer_reports_outcomes() {
    assert_eq!(OtaWriterState::new(false), Err(OtaError::BeginFailed));
    assert_eq!(OtaWriterState::chunk_written(Some(true)), Ok(true));
    assert_eq!(OtaWriterState::chunk_written(Some(false)), Ok(false));
    assert_eq!(OtaWriterState::chunk_written(None), Err(OtaError::WriteFailed));
    assert_eq!(OtaWriterState::finalized(true), Ok(()));
    assert_eq!(OtaWriterState::finalized(false), Err(OtaError::FinalizeFailed));
}
