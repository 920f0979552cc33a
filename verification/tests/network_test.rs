use rust_embassy::network::{net_seed, pause_ms, wifi_next, WifiAction, RETRY_DELAY_MS};

#[test]
fn seed_joins_two_words() {
    assert_eq!(net_seed(0, 0), 0);
    assert_eq!(net_seed(1, 2), (1u64 << 32) | 2);
    assert_eq!(net_seed(0xFFFF_FFFF, 0xFFFF_FFFF), u64::MAX);
}

#[test]
fn wifi_connection_round() {
    // connected: wait for the disconnect, then check whether started
    assert_eq!(wifi_next(WifiAction::CheckConnected, true), WifiAction::AwaitDisconnect);
    assert_eq!(wifi_next(WifiAction::AwaitDisconnect, true), WifiAction::CheckStarted);
    assert_eq!(wifi_next(WifiAction::CheckConnected, false), WifiAction::CheckStarted);
    // a started driver is not configured again
    assert_eq!(wifi_next(WifiAction::CheckStarted, true), WifiAction::Connect);
    assert_eq!(wifi_next(WifiAction::CheckStarted, false), WifiAction::ConfigureAndStart);
    assert_eq!(wifi_next(WifiAction::ConfigureAndStart, true), WifiAction::Connect);
    // a failed attempt pauses before the next round
    assert_eq!(wifi_next(WifiAction::Connect, false), WifiAction::PauseBeforeRetry);
    assert_eq!(wifi_next(WifiAction::PauseBeforeRetry, true), WifiAction::CheckConnected);
    assert_eq!(wifi_next(WifiAction::Connect, true), WifiAction::CheckConnected);
}

#[test]
fn pauses_follow_disconnects_and_failures() {
    assert_eq!(RETRY_DELAY_MS, 5000);
    assert_eq!(pause_ms(WifiAction::AwaitDisconnect), 5000);
    assert_eq!(pause_ms(WifiAction::PauseBeforeRetry), 5000);
    for action in [WifiAction::CheckConnected, WifiAction::CheckStarted, WifiAction::ConfigureAndStart, WifiAction::Connect] {
        assert_eq!(pause_ms(action), 0);
    }
    // a failed attempt: the next operation pauses before connecting again
    let mut action = WifiAction::Connect;
    action = wifi_next(action, false);
    assert_eq!(pause_ms(action), 5000);
    action = wifi_next(action, true);
    action = wifi_next(action, false);
    action = wifi_next(action, true);
    assert_eq!(action, WifiAction::Connect);
}
