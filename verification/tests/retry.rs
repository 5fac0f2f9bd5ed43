use aegis_edge_relay::retry::{
    ConnectRetry, EDGE_CONNECT_RETRIES, EDGE_CONNECT_TIMEOUT_SECS, EDGE_TLS_TIMEOUT_SECS,
    EDGE_UPGRADE_TIMEOUT_SECS,
};

#[test]
fn three_attempts_with_growing_delays() {
    let mut retry = ConnectRetry::new(EDGE_CONNECT_RETRIES);
    assert_eq!((retry.attempt(), retry.max_attempts()), (1, 3));
    assert_eq!(retry.on_failure(), Some(150));
    assert_eq!((retry.attempt(), retry.max_attempts()), (2, 3));
    assert_eq!(retry.on_failure(), Some(300));
    assert_eq!(retry.attempt(), 3);
    assert_eq!(retry.on_failure(), None);
    assert_eq!(retry.attempt(), 3);
}

#[test]
fn at_least_one_attempt_is_made() {
    let mut retry = ConnectRetry::new(0);
    assert_eq!((retry.attempt(), retry.max_attempts()), (1, 1));
    assert_eq!(retry.on_failure(), None);
}

#[test]
fn delay_of_many_attempts_does_not_overflow() {
    let mut retry = ConnectRetry::new(u32::MAX);
    for failure in 1..=1000u64 {
        assert_eq!(retry.on_failure(), Some(150 * failure));
    }
}

#[test]
fn each_step_has_its_time() {
    assert_eq!(EDGE_CONNECT_TIMEOUT_SECS, 3);
    assert_eq!(EDGE_TLS_TIMEOUT_SECS, 8);
    assert_eq!(EDGE_UPGRADE_TIMEOUT_SECS, 15);
}
