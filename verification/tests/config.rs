use aegis_edge_relay::chunking::ChunkingConfig;
use aegis_edge_relay::config::{
    primary_edge, resolve_edge_candidates, BridgeArgs, TrafficProfile, CYCLE_BYTES_DEFAULT,
    CYCLE_MINUTES_DEFAULT, EDGE_INITIAL_SEGMENT_BYTES_DEFAULT, EDGE_INITIAL_SEGMENT_CHUNK_DEFAULT,
    INITIAL_CHUNK_BYTES_DEFAULT, INITIAL_CHUNK_DELAY_MS_DEFAULT, INITIAL_CHUNK_SIZE_DEFAULT,
    MAX_CONCURRENT_EDGE_CONNECTS_DEFAULT,
};

fn args() -> BridgeArgs {
    BridgeArgs {
        host: String::from("relay.example.com"),
        sni: String::from("relay.example.com"),
        path: String::from("/relay"),
        auth_secret_key: String::from("secret"),
        traffic_profile: TrafficProfile::Chrome,
        cycle_minutes: CYCLE_MINUTES_DEFAULT,
        cycle_bytes: CYCLE_BYTES_DEFAULT,
        initial_chunk_bytes: INITIAL_CHUNK_BYTES_DEFAULT,
        initial_chunk_size: INITIAL_CHUNK_SIZE_DEFAULT,
        initial_chunk_delay_ms: INITIAL_CHUNK_DELAY_MS_DEFAULT,
        edge_initial_segment_bytes: EDGE_INITIAL_SEGMENT_BYTES_DEFAULT,
        edge_initial_segment_chunk: EDGE_INITIAL_SEGMENT_CHUNK_DEFAULT,
        max_concurrent_edge_connects: MAX_CONCURRENT_EDGE_CONNECTS_DEFAULT,
    }
}

#[test]
fn defaults_are_those_of_the_manual() {
    assert_eq!(CYCLE_MINUTES_DEFAULT, 10);
    assert_eq!(CYCLE_BYTES_DEFAULT, 100 * 1024 * 1024);
    assert_eq!(INITIAL_CHUNK_BYTES_DEFAULT, 250);
    assert_eq!(INITIAL_CHUNK_SIZE_DEFAULT, 8);
    assert_eq!(INITIAL_CHUNK_DELAY_MS_DEFAULT, 2);
    assert_eq!(EDGE_INITIAL_SEGMENT_BYTES_DEFAULT, 0);
    assert_eq!(EDGE_INITIAL_SEGMENT_CHUNK_DEFAULT, 3);
    assert_eq!(MAX_CONCURRENT_EDGE_CONNECTS_DEFAULT, 24);
}

#[test]
fn time_window_is_kept_between_ten_and_fifteen_minutes() {
    for (given, kept) in [(0, 10), (9, 10), (10, 10), (12, 12), (15, 15), (16, 15), (u64::MAX, 15)] {
        let mut args = args();
        args.cycle_minutes = given;
        assert_eq!(args.cycle_window_minutes(), kept);
        assert_eq!(
            args.cycle_after_nanos(),
            std::time::Duration::from_secs(kept * 60).as_nanos()
        );
    }
}

#[test]
fn pieces_hold_at_least_one_byte() {
    let mut args = args();
    assert_eq!(
        args.chunking_config(),
        ChunkingConfig {
            initial_bytes: 250,
            chunk_size: 8,
            chunk_delay_ms: 2
        }
    );
    args.initial_chunk_size = 0;
    assert_eq!(args.chunking_config().chunk_size, 1);
}

#[test]
fn edge_writes_follow_the_settings() {
    let mut args = args();
    assert_eq!(args.edge_segmenter().write_len(500), 500);
    args.edge_initial_segment_bytes = 64;
    assert_eq!(args.edge_segmenter().write_len(500), 3);
    args.edge_initial_segment_chunk = 0;
    assert_eq!(args.edge_segmenter().write_len(500), 1);
}

#[test]
fn at_least_one_connection_is_made_at_a_time() {
    let mut args = args();
    assert_eq!(args.edge_connect_slots(), 24);
    args.max_concurrent_edge_connects = 0;
    assert_eq!(args.edge_connect_slots(), 1);
}

#[test]
fn labels_are_lower_case() {
    assert_eq!(TrafficProfile::Chrome.label(), "chrome");
    assert_eq!(TrafficProfile::Firefox.label(), "firefox");
}

#[test]
fn the_edge_is_the_address_that_was_given() {
    let candidates = resolve_edge_candidates(443u16);
    assert_eq!(candidates, vec![443]);
    assert_eq!(primary_edge(&candidates), 443);
    assert_eq!(primary_edge(&vec![1, 2, 3]), 1);
}
