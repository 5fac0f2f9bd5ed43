use aegis_edge_relay::chunking::{
    count_off, send_binary_with_chunking, write_with_chunking, ChunkingConfig, InitialSegmenter,
    RelayStep,
};

fn describe(steps: &[RelayStep<'_>]) -> Vec<String> {
    let mut lines = Vec::new();
    for step in steps {
        lines.push(match step {
            RelayStep::Piece(bytes) => format!("piece {:?}", bytes),
            RelayStep::Send(bytes) => format!("send {:?}", bytes),
            RelayStep::Flush => String::from("flush"),
            RelayStep::Pause(millis) => format!("pause {}", millis),
        });
    }
    lines
}

fn sent(steps: &[RelayStep<'_>]) -> Vec<u8> {
    let mut bytes = Vec::new();
    for step in steps {
        if let RelayStep::Piece(part) | RelayStep::Send(part) = step {
            bytes.extend_from_slice(part);
        }
    }
    bytes
}

const PIECES_OF_TWO: ChunkingConfig = ChunkingConfig {
    initial_bytes: 5,
    chunk_size: 2,
    chunk_delay_ms: 7,
};

#[test]
fn disabled_chunking_has_no_pieces() {
    let config = ChunkingConfig::disabled();
    assert_eq!(config.initial_bytes, 0);
    assert_eq!(config.chunk_size, 0);
    assert_eq!(config.chunk_delay_ms, 0);
}

#[test]
fn frames_begin_in_pieces_and_end_whole() {
    let data = [1, 2, 3, 4, 5, 6, 7, 8];
    let steps = send_binary_with_chunking(&data, 5, PIECES_OF_TWO);
    assert_eq!(
        describe(&steps),
        vec![
            "piece [1, 2]",
            "pause 7",
            "piece [3, 4]",
            "pause 7",
            "piece [5]",
            "pause 7",
            "send [6, 7, 8]"
        ]
    );
    let mut remaining = 5;
    count_off(&data, &mut remaining, PIECES_OF_TWO, false, steps.len());
    assert_eq!(remaining, 0);
}

#[test]
fn writes_flush_each_piece_but_not_the_rest() {
    let data = [1, 2, 3, 4, 5];
    let steps = write_with_chunking(&data, 3, PIECES_OF_TWO);
    assert_eq!(
        describe(&steps),
        vec![
            "piece [1, 2]",
            "flush",
            "pause 7",
            "piece [3]",
            "flush",
            "pause 7",
            "send [4, 5]"
        ]
    );
    let mut remaining = 3;
    count_off(&data, &mut remaining, PIECES_OF_TWO, true, steps.len());
    assert_eq!(remaining, 0);
}

#[test]
fn short_payload_leaves_some_of_the_window() {
    let steps = send_binary_with_chunking(&[1, 2, 3], 5, PIECES_OF_TWO);
    assert_eq!(
        describe(&steps),
        vec!["piece [1, 2]", "pause 7", "piece [3]", "pause 7"]
    );
    let mut remaining = 5;
    count_off(&[1, 2, 3], &mut remaining, PIECES_OF_TWO, false, 4);
    assert_eq!(remaining, 2);
}

#[test]
fn failed_piece_leaves_the_window_as_it_was() {
    for done in 0..4 {
        let mut remaining = 3;
        count_off(&[1, 2, 3], &mut remaining, PIECES_OF_TWO, false, done);
        assert_eq!(remaining, 3);
    }
    for done in 0..6 {
        let mut remaining = 3;
        count_off(&[1, 2, 3, 4], &mut remaining, PIECES_OF_TWO, true, done);
        assert_eq!(remaining, 3);
    }
}

#[test]
fn failed_rest_comes_after_the_pieces() {
    let steps = write_with_chunking(&[1, 2, 3, 4], 3, PIECES_OF_TWO);
    assert!(matches!(steps[6], RelayStep::Send(_)));
    for done in [6, 7] {
        let mut remaining = 3;
        count_off(&[1, 2, 3, 4], &mut remaining, PIECES_OF_TWO, true, done);
        assert_eq!(remaining, 0);
    }
}

#[test]
fn steps_of_a_piece_depend_on_flush_and_pause() {
    let no_pause = ChunkingConfig {
        chunk_delay_ms: 0,
        ..PIECES_OF_TWO
    };
    for (chunking, flush, needed) in [
        (no_pause, false, 2),
        (no_pause, true, 4),
        (PIECES_OF_TWO, false, 4),
        (PIECES_OF_TWO, true, 6),
    ] {
        let mut remaining = 4;
        count_off(&[1, 2, 3, 4], &mut remaining, chunking, flush, needed - 1);
        assert_eq!(remaining, 4);
        count_off(&[1, 2, 3, 4], &mut remaining, chunking, flush, needed);
        assert_eq!(remaining, 0);
    }
}

#[test]
fn no_delay_means_no_pause() {
    let chunking = ChunkingConfig {
        chunk_delay_ms: 0,
        ..PIECES_OF_TWO
    };
    let steps = write_with_chunking(&[1, 2], 2, chunking);
    assert_eq!(describe(&steps), vec!["piece [1, 2]", "flush"]);
}

#[test]
fn empty_payload_takes_no_step() {
    assert!(send_binary_with_chunking(&[], 5, PIECES_OF_TWO).is_empty());
    assert!(write_with_chunking(&[], 5, PIECES_OF_TWO).is_empty());
    let mut remaining = 5;
    count_off(&[], &mut remaining, PIECES_OF_TWO, true, 0);
    assert_eq!(remaining, 5);
}

#[test]
fn unchunked_payload_is_sent_whole() {
    let steps = write_with_chunking(&[9, 8, 7], 0, ChunkingConfig::disabled());
    assert_eq!(describe(&steps), vec!["send [9, 8, 7]"]);
    let mut remaining = 0;
    count_off(&[9, 8, 7], &mut remaining, ChunkingConfig::disabled(), true, 1);
    assert_eq!(remaining, 0);
}

#[test]
fn plan_sends_the_payload_in_bounded_pieces() {
    let payload: Vec<u8> = (0..=255).collect();
    for window in [0usize, 1, 8, 9, 250, 256, 1000] {
        let chunking = ChunkingConfig {
            initial_bytes: window,
            chunk_size: 8,
            chunk_delay_ms: 2,
        };
        let steps = send_binary_with_chunking(&payload, window, chunking);
        assert_eq!(sent(&steps), payload);
        let mut offset = 0;
        for step in &steps {
            match step {
                RelayStep::Piece(piece) => {
                    assert!(!piece.is_empty() && piece.len() <= 8);
                    assert!(offset + piece.len() <= window);
                    offset += piece.len();
                }
                RelayStep::Send(rest) => {
                    assert_eq!(offset, window);
                    offset += rest.len();
                }
                _ => {}
            }
        }
        for done in 0..=steps.len() {
            assert!(payload.starts_with(&sent(&steps[..done])));
        }
    }
}

#[test]
fn segmenter_bounds_writes_up_to_the_limit() {
    let mut segmenter = InitialSegmenter::new(7, 3);
    assert_eq!(segmenter.write_len(100), 3);
    segmenter.record_written(3);
    assert_eq!(segmenter.write_len(2), 2);
    segmenter.record_written(2);
    assert_eq!(segmenter.write_len(100), 2);
    segmenter.record_written(1);
    assert_eq!(segmenter.write_len(100), 1);
    segmenter.record_written(1);
    assert_eq!(segmenter.write_len(100), 100);
    assert_eq!(segmenter.write_len(0), 0);
}

#[test]
fn first_bytes_are_written_in_pieces() {
    for (limit, chunk) in [(0usize, 3usize), (1, 1), (7, 3), (64, 5), (64, 1000)] {
        let mut segmenter = InitialSegmenter::new(limit, chunk);
        let mut begin = 0;
        for round in 0..200usize {
            let available = round % 11;
            let taken = segmenter.write_len(available);
            assert!(taken <= available);
            assert_eq!(taken == 0, available == 0);
            if begin < limit {
                assert!(taken <= chunk && begin + taken <= limit);
            } else {
                assert_eq!(taken, available);
            }
            let accepted = taken - taken / 3;
            segmenter.record_written(accepted);
            begin += accepted;
        }
        assert!(begin > limit);
    }
}

#[test]
fn segmenter_takes_zero_for_one() {
    let segmenter = InitialSegmenter::new(10, 0);
    assert_eq!(segmenter.write_len(100), 1);
}

#[test]
fn segmenter_without_limit_takes_whole_buffers() {
    let segmenter = InitialSegmenter::new(0, 3);
    assert_eq!(segmenter.write_len(4096), 4096);
}

#[test]
fn segmenter_count_does_not_overflow() {
    let mut segmenter = InitialSegmenter::new(usize::MAX, 3);
    segmenter.record_written(usize::MAX - 1);
    assert_eq!(segmenter.write_len(100), 1);
    segmenter.record_written(100);
    assert_eq!(segmenter.write_len(100), 100);
}
