use aegis_edge_relay::chunking::{ChunkingConfig, RelayStep};
use aegis_edge_relay::relay::{
    relay_stats, DownAction, Incoming, RelayFlow, RelayStats, UpAction, READ_BUFFER_LEN,
};

const PIECES: ChunkingConfig = ChunkingConfig {
    initial_bytes: 5,
    chunk_size: 2,
    chunk_delay_ms: 1,
};

fn sends(steps: &[RelayStep<'_>]) -> Vec<Vec<u8>> {
    let mut list = Vec::new();
    for step in steps {
        if let RelayStep::Piece(bytes) | RelayStep::Send(bytes) = step {
            list.push(bytes.to_vec());
        }
    }
    list
}

fn flushes(steps: &[RelayStep<'_>]) -> usize {
    let mut count = 0;
    for step in steps {
        if matches!(step, RelayStep::Flush) {
            count += 1;
        }
    }
    count
}

#[test]
fn read_buffer_is_sixteen_kibibytes() {
    assert_eq!(READ_BUFFER_LEN, 16 * 1024);
}

#[test]
fn reads_are_forwarded_and_counted() {
    let mut flow = RelayFlow::new(PIECES);
    match flow.on_read(&[1, 2, 3]) {
        UpAction::Forward { credit, steps } => {
            assert_eq!(credit, 3);
            assert_eq!(sends(&steps), vec![vec![1, 2], vec![3]]);
            assert_eq!(flushes(&steps), 0);
            flow.on_sent(&[1, 2, 3], steps.len());
        }
        UpAction::Close => panic!("the stream has not ended"),
    }
    match flow.on_read(&[4, 5, 6, 7]) {
        UpAction::Forward { credit, steps } => {
            assert_eq!(credit, 4);
            assert_eq!(sends(&steps), vec![vec![4, 5], vec![6, 7]]);
        }
        UpAction::Close => panic!("the stream has not ended"),
    }
    assert_eq!(flow.transferred(), 7);
}

#[test]
fn empty_read_closes() {
    let mut flow = RelayFlow::new(PIECES);
    assert!(matches!(flow.on_read(&[]), UpAction::Close));
    assert_eq!(flow.transferred(), 0);
}

#[test]
fn binary_messages_are_written_with_flushes() {
    let mut flow = RelayFlow::new(PIECES);
    match flow.on_message(Incoming::Binary(&[1, 2, 3, 4, 5, 6, 7])) {
        DownAction::Write { credit, steps } => {
            assert_eq!(credit, 7);
            assert_eq!(
                sends(&steps),
                vec![vec![1, 2], vec![3, 4], vec![5], vec![6, 7]]
            );
            assert_eq!(flushes(&steps), 3);
            flow.on_written(&[1, 2, 3, 4, 5, 6, 7], steps.len());
        }
        _ => panic!("a payload is written"),
    }
    assert_eq!(flow.transferred(), 7);
    match flow.on_message(Incoming::Binary(&[8, 9, 10])) {
        DownAction::Write { steps, .. } => assert_eq!(sends(&steps), vec![vec![8, 9, 10]]),
        _ => panic!("a payload is written"),
    }
}

#[test]
fn payload_counts_though_a_piece_of_it_failed() {
    let mut flow = RelayFlow::new(PIECES);
    assert!(matches!(flow.on_read(&[1, 2, 3]), UpAction::Forward { .. }));
    flow.on_sent(&[1, 2, 3], 1);
    assert_eq!(flow.transferred(), 3);
    match flow.on_read(&[0; 6]) {
        UpAction::Forward { steps, .. } => {
            assert_eq!(sends(&steps), vec![vec![0; 2], vec![0; 2], vec![0], vec![0]]);
        }
        UpAction::Close => panic!("the stream has not ended"),
    }
    let mut flow = RelayFlow::new(PIECES);
    assert!(matches!(
        flow.on_message(Incoming::Binary(&[0; 6])),
        DownAction::Write { .. }
    ));
    flow.on_written(&[0; 6], 9);
    match flow.on_message(Incoming::Binary(&[1, 2, 3])) {
        DownAction::Write { steps, .. } => assert_eq!(sends(&steps), vec![vec![1, 2, 3]]),
        _ => panic!("a payload is written"),
    }
}

#[test]
fn pieces_of_no_length_cannot_be_cut() {
    let flow = RelayFlow::new(ChunkingConfig {
        initial_bytes: 5,
        chunk_size: 0,
        chunk_delay_ms: 0,
    });
    assert!(!flow.can_take(1));
    assert!(flow.can_take(0));
    assert!(RelayFlow::new(ChunkingConfig::disabled()).can_take(1));
    assert!(RelayFlow::new(PIECES).can_take(1));
}

#[test]
fn empty_binary_message_writes_nothing() {
    let mut flow = RelayFlow::new(PIECES);
    match flow.on_message(Incoming::Binary(&[])) {
        DownAction::Write { credit, steps } => {
            assert_eq!(credit, 0);
            assert!(steps.is_empty());
        }
        _ => panic!("a payload is written"),
    }
}

#[test]
fn other_messages_are_passed_over() {
    let mut flow = RelayFlow::new(PIECES);
    assert!(matches!(flow.on_message(Incoming::Text), DownAction::Ignore));
    assert!(matches!(flow.on_message(Incoming::Ping), DownAction::Ignore));
    assert!(matches!(flow.on_message(Incoming::Pong), DownAction::Ignore));
    assert!(matches!(flow.on_message(Incoming::Frame), DownAction::Ignore));
    assert_eq!(flow.transferred(), 0);
}

#[test]
fn close_and_end_stop() {
    let mut flow = RelayFlow::new(PIECES);
    assert!(matches!(flow.on_message(Incoming::Close), DownAction::Stop));
    assert!(matches!(flow.on_message(Incoming::End), DownAction::Stop));
}

#[test]
fn relay_is_transparent_from_end_to_end() {
    let stream: Vec<u8> = (0..600).map(|i| (i % 251) as u8).collect();
    let mut sender = RelayFlow::new(ChunkingConfig {
        initial_bytes: 250,
        chunk_size: 8,
        chunk_delay_ms: 2,
    });
    let mut receiver = RelayFlow::new(ChunkingConfig::disabled());
    let mut arrived: Vec<u8> = Vec::new();
    for read in stream.chunks(70) {
        let frames = match sender.on_read(read) {
            UpAction::Forward { steps, .. } => {
                sender.on_sent(read, steps.len());
                sends(&steps)
            }
            UpAction::Close => panic!("the stream has not ended"),
        };
        for frame in &frames {
            match receiver.on_message(Incoming::Binary(frame)) {
                DownAction::Write { steps, .. } => {
                    receiver.on_written(frame, steps.len());
                    for bytes in sends(&steps) {
                        arrived.extend_from_slice(&bytes);
                    }
                }
                _ => panic!("a payload is written"),
            }
        }
    }
    assert_eq!(arrived, stream);
    assert_eq!(sender.transferred(), 600);
    assert_eq!(receiver.transferred(), 600);
}

#[test]
fn first_bytes_of_a_stream_go_in_pieces_however_it_is_split() {
    for split in [1usize, 3, 4, 100] {
        let stream = [0u8; 40];
        let mut flow = RelayFlow::new(PIECES);
        let mut offset = 0;
        for read in stream.chunks(split) {
            if let UpAction::Forward { steps, .. } = flow.on_read(read) {
                flow.on_sent(read, steps.len());
                for bytes in sends(&steps) {
                    if offset < 5 {
                        assert!(bytes.len() <= 2 && offset + bytes.len() <= 5);
                    }
                    offset += bytes.len();
                }
            }
        }
        assert_eq!(offset, 40);
    }
}

#[test]
fn stats_are_those_of_both_directions() {
    assert_eq!(
        relay_stats::<String>(Ok(3), Ok(4)),
        Ok(RelayStats {
            up_bytes: 3,
            down_bytes: 4
        })
    );
    assert_eq!(relay_stats(Err("up"), Ok(4)), Err("up"));
    assert_eq!(relay_stats(Ok(3), Err("down")), Err("down"));
    assert_eq!(relay_stats(Err("up"), Err("down")), Err("up"));
}
