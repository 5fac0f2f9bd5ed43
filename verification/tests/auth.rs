use aegis_edge_relay::auth::{
    authenticate_raw, detect_mode, AuthError, AuthEvent, AuthLineReader, DestinationMode,
    AUTH_LINE_MAX_LEN, AUTH_PREFACE_READ_TIMEOUT_SECS,
};

fn read_line(bytes: &[u8], max_len: usize) -> Result<Option<String>, AuthError> {
    let mut reader = AuthLineReader::new(max_len);
    for byte in bytes {
        reader.ready()?;
        if let Some(line) = reader.accept(AuthEvent::Byte(*byte))? {
            return Ok(Some(line));
        }
    }
    reader.ready()?;
    Ok(None)
}

#[test]
fn callers_that_send_get_speak_http() {
    assert_eq!(detect_mode(b"GET", 3), DestinationMode::WebSocket);
    assert_eq!(detect_mode(b"GET", 2), DestinationMode::Raw);
    assert_eq!(detect_mode(b"get", 3), DestinationMode::Raw);
    assert_eq!(detect_mode(b"AUT", 3), DestinationMode::Raw);
    assert_eq!(detect_mode(b"GEX", 3), DestinationMode::Raw);
    assert_eq!(detect_mode(&[0, 0, 0], 0), DestinationMode::Raw);
}

#[test]
fn line_ends_at_the_first_line_feed() {
    assert_eq!(
        read_line(b"AUTH s3cret\r\nAUTH other\n", 512),
        Ok(Some(String::from("AUTH s3cret\r\n")))
    );
    assert_eq!(read_line(b"\n", 512), Ok(Some(String::from("\n"))));
}

#[test]
fn line_is_waited_for() {
    assert_eq!(read_line(b"AUTH s3cret", 512), Ok(None));
}

#[test]
fn line_of_the_full_length_is_read() {
    let mut bytes = vec![b'a'; AUTH_LINE_MAX_LEN - 1];
    bytes.push(b'\n');
    let line = read_line(&bytes, AUTH_LINE_MAX_LEN).unwrap().unwrap();
    assert_eq!(line.len(), 512);
}

#[test]
fn longer_line_is_too_long() {
    let bytes = vec![b'a'; AUTH_LINE_MAX_LEN];
    assert_eq!(read_line(&bytes, AUTH_LINE_MAX_LEN), Err(AuthError::TooLong));
    assert_eq!(read_line(b"", 0), Err(AuthError::TooLong));
}

#[test]
fn line_has_to_be_utf8() {
    assert_eq!(read_line(b"AUTH \xff\n", 512), Err(AuthError::NotUtf8));
    assert_eq!(
        read_line("AUTH clé\n".as_bytes(), 512),
        Ok(Some(String::from("AUTH clé\n")))
    );
}

#[test]
fn failures_are_told_apart() {
    assert_eq!(
        AuthLineReader::new(512).accept(AuthEvent::TimedOut),
        Err(AuthError::TimedOut)
    );
    assert_eq!(
        AuthLineReader::new(512).accept(AuthEvent::ReadFailed),
        Err(AuthError::ReadFailed)
    );
    assert_eq!(
        AuthLineReader::new(512).accept(AuthEvent::Closed),
        Err(AuthError::Closed)
    );
    assert_eq!(AUTH_PREFACE_READ_TIMEOUT_SECS, 5);
}

#[test]
fn secret_lets_its_sender_in() {
    assert!(authenticate_raw("AUTH s3cret\n", "s3cret"));
    assert!(authenticate_raw("AUTH s3cret\r\n", "s3cret"));
    assert!(authenticate_raw("AUTH s3cret", "s3cret"));
    assert!(authenticate_raw("AUTH s3cret\r\r\n\n", "s3cret"));
    assert!(authenticate_raw("AUTH \n", ""));
    assert!(authenticate_raw("AUTH clé\n", "clé"));
}

#[test]
fn anything_else_does_not() {
    assert!(!authenticate_raw("AUTH s3cre\n", "s3cret"));
    assert!(!authenticate_raw("AUTH s3crets\n", "s3cret"));
    assert!(!authenticate_raw("auth s3cret\n", "s3cret"));
    assert!(!authenticate_raw("AUTH  s3cret\n", "s3cret"));
    assert!(!authenticate_raw("AUTH s3cret \n", "s3cret"));
    assert!(!authenticate_raw(" AUTH s3cret\n", "s3cret"));
    assert!(!authenticate_raw("AUTHs3cret\n", "s3cret"));
    assert!(!authenticate_raw("\n", "s3cret"));
    assert!(!authenticate_raw("", ""));
}

#[test]
fn secret_that_ends_in_a_carriage_return_lets_nobody_in() {
    assert!(!authenticate_raw("AUTH a\r\n", "a\r"));
}

#[test]
fn auth_line_round_trip() {
    for secret in ["s3cret", "", "with space", "clé", "a\rb"] {
        for ending in ["\n", "\r\n"] {
            let sent = format!("AUTH {}{}payload", secret, ending);
            let line = read_line(sent.as_bytes(), AUTH_LINE_MAX_LEN)
                .unwrap()
                .unwrap();
            assert_eq!(line, format!("AUTH {}{}", secret, ending));
            assert!(authenticate_raw(&line, secret));
            assert!(!authenticate_raw(&line, "another"));
        }
    }
}
