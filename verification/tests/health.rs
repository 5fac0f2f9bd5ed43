use aegis_edge_relay::health::{
    health_reply, health_response, is_white_space, HEALTH_BUFFER_LEN, HEALTH_READ_TIMEOUT_SECS,
};

fn status(reply: &str) -> &str {
    reply.split("\r\n").next().unwrap()
}

#[test]
fn health_is_reported() {
    let request = "GET /healthz HTTP/1.1\r\nHost: localhost\r\n\r\n";
    let reply = health_reply(request, "bridge", 1_700_000_000);
    assert_eq!(
        reply,
        "HTTP/1.1 200 OK\r\nContent-Type: application/json\r\nContent-Length: 54\r\nConnection: close\r\n\r\n{\"status\":\"ok\",\"mode\":\"bridge\",\"unix_time\":1700000000}"
    );
    assert_eq!(
        health_reply("GET /readyz HTTP/1.1\r\n\r\n", "bridge", 1_700_000_000),
        reply
    );
}

#[test]
fn root_names_the_service() {
    let reply = health_reply("GET / HTTP/1.1\r\n\r\n", "destination", 5);
    assert_eq!(
        reply,
        "HTTP/1.1 200 OK\r\nContent-Type: application/json\r\nContent-Length: 71\r\nConnection: close\r\n\r\n{\"service\":\"aegis-edge-relay\",\"mode\":\"destination\",\"health\":\"/healthz\"}"
    );
}

#[test]
fn other_paths_are_not_found() {
    let reply = health_reply("GET /metrics HTTP/1.1\r\n\r\n", "bridge", 5);
    assert_eq!(
        reply,
        "HTTP/1.1 404 Not Found\r\nContent-Type: application/json\r\nContent-Length: 21\r\nConnection: close\r\n\r\n{\"error\":\"not found\"}"
    );
    assert_eq!(
        status(&health_reply("GET /healthz/ HTTP/1.1", "bridge", 5)),
        "HTTP/1.1 404 Not Found"
    );
    assert_eq!(
        status(&health_reply("GET /healthz?x HTTP/1.1", "bridge", 5)),
        "HTTP/1.1 404 Not Found"
    );
}

#[test]
fn other_methods_are_not_allowed() {
    let reply = health_reply("POST /healthz HTTP/1.1\r\n\r\n", "bridge", 5);
    assert_eq!(
        reply,
        "HTTP/1.1 405 Method Not Allowed\r\nContent-Type: application/json\r\nContent-Length: 30\r\nConnection: close\r\n\r\n{\"error\":\"method not allowed\"}"
    );
    for request in ["get / HTTP/1.1", "", "\r\n", "\nGET /healthz", "   ", "GETX /"] {
        assert_eq!(
            status(&health_reply(request, "bridge", 5)),
            "HTTP/1.1 405 Method Not Allowed"
        );
    }
}

#[test]
fn request_without_a_path_asks_for_the_root() {
    let root = health_reply("GET / HTTP/1.1\r\n\r\n", "bridge", 5);
    assert_eq!(health_reply("GET", "bridge", 5), root);
    assert_eq!(health_reply("GET \r\n/healthz", "bridge", 5), root);
    assert_eq!(health_reply("\t GET \u{2003}/\u{a0}x", "bridge", 5), root);
}

#[test]
fn request_line_decides() {
    let alone = health_reply("GET /healthz", "bridge", 5);
    for request in [
        "GET /healthz\n",
        "GET /healthz HTTP/1.0\r\nGET /other",
        "GET\t/healthz anything at all\nHost: x\r\n\r\n",
        "  GET   /healthz  ",
    ] {
        assert_eq!(health_reply(request, "bridge", 5), alone);
    }
}

#[test]
fn length_counts_bytes() {
    let reply = health_reply("GET /", "clé", 0);
    let body = "{\"service\":\"aegis-edge-relay\",\"mode\":\"clé\",\"health\":\"/healthz\"}";
    assert!(reply.ends_with(body));
    assert!(reply.contains(&format!("Content-Length: {}\r\n", body.len())));
    assert_ne!(body.len(), body.chars().count());
}

#[test]
fn time_is_written_in_decimal() {
    for now in [0, 9, 10, 1_000_000, u64::MAX] {
        let reply = health_reply("GET /healthz", "bridge", now);
        assert!(reply.ends_with(&format!("\"unix_time\":{}}}", now)));
    }
}

#[test]
fn nothing_read_is_not_answered() {
    assert_eq!(health_response(&[], "bridge", 5), None);
}

#[test]
fn bytes_are_read_as_text() {
    assert_eq!(
        health_response(b"GET /healthz HTTP/1.1\r\n\r\n", "bridge", 5),
        Some(health_reply("GET /healthz HTTP/1.1\r\n\r\n", "bridge", 5))
    );
    assert_eq!(
        health_response("GET\u{2003}/healthz".as_bytes(), "bridge", 5),
        Some(health_reply("GET /healthz", "bridge", 5))
    );
}

#[test]
fn broken_bytes_are_read_as_replacements() {
    assert_eq!(
        health_response(b"GET /\xff\xfe", "bridge", 5),
        Some(health_reply("GET /\u{fffd}\u{fffd}", "bridge", 5))
    );
    assert_eq!(
        health_response(b"GET /healthz \xff", "bridge", 5),
        Some(health_reply("GET /healthz", "bridge", 5))
    );
}

#[test]
fn first_line_of_the_bytes_decides() {
    let alone = health_response(b"GET /healthz HTTP/1.1", "bridge", 5);
    for request in [
        &b"GET /healthz HTTP/1.1\r\n\xff\xfe"[..],
        &b"GET /healthz HTTP/1.1\nHost: caf\xc3"[..],
        &b"GET /healthz \xe2\x82"[..],
        &b"GET /healthz\n\x80GET / "[..],
    ] {
        assert_eq!(health_response(request, "bridge", 5), alone);
    }
    let mut cut = b"GET /healthz HTTP/1.1\r\nX: ".to_vec();
    while cut.len() < HEALTH_BUFFER_LEN {
        cut.extend_from_slice("\u{20ac}".as_bytes());
    }
    cut.truncate(HEALTH_BUFFER_LEN);
    assert!(std::str::from_utf8(&cut).is_err());
    assert_eq!(health_response(&cut, "bridge", 5), alone);
}

#[test]
fn white_space_is_that_of_unicode() {
    for code in 0..=0x10ffffu32 {
        if let Some(c) = char::from_u32(code) {
            assert_eq!(is_white_space(c), c.is_whitespace());
        }
    }
}

#[test]
fn reading_is_bounded() {
    assert_eq!(HEALTH_BUFFER_LEN, 1024);
    assert_eq!(HEALTH_READ_TIMEOUT_SECS, 3);
}
