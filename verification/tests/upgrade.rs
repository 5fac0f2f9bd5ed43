use aegis_edge_relay::config::{BridgeArgs, TrafficProfile};
use aegis_edge_relay::upgrade::{
    answer_upgrade, authorizes, edge_server_name, normalized_path, unauthorized_response,
    websocket_request, websocket_url, EdgeError, AUTH_HEADER_NAME, PROFILE_HEADER_NAME,
};
use rustls::pki_types::ServerName;
use tokio_tungstenite::tungstenite::http::{Request, Response, StatusCode, Version};

fn args() -> BridgeArgs {
    BridgeArgs {
        host: String::from("relay.example.com"),
        sni: String::from("front.example.com"),
        path: String::from("relay"),
        auth_secret_key: String::from("s3cret"),
        traffic_profile: TrafficProfile::Firefox,
        cycle_minutes: 10,
        cycle_bytes: 100,
        initial_chunk_bytes: 250,
        initial_chunk_size: 8,
        initial_chunk_delay_ms: 2,
        edge_initial_segment_bytes: 0,
        edge_initial_segment_chunk: 3,
        max_concurrent_edge_connects: 24,
    }
}

fn header(request: &Request<()>, name: &str) -> Vec<Vec<u8>> {
    let mut values = Vec::new();
    for value in request.headers().get_all(name) {
        values.push(value.as_bytes().to_vec());
    }
    values
}

#[test]
fn path_gets_a_slash() {
    assert_eq!(normalized_path("relay"), "/relay");
    assert_eq!(normalized_path("/relay"), "/relay");
    assert_eq!(normalized_path("//relay"), "//relay");
    assert_eq!(normalized_path(""), "/");
    assert_eq!(normalized_path(&normalized_path("a/b")), "/a/b");
}

#[test]
fn url_is_made_of_host_and_path() {
    assert_eq!(websocket_url("example.com", "relay"), "wss://example.com/relay");
    assert_eq!(websocket_url("example.com:8443", "/r"), "wss://example.com:8443/r");
}

#[test]
fn request_asks_the_host_for_a_websocket() {
    let request = websocket_request(&args()).unwrap();
    assert_eq!(request.method(), "GET");
    assert_eq!(request.version(), Version::HTTP_11);
    assert_eq!(request.uri().to_string(), "wss://relay.example.com/relay");
    assert_eq!(request.headers().len(), 7);
    assert_eq!(header(&request, "host"), vec![b"relay.example.com".to_vec()]);
    assert_eq!(header(&request, "connection"), vec![b"Upgrade".to_vec()]);
    assert_eq!(header(&request, "upgrade"), vec![b"websocket".to_vec()]);
    assert_eq!(header(&request, "sec-websocket-version"), vec![b"13".to_vec()]);
    assert_eq!(header(&request, "sec-websocket-key").len(), 1);
    assert_eq!(header(&request, "sec-websocket-key")[0].len(), 24);
    assert_eq!(header(&request, AUTH_HEADER_NAME), vec![b"s3cret".to_vec()]);
    assert_eq!(header(&request, PROFILE_HEADER_NAME), vec![b"firefox".to_vec()]);
}

#[test]
fn host_header_is_the_setting_as_it_stands() {
    let mut args = args();
    args.host = String::from("user@relay.example.com:8443");
    let request = websocket_request(&args).unwrap();
    assert_eq!(
        header(&request, "host"),
        vec![b"user@relay.example.com:8443".to_vec()]
    );
}

#[test]
fn sessions_differ_in_key_alone() {
    let mut first = websocket_request(&args()).unwrap();
    let mut second = websocket_request(&args()).unwrap();
    first.headers_mut().remove("sec-websocket-key");
    second.headers_mut().remove("sec-websocket-key");
    assert_eq!(first.headers(), second.headers());
    assert_eq!(first.uri(), second.uri());
}

#[test]
fn host_has_to_make_a_url() {
    let mut args = args();
    args.host = String::from("no host");
    assert!(matches!(websocket_request(&args), Err(EdgeError::Url(_))));
    args.host = String::new();
    assert!(matches!(websocket_request(&args), Err(EdgeError::Url(_))));
}

#[test]
fn host_has_to_fit_a_header() {
    let mut args = args();
    args.host = String::from("example.com/#\u{7f}");
    assert!(matches!(websocket_request(&args), Err(EdgeError::Host(_))));
}

#[test]
fn secret_has_to_fit_a_header() {
    let mut args = args();
    args.auth_secret_key = String::from("two\nlines");
    assert!(matches!(websocket_request(&args), Err(EdgeError::Secret(_))));
    args.auth_secret_key = String::from("a\tb");
    assert!(websocket_request(&args).is_ok());
}

#[test]
fn server_name_is_that_of_the_session() {
    let mut args = args();
    let name = edge_server_name(&args).unwrap();
    assert_eq!(name, ServerName::try_from("front.example.com").unwrap());
    args.sni = String::from("192.0.2.7");
    assert!(matches!(edge_server_name(&args), Ok(ServerName::IpAddress(_))));
    args.sni = String::from("no name");
    assert!(matches!(edge_server_name(&args), Err(EdgeError::ServerName(_))));
}

#[test]
fn same_secret_is_let_in() {
    let request = websocket_request(&args()).unwrap();
    assert!(authorizes(&request, "s3cret"));
    assert!(!authorizes(&request, "s3cre"));
    assert!(!authorizes(&request, "S3cret"));
    assert!(!authorizes(&request, ""));
}

#[test]
fn secret_that_cannot_be_read_lets_nobody_in() {
    let mut args = args();
    args.auth_secret_key = String::from("clé");
    let request = websocket_request(&args).unwrap();
    assert!(!authorizes(&request, "clé"));
}

#[test]
fn request_without_the_header_is_not_let_in() {
    let request = Request::builder().uri("/relay").body(()).unwrap();
    assert!(!authorizes(&request, "s3cret"));
    assert!(!authorizes(&request, ""));
}

#[test]
fn first_of_several_secrets_counts() {
    let request = Request::builder()
        .uri("/relay")
        .header("Auth-Secret-Key", "first")
        .header("Auth-Secret-Key", "second")
        .body(())
        .unwrap();
    assert!(authorizes(&request, "first"));
    assert!(!authorizes(&request, "second"));
}

#[test]
fn denial_is_plain_text() {
    let response = unauthorized_response();
    assert_eq!(response.version(), Version::HTTP_11);
    assert_eq!(response.status(), StatusCode::UNAUTHORIZED);
    assert_eq!(response.headers().len(), 1);
    assert_eq!(
        response.headers().get("content-type").unwrap().as_bytes(),
        b"text/plain; charset=utf-8"
    );
    assert_eq!(response.body().as_deref(), Some("unauthorized"));
}

#[test]
fn answer_is_what_was_prepared_or_a_denial() {
    let request = websocket_request(&args()).unwrap();
    let prepared = Response::builder()
        .status(101)
        .header("upgrade", "websocket")
        .body(())
        .unwrap();
    let response = answer_upgrade(&request, prepared.clone(), "s3cret").unwrap();
    assert_eq!(response.status(), 101);
    assert_eq!(response.headers(), prepared.headers());
    let denial = answer_upgrade(&request, prepared, "other").unwrap_err();
    assert_eq!(denial.status(), 401);
    assert_eq!(denial.body().as_deref(), Some("unauthorized"));
}
