//! The WebSocket upgrade: the request with which the bridge asks the edge for
//! it, and the answer that the destination gives to one.
use crate::config::{profile_label, BridgeArgs, TrafficProfile};
use rustls::pki_types::{InvalidDnsNameError, ServerName};
use tokio_tungstenite::tungstenite;
use tokio_tungstenite::tungstenite::client::IntoClientRequest;
use tokio_tungstenite::tungstenite::http;
use tokio_tungstenite::tungstenite::http::header::{HeaderName, HeaderValue, InvalidHeaderValue};
use tokio_tungstenite::tungstenite::http::{Request, Response};
use vstd::prelude::*;
use vstd::string::{StrSliceExecFns, StringExecFns};
use vstd::utf8::{encode_utf8, encode_utf8_decode_utf8, is_ascii_chars_encode_utf8};

verus! {

/// The header that carries the shared secret.
pub const AUTH_HEADER_NAME: &'static str = "auth-secret-key";

/// The header that carries the label of the session.
pub const PROFILE_HEADER_NAME: &'static str = "x-traffic-profile";

/// Why no connection to the edge can be asked for.
#[derive(Debug)]
pub enum EdgeError {
    /// The server name is neither a DNS name nor an IP address.
    ServerName(InvalidDnsNameError),
    /// The host and the path make no URL that a WebSocket can be requested from.
    Url(tungstenite::Error),
    /// The host cannot stand in a header.
    Host(InvalidHeaderValue),
    /// The secret cannot stand in a header.
    Secret(InvalidHeaderValue),
}

/// An HTTP request.
#[verifier::external_type_specification]
#[verifier::external_body]
#[verifier::reject_recursive_types(T)]
pub struct ExRequest<T>(http::Request<T>);

/// An HTTP response.
#[verifier::external_type_specification]
#[verifier::external_body]
#[verifier::reject_recursive_types(T)]
pub struct ExResponse<T>(http::Response<T>);

/// The error of a text that cannot stand in a header.
#[verifier::external_type_specification]
#[verifier::external_body]
pub struct ExInvalidHeaderValue(http::header::InvalidHeaderValue);

/// The error of a response that cannot be built.
#[verifier::external_type_specification]
#[verifier::external_body]
pub struct ExHttpError(http::Error);

/// The errors of the WebSocket protocol.
#[verifier::external_type_specification]
#[verifier::external_body]
pub struct ExTungsteniteError(tungstenite::Error);

/// The name under which a TLS server is asked for.
#[verifier::external_type_specification]
#[verifier::external_body]
pub struct ExServerName<'a>(rustls::pki_types::ServerName<'a>);

/// The error of a text that is no server name.
#[verifier::external_type_specification]
#[verifier::external_body]
pub struct ExInvalidDnsNameError(rustls::pki_types::InvalidDnsNameError);

/// The headers of a request: the values of each, in order, under its name in lower case.
pub uninterp spec fn request_headers(request: Request<()>) -> Map<Seq<char>, Seq<Seq<u8>>>;

/// The URI that a request asks for.
pub uninterp spec fn request_uri(request: Request<()>) -> Seq<char>;

/// The method of a request.
pub uninterp spec fn request_method(request: Request<()>) -> Seq<char>;

/// The version of HTTP that a request is made in: the major and the minor number.
pub uninterp spec fn request_version(request: Request<()>) -> (nat, nat);

/// The headers of a response: the values of each, in order, under its name in lower case.
pub uninterp spec fn response_headers(response: Response<Option<String>>) -> Map<
    Seq<char>,
    Seq<Seq<u8>>,
>;

/// The version of HTTP that a response is made in: the major and the minor number.
pub uninterp spec fn response_version(response: Response<Option<String>>) -> (nat, nat);

/// The status code of a response.
pub uninterp spec fn response_status(response: Response<Option<String>>) -> u16;

/// The body of a response.
pub uninterp spec fn response_body(response: Response<Option<String>>) -> Option<Seq<char>>;

/// What the URL of a WebSocket is parsed into: the URI to ask for, and the
/// host that it names. `None` if it is no URI or names no host.
pub uninterp spec fn parsed_url(url: Seq<char>) -> Option<(Seq<char>, Seq<char>)>;

/// The server name that a text is parsed into, if it is one.
pub uninterp spec fn parsed_server_name(text: Seq<char>) -> Option<ServerName<'static>>;

/// Whether a byte may stand in a header: it is no control character, but may be a tab.
pub open spec fn header_byte(byte: u8) -> bool {
    byte >= 32 && byte != 127 || byte == 9
}

/// Whether a byte of a header can be read as text: it is printable ASCII or a tab.
pub open spec fn visible_byte(byte: u8) -> bool {
    32 <= byte < 127 || byte == 9
}

/// Whether a text may stand in a header.
pub open spec fn header_text_ok(text: Seq<char>) -> bool {
    forall|i: int| 0 <= i < encode_utf8(text).len() ==> header_byte(#[trigger] encode_utf8(text)[i])
}

/// Whether the value of a header can be read as text.
pub open spec fn visible(value: Seq<u8>) -> bool {
    forall|i: int| 0 <= i < value.len() ==> visible_byte(#[trigger] value[i])
}

/// Whether there is a header of that name, and its first value can be read as text.
pub open spec fn readable(headers: Map<Seq<char>, Seq<Seq<u8>>>, name: Seq<char>) -> bool {
    headers.contains_key(name) && headers[name].len() > 0 && visible(headers[name][0])
}

/// Whether a text is the name of a header in lower case, made of letters,
/// digits and hyphens.
pub open spec fn lower_header_name(name: Seq<char>) -> bool {
    &&& 1 <= name.len() <= 64
    &&& forall|i: int|
        0 <= i < name.len() ==> {
            ||| 'a' <= #[trigger] name[i] <= 'z'
            ||| '0' <= name[i] <= '9'
            ||| name[i] == '-'
        }
}

/// The values of a header that has this text as its only one.
pub open spec fn one_value(text: Seq<char>) -> Seq<Seq<u8>> {
    seq![encode_utf8(text)]
}

/// The headers that ask a host for a WebSocket.
pub open spec fn upgrade_headers(host: Seq<char>, key: Seq<u8>) -> Map<Seq<char>, Seq<Seq<u8>>> {
    map![
        "host"@ => one_value(host),
        "connection"@ => one_value("Upgrade"@),
        "upgrade"@ => one_value("websocket"@),
        "sec-websocket-version"@ => one_value("13"@),
        "sec-websocket-key"@ => seq![key],
    ]
}

/// `IntoClientRequest::into_client_request` on the URL: a request is made
/// exactly if the URL can be parsed and names a host. It is a `GET` in HTTP/1.1
/// of the URI that the URL was parsed into, and its headers ask the host for a
/// WebSocket. The key among them is random: 24 bytes, of which nothing else is
/// claimed.
#[verifier::external_body]
fn client_request(url: &str) -> (request: Result<Request<()>, tungstenite::Error>)
    ensures
        request is Ok <==> parsed_url(url@) is Some,
        request matches Ok(made) ==> {
            let (uri, host) = parsed_url(url@)->Some_0;
            let key = request_headers(made)["sec-websocket-key"@][0];
            &&& request_method(made) == "GET"@
            &&& request_version(made) == (1nat, 1nat)
            &&& request_uri(made) == uri
            &&& request_headers(made) == upgrade_headers(host, key)
            &&& key.len() == 24
        },
{
    url.into_client_request()
}

/// `HeaderValue::from_str` on the value, and `HeaderMap::insert` of it under
/// `HeaderName::from_static` of the name: the header has that one value
/// afterwards, whatever it had before, and all else is as it was. The
/// value is refused exactly if it may not stand in a header; then nothing
/// changes. The name has to be one in lower case, and the number of headers
/// far from the bound at which the map gives up.
#[verifier::external_body]
fn set_header(request: &mut Request<()>, name: &'static str, value: &str) -> (set: Result<
    (),
    InvalidHeaderValue,
>)
    requires
        lower_header_name(name@),
        request_headers(*old(request)).dom().finite(),
        request_headers(*old(request)).dom().len() < 1024,
    ensures
        set is Ok <==> header_text_ok(value@),
        set is Ok ==> request_headers(*final(request)) == request_headers(*old(request)).insert(
            name@,
            one_value(value@),
        ),
        set is Err ==> request_headers(*final(request)) == request_headers(*old(request)),
        request_method(*final(request)) == request_method(*old(request)),
        request_version(*final(request)) == request_version(*old(request)),
        request_uri(*final(request)) == request_uri(*old(request)),
{
    let value = HeaderValue::from_str(value)?;
    request.headers_mut().insert(HeaderName::from_static(name), value);
    Ok(())
}

/// `HeaderMap::get` of the name and `HeaderValue::to_str` on what it finds:
/// the first value of the header as text, if there is one and it can be read
/// as text. The name has to be one in lower case.
#[verifier::external_body]
fn header_text(request: &Request<()>, name: &str) -> (text: Option<String>)
    requires
        lower_header_name(name@),
    ensures
        text is Some <==> readable(request_headers(*request), name@),
        text matches Some(value) ==> encode_utf8(value@) == request_headers(*request)[name@][0],
{
    match request.headers().get(name) {
        Some(value) => value.to_str().ok().map(String::from),
        None => None,
    }
}

/// `Response::builder` with a status, one header and a body: a response is
/// made exactly if the status has three digits and the value may stand in a
/// header, and it holds these and no other header. It is one in HTTP/1.1. The
/// name of the header has to be one in lower case.
#[verifier::external_body]
fn text_response(status: u16, name: &'static str, value: &str, body: String) -> (response: Result<
    Response<Option<String>>,
    http::Error,
>)
    requires
        lower_header_name(name@),
    ensures
        response is Ok <==> (100 <= status <= 999 && header_text_ok(value@)),
        response matches Ok(made) ==> {
            &&& response_version(made) == (1nat, 1nat)
            &&& response_status(made) == status
            &&& response_headers(made) == map![name@ => one_value(value@)]
            &&& response_body(made) == Some(body@)
        },
{
    http::Response::builder().status(status).header(name, value).body(Some(body))
}

/// `ServerName::try_from` on the text: the name that it is parsed into, a DNS
/// name or an IP address, or the error if it is neither.
#[verifier::external_body]
fn server_name(text: &str) -> (name: Result<ServerName<'static>, InvalidDnsNameError>)
    ensures
        name is Ok <==> parsed_server_name(text@) is Some,
        name matches Ok(parsed) ==> parsed_server_name(text@) == Some(parsed),
{
    ServerName::try_from(text.to_string())
}

/// A path that begins with a slash.
pub open spec fn rooted(path: Seq<char>) -> Seq<char> {
    if path.len() > 0 && path[0] == '/' {
        path
    } else {
        seq!['/'] + path
    }
}

/// The URL of the WebSocket at a host and a path.
pub open spec fn edge_url(host: Seq<char>, path: Seq<char>) -> Seq<char> {
    "wss://"@ + host + rooted(path)
}

/// The headers with which the bridge asks for a WebSocket.
pub open spec fn bridge_headers(
    host: Seq<char>,
    secret: Seq<char>,
    profile: TrafficProfile,
    key: Seq<u8>,
) -> Map<Seq<char>, Seq<Seq<u8>>> {
    upgrade_headers(host, key).insert(AUTH_HEADER_NAME@, one_value(secret)).insert(
        PROFILE_HEADER_NAME@,
        one_value(profile_label(profile)),
    )
}

/// Whether the headers of a request carry the secret.
pub open spec fn authorized(headers: Map<Seq<char>, Seq<Seq<u8>>>, secret: Seq<char>) -> bool {
    &&& readable(headers, AUTH_HEADER_NAME@)
    &&& headers[AUTH_HEADER_NAME@][0] == encode_utf8(secret)
}

/// Whether a response says that the secret was missing or wrong.
pub open spec fn denies(response: Response<Option<String>>) -> bool {
    &&& response_version(response) == (1nat, 1nat)
    &&& response_status(response) == 401
    &&& response_headers(response) == map![
        "content-type"@ => one_value("text/plain; charset=utf-8"@),
    ]
    &&& response_body(response) == Some("unauthorized"@)
}

/// A path that begins with a slash: the one given, or with a slash before it.
pub fn normalized_path(path: &str) -> (normalized: String)
    ensures
        normalized@ == rooted(path@),
{
    proof {
        reveal_strlit("/");
    }
    if path.unicode_len() > 0 && path.get_char(0) == '/' {
        path.to_owned()
    } else {
        let normalized = "/".to_owned().concat(path);
        assert(normalized@ =~= seq!['/'] + path@);
        normalized
    }
}

/// The URL of the WebSocket at a host and a path.
pub fn websocket_url(host: &str, path: &str) -> (url: String)
    ensures
        url@ == edge_url(host@, path@),
{
    let mut url = "wss://".to_owned();
    url.append(host);
    url.append(normalized_path(path).as_str());
    url
}

/// The name under which the bridge asks for the TLS server at the edge.
pub fn edge_server_name(args: &BridgeArgs) -> (name: Result<ServerName<'static>, EdgeError>)
    ensures
        match name {
            Ok(parsed) => parsed_server_name(args.sni@) == Some(parsed),
            Err(EdgeError::ServerName(_)) => parsed_server_name(args.sni@) is None,
            Err(_) => false,
        },
{
    match server_name(args.sni.as_str()) {
        Ok(parsed) => Ok(parsed),
        Err(error) => Err(EdgeError::ServerName(error)),
    }
}

/// The names of the headers that the bridge sets are well formed, and differ
/// from each other and from that of the key.
proof fn lemma_header_names()
    ensures
        lower_header_name("host"@),
        lower_header_name(AUTH_HEADER_NAME@),
        lower_header_name(PROFILE_HEADER_NAME@),
        "host"@ != AUTH_HEADER_NAME@,
        "host"@ != PROFILE_HEADER_NAME@,
        "host"@ != "connection"@,
        "host"@ != "upgrade"@,
        "host"@ != "sec-websocket-version"@,
        "host"@ != "sec-websocket-key"@,
        AUTH_HEADER_NAME@ != PROFILE_HEADER_NAME@,
        AUTH_HEADER_NAME@ != "sec-websocket-key"@,
        PROFILE_HEADER_NAME@ != "sec-websocket-key"@,
{
    reveal_strlit("host");
    reveal_strlit("auth-secret-key");
    reveal_strlit("x-traffic-profile");
    reveal_strlit("connection");
    reveal_strlit("upgrade");
    reveal_strlit("sec-websocket-version");
    reveal_strlit("sec-websocket-key");
    assert("host"@.len() == 4);
    assert("auth-secret-key"@[0] == 'a');
    assert("x-traffic-profile"@[0] == 'x');
    assert("sec-websocket-key"@[0] == 's');
}

/// A text of printable ASCII is encoded in bytes that can be read back.
proof fn lemma_printable_is_visible(text: Seq<char>)
    requires
        forall|i: int| 0 <= i < text.len() ==> ' ' <= #[trigger] text[i] <= '~',
    ensures
        visible(encode_utf8(text)),
        header_text_ok(text),
{
    is_ascii_chars_encode_utf8(text);
    assert forall|i: int| 0 <= i < encode_utf8(text).len() implies visible_byte(
        #[trigger] encode_utf8(text)[i],
    ) by {
        assert(' ' <= text[i] <= '~');
    }
}

/// The label of a session may stand in a header.
proof fn lemma_label_is_header_text(profile: TrafficProfile)
    ensures
        header_text_ok(profile_label(profile)),
{
    reveal_strlit("chrome");
    reveal_strlit("firefox");
    lemma_printable_is_visible(profile_label(profile));
}

/// The request with which the bridge asks the edge for a WebSocket.
pub fn websocket_request(args: &BridgeArgs) -> (request: Result<Request<()>, EdgeError>)
    ensures
        ({
            let url = parsed_url(edge_url(args.host@, args.path@));
            match request {
                Ok(made) => {
                    let (uri, _) = url->Some_0;
                    let key = request_headers(made)["sec-websocket-key"@][0];
                    &&& url is Some
                    &&& header_text_ok(args.host@)
                    &&& header_text_ok(args.auth_secret_key@)
                    &&& request_method(made) == "GET"@
                    &&& request_version(made) == (1nat, 1nat)
                    &&& request_uri(made) == uri
                    &&& request_headers(made) == bridge_headers(
                        args.host@,
                        args.auth_secret_key@,
                        args.traffic_profile,
                        key,
                    )
                    &&& key.len() == 24
                },
                Err(EdgeError::Url(_)) => url is None,
                Err(EdgeError::Host(_)) => url is Some && !header_text_ok(args.host@),
                Err(EdgeError::Secret(_)) => url is Some && header_text_ok(args.host@)
                    && !header_text_ok(args.auth_secret_key@),
                Err(EdgeError::ServerName(_)) => false,
            }
        }),
{
    let url = websocket_url(args.host.as_str(), args.path.as_str());
    let mut request = match client_request(url.as_str()) {
        Ok(request) => request,
        Err(error) => return Err(EdgeError::Url(error)),
    };
    let ghost headers = request_headers(request);
    proof {
        lemma_header_names();
        lemma_label_is_header_text(args.traffic_profile);
    }
    if let Err(error) = set_header(&mut request, "host", args.host.as_str()) {
        return Err(EdgeError::Host(error));
    }
    if let Err(error) = set_header(
        &mut request,
        AUTH_HEADER_NAME,
        args.auth_secret_key.as_str(),
    ) {
        return Err(EdgeError::Secret(error));
    }
    let _ = set_header(&mut request, PROFILE_HEADER_NAME, args.traffic_profile.label());
    proof {
        let key = headers["sec-websocket-key"@][0];
        assert(request_headers(request) =~= bridge_headers(
            args.host@,
            args.auth_secret_key@,
            args.traffic_profile,
            key,
        ));
    }
    Ok(request)
}

/// Whether a request to upgrade carries the secret.
pub fn authorizes(request: &Request<()>, secret: &str) -> (granted: bool)
    ensures
        granted == authorized(request_headers(*request), secret@),
{
    proof {
        lemma_header_names();
    }
    match header_text(request, AUTH_HEADER_NAME) {
        Some(incoming) => {
            proof {
                encode_utf8_decode_utf8(incoming@);
                encode_utf8_decode_utf8(secret@);
            }
            incoming == secret.to_owned()
        },
        None => false,
    }
}

/// The response to a request without the secret.
pub fn unauthorized_response() -> (response: Response<Option<String>>)
    ensures
        denies(response),
{
    proof {
        reveal_strlit("text/plain; charset=utf-8");
        lemma_printable_is_visible("text/plain; charset=utf-8"@);
        reveal_strlit("content-type");
    }
    text_response(
        401,
        "content-type",
        "text/plain; charset=utf-8",
        "unauthorized".to_owned(),
    ).unwrap()
}

/// The answer to a request to upgrade: the response that was prepared for it
/// if the request carries the secret, and a denial if it does not.
pub fn answer_upgrade(request: &Request<()>, prepared: Response<()>, secret: &str) -> (answer:
    Result<Response<()>, Response<Option<String>>>)
    ensures
        match answer {
            Ok(response) => authorized(request_headers(*request), secret@) && response == prepared,
            Err(denial) => !authorized(request_headers(*request), secret@) && denies(denial),
        },
{
    if authorizes(request, secret) {
        Ok(prepared)
    } else {
        Err(unauthorized_response())
    }
}

/// The path that is asked for always begins with a slash, and one that does
/// already is left alone.
pub proof fn law_paths_are_rooted(path: Seq<char>)
    ensures
        rooted(path).len() > 0,
        rooted(path)[0] == '/',
        rooted(rooted(path)) == rooted(path),
{
}

/// A destination lets a bridge in exactly if both hold the same secret. The
/// secret has to consist of printable ASCII and tabs: a destination reads no
/// other as text, and turns such a bridge away.
pub proof fn law_same_secret_is_let_in(
    host: Seq<char>,
    bridge_secret: Seq<char>,
    destination_secret: Seq<char>,
    profile: TrafficProfile,
    key: Seq<u8>,
)
    ensures
        authorized(bridge_headers(host, bridge_secret, profile, key), destination_secret) <==> (
        bridge_secret == destination_secret && visible(encode_utf8(bridge_secret))),
{
    lemma_header_names();
    encode_utf8_decode_utf8(bridge_secret);
    encode_utf8_decode_utf8(destination_secret);
}

/// Two sessions with the same settings differ in the key alone.
pub proof fn law_sessions_differ_in_key_alone(
    host: Seq<char>,
    secret: Seq<char>,
    profile: TrafficProfile,
    key: Seq<u8>,
    other_key: Seq<u8>,
)
    ensures
        bridge_headers(host, secret, profile, key).insert("sec-websocket-key"@, seq![other_key])
            == bridge_headers(host, secret, profile, other_key),
{
    lemma_header_names();
    assert(bridge_headers(host, secret, profile, key).insert("sec-websocket-key"@, seq![other_key])
        =~= bridge_headers(host, secret, profile, other_key));
}

/// A path that begins with a slash is asked for as it stands; any other with a
/// slash before it. The URL is `wss://`, the host and that path.
pub proof fn law_url_is_scheme_host_and_path(host: Seq<char>, path: Seq<char>)
    ensures
        path.len() > 0 && path[0] == '/' ==> {
            &&& rooted(path) == path
            &&& edge_url(host, path) == seq!['w', 's', 's', ':', '/', '/'] + host + path
        },
        path.len() == 0 || path[0] != '/' ==> {
            &&& rooted(path) == seq!['/'] + path
            &&& edge_url(host, path) == seq!['w', 's', 's', ':', '/', '/'] + host + seq!['/'] + path
        },
{
    reveal_strlit("wss://");
    assert("wss://"@ =~= seq!['w', 's', 's', ':', '/', '/']);
    if path.len() == 0 || path[0] != '/' {
        assert(edge_url(host, path) =~= seq!['w', 's', 's', ':', '/', '/'] + host + seq!['/']
            + path);
    }
}

/// A request of the bridge has seven headers with one value each: the host and
/// the secret as they were set, the label of the session, the key, and the three
/// that ask for a WebSocket.
pub proof fn law_request_carries_settings(
    host: Seq<char>,
    secret: Seq<char>,
    profile: TrafficProfile,
    key: Seq<u8>,
    name: Seq<char>,
)
    ensures
        ({
            let headers = bridge_headers(host, secret, profile, key);
            &&& headers["host"@] == seq![encode_utf8(host)]
            &&& headers["auth-secret-key"@] == seq![encode_utf8(secret)]
            &&& headers["x-traffic-profile"@] == seq![
                encode_utf8(
                    match profile {
                        TrafficProfile::Chrome => "chrome"@,
                        TrafficProfile::Firefox => "firefox"@,
                    },
                ),
            ]
            &&& headers["connection"@] == seq![encode_utf8("Upgrade"@)]
            &&& headers["upgrade"@] == seq![encode_utf8("websocket"@)]
            &&& headers["sec-websocket-version"@] == seq![encode_utf8("13"@)]
            &&& headers["sec-websocket-key"@] == seq![key]
            &&& headers.contains_key(name) <==> (name == "host"@ || name == "auth-secret-key"@
                || name == "x-traffic-profile"@ || name == "connection"@ || name == "upgrade"@
                || name == "sec-websocket-version"@ || name == "sec-websocket-key"@)
        }),
{
    lemma_header_names();
    reveal_strlit("host");
    reveal_strlit("auth-secret-key");
    reveal_strlit("x-traffic-profile");
    reveal_strlit("connection");
    reveal_strlit("upgrade");
    reveal_strlit("sec-websocket-version");
    reveal_strlit("sec-websocket-key");
    assert("connection"@[0] == 'c');
    assert("upgrade"@[0] == 'u');
    assert("host"@[0] == 'h');
    assert("auth-secret-key"@[0] == 'a');
    assert("x-traffic-profile"@[0] == 'x');
    assert("sec-websocket-version"@.len() == 21);
    assert("sec-websocket-key"@.len() == 17);
    assert("sec-websocket-key"@[0] == 's');
    assert("sec-websocket-version"@[0] == 's');
}

/// A request is let in exactly if the first value of its header
/// `auth-secret-key` is the secret, byte for byte, and made of printable ASCII
/// and tabs. Nothing else in the request matters.
pub proof fn law_first_secret_decides(
    headers: Map<Seq<char>, Seq<Seq<u8>>>,
    secret: Seq<char>,
)
    ensures
        authorized(headers, secret) <==> {
            &&& headers.contains_key("auth-secret-key"@)
            &&& headers["auth-secret-key"@].len() >= 1
            &&& headers["auth-secret-key"@][0] == encode_utf8(secret)
            &&& forall|i: int|
                0 <= i < encode_utf8(secret).len() ==> {
                    let byte = #[trigger] encode_utf8(secret)[i];
                    byte == 9 || (byte >= 32 && byte <= 126)
                }
        },
{
    if headers.contains_key("auth-secret-key"@) && headers["auth-secret-key"@].len() >= 1
        && headers["auth-secret-key"@][0] == encode_utf8(secret) {
        let value = headers["auth-secret-key"@][0];
        if forall|i: int|
            0 <= i < encode_utf8(secret).len() ==> {
                let byte = #[trigger] encode_utf8(secret)[i];
                byte == 9 || (byte >= 32 && byte <= 126)
            } {
            assert forall|i: int| 0 <= i < value.len() implies visible_byte(#[trigger] value[i]) by {
                assert(encode_utf8(secret)[i] == value[i]);
            }
        }
        if visible(value) {
            assert forall|i: int| 0 <= i < encode_utf8(secret).len() implies {
                let byte = #[trigger] encode_utf8(secret)[i];
                byte == 9 || (byte >= 32 && byte <= 126)
            } by {
                assert(visible_byte(value[i]));
            }
        }
    }
}

/// A denial is a 401 in HTTP/1.1, in plain text, with the body `unauthorized`
/// and no header but that of its type.
pub proof fn law_denial_says_unauthorized(response: Response<Option<String>>)
    requires
        denies(response),
    ensures
        response_status(response) == 401,
        response_version(response) == (1nat, 1nat),
        response_body(response) == Some("unauthorized"@),
        forall|name: Seq<char>| #[trigger]
            response_headers(response).contains_key(name) <==> name == "content-type"@,
        response_headers(response)["content-type"@] == seq![
            encode_utf8("text/plain; charset=utf-8"@),
        ],
{
}

/// A text may stand in a header exactly if no byte of it is below 32, apart
/// from the tab, or 127.
pub proof fn law_header_text(text: Seq<char>)
    ensures
        header_text_ok(text) <==> forall|i: int|
            0 <= i < encode_utf8(text).len() ==> {
                let byte = #[trigger] encode_utf8(text)[i];
                byte == 9 || (byte >= 32 && byte != 127)
            },
{
    if forall|i: int|
        0 <= i < encode_utf8(text).len() ==> {
            let byte = #[trigger] encode_utf8(text)[i];
            byte == 9 || (byte >= 32 && byte != 127)
        } {
        assert(header_text_ok(text));
    }
    if header_text_ok(text) {
        assert forall|i: int| 0 <= i < encode_utf8(text).len() implies {
            let byte = #[trigger] encode_utf8(text)[i];
            byte == 9 || (byte >= 32 && byte != 127)
        } by {
            assert(header_byte(encode_utf8(text)[i]));
        }
    }
}

/// What [`normalized_path`] and [`websocket_url`] return.
pub proof fn law_websocket_url(host: &str, path: &str, normalized: String, url: String)
    requires
        call_ensures(normalized_path, (path,), normalized),
        call_ensures(websocket_url, (host, path), url),
    ensures
        path@.len() > 0 && path@[0] == '/' ==> normalized@ == path@,
        path@.len() == 0 || path@[0] != '/' ==> normalized@ == seq!['/'] + path@,
        url@ == seq!['w', 's', 's', ':', '/', '/'] + host@ + normalized@,
{
    law_url_is_scheme_host_and_path(host@, path@);
}

/// What [`websocket_request`] returns: a request exactly if the URL of the host
/// and the path can be parsed and the host and the secret may stand in headers,
/// and that request is a `GET` of that URL with the host and the secret as they
/// were set.
pub proof fn law_websocket_request(args: &BridgeArgs, request: Result<Request<()>, EdgeError>)
    requires
        call_ensures(websocket_request, (args,), request),
    ensures
        ({
            let slash: Seq<char> = if args.path@.len() > 0 && args.path@[0] == '/' {
                seq![]
            } else {
                seq!['/']
            };
            let url = seq!['w', 's', 's', ':', '/', '/'] + args.host@ + slash + args.path@;
            &&& request is Ok <==> (parsed_url(url) is Some && header_text_ok(args.host@)
                && header_text_ok(args.auth_secret_key@))
            &&& request matches Ok(made) ==> {
                let (uri, _) = parsed_url(url)->Some_0;
                let headers = request_headers(made);
                &&& request_method(made) == seq!['G', 'E', 'T']
                &&& request_version(made) == (1nat, 1nat)
                &&& request_uri(made) == uri
                &&& headers["host"@] == seq![encode_utf8(args.host@)]
                &&& headers["auth-secret-key"@] == seq![encode_utf8(args.auth_secret_key@)]
                &&& headers["upgrade"@] == seq![encode_utf8("websocket"@)]
                &&& headers["x-traffic-profile"@] == seq![
                    encode_utf8(
                        match args.traffic_profile {
                            TrafficProfile::Chrome => "chrome"@,
                            TrafficProfile::Firefox => "firefox"@,
                        },
                    ),
                ]
            }
            &&& request is Err ==> {
                &&& request->Err_0 is Url <==> parsed_url(url) is None
                &&& request->Err_0 is Host <==> (parsed_url(url) is Some && !header_text_ok(
                    args.host@,
                ))
            }
        }),
{
    let slash: Seq<char> = if args.path@.len() > 0 && args.path@[0] == '/' {
        seq![]
    } else {
        seq!['/']
    };
    let url = seq!['w', 's', 's', ':', '/', '/'] + args.host@ + slash + args.path@;
    law_url_is_scheme_host_and_path(args.host@, args.path@);
    assert(edge_url(args.host@, args.path@) =~= url);
    reveal_strlit("GET");
    assert("GET"@ =~= seq!['G', 'E', 'T']);
    if let Ok(made) = request {
        let key = request_headers(made)["sec-websocket-key"@][0];
        law_request_carries_settings(
            args.host@,
            args.auth_secret_key@,
            args.traffic_profile,
            key,
            "host"@,
        );
    }
}

/// What [`answer_upgrade`] returns: the response that was prepared exactly if
/// the first value of the header `auth-secret-key` is the secret, in printable
/// ASCII and tabs, and else a 401 that says `unauthorized`.
pub proof fn law_answer_upgrade(
    request: &Request<()>,
    prepared: Response<()>,
    secret: &str,
    answer: Result<Response<()>, Response<Option<String>>>,
)
    requires
        call_ensures(answer_upgrade, (request, prepared, secret), answer),
    ensures
        answer is Ok <==> {
            let headers = request_headers(*request);
            &&& headers.contains_key("auth-secret-key"@)
            &&& headers["auth-secret-key"@].len() >= 1
            &&& headers["auth-secret-key"@][0] == encode_utf8(secret@)
            &&& forall|i: int|
                0 <= i < encode_utf8(secret@).len() ==> {
                    let byte = #[trigger] encode_utf8(secret@)[i];
                    byte == 9 || (byte >= 32 && byte <= 126)
                }
        },
        answer is Ok ==> answer->Ok_0 == prepared,
        answer is Err ==> {
            &&& response_status(answer->Err_0) == 401
            &&& response_body(answer->Err_0) == Some("unauthorized"@)
        },
{
    law_first_secret_decides(request_headers(*request), secret@);
}

/// What [`edge_server_name`] returns: the server name that was set, whatever
/// the host is.
pub proof fn law_edge_server_name(
    args: &BridgeArgs,
    name: Result<ServerName<'static>, EdgeError>,
)
    requires
        call_ensures(edge_server_name, (args,), name),
    ensures
        name is Ok <==> parsed_server_name(args.sni@) is Some,
        name is Ok ==> parsed_server_name(args.sni@) == Some(name->Ok_0),
        name is Err ==> name->Err_0 is ServerName,
{
}

/// What [`authorizes`] and [`unauthorized_response`] return: the first says
/// which of its answers [`answer_upgrade`] gives, and the second is the denial.
pub proof fn law_authorizes(
    request: &Request<()>,
    prepared: Response<()>,
    secret: &str,
    granted: bool,
    answer: Result<Response<()>, Response<Option<String>>>,
    denial: Response<Option<String>>,
)
    requires
        call_ensures(authorizes, (request, secret), granted),
        call_ensures(answer_upgrade, (request, prepared, secret), answer),
        call_ensures(unauthorized_response, (), denial),
    ensures
        granted <==> answer is Ok,
        response_status(denial) == 401,
        response_body(denial) == Some("unauthorized"@),
{
}

} // verus!
