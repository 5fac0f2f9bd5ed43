//! How the destination tells its callers apart and checks the raw ones.
//!
//! A caller that speaks HTTP upgrades to a WebSocket (see [`crate::upgrade`]);
//! any other sends one line, `AUTH` and the shared secret, before its payload.
use crate::chunking::least;
use crate::text::{char_vec, lemma_encode_add, lemma_encode_line_feed, same_chars};
use vstd::prelude::*;
use vstd::utf8::{
    decode_utf8, encode_scalar, encode_utf8, is_ascii_chars_encode_utf8, valid_utf8,
};

verus! {

/// The longest authentication line that is read, with its line feed.
pub const AUTH_LINE_MAX_LEN: usize = 512;

/// How long a single byte of the authentication line is waited for, in seconds.
pub const AUTH_PREFACE_READ_TIMEOUT_SECS: u64 = 5;

/// The byte that ends the authentication line.
pub const LINE_FEED: u8 = 10;

/// How a caller of the destination is served.
#[derive(Clone, Copy, Debug, PartialEq, Eq, Structural)]
pub enum DestinationMode {
    /// It upgrades to a WebSocket.
    WebSocket,
    /// It sends an authentication line and then its payload.
    Raw,
}

/// Why no authentication line could be read.
#[derive(Clone, Copy, Debug, PartialEq, Eq, Structural)]
pub enum AuthError {
    /// The line is longer than the most that is read.
    TooLong,
    /// A byte of it did not come in time.
    TimedOut,
    /// The read failed.
    ReadFailed,
    /// The caller closed the connection before its end.
    Closed,
    /// It is not UTF-8.
    NotUtf8,
}

/// What came of reading one more byte from the caller.
#[derive(Clone, Copy, Debug, PartialEq, Eq, Structural)]
pub enum AuthEvent {
    /// No byte came in time.
    TimedOut,
    /// The read failed.
    ReadFailed,
    /// The caller closed the connection.
    Closed,
    /// This byte came.
    Byte(u8),
}

/// Reads the authentication line byte by byte.
#[derive(Debug)]
pub struct AuthLineReader {
    max_len: usize,
    data: Vec<u8>,
}

/// The error that `String::from_utf8` returns.
#[verifier::external_type_specification]
#[verifier::external_body]
pub struct ExFromUtf8Error(std::string::FromUtf8Error);

/// `String::from_utf8`: the bytes are taken over as a text exactly if they are
/// valid UTF-8, and the text is the one that they encode.
pub assume_specification[ String::from_utf8 ](vec: Vec<u8>) -> (text: Result<
    String,
    std::string::FromUtf8Error,
>)
    ensures
        text is Ok <==> valid_utf8(vec@),
        text matches Ok(s) ==> s@ == decode_utf8(vec@),
;

/// What the bytes received so far and one more byte make: more is to be read
/// until a line feed comes, which ends the line and belongs to it.
pub open spec fn line_after(received: Seq<u8>, byte: u8) -> Result<Option<Seq<char>>, AuthError> {
    if byte != LINE_FEED {
        Ok(None)
    } else if valid_utf8(received.push(byte)) {
        Ok(Some(decode_utf8(received.push(byte))))
    } else {
        Err(AuthError::NotUtf8)
    }
}

/// What reading comes to when the caller sends `bytes` and stays connected:
/// nothing yet, a line, or an error.
pub open spec fn read_from(received: Seq<u8>, limit: nat, bytes: Seq<u8>) -> Result<
    Option<Seq<char>>,
    AuthError,
>
    decreases bytes.len(),
{
    if received.len() >= limit {
        Err(AuthError::TooLong)
    } else if bytes.len() == 0 {
        Ok(None)
    } else if line_after(received, bytes[0]) == Ok::<Option<Seq<char>>, AuthError>(None) {
        read_from(received.push(bytes[0]), limit, bytes.drop_first())
    } else {
        line_after(received, bytes[0])
    }
}

/// The text without the line feeds and carriage returns at its end.
pub open spec fn trim_line_end(text: Seq<char>) -> Seq<char>
    decreases text.len(),
{
    if text.len() > 0 && (text.last() == '\r' || text.last() == '\n') {
        trim_line_end(text.drop_last())
    } else {
        text
    }
}

/// What the line says, without its ending, for it to open the way to the target.
pub open spec fn auth_line(secret: Seq<char>) -> Seq<char> {
    "AUTH "@ + secret
}

/// Whether a line authenticates its sender.
pub open spec fn line_accepted(line: Seq<char>, secret: Seq<char>) -> bool {
    trim_line_end(line) == auth_line(secret)
}

impl AuthLineReader {
    /// The bytes received so far.
    pub closed spec fn received(self) -> Seq<u8> {
        self.data@
    }

    /// How many bytes are received at most.
    pub closed spec fn limit(self) -> nat {
        self.max_len as nat
    }

    /// Starts a line of at most `max_len` bytes.
    pub fn new(max_len: usize) -> (reader: Self)
        ensures
            reader.received() == Seq::<u8>::empty(),
            reader.limit() == max_len,
    {
        Self { max_len, data: Vec::with_capacity(64) }
    }

    /// Whether another byte may be read.
    pub fn ready(&self) -> (ready: Result<(), AuthError>)
        ensures
            ready == (if self.received().len() >= self.limit() {
                Err(AuthError::TooLong)
            } else {
                Ok(())
            }),
    {
        if self.data.len() >= self.max_len {
            Err(AuthError::TooLong)
        } else {
            Ok(())
        }
    }

    /// Takes in what came of reading one more byte. Returns the line, with its
    /// line feed, once it is complete.
    pub fn accept(&mut self, event: AuthEvent) -> (line: Result<Option<String>, AuthError>)
        ensures
            final(self).limit() == old(self).limit(),
            final(self).received() == (match event {
                AuthEvent::Byte(byte) => old(self).received().push(byte),
                _ => old(self).received(),
            }),
            (match line {
                Ok(Some(text)) => Ok(Some(text@)),
                Ok(None) => Ok(None),
                Err(error) => Err(error),
            }) == (match event {
                AuthEvent::TimedOut => Err(AuthError::TimedOut),
                AuthEvent::ReadFailed => Err(AuthError::ReadFailed),
                AuthEvent::Closed => Err(AuthError::Closed),
                AuthEvent::Byte(byte) => line_after(old(self).received(), byte),
            }),
    {
        match event {
            AuthEvent::TimedOut => Err(AuthError::TimedOut),
            AuthEvent::ReadFailed => Err(AuthError::ReadFailed),
            AuthEvent::Closed => Err(AuthError::Closed),
            AuthEvent::Byte(byte) => {
                self.data.push(byte);
                if byte != LINE_FEED {
                    return Ok(None);
                }
                let data = self.data.clone();
                assert(data@ =~= self.data@);
                match String::from_utf8(data) {
                    Ok(text) => Ok(Some(text)),
                    Err(_) => Err(AuthError::NotUtf8),
                }
            },
        }
    }
}

/// Whether an authentication line authenticates its sender: what it says up
/// to the line feeds and carriage returns at its end is `AUTH `, followed by
/// the secret.
pub fn authenticate_raw(line: &str, secret: &str) -> (accepted: bool)
    ensures
        accepted == line_accepted(line@, secret@),
{
    let mut said = char_vec(line);
    let mut end: usize = said.len();
    assert(said@.take(end as int) =~= line@);
    while end > 0 && (said[end - 1] == '\r' || said[end - 1] == '\n')
        invariant
            end <= said@.len(),
            said@ == line@,
            trim_line_end(said@.take(end as int)) == trim_line_end(line@),
        decreases end,
    {
        assert(said@.take(end as int).drop_last() =~= said@.take(end - 1));
        end = end - 1;
    }
    said.truncate(end);
    let mut expected = char_vec("AUTH ");
    let mut rest = char_vec(secret);
    expected.append(&mut rest);
    same_chars(&said, &expected)
}

/// How a caller is served whose first bytes are `probe`, of which `peeked`
/// have arrived: one that sends `GET` speaks HTTP.
pub fn detect_mode(probe: &[u8; 3], peeked: usize) -> (mode: DestinationMode)
    ensures
        mode == (if peeked >= 3 && probe@ == encode_utf8("GET"@) {
            DestinationMode::WebSocket
        } else {
            DestinationMode::Raw
        }),
{
    let is_get = probe[0] == 71 && probe[1] == 69 && probe[2] == 84;
    proof {
        reveal_strlit("GET");
        is_ascii_chars_encode_utf8("GET"@);
        assert("GET"@[0] == 'G' && "GET"@[1] == 'E' && "GET"@[2] == 'T');
        assert(encode_utf8("GET"@) =~= seq![71u8, 69u8, 84u8]);
        assert(is_get == (probe@ =~= seq![71u8, 69u8, 84u8]));
    }
    if peeked >= 3 && is_get {
        DestinationMode::WebSocket
    } else {
        DestinationMode::Raw
    }
}

/// The encoding of a character other than a line feed holds no line feed.
proof fn lemma_scalar_has_no_line_feed(c: char)
    requires
        c != '\n',
    ensures
        forall|i: int|
            0 <= i < encode_scalar(c as u32).len() ==> #[trigger] encode_scalar(c as u32)[i]
                != LINE_FEED,
{
    let scalar = c as u32;
    assert(scalar != 10);
    assert(scalar <= 0x7f && scalar != 10 ==> (scalar & 0x7f) as u8 != 10) by (bit_vector);
    assert(0xC0 | ((scalar >> 6) & 0x1F) as u8 != 10) by (bit_vector);
    assert(0xE0 | ((scalar >> 12) & 0x0F) as u8 != 10) by (bit_vector);
    assert(0xF0 | ((scalar >> 18) & 0x7) as u8 != 10) by (bit_vector);
    assert(0x80 | (scalar & 0x3F) as u8 != 10) by (bit_vector);
    assert(0x80 | ((scalar >> 6) & 0x3F) as u8 != 10) by (bit_vector);
    assert(0x80 | ((scalar >> 12) & 0x3F) as u8 != 10) by (bit_vector);
}

/// The encoding of a text without line feeds holds no line feed.
proof fn lemma_encoding_has_no_line_feed(text: Seq<char>)
    requires
        !text.contains('\n'),
    ensures
        forall|i: int|
            0 <= i < encode_utf8(text).len() ==> #[trigger] encode_utf8(text)[i] != LINE_FEED,
    decreases text.len(),
{
    if text.len() > 0 {
        let tail = text.drop_first();
        assert(text.contains(text[0]));
        assert forall|i: int| 0 <= i < tail.len() implies tail[i] != '\n' by {
            assert(text.contains(text[i + 1]));
        }
        lemma_scalar_has_no_line_feed(text[0]);
        lemma_encoding_has_no_line_feed(tail);
        let head = encode_scalar(text[0] as u32);
        assert forall|i: int| 0 <= i < encode_utf8(text).len() implies #[trigger] encode_utf8(
            text,
        )[i] != LINE_FEED by {
            if i < head.len() {
                assert(encode_utf8(text)[i] == head[i]);
            } else {
                assert(encode_utf8(text)[i] == encode_utf8(tail)[i - head.len()]);
            }
        }
    }
}

/// The line is what the caller sends up to and with the first line feed, if
/// that one is among the first `limit` bytes: of what follows nothing is read.
/// A caller that sends `limit` bytes without one is turned away. The line is
/// refused if it is not UTF-8.
pub proof fn law_line_ends_at_first_line_feed(received: Seq<u8>, limit: nat, bytes: Seq<u8>)
    requires
        received.len() <= limit,
        !received.contains(LINE_FEED),
    ensures
        forall|i: int|
            0 <= i < bytes.len() && #[trigger] bytes[i] == LINE_FEED && !bytes.take(i).contains(
                LINE_FEED,
            ) && received.len() + i < limit ==> read_from(received, limit, bytes) == line_after(
                received + bytes.take(i),
                LINE_FEED,
            ),
        !bytes.take(least(bytes.len() as int, limit - received.len())).contains(LINE_FEED)
            ==> read_from(received, limit, bytes) == (if received.len() + bytes.len() >= limit {
            Err::<Option<Seq<char>>, AuthError>(AuthError::TooLong)
        } else {
            Ok(None)
        }),
    decreases bytes.len(),
{
    let n = least(bytes.len() as int, limit - received.len());
    if received.len() < limit && bytes.len() > 0 {
        let rest = bytes.drop_first();
        if bytes[0] != LINE_FEED {
            let next = received.push(bytes[0]);
            assert forall|b: u8| next.contains(b) implies received.contains(b) || b
                == bytes[0] by {
                let k = choose|k: int| 0 <= k < next.len() && next[k] == b;
                if k < received.len() {
                    assert(received[k] == b);
                }
            }
            law_line_ends_at_first_line_feed(next, limit, rest);
            assert forall|i: int|
                0 <= i < bytes.len() && #[trigger] bytes[i] == LINE_FEED && !bytes.take(
                    i,
                ).contains(LINE_FEED) && received.len() + i < limit implies read_from(
                received,
                limit,
                bytes,
            ) == line_after(received + bytes.take(i), LINE_FEED) by {
                assert(rest[i - 1] == LINE_FEED);
                let before = rest.take(i - 1);
                if before.contains(LINE_FEED) {
                    let k = choose|k: int| 0 <= k < before.len() && before[k] == LINE_FEED;
                    assert(bytes.take(i)[k + 1] == LINE_FEED);
                }
                assert(next + rest.take(i - 1) =~= received + bytes.take(i));
            }
            if !bytes.take(n).contains(LINE_FEED) {
                let m = least(rest.len() as int, limit - next.len());
                let seen = rest.take(m);
                if seen.contains(LINE_FEED) {
                    let k = choose|k: int| 0 <= k < seen.len() && seen[k] == LINE_FEED;
                    assert(bytes.take(n)[k + 1] == LINE_FEED);
                }
            }
        } else {
            assert(bytes.take(n)[0] == LINE_FEED);
            assert forall|i: int|
                0 <= i < bytes.len() && #[trigger] bytes[i] == LINE_FEED && !bytes.take(
                    i,
                ).contains(LINE_FEED) && received.len() + i < limit implies read_from(
                received,
                limit,
                bytes,
            ) == line_after(received + bytes.take(i), LINE_FEED) by {
                if i > 0 {
                    assert(bytes.take(i)[0] == LINE_FEED);
                }
                assert(received + bytes.take(0) =~= received);
            }
        }
    }
}

/// Trimming takes off carriage returns and line feeds and nothing else.
proof fn lemma_trim_is_prefix(text: Seq<char>)
    ensures
        trim_line_end(text).len() <= text.len(),
        trim_line_end(text) == text.take(trim_line_end(text).len() as int),
        forall|i: int|
            trim_line_end(text).len() <= i < text.len() ==> #[trigger] text[i] == '\r' || text[i]
                == '\n',
    decreases text.len(),
{
    if text.len() > 0 && (text.last() == '\r' || text.last() == '\n') {
        lemma_trim_is_prefix(text.drop_last());
        let n = trim_line_end(text).len() as int;
        assert(text.drop_last().take(n) =~= text.take(n));
        assert forall|i: int| n <= i < text.len() implies #[trigger] text[i] == '\r' || text[i]
            == '\n' by {
            if i < text.len() - 1 {
                assert(text.drop_last()[i] == text[i]);
            }
        }
    } else {
        assert(text.take(text.len() as int) =~= text);
    }
}

/// A line authenticates its sender only if it says `AUTH ` and the secret and
/// then ends: what follows is carriage returns and line feeds.
pub proof fn law_only_the_secret_authenticates(line: Seq<char>, secret: Seq<char>)
    requires
        line_accepted(line, secret),
    ensures
        line.len() >= auth_line(secret).len(),
        line.take(auth_line(secret).len() as int) == auth_line(secret),
        forall|i: int|
            auth_line(secret).len() <= i < line.len() ==> #[trigger] line[i] == '\r' || line[i]
                == '\n',
{
    lemma_trim_is_prefix(line);
}

/// A caller that sends the line for its secret, ended by a line feed or by a
/// carriage return and a line feed, is read in full whatever it sends after
/// that, and is let through by a destination with that secret and by no other.
/// The secret is one that a line can carry: it holds no line feed, does not
/// end in a carriage return, and leaves the line within the limit.
pub proof fn law_auth_line_round_trip(
    secret: Seq<char>,
    expected: Seq<char>,
    crlf: bool,
    limit: nat,
    rest: Seq<u8>,
)
    requires
        !secret.contains('\n'),
        secret.len() > 0 ==> secret.last() != '\r',
        encode_utf8(auth_line(secret) + line_ending(crlf)).len() <= limit,
    ensures
        ({
            let line = auth_line(secret) + line_ending(crlf);
            &&& read_from(seq![], limit, encode_utf8(line) + rest) == Ok::<
                Option<Seq<char>>,
                AuthError,
            >(Some(line))
            &&& line_accepted(line, expected) <==> secret == expected
        }),
{
    broadcast use {
        vstd::utf8::encode_utf8_valid_utf8,
        vstd::utf8::encode_utf8_decode_utf8,
    };

    let line = auth_line(secret) + line_ending(crlf);
    let said = line.drop_last();
    reveal_strlit("AUTH ");
    assert(line =~= said + seq!['\n']);
    assert forall|i: int| 0 <= i < said.len() implies said[i] != '\n' by {
        if 5 <= i < 5 + secret.len() {
            assert(secret[i - 5] == said[i]);
        }
    }
    lemma_encode_add(said, seq!['\n']);
    lemma_encoding_has_no_line_feed(said);
    lemma_encode_line_feed();
    let bytes = encode_utf8(line) + rest;
    let n = encode_utf8(said).len() as int;
    assert(bytes[n] == LINE_FEED);
    assert(bytes.take(n) =~= encode_utf8(said));
    law_line_ends_at_first_line_feed(seq![], limit, bytes);
    assert(Seq::<u8>::empty() + bytes.take(n) =~= encode_utf8(said));
    assert(encode_utf8(said).push(LINE_FEED) =~= encode_utf8(line));

    reveal_with_fuel(trim_line_end, 3);
    if crlf {
        assert(said.drop_last() =~= auth_line(secret));
    } else {
        assert(said =~= auth_line(secret));
    }
    assert(trim_line_end(line) == auth_line(secret));
    if auth_line(secret) == auth_line(expected) {
        assert(auth_line(secret).skip(5) =~= secret);
        assert(auth_line(expected).skip(5) =~= expected);
    }
}

/// How a line is ended.
pub open spec fn line_ending(crlf: bool) -> Seq<char> {
    if crlf {
        seq!['\r', '\n']
    } else {
        seq!['\n']
    }
}

/// A line lets its sender in exactly if it is made of the five characters
/// `A`, `U`, `T`, `H` and a space, the secret, and then only of carriage returns
/// and line feeds. No line does for a secret that itself ends in one of these.
pub proof fn law_accepted_line_is_auth_and_secret(line: Seq<char>, secret: Seq<char>)
    ensures
        line_accepted(line, secret) <==> {
            let n = 5 + secret.len() as int;
            &&& secret.len() == 0 || (secret.last() != '\r' && secret.last() != '\n')
            &&& line.len() >= n
            &&& line.take(n) == seq!['A', 'U', 'T', 'H', ' '] + secret
            &&& forall|i: int|
                n <= i < line.len() ==> #[trigger] line[i] == '\r' || line[i] == '\n'
        },
{
    reveal_strlit("AUTH ");
    assert("AUTH "@ =~= seq!['A', 'U', 'T', 'H', ' ']);
    let n = 5 + secret.len() as int;
    let said = seq!['A', 'U', 'T', 'H', ' '] + secret;
    assert(auth_line(secret) =~= said);
    lemma_trim_is_prefix(line);
    lemma_trim_ends(line);
    if line_accepted(line, secret) {
        assert(said.last() == trim_line_end(line).last());
        if secret.len() > 0 {
            assert(said.last() == secret.last());
        }
    }
    if secret.len() == 0 || (secret.last() != '\r' && secret.last() != '\n') {
        if line.len() >= n && line.take(n) == said && (forall|i: int|
            n <= i < line.len() ==> #[trigger] line[i] == '\r' || line[i] == '\n') {
            assert(said.last() != '\r' && said.last() != '\n') by {
                if secret.len() > 0 {
                    assert(said.last() == secret.last());
                }
            }
            lemma_trim_stops(line, n);
        }
    }
}

/// A trimmed text does not end in a carriage return or a line feed.
proof fn lemma_trim_ends(text: Seq<char>)
    ensures
        trim_line_end(text).len() > 0 ==> trim_line_end(text).last() != '\r' && trim_line_end(
            text,
        ).last() != '\n',
    decreases text.len(),
{
    if text.len() > 0 && (text.last() == '\r' || text.last() == '\n') {
        lemma_trim_ends(text.drop_last());
    }
}

/// Trimming stops at the last character that is neither.
proof fn lemma_trim_stops(text: Seq<char>, n: int)
    requires
        0 < n <= text.len(),
        text[n - 1] != '\r' && text[n - 1] != '\n',
        forall|i: int| n <= i < text.len() ==> #[trigger] text[i] == '\r' || text[i] == '\n',
    ensures
        trim_line_end(text) == text.take(n),
    decreases text.len(),
{
    if n < text.len() {
        assert(text.last() == '\r' || text.last() == '\n');
        let shorter = text.drop_last();
        assert forall|i: int| n <= i < shorter.len() implies #[trigger] shorter[i] == '\r'
            || shorter[i] == '\n' by {
            assert(text[i] == '\r' || text[i] == '\n');
        }
        lemma_trim_stops(shorter, n);
        assert(shorter.take(n) =~= text.take(n));
    } else {
        assert(text.take(n) =~= text);
    }
}

/// Whoever sends `AUTH`, a space, the secret and a line ending is let in, if the
/// secret does not end in a part of a line ending; with any other secret in its
/// place, nobody is.
pub proof fn law_holder_of_secret_is_let_in(secret: Seq<char>, other: Seq<char>)
    requires
        secret.len() > 0 ==> secret.last() != '\r' && secret.last() != '\n',
        other.len() > 0 ==> other.last() != '\r' && other.last() != '\n',
    ensures
        line_accepted(seq!['A', 'U', 'T', 'H', ' '] + secret + seq!['\n'], secret),
        line_accepted(seq!['A', 'U', 'T', 'H', ' '] + secret + seq!['\r', '\n'], secret),
        line_accepted(seq!['A', 'U', 'T', 'H', ' '] + other + seq!['\n'], secret) ==> other
            == secret,
{
    let said = seq!['A', 'U', 'T', 'H', ' '] + secret;
    let n = 5 + secret.len() as int;
    law_accepted_line_is_auth_and_secret(said + seq!['\n'], secret);
    law_accepted_line_is_auth_and_secret(said + seq!['\r', '\n'], secret);
    assert((said + seq!['\n']).take(n) =~= said);
    assert((said + seq!['\r', '\n']).take(n) =~= said);
    let line = seq!['A', 'U', 'T', 'H', ' '] + other + seq!['\n'];
    law_accepted_line_is_auth_and_secret(line, secret);
    if line_accepted(line, secret) {
        assert forall|i: int| 0 <= i < secret.len() implies secret[i] == #[trigger] line[5
            + i] by {
            assert(line.take(n)[5 + i] == said[5 + i]);
        }
        if other.len() > secret.len() {
            assert(line[4 + other.len() as int] == other.last());
        }
        if other.len() < secret.len() {
            assert(line.len() == 6 + other.len());
            assert(line[5 + other.len() as int] == '\n');
            assert(secret.last() == line[5 + secret.len() - 1]);
        }
        assert(other =~= secret) by {
            assert forall|i: int| 0 <= i < secret.len() implies other[i] == secret[i] by {
                assert(line[5 + i] == other[i]);
            }
        }
    }
}

/// A byte other than a line feed ends no line. One that is makes a line of
/// everything received and itself: the text that these bytes encode, if they
/// encode one, and an error if they do not.
pub proof fn law_line_feed_completes_line(received: Seq<u8>, byte: u8, text: Seq<char>)
    ensures
        byte != 10 ==> line_after(received, byte) == Ok::<Option<Seq<char>>, AuthError>(None),
        byte == 10 && received.push(10) == encode_utf8(text) ==> line_after(received, byte) == Ok::<
            Option<Seq<char>>,
            AuthError,
        >(Some(text)),
        byte == 10 && !valid_utf8(received.push(10)) ==> line_after(received, byte) == Err::<
            Option<Seq<char>>,
            AuthError,
        >(AuthError::NotUtf8),
{
    vstd::utf8::encode_utf8_valid_utf8(text);
    vstd::utf8::encode_utf8_decode_utf8(text);
}

/// What [`authenticate_raw`] returns, over the characters of its arguments.
pub proof fn law_authenticate_raw(line: &str, secret: &str, accepted: bool)
    requires
        call_ensures(authenticate_raw, (line, secret), accepted),
    ensures
        accepted <==> {
            let n = 5 + secret@.len() as int;
            &&& secret@.len() == 0 || (secret@.last() != '\r' && secret@.last() != '\n')
            &&& line@.len() >= n
            &&& line@.take(n) == seq!['A', 'U', 'T', 'H', ' '] + secret@
            &&& forall|i: int|
                n <= i < line@.len() ==> #[trigger] line@[i] == '\r' || line@[i] == '\n'
        },
{
    law_accepted_line_is_auth_and_secret(line@, secret@);
}

/// What [`detect_mode`] returns: a caller speaks HTTP exactly if its first three
/// bytes have arrived and are those of `G`, `E` and `T`.
pub proof fn law_detect_mode(probe: &[u8; 3], peeked: usize, mode: DestinationMode)
    requires
        call_ensures(detect_mode, (probe, peeked), mode),
    ensures
        mode == DestinationMode::WebSocket <==> (peeked >= 3 && probe@[0] == 71 && probe@[1] == 69
            && probe@[2] == 84),
{
    reveal_strlit("GET");
    is_ascii_chars_encode_utf8("GET"@);
    assert("GET"@[0] == 'G' && "GET"@[1] == 'E' && "GET"@[2] == 'T');
    assert(encode_utf8("GET"@) =~= seq![71u8, 69u8, 84u8]);
    if probe@[0] == 71 && probe@[1] == 69 && probe@[2] == 84 {
        assert(probe@ =~= seq![71u8, 69u8, 84u8]);
    }
}

/// What [`AuthLineReader::accept`] returns: a byte other than a line feed is
/// waited on from, one completes the line, and a failure is told by its kind.
pub proof fn law_accept()
    ensures
        forall|reader: &mut AuthLineReader, event: AuthEvent, line: Result<Option<String>, AuthError>|
            #[trigger] call_ensures(AuthLineReader::accept, (reader, event), line) ==> {
                &&& final(reader).limit() == reader.limit()
                &&& event is TimedOut ==> line is Err && line->Err_0 is TimedOut
                &&& event is ReadFailed ==> line is Err && line->Err_0 is ReadFailed
                &&& event is Closed ==> line is Err && line->Err_0 is Closed
                &&& event is Byte ==> {
                    let byte = event->Byte_0;
                    &&& final(reader).received() == reader.received().push(byte)
                    &&& byte != 10 ==> line is Ok && line->Ok_0 is None
                    &&& byte == 10 && valid_utf8(reader.received().push(10)) ==> {
                        &&& line is Ok && line->Ok_0 is Some
                        &&& line->Ok_0->Some_0@ == decode_utf8(reader.received().push(10))
                    }
                    &&& byte == 10 && !valid_utf8(reader.received().push(10)) ==> line is Err
                        && line->Err_0 is NotUtf8
                }
            },
{
}

/// What [`AuthLineReader::new`] and [`AuthLineReader::ready`] return: a reader
/// with nothing received, and room for as many bytes as it was made for and no
/// more.
pub proof fn law_ready()
    ensures
        forall|max_len: usize, reader: AuthLineReader| #[trigger]
            call_ensures(AuthLineReader::new, (max_len,), reader) ==> {
                &&& reader.limit() == max_len
                &&& reader.received().len() == 0
            },
        forall|reader: &AuthLineReader, ready: Result<(), AuthError>| #[trigger]
            call_ensures(AuthLineReader::ready, (reader,), ready) ==> {
                &&& ready is Ok <==> reader.received().len() < reader.limit()
                &&& ready is Err ==> ready->Err_0 is TooLong
            },
{
}

} // verus!
