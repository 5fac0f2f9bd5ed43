//! The health endpoint: what a bridge or a destination says of itself over HTTP.
use crate::text::{append_decimal, char_vec, decimal, same_chars};
use crate::text::{law_decimal_says_number, lemma_encode_add, lemma_encode_line_feed};
use tokio_tungstenite::tungstenite::http::StatusCode;
use vstd::prelude::*;
use vstd::string::StringExecFns;
use vstd::utf8::{decode_utf8, encode_utf8, valid_utf8};
use vstd::utf8::{decode_utf8_encode_utf8, encode_utf8_decode_utf8, encode_utf8_valid_utf8};

verus! {

/// How long a request is waited for, in seconds.
pub const HEALTH_READ_TIMEOUT_SECS: u64 = 3;

/// How much of a request is read.
pub const HEALTH_BUFFER_LEN: usize = 1024;

/// The text that bytes are read as, whether or not they are valid UTF-8.
pub uninterp spec fn lossy_text(bytes: Seq<u8>) -> Seq<char>;

/// `String::from_utf8_lossy`: a text for any bytes, the same for the same
/// bytes. Valid UTF-8 is read as the text that it encodes. If only a beginning
/// of the bytes is valid UTF-8, that is read so too, and what follows is read
/// as it would be alone: only invalid sequences are replaced.
#[verifier::external_body]
fn read_lossy(bytes: &[u8]) -> (text: String)
    ensures
        text@ == lossy_text(bytes@),
        valid_utf8(bytes@) ==> text@ == decode_utf8(bytes@),
        forall|k: int|
            0 <= k <= bytes@.len() && valid_utf8(#[trigger] bytes@.take(k)) ==> text@
                == decode_utf8(bytes@.take(k)) + lossy_text(bytes@.skip(k)),
{
    String::from_utf8_lossy(bytes).into_owned()
}

/// `StatusCode::canonical_reason` of the status with this code, which has to
/// be one of the three that are used here.
#[verifier::external_body]
fn canonical_reason(code: u16) -> (reason: Option<&'static str>)
    requires
        code == 200 || code == 404 || code == 405,
    ensures
        code == 200 ==> (reason is Some && reason->Some_0@ == "OK"@),
        code == 404 ==> (reason is Some && reason->Some_0@ == "Not Found"@),
        code == 405 ==> (reason is Some && reason->Some_0@ == "Method Not Allowed"@),
{
    match StatusCode::from_u16(code) {
        Ok(status) => status.canonical_reason(),
        Err(_) => None,
    }
}

/// Whether a character is white space, as Unicode defines it.
pub open spec fn white_space(c: char) -> bool {
    ||| '\u{9}' <= c <= '\u{d}'
    ||| c == '\u{20}'
    ||| c == '\u{85}'
    ||| c == '\u{a0}'
    ||| c == '\u{1680}'
    ||| '\u{2000}' <= c <= '\u{200a}'
    ||| c == '\u{2028}'
    ||| c == '\u{2029}'
    ||| c == '\u{202f}'
    ||| c == '\u{205f}'
    ||| c == '\u{3000}'
}

/// The first line of a text, without the line feed that ends it. A carriage
/// return before that stays: it is white space, and no word holds it.
pub open spec fn first_line(text: Seq<char>) -> Seq<char>
    decreases text.len(),
{
    if text.len() == 0 || text[0] == '\n' {
        Seq::empty()
    } else {
        seq![text[0]] + first_line(text.drop_first())
    }
}

/// A text without the white space at its start.
pub open spec fn without_space(text: Seq<char>) -> Seq<char>
    decreases text.len(),
{
    if text.len() > 0 && white_space(text[0]) {
        without_space(text.drop_first())
    } else {
        text
    }
}

/// What stands in a text before its first white space.
pub open spec fn first_word(text: Seq<char>) -> Seq<char>
    decreases text.len(),
{
    if text.len() == 0 || white_space(text[0]) {
        Seq::empty()
    } else {
        seq![text[0]] + first_word(text.drop_first())
    }
}

/// The words of a text: what stands in it between white space.
pub open spec fn words(text: Seq<char>) -> Seq<Seq<char>>
    decreases text.len(),
    via words_decreases
{
    let rest = without_space(text);
    if rest.len() == 0 {
        Seq::empty()
    } else {
        seq![first_word(rest)] + words(rest.skip(first_word(rest).len() as int))
    }
}

#[via_fn]
proof fn words_decreases(text: Seq<char>) {
    lemma_without_space_is_suffix(text);
    let rest = without_space(text);
    if rest.len() > 0 {
        lemma_first_word_is_prefix(rest);
        assert(first_word(rest).len() > 0);
    }
}

proof fn lemma_without_space_is_suffix(text: Seq<char>)
    ensures
        without_space(text).len() <= text.len(),
        without_space(text).len() > 0 ==> !white_space(without_space(text)[0]),
    decreases text.len(),
{
    if text.len() > 0 && white_space(text[0]) {
        lemma_without_space_is_suffix(text.drop_first());
    }
}

proof fn lemma_first_word_is_prefix(text: Seq<char>)
    ensures
        first_word(text).len() <= text.len(),
    decreases text.len(),
{
    if text.len() > 0 && !white_space(text[0]) {
        lemma_first_word_is_prefix(text.drop_first());
    }
}

/// The texts in a list.
spec fn texts(list: Seq<Vec<char>>) -> Seq<Seq<char>> {
    Seq::new(list.len(), |i: int| list[i]@)
}

/// The body that says that the program is alive.
pub open spec fn alive_body(mode: Seq<char>, now: u64) -> Seq<char> {
    "{\"status\":\"ok\",\"mode\":\""@ + mode + "\",\"unix_time\":"@ + decimal(
        now as nat,
    ) + "}"@
}

/// The body that says where to ask for more.
pub open spec fn service_body(mode: Seq<char>) -> Seq<char> {
    "{\"service\":\"aegis-edge-relay\",\"mode\":\""@ + mode + "\",\"health\":\"/healthz\"}"@
}

/// The status code, its reason and the body for a request.
pub open spec fn answer(method: Seq<char>, path: Seq<char>, mode: Seq<char>, now: u64) -> (
    u16,
    Seq<char>,
    Seq<char>,
) {
    if method != "GET"@ {
        (405, "Method Not Allowed"@, "{\"error\":\"method not allowed\"}"@)
    } else if path == "/healthz"@ || path == "/readyz"@ {
        (200, "OK"@, alive_body(mode, now))
    } else if path == "/"@ {
        (200, "OK"@, service_body(mode))
    } else {
        (404, "Not Found"@, "{\"error\":\"not found\"}"@)
    }
}

/// What comes before the body of a response: the status, and the length of
/// the body in bytes.
pub open spec fn head(code: u16, reason: Seq<char>, length: nat) -> Seq<char> {
    "HTTP/1.1 "@ + decimal(code as nat) + " "@ + reason
        + "\r\nContent-Type: application/json\r\nContent-Length: "@ + decimal(length)
        + "\r\nConnection: close\r\n\r\n"@
}

/// A response with a status and a body.
pub open spec fn response(code: u16, reason: Seq<char>, body: Seq<char>) -> Seq<char> {
    head(code, reason, encode_utf8(body).len()) + body
}

/// The method of a request: the first word of its first line.
pub open spec fn method(request: Seq<char>) -> Seq<char> {
    let found = words(first_line(request));
    if found.len() > 0 {
        found[0]
    } else {
        Seq::empty()
    }
}

/// The path of a request: the second word of its first line, or else the root.
pub open spec fn path(request: Seq<char>) -> Seq<char> {
    let found = words(first_line(request));
    if found.len() > 1 {
        found[1]
    } else {
        "/"@
    }
}

/// The response to a request, in a mode and at a time.
pub open spec fn reply(request: Seq<char>, mode: Seq<char>, now: u64) -> Seq<char> {
    let (code, reason, body) = answer(method(request), path(request), mode, now);
    response(code, reason, body)
}

/// Whether a character is white space, as Unicode defines it.
pub fn is_white_space(c: char) -> (white: bool)
    ensures
        white == white_space(c),
{
    ('\u{9}' <= c && c <= '\u{d}') || c == '\u{20}' || c == '\u{85}' || c == '\u{a0}' || c
        == '\u{1680}' || ('\u{2000}' <= c && c <= '\u{200a}') || c == '\u{2028}' || c == '\u{2029}'
        || c == '\u{202f}' || c == '\u{205f}' || c == '\u{3000}'
}

/// The first line of a text.
fn split_first_line(text: &Vec<char>) -> (line: Vec<char>)
    ensures
        line@ == first_line(text@),
{
    let mut line: Vec<char> = Vec::new();
    let mut i: usize = 0;
    assert(text@.skip(0) =~= text@);
    while i < text.len() && text[i] != '\n'
        invariant
            i <= text@.len(),
            line@ + first_line(text@.skip(i as int)) == first_line(text@),
        decreases text@.len() - i,
    {
        let ghost rest = text@.skip(i as int);
        assert(rest.drop_first() =~= text@.skip(i + 1));
        assert(line@ + (seq![rest[0]] + first_line(rest.drop_first())) =~= line@.push(rest[0])
            + first_line(rest.drop_first()));
        line.push(text[i]);
        i = i + 1;
    }
    assert(first_line(text@.skip(i as int)) =~= Seq::empty());
    line
}

/// The words of a text.
fn split_words(text: &Vec<char>) -> (found: Vec<Vec<char>>)
    ensures
        texts(found@) == words(text@),
{
    let mut found: Vec<Vec<char>> = Vec::new();
    let mut i: usize = 0;
    assert(text@.skip(0) =~= text@);
    assert(texts(found@) + words(text@) =~= words(text@));
    while i < text.len()
        invariant
            i <= text@.len(),
            texts(found@) + words(text@.skip(i as int)) == words(text@),
        decreases text@.len() - i,
    {
        let ghost rest = text@.skip(i as int);
        let ghost before = texts(found@);
        if is_white_space(text[i]) {
            assert(rest.drop_first() =~= text@.skip(i + 1));
            assert(words(rest) == words(rest.drop_first()));
            i = i + 1;
        } else {
            let mut word: Vec<char> = Vec::new();
            let ghost start = i;
            assert(word@ + first_word(rest) =~= first_word(rest));
            while i < text.len() && !is_white_space(text[i])
                invariant
                    start <= i <= text@.len(),
                    word@.len() == i - start,
                    word@ + first_word(text@.skip(i as int)) == first_word(rest),
                decreases text@.len() - i,
            {
                let ghost left = text@.skip(i as int);
                assert(left.drop_first() =~= text@.skip(i + 1));
                assert(word@ + (seq![left[0]] + first_word(left.drop_first())) =~= word@.push(
                    left[0],
                ) + first_word(left.drop_first()));
                word.push(text[i]);
                i = i + 1;
            }
            assert(first_word(text@.skip(i as int)) =~= Seq::empty());
            assert(word@ =~= first_word(rest));
            assert(rest.skip(word@.len() as int) =~= text@.skip(i as int));
            assert(words(rest) == seq![word@] + words(text@.skip(i as int)));
            found.push(word);
            assert(texts(found@) =~= before.push(word@));
            assert(before.push(word@) + words(text@.skip(i as int)) =~= before + (seq![word@]
                + words(text@.skip(i as int))));
        }
    }
    assert(words(text@.skip(i as int)) =~= Seq::empty());
    assert(texts(found@) =~= words(text@));
    found
}

/// The status code and the body for a request.
fn route(method: &Vec<char>, path: &Vec<char>, mode: &str, now: u64) -> (answered: (u16, String))
    ensures
        ({
            let (code, _, body) = answer(method@, path@, mode@, now);
            answered.0 == code && answered.1@ == body
        }),
{
    if !same_chars(method, &char_vec("GET")) {
        (405, "{\"error\":\"method not allowed\"}".to_owned())
    } else if same_chars(path, &char_vec("/healthz")) || same_chars(path, &char_vec("/readyz")) {
        let mut body = "{\"status\":\"ok\",\"mode\":\"".to_owned();
        body.append(mode);
        body.append("\",\"unix_time\":");
        append_decimal(&mut body, now);
        body.append("}");
        (200, body)
    } else if same_chars(path, &char_vec("/")) {
        let mut body = "{\"service\":\"aegis-edge-relay\",\"mode\":\"".to_owned();
        body.append(mode);
        body.append("\",\"health\":\"/healthz\"}");
        (200, body)
    } else {
        (404, "{\"error\":\"not found\"}".to_owned())
    }
}

/// A response with a status and a body.
fn http_response(code: u16, reason: &str, body: &str) -> (text: String)
    ensures
        text@ == response(code, reason@, body@),
{
    let mut text = "HTTP/1.1 ".to_owned();
    append_decimal(&mut text, code as u64);
    text.append(" ");
    text.append(reason);
    text.append("\r\nContent-Type: application/json\r\nContent-Length: ");
    append_decimal(&mut text, body.as_bytes().len() as u64);
    text.append("\r\nConnection: close\r\n\r\n");
    text.append(body);
    text
}

/// The response to the text of a request, in a mode and at a time in seconds
/// since the epoch.
pub fn health_reply(request: &str, mode: &str, now: u64) -> (replied: String)
    ensures
        replied@ == reply(request@, mode@, now),
{
    let line = split_first_line(&char_vec(request));
    let found = split_words(&line);
    assert(texts(found@).len() == found@.len());
    let nothing: Vec<char> = Vec::new();
    let root = char_vec("/");
    let method = if found.len() > 0 {
        &found[0]
    } else {
        &nothing
    };
    let path = if found.len() > 1 {
        &found[1]
    } else {
        &root
    };
    let (code, body) = route(method, path, mode, now);
    let reason = match canonical_reason(code) {
        Some(reason) => reason,
        None => "Unknown",
    };
    http_response(code, reason, body.as_str())
}

/// The response to what was read of a request, in a mode and at a time in
/// seconds since the epoch. There is none if nothing was read. What follows a
/// line feed makes no difference, be it valid UTF-8 or not.
pub fn health_response(request: &[u8], mode: &str, now: u64) -> (replied: Option<String>)
    ensures
        replied is None <==> request@.len() == 0,
        replied matches Some(text) ==> {
            &&& text@ == reply(lossy_text(request@), mode@, now)
            &&& valid_utf8(request@) ==> text@ == reply(decode_utf8(request@), mode@, now)
            &&& forall|k: int|
                0 <= k <= request@.len() && valid_utf8(#[trigger] request@.take(k)) ==> text@
                    == reply(
                    decode_utf8(request@.take(k)) + lossy_text(request@.skip(k)),
                    mode@,
                    now,
                )
            &&& forall|k: int|
                0 <= k < request@.len() && request@[k] == 10 && valid_utf8(
                    #[trigger] request@.take(k),
                ) ==> text@ == reply(decode_utf8(request@.take(k)), mode@, now)
        },
{
    if request.len() == 0 {
        None
    } else {
        let text = read_lossy(request);
        proof {
            assert forall|k: int|
                0 <= k < request@.len() && request@[k] == 10 && valid_utf8(
                    #[trigger] request@.take(k),
                ) implies reply(text@, mode@, now) == reply(
                decode_utf8(request@.take(k)),
                mode@,
                now,
            ) by {
                lemma_decode_line(request@, k);
                lemma_line_feed_ends_line(
                    decode_utf8(request@.take(k)),
                    lossy_text(request@.skip(k + 1)),
                );
            }
        }
        Some(health_reply(text.as_str(), mode, now))
    }
}

/// Bytes that are valid UTF-8 still are with a line feed after them.
proof fn lemma_decode_line(bytes: Seq<u8>, k: int)
    requires
        0 <= k < bytes.len(),
        bytes[k] == 10,
        valid_utf8(bytes.take(k)),
    ensures
        valid_utf8(bytes.take(k + 1)),
        decode_utf8(bytes.take(k + 1)) == decode_utf8(bytes.take(k)) + seq!['\n'],
{
    let line = decode_utf8(bytes.take(k));
    decode_utf8_encode_utf8(bytes.take(k));
    lemma_encode_add(line, seq!['\n']);
    lemma_encode_line_feed();
    assert(bytes.take(k + 1) =~= encode_utf8(line + seq!['\n']));
    encode_utf8_valid_utf8(line + seq!['\n']);
    encode_utf8_decode_utf8(line + seq!['\n']);
}

/// What follows a line feed does not belong to the first line.
proof fn lemma_line_feed_ends_line(text: Seq<char>, rest: Seq<char>)
    ensures
        first_line(text + seq!['\n'] + rest) == first_line(text),
    decreases text.len(),
{
    let whole = text + seq!['\n'] + rest;
    if text.len() > 0 {
        assert(whole[0] == text[0]);
        assert(whole.drop_first() =~= text.drop_first() + seq!['\n'] + rest);
        lemma_line_feed_ends_line(text.drop_first(), rest);
    } else {
        assert(whole[0] == '\n');
    }
}

/// What has no line feed before it belongs to the first line.
proof fn lemma_line_goes_on(start: Seq<char>, rest: Seq<char>)
    requires
        forall|i: int| 0 <= i < start.len() ==> #[trigger] start[i] != '\n',
    ensures
        first_line(start + rest) == start + first_line(rest),
    decreases start.len(),
{
    let whole = start + rest;
    if start.len() > 0 {
        assert(whole[0] == start[0]);
        assert(whole.drop_first() =~= start.drop_first() + rest);
        lemma_line_goes_on(start.drop_first(), rest);
        assert(seq![start[0]] + (start.drop_first() + first_line(rest)) =~= start + first_line(
            rest,
        ));
    } else {
        assert(whole =~= rest);
        assert(start + first_line(rest) =~= first_line(rest));
    }
}

/// A text that begins with a word and white space has that word first, and
/// its other words are those of what follows.
proof fn lemma_words_of_word_and_rest(word: Seq<char>, space: char, rest: Seq<char>)
    requires
        word.len() > 0,
        forall|i: int| 0 <= i < word.len() ==> !white_space(#[trigger] word[i]),
        white_space(space),
    ensures
        words(word + seq![space] + rest) == seq![word] + words(rest),
{
    let text = word + seq![space] + rest;
    lemma_first_word_ends(word, space, rest);
    assert(text.skip(word.len() as int) =~= seq![space] + rest);
    assert((seq![space] + rest).drop_first() =~= rest);
    assert(words(seq![space] + rest) == words(rest));
}

proof fn lemma_first_word_ends(word: Seq<char>, space: char, rest: Seq<char>)
    requires
        forall|i: int| 0 <= i < word.len() ==> !white_space(#[trigger] word[i]),
        white_space(space),
    ensures
        first_word(word + seq![space] + rest) == word,
    decreases word.len(),
{
    let text = word + seq![space] + rest;
    if word.len() > 0 {
        assert(text[0] == word[0]);
        assert(text.drop_first() =~= word.drop_first() + seq![space] + rest);
        lemma_first_word_ends(word.drop_first(), space, rest);
        assert(seq![word[0]] + word.drop_first() =~= word);
    } else {
        assert(text[0] == space);
    }
}

/// A text without white space is one word.
proof fn lemma_words_of_word(word: Seq<char>)
    requires
        word.len() > 0,
        forall|i: int| 0 <= i < word.len() ==> !white_space(#[trigger] word[i]),
    ensures
        words(word) == seq![word],
{
    lemma_whole_is_first_word(word);
    assert(word.skip(word.len() as int) =~= Seq::empty());
    assert(words(Seq::<char>::empty()) =~= Seq::empty());
    assert(words(word) =~= seq![word]);
}

proof fn lemma_whole_is_first_word(word: Seq<char>)
    requires
        forall|i: int| 0 <= i < word.len() ==> !white_space(#[trigger] word[i]),
    ensures
        first_word(word) == word,
    decreases word.len(),
{
    if word.len() > 0 {
        lemma_whole_is_first_word(word.drop_first());
        assert(seq![word[0]] + word.drop_first() =~= word);
    } else {
        assert(first_word(word) =~= word);
    }
}

/// A request is answered by its method and its path alone: whatever comes after
/// the white space that ends the path makes no difference.
pub proof fn law_request_line_decides(
    asked_method: Seq<char>,
    gap: char,
    asked_path: Seq<char>,
    space: char,
    rest: Seq<char>,
)
    requires
        asked_method.len() > 0,
        forall|i: int| 0 <= i < asked_method.len() ==> !white_space(#[trigger] asked_method[i]),
        white_space(gap) && gap != '\n',
        asked_path.len() > 0,
        forall|i: int| 0 <= i < asked_path.len() ==> !white_space(#[trigger] asked_path[i]),
        white_space(space),
    ensures
        ({
            let request = asked_method + seq![gap] + (asked_path + seq![space] + rest);
            method(request) == asked_method && path(request) == asked_path
        }),
{
    let line = asked_method + seq![gap] + asked_path;
    let request = asked_method + seq![gap] + (asked_path + seq![space] + rest);
    assert(request =~= line + (seq![space] + rest));
    assert forall|i: int| 0 <= i < line.len() implies #[trigger] line[i] != '\n' by {
        assert(white_space('\n'));
        let m = asked_method.len() as int;
        if i < m {
            assert(line[i] == asked_method[i]);
        } else if i > m {
            assert(line[i] == asked_path[i - m - 1]);
        }
    }
    lemma_line_goes_on(line, seq![space] + rest);
    if space == '\n' {
        assert(first_line(seq![space] + rest) =~= Seq::empty());
        assert(first_line(request) =~= line);
        lemma_words_of_word_and_rest(asked_method, gap, asked_path);
        lemma_words_of_word(asked_path);
    } else {
        assert((seq![space] + rest).drop_first() =~= rest);
        let tail = asked_path + seq![space] + first_line(rest);
        assert(first_line(request) =~= asked_method + seq![gap] + tail);
        lemma_words_of_word_and_rest(asked_method, gap, tail);
        lemma_words_of_word_and_rest(asked_path, space, first_line(rest));
    }
}

/// On the wire a response is a head and then its body, and the head says how
/// many bytes the body takes: a reader that takes as many has the body whole.
pub proof fn law_length_is_that_of_body(code: u16, reason: Seq<char>, body: Seq<char>)
    ensures
        ({
            let length = encode_utf8(body).len();
            encode_utf8(response(code, reason, body)) == encode_utf8(
                head(code, reason, length),
            ) + encode_utf8(body)
        }),
{
    lemma_encode_add(
        head(code, reason, encode_utf8(body).len()),
        body,
    );
}

proof fn lemma_first_word_before_space(text: Seq<char>, space: char, rest: Seq<char>)
    requires
        white_space(space),
    ensures
        first_word(text + seq![space] + rest) == first_word(text),
    decreases text.len(),
{
    let whole = text + seq![space] + rest;
    if text.len() > 0 {
        assert(whole[0] == text[0]);
        assert(whole.drop_first() =~= text.drop_first() + seq![space] + rest);
        lemma_first_word_before_space(text.drop_first(), space, rest);
    } else {
        assert(whole[0] == space);
    }
}

/// White space parts words, and nothing else does: the words of a text with
/// white space somewhere in it are those before it and those after it, a text
/// without any is a single word, and an empty one has none.
pub proof fn law_white_space_parts_words(text: Seq<char>, space: char, rest: Seq<char>)
    requires
        white_space(space),
    ensures
        words(text + seq![space] + rest) == words(text) + words(rest),
        text.len() > 0 && (forall|i: int| 0 <= i < text.len() ==> !white_space(#[trigger] text[i]))
            ==> words(text) == seq![text],
        words(Seq::<char>::empty()) == Seq::<Seq<char>>::empty(),
    decreases text.len(),
{
    let whole = text + seq![space] + rest;
    assert(words(Seq::<char>::empty()) =~= Seq::empty());
    if text.len() > 0 && (forall|i: int|
        0 <= i < text.len() ==> !white_space(#[trigger] text[i])) {
        lemma_words_of_word(text);
    }
    if text.len() == 0 {
        assert(whole.drop_first() =~= rest);
        assert(white_space(whole[0]));
        assert(words(whole) == words(rest));
        assert(text =~= Seq::empty());
        assert(words(text) + words(rest) =~= words(rest));
    } else if white_space(text[0]) {
        assert(whole[0] == text[0]);
        assert(whole.drop_first() =~= text.drop_first() + seq![space] + rest);
        law_white_space_parts_words(text.drop_first(), space, rest);
        assert(words(whole) == words(whole.drop_first()));
        assert(words(text) == words(text.drop_first()));
    } else {
        let word = first_word(text);
        let n = word.len() as int;
        assert(whole[0] == text[0]);
        lemma_first_word_before_space(text, space, rest);
        lemma_first_word_is_prefix(text);
        assert(n > 0);
        assert(whole.skip(n) =~= text.skip(n) + seq![space] + rest);
        law_white_space_parts_words(text.skip(n), space, rest);
        assert(words(whole) == seq![word] + words(whole.skip(n)));
        assert(words(text) == seq![word] + words(text.skip(n)));
        assert(words(whole) =~= words(text) + words(rest));
    }
}

/// The first line is all that comes before the first line feed, or all there is.
pub proof fn law_first_line_ends_at_line_feed(line: Seq<char>, rest: Seq<char>)
    requires
        forall|i: int| 0 <= i < line.len() ==> #[trigger] line[i] != '\n',
    ensures
        first_line(line) == line,
        first_line(line + seq!['\n'] + rest) == line,
{
    lemma_line_goes_on(line, Seq::empty());
    assert(line + Seq::<char>::empty() =~= line);
    assert(first_line(Seq::<char>::empty()) =~= Seq::empty());
    assert(line + first_line(Seq::<char>::empty()) =~= line);
    lemma_line_feed_ends_line(line, rest);
}

/// The method and the path are the first two words of the first line. Without a
/// word there is no method, and without a second one the path is `/`.
pub proof fn law_method_and_path_are_first_words(request: Seq<char>)
    ensures
        ({
            let found = words(first_line(request));
            &&& found.len() == 0 ==> method(request).len() == 0
            &&& found.len() >= 1 ==> method(request) == found[0]
            &&& found.len() <= 1 ==> path(request) == seq!['/']
            &&& found.len() >= 2 ==> path(request) == found[1]
        }),
{
    reveal_strlit("/");
    assert("/"@ =~= seq!['/']);
}

proof fn lemma_literals()
    ensures
        "GET"@ == seq!['G', 'E', 'T'],
        "/healthz"@ == seq!['/', 'h', 'e', 'a', 'l', 't', 'h', 'z'],
        "/readyz"@ == seq!['/', 'r', 'e', 'a', 'd', 'y', 'z'],
        "/"@ == seq!['/'],
{
    reveal_strlit("GET");
    reveal_strlit("/healthz");
    reveal_strlit("/readyz");
    reveal_strlit("/");
    assert("GET"@ =~= seq!['G', 'E', 'T']);
    assert("/healthz"@ =~= seq!['/', 'h', 'e', 'a', 'l', 't', 'h', 'z']);
    assert("/readyz"@ =~= seq!['/', 'r', 'e', 'a', 'd', 'y', 'z']);
    assert("/"@ =~= seq!['/']);
}

/// Asked by `GET` for `/healthz` or `/readyz`, the program says that it is
/// alive, in which mode it runs and what time it is: two modes are told apart by
/// the body, and so are two times.
pub proof fn law_health_tells_mode_and_time(
    ready: bool,
    mode: Seq<char>,
    other_mode: Seq<char>,
    now: u64,
    other_now: u64,
)
    ensures
        ({
            let asked = if ready {
                seq!['/', 'r', 'e', 'a', 'd', 'y', 'z']
            } else {
                seq!['/', 'h', 'e', 'a', 'l', 't', 'h', 'z']
            };
            let (code, reason, body) = answer(seq!['G', 'E', 'T'], asked, mode, now);
            let (_, _, in_other_mode) = answer(seq!['G', 'E', 'T'], asked, other_mode, now);
            let (_, _, at_other_time) = answer(seq!['G', 'E', 'T'], asked, mode, other_now);
            &&& code == 200
            &&& reason == "OK"@
            &&& body == "{\"status\":\"ok\",\"mode\":\""@ + mode + "\",\"unix_time\":"@ + decimal(
                now as nat,
            ) + "}"@
            &&& body == in_other_mode ==> mode == other_mode
            &&& body == at_other_time ==> now == other_now
        }),
{
    lemma_literals();
    let asked = if ready {
        seq!['/', 'r', 'e', 'a', 'd', 'y', 'z']
    } else {
        seq!['/', 'h', 'e', 'a', 'l', 't', 'h', 'z']
    };
    let (_, _, body) = answer(seq!['G', 'E', 'T'], asked, mode, now);
    let (_, _, in_other_mode) = answer(seq!['G', 'E', 'T'], asked, other_mode, now);
    let (_, _, at_other_time) = answer(seq!['G', 'E', 'T'], asked, mode, other_now);
    let before = "{\"status\":\"ok\",\"mode\":\""@;
    let between = "\",\"unix_time\":"@;
    let written = decimal(now as nat);
    let tail = between + written + "}"@;
    let n = before.len() as int;
    assert(body =~= before + mode + tail);
    assert(in_other_mode =~= before + other_mode + tail);
    if body == in_other_mode {
        assert(mode.len() == other_mode.len());
        assert(mode =~= body.subrange(n, n + mode.len()));
        assert(other_mode =~= in_other_mode.subrange(n, n + mode.len()));
    }
    let front = before + mode + between;
    let other_written = decimal(other_now as nat);
    assert(body =~= front + written + "}"@);
    assert(at_other_time =~= front + other_written + "}"@);
    if body == at_other_time {
        let m = front.len() as int;
        assert(written.len() == other_written.len());
        assert(written =~= body.subrange(m, m + written.len()));
        assert(other_written =~= at_other_time.subrange(m, m + written.len()));
        law_decimal_says_number(now as nat);
        law_decimal_says_number(other_now as nat);
    }
}

/// Asked by `GET` for `/`, the program says what it is, in which mode it runs
/// and where to ask for its health: two modes are told apart by the body. The
/// time plays no part.
pub proof fn law_root_tells_mode(mode: Seq<char>, other_mode: Seq<char>, now: u64, other_now: u64)
    ensures
        ({
            let (code, reason, body) = answer(seq!['G', 'E', 'T'], seq!['/'], mode, now);
            let (_, _, in_other_mode) = answer(seq!['G', 'E', 'T'], seq!['/'], other_mode, other_now);
            &&& code == 200
            &&& reason == "OK"@
            &&& body == "{\"service\":\"aegis-edge-relay\",\"mode\":\""@ + mode
                + "\",\"health\":\"/healthz\"}"@
            &&& body == in_other_mode <==> mode == other_mode
        }),
{
    lemma_literals();
    assert(seq!['/'].len() == 1);
    assert(seq!['/', 'h', 'e', 'a', 'l', 't', 'h', 'z'].len() == 8);
    assert(seq!['/', 'r', 'e', 'a', 'd', 'y', 'z'].len() == 7);
    let (_, _, body) = answer(seq!['G', 'E', 'T'], seq!['/'], mode, now);
    let (_, _, in_other_mode) = answer(seq!['G', 'E', 'T'], seq!['/'], other_mode, other_now);
    let before = "{\"service\":\"aegis-edge-relay\",\"mode\":\""@;
    let tail = "\",\"health\":\"/healthz\"}"@;
    let n = before.len() as int;
    assert(body =~= before + mode + tail);
    assert(in_other_mode =~= before + other_mode + tail);
    if body == in_other_mode {
        assert(mode.len() == other_mode.len());
        assert(mode =~= body.subrange(n, n + mode.len()));
        assert(other_mode =~= in_other_mode.subrange(n, n + mode.len()));
    }
}

/// Any other path is not found, and any other method is not allowed, whatever
/// the path, in any mode and at any time.
pub proof fn law_other_requests_are_refused(
    asked_method: Seq<char>,
    asked_path: Seq<char>,
    mode: Seq<char>,
    now: u64,
)
    ensures
        asked_method != seq!['G', 'E', 'T'] ==> answer(asked_method, asked_path, mode, now) == (
            405u16,
            "Method Not Allowed"@,
            "{\"error\":\"method not allowed\"}"@,
        ),
        asked_method == seq!['G', 'E', 'T'] && asked_path != seq!['/', 'h', 'e', 'a', 'l', 't', 'h', 'z']
            && asked_path != seq!['/', 'r', 'e', 'a', 'd', 'y', 'z'] && asked_path != seq!['/']
            ==> answer(asked_method, asked_path, mode, now) == (
            404u16,
            "Not Found"@,
            "{\"error\":\"not found\"}"@,
        ),
{
    lemma_literals();
}

/// A response is a status line with the code and the reason, the three header
/// lines, the second of which says how many bytes the body takes, an empty line
/// and the body.
pub proof fn law_response_is_head_and_body(code: u16, reason: Seq<char>, body: Seq<char>)
    ensures
        response(code, reason, body) == "HTTP/1.1 "@ + decimal(code as nat) + " "@ + reason
            + "\r\nContent-Type: application/json\r\nContent-Length: "@ + decimal(
            encode_utf8(body).len(),
        ) + "\r\nConnection: close\r\n\r\n"@ + body,
        crate::text::number(decimal(code as nat)) == code,
        crate::text::number(decimal(encode_utf8(body).len())) == encode_utf8(body).len(),
{
    law_decimal_says_number(code as nat);
    law_decimal_says_number(encode_utf8(body).len());
}

/// What a request for `/healthz` or `/readyz` gets back, from the first
/// character to the last: whatever white space parts its words, and whatever
/// follows the path.
pub proof fn law_health_check_is_answered(
    ready: bool,
    gap: char,
    space: char,
    rest: Seq<char>,
    mode: Seq<char>,
    now: u64,
)
    requires
        white_space(gap) && gap != '\n',
        white_space(space),
    ensures
        ({
            let asked = if ready {
                seq!['/', 'r', 'e', 'a', 'd', 'y', 'z']
            } else {
                seq!['/', 'h', 'e', 'a', 'l', 't', 'h', 'z']
            };
            let request = seq!['G', 'E', 'T'] + seq![gap] + (asked + seq![space] + rest);
            let body = "{\"status\":\"ok\",\"mode\":\""@ + mode + "\",\"unix_time\":"@ + decimal(
                now as nat,
            ) + "}"@;
            reply(request, mode, now) == "HTTP/1.1 "@ + seq!['2', '0', '0'] + " "@ + "OK"@
                + "\r\nContent-Type: application/json\r\nContent-Length: "@ + decimal(
                encode_utf8(body).len(),
            ) + "\r\nConnection: close\r\n\r\n"@ + body
        }),
{
    let asked = if ready {
        seq!['/', 'r', 'e', 'a', 'd', 'y', 'z']
    } else {
        seq!['/', 'h', 'e', 'a', 'l', 't', 'h', 'z']
    };
    lemma_literals();
    law_request_line_decides(seq!['G', 'E', 'T'], gap, asked, space, rest);
    law_health_tells_mode_and_time(ready, mode, mode, now, now);
    reveal_with_fuel(decimal, 3);
    assert(decimal(200) =~= seq!['2', '0', '0']);
}

/// The reply is the response that goes with the method and the path.
pub proof fn law_reply_is_response_to_method_and_path(request: Seq<char>, mode: Seq<char>, now: u64)
    ensures
        ({
            let (code, reason, body) = answer(method(request), path(request), mode, now);
            reply(request, mode, now) == response(code, reason, body)
        }),
{
}

/// What [`health_reply`] returns when it is asked for `/healthz`, from the first
/// character to the last.
pub proof fn law_health_reply(
    request: &str,
    rest: Seq<char>,
    mode: &str,
    now: u64,
    replied: String,
)
    requires
        call_ensures(health_reply, (request, mode, now), replied),
        request@ == seq!['G', 'E', 'T'] + seq![' '] + (seq!['/', 'h', 'e', 'a', 'l', 't', 'h', 'z'] + seq![' '] + rest),
    ensures
        ({
            let body = "{\"status\":\"ok\",\"mode\":\""@ + mode@ + "\",\"unix_time\":"@ + decimal(
                now as nat,
            ) + "}"@;
            replied@ == "HTTP/1.1 "@ + seq!['2', '0', '0'] + " "@ + "OK"@
                + "\r\nContent-Type: application/json\r\nContent-Length: "@ + decimal(
                encode_utf8(body).len(),
            ) + "\r\nConnection: close\r\n\r\n"@ + body
        }),
{
    law_health_check_is_answered(false, ' ', ' ', rest, mode@, now);
}

/// What [`health_response`] returns: nothing for nothing, and for the bytes of a
/// text what [`health_reply`] returns for the text.
pub proof fn law_health_response(
    request: &[u8],
    text: &str,
    mode: &str,
    now: u64,
    response: Option<String>,
    replied: String,
)
    requires
        call_ensures(health_response, (request, mode, now), response),
        call_ensures(health_reply, (text, mode, now), replied),
        request@ == encode_utf8(text@),
    ensures
        text@.len() == 0 <==> response is None,
        response is Some ==> response->Some_0@ == replied@,
{
    encode_utf8_valid_utf8(text@);
    encode_utf8_decode_utf8(text@);
    if text@.len() > 0 && request@.len() == 0 {
        assert(decode_utf8(request@).len() == 0);
    }
}

/// What [`health_reply`] returns is the response that goes with the method and
/// the path in the request.
pub proof fn law_health_reply_by_method_and_path(
    request: &str,
    mode: &str,
    now: u64,
    replied: String,
)
    requires
        call_ensures(health_reply, (request, mode, now), replied),
    ensures
        ({
            let (code, reason, body) = answer(method(request@), path(request@), mode@, now);
            replied@ == response(code, reason, body)
        }),
{
}

/// What [`is_white_space`] returns.
pub proof fn law_is_white_space(c: char, white: bool)
    requires
        call_ensures(is_white_space, (c,), white),
    ensures
        white <==> {
            ||| 9 <= c as int <= 13
            ||| c as int == 0x20
            ||| c as int == 0x85
            ||| c as int == 0xa0
            ||| c as int == 0x1680
            ||| 0x2000 <= c as int <= 0x200a
            ||| c as int == 0x2028
            ||| c as int == 0x2029
            ||| c as int == 0x202f
            ||| c as int == 0x205f
            ||| c as int == 0x3000
        },
{
}

} // verus!
