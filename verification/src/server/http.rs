//! The part of HTTP that the server speaks: request heads, responses and event streams.

use crate::json;
use crate::json::Json;
use crate::text;
use crate::text::{chars_of, decimal, from_chars, parse_unsigned, same, to_lower};
use vstd::prelude::*;
use vstd::string::*;
use vstd::utf8::*;

verus! {

/// The most bytes that a request's head may have.
pub const HEAD_BYTES: usize = 16384;

/// Whether a character is white space.
pub open spec fn white(c: char) -> bool {
    ||| '\u{9}' <= c && c <= '\u{d}'
    ||| c == ' '
    ||| c == '\u{85}'
    ||| c == '\u{a0}'
    ||| c == '\u{1680}'
    ||| '\u{2000}' <= c && c <= '\u{200a}'
    ||| c == '\u{2028}'
    ||| c == '\u{2029}'
    ||| c == '\u{202f}'
    ||| c == '\u{205f}'
    ||| c == '\u{3000}'
}

fn is_white(c: char) -> (r: bool)
    ensures
        r == white(c),
{
    ('\u{9}' <= c && c <= '\u{d}') || c == ' ' || c == '\u{85}' || c == '\u{a0}' || c == '\u{1680}' || ('\u{2000}' <= c && c
        <= '\u{200a}') || c == '\u{2028}' || c == '\u{2029}' || c == '\u{202f}' || c == '\u{205f}' || c == '\u{3000}'
}

/// The words between the white space of a text.
pub open spec fn words(text: Seq<char>) -> Seq<Seq<char>>
    decreases text.len(),
{
    if text.len() == 0 {
        Seq::empty()
    } else {
        let before = words(text.drop_last());
        if white(text.last()) {
            before
        } else if text.len() == 1 || white(text[text.len() - 2]) {
            before.push(seq![text.last()])
        } else {
            before.drop_last().push(before.last().push(text.last()))
        }
    }
}

/// A text without the white space at its ends.
pub open spec fn trimmed(text: Seq<char>) -> Seq<char>
    decreases text.len(),
{
    if text.len() == 0 {
        text
    } else if white(text[0]) {
        trimmed(text.skip(1))
    } else if white(text.last()) {
        trimmed(text.drop_last())
    } else {
        text
    }
}

/// A text without the line's end.
pub open spec fn without_end(text: Seq<char>) -> Seq<char>
    decreases text.len(),
{
    if text.len() > 0 && (text.last() == '\r' || text.last() == '\n') {
        without_end(text.drop_last())
    } else {
        text
    }
}

/// Where a character first stands at or behind a place; the text's length where it does not.
pub open spec fn first_at(text: Seq<char>, c: char, from: int) -> int
    decreases text.len() - from,
{
    if from >= text.len() || text[from] == c {
        from
    } else {
        first_at(text, c, from + 1)
    }
}

fn trim(chars: &[char]) -> (r: String)
    ensures
        r@ == trimmed(chars@),
{
    let mut start: usize = 0;
    let mut end: usize = chars.len();
    assert(chars@.subrange(0, end as int) =~= chars@);
    while start < end && is_white(chars[start])
        invariant
            start <= end <= chars@.len(),
            trimmed(chars@.subrange(start as int, end as int)) == trimmed(chars@),
        decreases end - start,
    {
        assert(chars@.subrange(start as int, end as int).skip(1) =~= chars@.subrange(start + 1, end as int));
        start = start + 1;
    }
    while start < end && is_white(chars[end - 1])
        invariant
            start <= end <= chars@.len(),
            start < end ==> !white(chars@[start as int]),
            trimmed(chars@.subrange(start as int, end as int)) == trimmed(chars@),
        decreases end - start,
    {
        assert(chars@.subrange(start as int, end as int).drop_last() =~= chars@.subrange(start as int, end - 1));
        end = end - 1;
    }
    let kept = vstd::slice::slice_subrange(chars, start, end);
    from_chars(kept)
}

/// What lists of characters hold.
spec fn views(list: Seq<Vec<char>>) -> Seq<Seq<char>> {
    list.map_values(|v: Vec<char>| v@)
}

fn split_words(chars: &[char]) -> (r: Vec<Vec<char>>)
    ensures
        views(r@) == words(chars@),
{
    let mut out: Vec<Vec<char>> = Vec::new();
    let mut i: usize = 0;
    assert(chars@.take(0) =~= Seq::<char>::empty());
    assert(views(out@) =~= Seq::<Seq<char>>::empty());
    while i < chars.len()
        invariant
            i <= chars@.len(),
            views(out@) == words(chars@.take(i as int)),
            i > 0 && !white(chars@[i - 1]) ==> out@.len() > 0,
        decreases chars@.len() - i,
    {
        let ghost before = views(out@);
        proof {
            assert(chars@.take(i + 1).drop_last() =~= chars@.take(i as int));
            assert(chars@.take(i + 1).last() == chars@[i as int]);
            if i > 0 {
                assert(chars@.take(i + 1)[i - 1] == chars@[i - 1]);
            }
        }
        if !is_white(chars[i]) {
            if i == 0 || is_white(chars[i - 1]) {
                let mut word: Vec<char> = Vec::new();
                word.push(chars[i]);
                out.push(word);
                assert(views(out@) =~= before.push(seq![chars@[i as int]]));
            } else {
                let last: usize = out.len() - 1;
                let mut word: Vec<char> = Vec::new();
                std::mem::swap(&mut word, &mut out[last]);
                word.push(chars[i]);
                out.set(last, word);
                assert(views(out@) =~= before.drop_last().push(before.last().push(chars@[i as int])));
            }
        }
        i = i + 1;
    }
    assert(chars@.take(i as int) =~= chars@);
    out
}

/// The message with which `String::from_utf8` refuses bytes.
pub uninterp spec fn utf8_fault(bytes: Seq<u8>) -> Seq<char>;

/// `String::from_utf8` of the standard library: the text that bytes encode, or the error's
/// message where they encode none.
#[verifier::external_body]
fn decode(bytes: Vec<u8>) -> (r: Result<String, String>)
    ensures
        match r {
            Ok(s) => valid_utf8(bytes@) && s@ == decode_utf8(bytes@),
            Err(e) => !valid_utf8(bytes@) && e@ == utf8_fault(bytes@),
        },
{
    String::from_utf8(bytes).map_err(|e| e.to_string())
}

/// Why a request's head is refused.
#[derive(Debug)]
pub enum HeadError {
    Headers,
    NotText(String),
    RequestLine,
    Header,
    DuplicateLength,
    Length,
    TransferEncoding,
    Expect,
    /// A body larger than the server's limit.
    Body(usize),
}

impl HeadError {
    pub open spec fn text(self) -> Seq<char> {
        match self {
            HeadError::Headers => "invalid or oversized HTTP headers"@,
            HeadError::NotText(e) => e@,
            HeadError::RequestLine => "invalid request line"@,
            HeadError::Header => "invalid header"@,
            HeadError::DuplicateLength => "duplicate Content-Length"@,
            HeadError::Length => "invalid Content-Length"@,
            HeadError::TransferEncoding => "Transfer-Encoding is unsupported; send Content-Length"@,
            HeadError::Expect => "unsupported Expect"@,
            HeadError::Body(limit) => "request body exceeds server limit of "@ + text::decimal_of(limit as nat)
                + " bytes"@,
        }
    }

    pub fn message(&self) -> (r: String)
        ensures
            r@ == self.text(),
    {
        match self {
            HeadError::Headers => "invalid or oversized HTTP headers".to_owned(),
            HeadError::NotText(e) => e.clone(),
            HeadError::RequestLine => "invalid request line".to_owned(),
            HeadError::Header => "invalid header".to_owned(),
            HeadError::DuplicateLength => "duplicate Content-Length".to_owned(),
            HeadError::Length => "invalid Content-Length".to_owned(),
            HeadError::TransferEncoding => "Transfer-Encoding is unsupported; send Content-Length".to_owned(),
            HeadError::Expect => "unsupported Expect".to_owned(),
            HeadError::Body(limit) => {
                let mut out: String = "request body exceeds server limit of ".to_owned();
                out.append(decimal(*limit as u64).as_str());
                out.append(" bytes");
                out
            },
        }
    }
}

/// Whether bytes are a whole line that fits what is left for the head.
pub open spec fn whole_line(bytes: Seq<u8>, remaining: int) -> bool {
    0 < bytes.len() <= remaining && bytes.last() == 10
}

/// A line's text without its end.
pub open spec fn line_text(bytes: Seq<u8>) -> Seq<char> {
    without_end(decode_utf8(bytes))
}

/// Takes one line off what is left for the head.
pub fn line(bytes: &[u8], remaining: &mut usize) -> (r: Result<String, HeadError>)
    ensures
        match r {
            Ok(s) => {
                &&& whole_line(bytes@, *old(remaining) as int)
                &&& valid_utf8(bytes@)
                &&& s@ == line_text(bytes@)
                &&& *final(remaining) == *old(remaining) - bytes@.len()
            },
            Err(HeadError::Headers) => !whole_line(bytes@, *old(remaining) as int) && *final(remaining) == *old(
                remaining,
            ),
            Err(e) => {
                &&& e matches HeadError::NotText(m) && m@ == utf8_fault(bytes@)
                &&& whole_line(bytes@, *old(remaining) as int)
                &&& !valid_utf8(bytes@)
                &&& *final(remaining) == *old(remaining) - bytes@.len()
            },
        },
{
    let n: usize = bytes.len();
    if n == 0 || n > *remaining || bytes[n - 1] != 10 {
        return Err(HeadError::Headers);
    }
    *remaining = *remaining - n;
    let mut own: Vec<u8> = Vec::new();
    own.extend_from_slice(bytes);
    assert(own@ =~= bytes@);
    match decode(own) {
        Err(e) => Err(HeadError::NotText(e)),
        Ok(whole) => {
            let mut chars = chars_of(whole.as_str());
            while chars.len() > 0 && (chars[chars.len() - 1] == '\r' || chars[chars.len() - 1] == '\n')
                invariant
                    without_end(chars@) == without_end(whole@),
                decreases chars@.len(),
            {
                let ghost before = chars@;
                chars.pop();
                assert(chars@ =~= before.drop_last());
            }
            Ok(from_chars(chars.as_slice()))
        },
    }
}

/// What a request's head has said so far.
#[derive(Debug)]
pub struct Head {
    pub method: String,
    pub path: String,
    pub length: Option<usize>,
    pub expect: bool,
}

/// Whether a line is a request line of this version of HTTP.
pub open spec fn request_line(line: Seq<char>) -> bool {
    words(line).len() == 3 && "HTTP/1."@.is_prefix_of(words(line)[2])
}

/// A header's name, in small letters.
pub open spec fn header_name(line: Seq<char>) -> Seq<char> {
    text::lower(line.take(first_at(line, ':', 0)))
}

/// A header's value, without white space at its ends.
pub open spec fn header_value(line: Seq<char>) -> Seq<char> {
    trimmed(line.skip(first_at(line, ':', 0) + 1))
}

/// The length that a header's value stands for.
pub open spec fn length_value(value: Seq<char>) -> Option<usize> {
    match text::unsigned_value(value) {
        Some(n) => if n <= usize::MAX {
            Some(n as usize)
        } else {
            None
        },
        None => None,
    }
}

fn begins_with(chars: &Vec<char>, with: &str) -> (r: bool)
    ensures
        r == with@.is_prefix_of(chars@),
{
    let wanted = chars_of(with);
    if wanted.len() > chars.len() {
        return false;
    }
    let mut i: usize = 0;
    while i < wanted.len()
        invariant
            wanted@ == with@,
            i <= wanted@.len() <= chars@.len(),
            forall|k: int| 0 <= k < i ==> wanted@[k] == chars@[k],
        decreases wanted@.len() - i,
    {
        if wanted[i] != chars[i] {
            assert(chars@.subrange(0, wanted@.len() as int)[i as int] != wanted@[i as int]);
            return false;
        }
        i = i + 1;
    }
    assert(chars@.subrange(0, wanted@.len() as int) =~= wanted@);
    true
}

impl Head {
    /// Reads a request's first line.
    pub fn begin(line: &str) -> (r: Result<Head, HeadError>)
        ensures
            match r {
                Ok(h) => {
                    &&& request_line(line@)
                    &&& h.method@ == words(line@)[0]
                    &&& h.path@ == words(line@)[1]
                    &&& h.length is None
                    &&& !h.expect
                },
                Err(e) => e is RequestLine && !request_line(line@),
            },
    {
        let chars = chars_of(line);
        let parts = split_words(chars.as_slice());
        let ghost all = views(parts@);
        assert(all.len() == parts@.len());
        if parts.len() != 3 || !begins_with(&parts[2], "HTTP/1.") {
            assert(parts@.len() == 3 ==> all[2] == parts@[2]@);
            return Err(HeadError::RequestLine);
        }
        assert(all[0] == parts@[0]@ && all[1] == parts@[1]@ && all[2] == parts@[2]@);
        Ok(
            Head {
                method: from_chars(parts[0].as_slice()),
                path: from_chars(parts[1].as_slice()),
                length: None,
                expect: false,
            },
        )
    }

    /// Whether a header's error is the one that a line gives to the head so far.
    pub open spec fn refuses(self, line: Seq<char>, error: HeadError) -> bool {
        let name = header_name(line);
        let value = header_value(line);
        if first_at(line, ':', 0) == line.len() {
            error is Header
        } else if name == "content-length"@ {
            if self.length is Some {
                error is DuplicateLength
            } else {
                length_value(value) is None && error is Length
            }
        } else if name == "transfer-encoding"@ {
            error is TransferEncoding
        } else {
            name == "expect"@ && text::lower(value) != "100-continue"@ && error is Expect
        }
    }

    /// Whether a header is taken into the head.
    pub open spec fn takes(self, line: Seq<char>, after: Head) -> bool {
        let name = header_name(line);
        let value = header_value(line);
        &&& first_at(line, ':', 0) < line.len()
        &&& after.method@ == self.method@
        &&& after.path@ == self.path@
        &&& if name == "content-length"@ {
            self.length is None && length_value(value) is Some && after.length == length_value(value) && after.expect
                == self.expect
        } else if name == "expect"@ {
            text::lower(value) == "100-continue"@ && after.expect && after.length == self.length
        } else {
            name != "transfer-encoding"@ && after.expect == self.expect && after.length == self.length
        }
    }

    /// Reads one header.
    pub fn header(&mut self, line: &str) -> (r: Result<(), HeadError>)
        ensures
            match r {
                Ok(()) => old(self).takes(line@, *final(self)),
                Err(e) => old(self).refuses(line@, e) && *final(self) == *old(self),
            },
    {
        let ghost start = *self;
        proof {
            reveal_strlit("content-length");
            reveal_strlit("transfer-encoding");
            reveal_strlit("expect");
            assert("content-length"@.len() != "transfer-encoding"@.len());
            assert("content-length"@.len() != "expect"@.len());
            assert("transfer-encoding"@.len() != "expect"@.len());
        }
        let chars = chars_of(line);
        let mut colon: usize = 0;
        while colon < chars.len() && chars[colon] != ':'
            invariant
                chars@ == line@,
                colon <= chars@.len(),
                first_at(line@, ':', 0) == first_at(line@, ':', colon as int),
            decreases chars@.len() - colon,
        {
            colon = colon + 1;
        }
        if colon == chars.len() {
            return Err(HeadError::Header);
        }
        let name: String = to_lower(vstd::slice::slice_subrange(chars.as_slice(), 0, colon));
        let value: String = trim(vstd::slice::slice_subrange(chars.as_slice(), colon + 1, chars.len()));
        assert(line@.subrange(0, colon as int) =~= line@.take(colon as int));
        assert(line@.subrange(colon + 1, line@.len() as int) =~= line@.skip(colon + 1));
        if same(name.as_str(), "content-length") {
            if self.length.is_some() {
                return Err(HeadError::DuplicateLength);
            }
            match parse_unsigned(value.as_str()) {
                Some(n) => self.length = Some(n),
                None => return Err(HeadError::Length),
            }
        } else if same(name.as_str(), "transfer-encoding") {
            return Err(HeadError::TransferEncoding);
        } else if same(name.as_str(), "expect") {
            let wanted = chars_of(value.as_str());
            if !same(to_lower(wanted.as_slice()).as_str(), "100-continue") {
                return Err(HeadError::Expect);
            }
            self.expect = true;
        }
        Ok(())
    }

    /// The length of the body that follows, under a limit.
    pub fn body_length(&self, max_body: usize) -> (r: Result<usize, HeadError>)
        ensures
            ({
                let length = match self.length {
                    Some(n) => n,
                    None => 0,
                };
                match r {
                    Ok(n) => n == length && n <= max_body,
                    Err(e) => e == HeadError::Body(max_body) && length > max_body,
                }
            }),
    {
        let length: usize = match self.length {
            Some(n) => n,
            None => 0,
        };
        if length > max_body {
            return Err(HeadError::Body(max_body));
        }
        Ok(length)
    }
}

/// How far the reading of a head has come, with the bytes that are left for it.
#[derive(Debug)]
pub enum Reading {
    First(usize),
    Headers(Head, usize),
    Complete(Head),
}

impl Reading {
    /// Nothing has been read yet.
    pub fn start() -> (r: Reading)
        ensures
            r == Reading::First(HEAD_BYTES),
    {
        Reading::First(HEAD_BYTES)
    }

    /// The bytes that are left for the head.
    pub open spec fn left(self) -> usize {
        match self {
            Reading::First(n) => n,
            Reading::Headers(_, n) => n,
            Reading::Complete(_) => 0,
        }
    }

    pub fn remaining(&self) -> (r: usize)
        ensures
            r == self.left(),
    {
        match self {
            Reading::First(n) => *n,
            Reading::Headers(_, n) => *n,
            Reading::Complete(_) => 0,
        }
    }

    /// Whether a line leads from one state to the next: the first line names method and
    /// path, each further one is a header, and an empty one ends the head.
    pub open spec fn follows(self, bytes: Seq<u8>, next: Reading) -> bool {
        &&& whole_line(bytes, self.left() as int)
        &&& valid_utf8(bytes)
        &&& match self {
            Reading::First(n) => {
                &&& next matches Reading::Headers(h, left)
                &&& left == n - bytes.len()
                &&& request_line(line_text(bytes))
                &&& h.method@ == words(line_text(bytes))[0]
                &&& h.path@ == words(line_text(bytes))[1]
                &&& h.length is None
                &&& !h.expect
            },
            Reading::Headers(h, n) => if line_text(bytes).len() == 0 {
                next == Reading::Complete(h)
            } else {
                &&& next matches Reading::Headers(after, left)
                &&& left == n - bytes.len()
                &&& h.takes(line_text(bytes), after)
            },
            Reading::Complete(_) => false,
        }
    }

    /// Whether a line ends the reading with an error.
    pub open spec fn fails(self, bytes: Seq<u8>, error: HeadError) -> bool {
        if !whole_line(bytes, self.left() as int) {
            error is Headers
        } else if !valid_utf8(bytes) {
            error matches HeadError::NotText(m) && m@ == utf8_fault(bytes)
        } else {
            match self {
                Reading::First(_) => error is RequestLine && !request_line(line_text(bytes)),
                Reading::Headers(h, _) => line_text(bytes).len() > 0 && h.refuses(line_text(bytes), error),
                Reading::Complete(_) => false,
            }
        }
    }

    /// Reads one line: up to its end, or one byte more than may be left where it has none.
    pub fn advance(self, bytes: &[u8]) -> (r: Result<Reading, HeadError>)
        requires
            !(self is Complete),
        ensures
            match r {
                Ok(next) => self.follows(bytes@, next),
                Err(e) => self.fails(bytes@, e),
            },
    {
        match self {
            Reading::First(n) => {
                let mut left: usize = n;
                let text: String = match line(bytes, &mut left) {
                    Ok(text) => text,
                    Err(e) => return Err(e),
                };
                match Head::begin(text.as_str()) {
                    Ok(head) => Ok(Reading::Headers(head, left)),
                    Err(e) => Err(e),
                }
            },
            Reading::Headers(h, n) => {
                let mut left: usize = n;
                let text: String = match line(bytes, &mut left) {
                    Ok(text) => text,
                    Err(e) => return Err(e),
                };
                if text.as_str().is_empty() {
                    return Ok(Reading::Complete(h));
                }
                let mut head = h;
                match head.header(text.as_str()) {
                    Ok(()) => Ok(Reading::Headers(head, left)),
                    Err(e) => Err(e),
                }
            },
            Reading::Complete(h) => Ok(Reading::Complete(h)),
        }
    }
}

/// What a status means.
pub open spec fn reason_of(status: u16) -> Seq<char> {
    if status == 200 {
        "OK"@
    } else if status == 400 {
        "Bad Request"@
    } else if status == 404 {
        "Not Found"@
    } else if status == 503 {
        "Service Unavailable"@
    } else {
        "Internal Server Error"@
    }
}

fn reason(status: u16) -> (r: &'static str)
    ensures
        r@ == reason_of(status),
{
    match status {
        200 => "OK",
        400 => "Bad Request",
        404 => "Not Found",
        503 => "Service Unavailable",
        _ => "Internal Server Error",
    }
}

/// The head of a response with a body of so many bytes.
pub open spec fn response_head(status: u16, length: nat) -> Seq<char> {
    "HTTP/1.1 "@ + text::decimal_of(status as nat) + " "@ + reason_of(status)
        + "\r\nContent-Type: application/json\r\nContent-Length: "@ + text::decimal_of(length)
        + "\r\nConnection: close\r\n\r\n"@
}

/// The bytes of a response with a body.
pub fn response(status: u16, body: &[u8]) -> (r: Vec<u8>)
    ensures
        r@ == encode_utf8(response_head(status, body@.len())) + body@,
{
    let mut head: String = "HTTP/1.1 ".to_owned();
    head.append(decimal(status as u64).as_str());
    head.append(" ");
    head.append(reason(status));
    head.append("\r\nContent-Type: application/json\r\nContent-Length: ");
    head.append(decimal(body.len() as u64).as_str());
    head.append("\r\nConnection: close\r\n\r\n");
    let mut out: Vec<u8> = Vec::new();
    out.extend_from_slice(head.as_str().as_bytes());
    out.extend_from_slice(body);
    assert(out@ =~= encode_utf8(response_head(status, body@.len())) + body@);
    out
}

/// The bytes of a response, or the reason why its body cannot be written.
pub fn respond(status: u16, body: &Json) -> (r: Result<Vec<u8>, String>)
    ensures
        match json::json_bytes(body.tree()) {
            Ok(bytes) => r matches Ok(out) && out@ == encode_utf8(response_head(status, bytes.len())) + bytes,
            Err(e) => r matches Err(f) && f@ == e,
        },
{
    match json::write(body) {
        Ok(bytes) => Ok(response(status, bytes.as_slice())),
        Err(e) => Err(e),
    }
}

/// The bytes of an event of a stream.
pub fn event(body: &[u8]) -> (r: Vec<u8>)
    ensures
        r@ == encode_utf8("data: "@) + body@ + seq![10u8, 10u8],
{
    let mut out: Vec<u8> = Vec::new();
    out.extend_from_slice("data: ".as_bytes());
    out.extend_from_slice(body);
    out.push(10);
    out.push(10);
    assert(out@ =~= encode_utf8("data: "@) + body@ + seq![10u8, 10u8]);
    out
}

/// The bytes of an event of a stream, or the reason why its body cannot be written.
pub fn sse(body: &Json) -> (r: Result<Vec<u8>, String>)
    ensures
        match json::json_bytes(body.tree()) {
            Ok(bytes) => r matches Ok(out) && out@ == encode_utf8("data: "@) + bytes + seq![10u8, 10u8],
            Err(e) => r matches Err(f) && f@ == e,
        },
{
    match json::write(body) {
        Ok(bytes) => Ok(event(bytes.as_slice())),
        Err(e) => Err(e),
    }
}

/// What is sent before the body to a client that waits for leave.
pub fn leave() -> (r: &'static str)
    ensures
        r@ == "HTTP/1.1 100 Continue\r\n\r\n"@,
{
    "HTTP/1.1 100 Continue\r\n\r\n"
}

/// However many lines a head has, together they have no more bytes than a head may have.
pub proof fn law_head_bounded(lines: Seq<Seq<u8>>, states: Seq<Reading>)
    requires
        states.len() == lines.len() + 1,
        states[0] == Reading::First(HEAD_BYTES),
        forall|i: int| 0 <= i < lines.len() ==> (#[trigger] states[i]).follows(lines[i], states[i + 1]),
    ensures
        total_bytes(lines) <= HEAD_BYTES,
        !(states.last() is Complete) ==> total_bytes(lines) + states.last().left() == HEAD_BYTES,
    decreases lines.len(),
{
    if lines.len() > 0 {
        let n = lines.len() - 1;
        let shorter = states.drop_last();
        assert forall|i: int| 0 <= i < n implies (#[trigger] shorter[i]).follows(lines.drop_last()[i], shorter[i + 1]) by {
            assert(states[i].follows(lines[i], states[i + 1]));
        }
        law_head_bounded(lines.drop_last(), shorter);
        assert(states[n].follows(lines[n], states[n + 1]));
    }
}

/// The bytes of lines together.
pub open spec fn total_bytes(lines: Seq<Seq<u8>>) -> nat
    decreases lines.len(),
{
    if lines.len() == 0 {
        0
    } else {
        total_bytes(lines.drop_last()) + lines.last().len()
    }
}

/// White space adds no word, and a word behind white space is the next one.
pub proof fn law_words_split(text: Seq<char>, gap: Seq<char>, word: Seq<char>)
    requires
        forall|i: int| 0 <= i < gap.len() ==> white(#[trigger] gap[i]),
        forall|i: int| 0 <= i < word.len() ==> !white(#[trigger] word[i]),
        text.len() == 0 || gap.len() > 0,
    ensures
        words(text + gap) == words(text),
        word.len() > 0 ==> words(text + gap + word) == words(text).push(word),
    decreases gap.len() + word.len(),
{
    let whole = text + gap + word;
    if word.len() > 0 {
        let shorter = word.drop_last();
        assert forall|i: int| 0 <= i < shorter.len() implies !white(#[trigger] shorter[i]) by {
            assert(shorter[i] == word[i]);
        }
        law_words_split(text, gap, shorter);
        assert(whole.drop_last() =~= text + gap + shorter);
        assert(whole.last() == word.last());
        if shorter.len() > 0 {
            assert(whole[whole.len() - 2] == word[word.len() - 2]);
            let before = words(text + gap + shorter);
            assert(before.drop_last() =~= words(text));
            assert(before.last().push(word.last()) =~= word);
        } else {
            assert(text + gap + shorter =~= text + gap);
            if whole.len() > 1 {
                if gap.len() > 0 {
                    assert(whole[whole.len() - 2] == gap.last());
                }
            }
            assert(seq![whole.last()] =~= word);
        }
    } else if gap.len() > 0 {
        let less = gap.drop_last();
        assert forall|i: int| 0 <= i < less.len() implies white(#[trigger] less[i]) by {
            assert(less[i] == gap[i]);
        }
        assert((text + gap).drop_last() =~= text + less);
        assert((text + gap).last() == gap.last());
        if less.len() > 0 || text.len() == 0 {
            law_words_split(text, less, word);
        } else {
            assert(text + less =~= text);
        }
    } else {
        assert(text + gap =~= text);
    }
}

/// What is left of a trimmed text is one stretch of it, with white space alone before and behind
/// and none at its own ends.
pub proof fn law_trimmed(text: Seq<char>) -> (ends: (int, int))
    ensures
        0 <= ends.0 <= ends.1 <= text.len(),
        trimmed(text) == text.subrange(ends.0, ends.1),
        forall|i: int| 0 <= i < ends.0 ==> white(#[trigger] text[i]),
        forall|i: int| ends.1 <= i < text.len() ==> white(#[trigger] text[i]),
        ends.0 < ends.1 ==> !white(text[ends.0]) && !white(text[ends.1 - 1]),
    decreases text.len(),
{
    if text.len() == 0 {
        assert(text.subrange(0, 0) =~= text);
        (0, 0)
    } else if white(text[0]) {
        let inner = text.skip(1);
        let e = law_trimmed(inner);
        assert(inner.subrange(e.0, e.1) =~= text.subrange(e.0 + 1, e.1 + 1));
        assert forall|i: int| 0 <= i < e.0 + 1 implies white(#[trigger] text[i]) by {
            if i > 0 {
                assert(white(inner[i - 1]));
            }
        }
        assert forall|i: int| e.1 + 1 <= i < text.len() implies white(#[trigger] text[i]) by {
            assert(white(inner[i - 1]));
        }
        (e.0 + 1, e.1 + 1)
    } else if white(text.last()) {
        let inner = text.drop_last();
        let e = law_trimmed(inner);
        assert(inner.subrange(e.0, e.1) =~= text.subrange(e.0, e.1));
        assert forall|i: int| 0 <= i < e.0 implies white(#[trigger] text[i]) by {
            assert(white(inner[i]));
        }
        assert forall|i: int| e.1 <= i < text.len() implies white(#[trigger] text[i]) by {
            if i < text.len() - 1 {
                assert(white(inner[i]));
            }
        }
        (e.0, e.1)
    } else {
        assert(text.subrange(0, text.len() as int) =~= text);
        (0, text.len() as int)
    }
}

/// A line loses the carriage returns and line feeds at its end, and nothing else.
pub proof fn law_without_end(text: Seq<char>)
    ensures
        without_end(text).len() <= text.len(),
        without_end(text) == text.take(without_end(text).len() as int),
        forall|i: int| without_end(text).len() <= i < text.len() ==> #[trigger] text[i] == '\r' || text[i] == '\n',
        without_end(text).len() > 0 ==> without_end(text).last() != '\r' && without_end(text).last() != '\n',
    decreases text.len(),
{
    if text.len() > 0 && (text.last() == '\r' || text.last() == '\n') {
        let shorter = text.drop_last();
        law_without_end(shorter);
        let n = without_end(text).len() as int;
        assert(shorter.take(n) =~= text.take(n));
        assert forall|i: int| n <= i < text.len() implies #[trigger] text[i] == '\r' || text[i] == '\n' by {
            if i < text.len() - 1 {
                assert(shorter[i] == text[i]);
            }
        }
    } else {
        assert(text.take(text.len() as int) =~= text);
    }
}

/// The first place of a character: it stands there, or nowhere, and not before.
pub proof fn law_first_at(text: Seq<char>, c: char, from: int)
    requires
        0 <= from <= text.len(),
    ensures
        from <= first_at(text, c, from) <= text.len(),
        first_at(text, c, from) < text.len() ==> text[first_at(text, c, from)] == c,
        forall|i: int| from <= i < first_at(text, c, from) ==> #[trigger] text[i] != c,
    decreases text.len() - from,
{
    if from < text.len() && text[from] != c {
        law_first_at(text, c, from + 1);
    }
}

/// A request line has exactly a method, a path and a version that begins with HTTP/1., with white
/// space between them.
pub proof fn law_request_line(
    method: Seq<char>,
    path: Seq<char>,
    version: Seq<char>,
    gaps: (Seq<char>, Seq<char>),
    line: &str,
    r: Result<Head, HeadError>,
)
    requires
        call_ensures(Head::begin, (line,), r),
        line@ == method + gaps.0 + path + gaps.1 + version,
        method.len() > 0 && path.len() > 0 && version.len() > 0,
        gaps.0.len() > 0 && gaps.1.len() > 0,
        forall|i: int| 0 <= i < gaps.0.len() ==> white(#[trigger] gaps.0[i]),
        forall|i: int| 0 <= i < gaps.1.len() ==> white(#[trigger] gaps.1[i]),
        forall|i: int| 0 <= i < method.len() ==> !white(#[trigger] method[i]),
        forall|i: int| 0 <= i < path.len() ==> !white(#[trigger] path[i]),
        forall|i: int| 0 <= i < version.len() ==> !white(#[trigger] version[i]),
    ensures
        r is Ok <==> "HTTP/1."@.is_prefix_of(version),
        r matches Ok(h) ==> h.method@ == method && h.path@ == path && h.length is None && !h.expect,
        r matches Err(e) ==> e is RequestLine,
{
    let none = Seq::<char>::empty();
    law_words_split(none, none, method);
    assert(none + none + method =~= method);
    law_words_split(method, gaps.0, path);
    law_words_split(method + gaps.0 + path, gaps.1, version);
    assert(words(line@) =~= seq![method, path, version]);
}

/// A header is a name and a value with a colon between them. A length may be named once and is a
/// number; a transfer encoding is refused; only leave to continue may be expected. Any other
/// header changes nothing.
pub proof fn law_header(h: &mut Head, line: &str, r: Result<(), HeadError>)
    requires
        call_ensures(Head::header, (h, line), r),
    ensures
        ({
            let colon = first_at(line@, ':', 0);
            let name = text::lower(line@.take(colon));
            let value = trimmed(line@.skip(colon + 1));
            let number = text::unsigned_value(value);
            &&& !line@.contains(':') ==> r is Err && r->Err_0 is Header
            &&& r is Err ==> *final(h) == *old(h)
            &&& line@.contains(':') ==> {
                &&& name == "content-length"@ && old(h).length is Some ==> r is Err && r->Err_0 is DuplicateLength
                &&& name == "content-length"@ && old(h).length is None && number is Some && number->0 <= usize::MAX ==> {
                    &&& r is Ok
                    &&& final(h).length == Some(number->0 as usize)
                    &&& final(h).expect == old(h).expect
                }
                &&& name == "content-length"@ && old(h).length is None && (number is None || number->0 > usize::MAX)
                    ==> r is Err && r->Err_0 is Length
                &&& name == "transfer-encoding"@ ==> r is Err && r->Err_0 is TransferEncoding
                &&& name == "expect"@ && text::lower(value) == "100-continue"@ ==> r is Ok && final(h).expect
                    && final(h).length == old(h).length
                &&& name == "expect"@ && text::lower(value) != "100-continue"@ ==> r is Err && r->Err_0 is Expect
                &&& name != "content-length"@ && name != "transfer-encoding"@ && name != "expect"@ ==> {
                    &&& r is Ok
                    &&& final(h).length == old(h).length
                    &&& final(h).expect == old(h).expect
                }
            }
            &&& final(h).method@ == old(h).method@
            &&& final(h).path@ == old(h).path@
        }),
{
    reveal_strlit("content-length");
    reveal_strlit("transfer-encoding");
    reveal_strlit("expect");
    assert("content-length"@.len() == 14 && "transfer-encoding"@.len() == 17 && "expect"@.len() == 6);
    law_first_at(line@, ':', 0);
    let colon = first_at(line@, ':', 0);
    if colon < line@.len() {
        assert(line@.contains(line@[colon]));
    } else {
        assert(!line@.contains(':'));
    }
}

/// A body's length is the one that was named, and none where none was; it is refused exactly where
/// it exceeds the limit.
pub proof fn law_body_length(h: Head, max_body: usize, r: Result<usize, HeadError>)
    requires
        call_ensures(Head::body_length, (&h, max_body), r),
    ensures
        h.length is None ==> r == Ok::<usize, HeadError>(0),
        h.length matches Some(n) ==> (r is Ok <==> n <= max_body),
        h.length is Some && r is Ok ==> r == Ok::<usize, HeadError>(h.length->0),
        r matches Err(e) ==> e == HeadError::Body(max_body),
{
}

/// Lines are read into a head of at most 16384 bytes, each with its line feed; an empty line ends
/// it, and each line costs its bytes.
pub proof fn law_head_reading(state: Reading, bytes: &[u8], r: Result<Reading, HeadError>)
    requires
        call_ensures(Reading::advance, (state, bytes), r),
        !(state is Complete),
    ensures
        r is Ok ==> bytes@.len() > 0 && bytes@.last() == 10 && bytes@.len() <= state.left(),
        r matches Ok(Reading::Headers(h, left)) ==> left == state.left() - bytes@.len(),
        r matches Ok(next) ==> !(next is First),
        r matches Ok(Reading::Complete(h)) ==> state is Headers && h == state->Headers_0 && forall|i: int|
            0 <= i < decode_utf8(bytes@).len() ==> #[trigger] decode_utf8(bytes@)[i] == '\r' || decode_utf8(bytes@)[i]
                == '\n',
        bytes@.len() == 0 || bytes@.last() != 10 || bytes@.len() > state.left() ==> r is Err && r->Err_0 is Headers,
{
    law_without_end(decode_utf8(bytes@));
}

/// Nothing but the limit of 16384 bytes is known before the first line.
pub proof fn law_reading_starts(r: Reading)
    requires
        call_ensures(Reading::start, (), r),
    ensures
        r == Reading::First(16384),
{
}

/// A response names its status and the length of its body, and ends with the body.
pub proof fn law_response(status: u16, body: &[u8], r: Vec<u8>)
    requires
        call_ensures(response, (status, body), r),
    ensures
        ({
            let reason = if status == 200 {
                "OK"@
            } else if status == 400 {
                "Bad Request"@
            } else if status == 404 {
                "Not Found"@
            } else if status == 503 {
                "Service Unavailable"@
            } else {
                "Internal Server Error"@
            };
            r@ == encode_utf8(
                "HTTP/1.1 "@ + text::decimal_of(status as nat) + " "@ + reason
                    + "\r\nContent-Type: application/json\r\nContent-Length: "@ + text::decimal_of(body@.len())
                    + "\r\nConnection: close\r\n\r\n"@,
            ) + body@
        }),
{
}

/// An event is its data between its name and an empty line.
pub proof fn law_event(body: &[u8], r: Vec<u8>)
    requires
        call_ensures(event, (body,), r),
    ensures
        r@.len() == encode_utf8("data: "@).len() + body@.len() + 2,
        r@.last() == 10 && r@[r@.len() - 2] == 10,
        r@.subrange(encode_utf8("data: "@).len() as int, r@.len() - 2) == body@,
        r@.take(encode_utf8("data: "@).len() as int) == encode_utf8("data: "@),
{
    let head = encode_utf8("data: "@);
    assert(r@.subrange(head.len() as int, r@.len() - 2) =~= body@);
    assert(r@.take(head.len() as int) =~= head);
}

} // verus!
