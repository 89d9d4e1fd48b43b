//! HTTP/1.1 on the wire: the requests the server reads and the replies it writes.

use vstd::prelude::*;
use vstd::utf8::*;
use crate::json::{decimal, decimal_text};
use crate::text::str_eq;

verus! {

/// A request as the server reads it off the wire.
#[derive(Debug)]
pub struct HttpRequest {
    /// The method token, such as `POST`.
    pub method: String,
    /// The path of the request target (without its query).
    pub path: String,
    /// The header fields in the order they came, names in lower case.
    pub headers: Vec<(String, Vec<u8>)>,
    /// The body: as many bytes as the Content-Length field gave.
    pub body: Vec<u8>,
}

/// A letter of `c` in lower case, where it is an ASCII capital.
pub open spec fn lower_char(c: char) -> char {
    if 'A' <= c && c <= 'Z' {
        ((c as u32) + 32) as char
    } else {
        c
    }
}

/// `s` with its ASCII capitals in lower case.
pub open spec fn ascii_lower(s: Seq<char>) -> Seq<char> {
    s.map_values(|c: char| lower_char(c))
}

/// A character that a header name may hold: an ASCII letter or digit, or one of
/// `! " # $ % & ' * + - . ^ _ | ~` and the backtick.
pub open spec fn is_header_char(c: char) -> bool {
    ||| ('a' <= c && c <= 'z')
    ||| ('A' <= c && c <= 'Z')
    ||| ('0' <= c && c <= '9')
    ||| c == '!' || c == '"' || c == '#' || c == '$' || c == '%' || c == '&' || c == '\''
    ||| c == '*' || c == '+' || c == '-' || c == '.' || c == '^' || c == '_' || c == '`'
    ||| c == '|' || c == '~'
}

/// Every character of `s` may stand in a header name.
pub open spec fn all_header_chars(s: Seq<char>) -> bool {
    forall|i: int| 0 <= i < s.len() ==> is_header_char(#[trigger] s[i])
}

/// What `http::header::HeaderName::from_bytes` makes of a name: where the name is not empty
/// and every character may stand in a header name, the name in lower case; otherwise none.
pub open spec fn canonical_header_name(name: Seq<char>) -> Option<Seq<char>> {
    if name.len() >= 1 && all_header_chars(name) {
        Some(ascii_lower(name))
    } else {
        None
    }
}

/// A header name short enough for the http crate: under 64 KiB.
pub open spec fn name_fits(name: Seq<char>) -> bool {
    encode_utf8(name).len() < 0x10000
}

/// `http::header::HeaderName::from_bytes` (which panics on names of 64 KiB or more): the
/// name in lower case where it is not empty and every byte is one that the crate's table of
/// header-name characters holds, and none otherwise.
#[verifier::external_body]
pub(crate) fn header_name(name: &str) -> (r: Option<String>)
    requires
        name_fits(name@),
    ensures
        r matches Some(s) ==> canonical_header_name(name@) == Some(s@),
        r is None ==> canonical_header_name(name@) is None,
{
    http::header::HeaderName::from_bytes(name.as_bytes()).ok().map(|h| h.as_str().to_string())
}

/// The reason phrase that the http crate gives a status code, where it knows one.
pub uninterp spec fn canonical_reason_of(code: u16) -> Option<Seq<char>>;

/// `http::StatusCode::canonical_reason` of the status `code` (between 100 and 599, as
/// `StatusCode::from_u16` accepts): the reason phrase, such as "OK" for 200, "Bad Request"
/// for 400 and "Not Found" for 404, or none for a code without one.
#[verifier::external_body]
pub(crate) fn status_reason(code: u16) -> (r: Option<String>)
    requires
        100 <= code && code <= 599,
    ensures
        r matches Some(s) ==> canonical_reason_of(code) == Some(s@),
        r is None ==> canonical_reason_of(code) is None,
        code == 200 ==> r is Some && r->0@ == "OK"@,
        code == 400 ==> r is Some && r->0@ == "Bad Request"@,
        code == 404 ==> r is Some && r->0@ == "Not Found"@,
{
    http::StatusCode::from_u16(code).ok().and_then(|c| c.canonical_reason()).map(|s| s.to_string())
}

/// How a status shows on the status line: its code and its reason phrase.
pub open spec fn status_text(code: u16) -> Seq<char> {
    decimal(code as nat) + " "@ + match canonical_reason_of(code) {
        Some(reason) => reason,
        None => "<unknown status code>"@,
    }
}

/// The status line of a reply and the fields that every reply carries.
pub open spec fn head_text(code: u16, body_len: nat) -> Seq<char> {
    "HTTP/1.1 "@ + status_text(code) + "\r\nServer: Example\r\nContent-Length: "@ + decimal(body_len) + "\r\n"@
}

/// The header fields of a reply, each as `name: value` and a line end.
pub open spec fn header_bytes(hs: Seq<(Seq<char>, Seq<char>)>) -> Seq<u8>
    decreases hs.len(),
{
    if hs.len() == 0 {
        Seq::empty()
    } else {
        header_bytes(hs.drop_last()) + encode_utf8(hs.last().0) + encode_utf8(": "@) + encode_utf8(hs.last().1)
            + encode_utf8("\r\n"@)
    }
}

/// The bytes of a whole reply: head, header fields, an empty line, and the body.
pub open spec fn reply_bytes(code: u16, hs: Seq<(Seq<char>, Seq<char>)>, body: Seq<char>) -> Seq<u8> {
    encode_utf8(head_text(code, encode_utf8(body).len())) + header_bytes(hs) + encode_utf8("\r\n"@)
        + encode_utf8(body)
}

/// The line that a header field takes up in a reply: `name: value` and a line end.
pub open spec fn field_line(h: (Seq<char>, Seq<char>)) -> Seq<u8> {
    encode_utf8(h.0) + encode_utf8(": "@) + encode_utf8(h.1) + encode_utf8("\r\n"@)
}

/// A reply without header fields is its head, an empty line and the body; and each further
/// field adds its line just before the empty line, after the fields already there, so every
/// field is written, in order.
pub proof fn lemma_reply_holds_every_field(
    code: u16,
    hs: Seq<(Seq<char>, Seq<char>)>,
    h: (Seq<char>, Seq<char>),
    body: Seq<char>,
)
    ensures
        reply_bytes(code, Seq::empty(), body) == encode_utf8(head_text(code, encode_utf8(body).len()))
            + encode_utf8("\r\n"@) + encode_utf8(body),
        ({
            let before = reply_bytes(code, hs, body);
            let n = before.len() - encode_utf8("\r\n"@).len() - encode_utf8(body).len();
            &&& 0 <= n <= before.len()
            &&& reply_bytes(code, hs.push(h), body) == before.take(n) + field_line(h) + before.skip(n)
        }),
{
    let head = encode_utf8(head_text(code, encode_utf8(body).len()));
    let tail = encode_utf8("\r\n"@) + encode_utf8(body);
    assert(header_bytes(Seq::<(Seq<char>, Seq<char>)>::empty()) =~= Seq::<u8>::empty());
    assert(reply_bytes(code, Seq::empty(), body) =~= head + tail);
    let fs = header_bytes(hs);
    assert(hs.push(h).drop_last() =~= hs);
    assert(header_bytes(hs.push(h)) =~= fs + field_line(h));
    let before = reply_bytes(code, hs, body);
    assert(before =~= (head + fs) + tail);
    let n = before.len() - encode_utf8("\r\n"@).len() - encode_utf8(body).len();
    assert(n == head.len() + fs.len());
    assert(before.take(n) =~= head + fs);
    assert(before.skip(n) =~= tail);
    assert(reply_bytes(code, hs.push(h), body) =~= (head + fs) + field_line(h) + tail);
}

/// The header fields of a reply as text.
pub open spec fn fields_view(hs: Seq<(String, String)>) -> Seq<(Seq<char>, Seq<char>)> {
    hs.map_values(|h: (String, String)| (h.0@, h.1@))
}

fn put_bytes(dst: &mut Vec<u8>, bytes: &[u8])
    ensures
        final(dst)@ == old(dst)@ + bytes@,
{
    let mut i: usize = 0;
    while i < bytes.len()
        invariant
            0 <= i <= bytes@.len(),
            dst@ == old(dst)@ + bytes@.take(i as int),
        decreases bytes@.len() - i,
    {
        dst.push(bytes[i]);
        assert(bytes@.take(i + 1) =~= bytes@.take(i as int).push(bytes@[i as int]));
        i = i + 1;
    }
    assert(bytes@.take(bytes@.len() as int) =~= bytes@);
}

fn put_text(dst: &mut Vec<u8>, text: &str)
    ensures
        final(dst)@ == old(dst)@ + encode_utf8(text@),
{
    put_bytes(dst, text.as_bytes());
}

/// Writes an HTTP/1.1 reply with the given status, header fields and body onto `dst`:
/// the status line, a `Server` and a `Content-Length` field, the header fields, an empty
/// line and the body.
pub fn encode(status: u16, headers: &Vec<(String, String)>, body: &str, dst: &mut Vec<u8>)
    requires
        100 <= status < 600,
    ensures
        final(dst)@ == old(dst)@ + reply_bytes(status, fields_view(headers@), body@),
{
    let mut head = String::from_str("HTTP/1.1 ");
    let code = decimal_text(status as u64);
    head.append(code.as_str());
    head.append(" ");
    match status_reason(status) {
        Some(reason) => head.append(reason.as_str()),
        None => head.append("<unknown status code>"),
    }
    assert(head@ =~= "HTTP/1.1 "@ + status_text(status));
    head.append("\r\nServer: Example\r\nContent-Length: ");
    let n = body.as_bytes().len();
    assert(n == encode_utf8(body@).len());
    let len = decimal_text(n as u64);
    head.append(len.as_str());
    head.append("\r\n");
    assert(head@ =~= head_text(status, encode_utf8(body@).len()));
    put_text(dst, head.as_str());
    let ghost start = dst@;
    let ghost hs = fields_view(headers@);
    let mut i: usize = 0;
    while i < headers.len()
        invariant
            0 <= i <= headers@.len(),
            hs == fields_view(headers@),
            dst@ == start + header_bytes(hs.take(i as int)),
        decreases headers@.len() - i,
    {
        put_text(dst, headers[i].0.as_str());
        put_text(dst, ": ");
        put_text(dst, headers[i].1.as_str());
        put_text(dst, "\r\n");
        assert(hs.take(i + 1).drop_last() =~= hs.take(i as int));
        assert(hs.take(i + 1).last() == hs[i as int]);
        i = i + 1;
    }
    assert(hs.take(headers@.len() as int) =~= hs);
    put_text(dst, "\r\n");
    put_text(dst, body);
}

/// Why the head of a request could not be parsed (the kinds of `httparse::Error`).
#[derive(Debug, Clone, Copy, PartialEq, Eq)]
pub enum HeadError {
    HeaderName,
    HeaderValue,
    NewLine,
    Status,
    Token,
    TooManyHeaders,
    Version,
}

/// The head of a request as httparse reads it.
#[derive(Debug)]
pub struct ParsedHead {
    /// How many bytes the head takes up.
    pub length: usize,
    pub method: String,
    /// The request target, as it stands on the request line.
    pub target: String,
    /// The minor version: 1 for HTTP/1.1, 0 for HTTP/1.0.
    pub version: u8,
    pub headers: Vec<(String, Vec<u8>)>,
}

/// What parsing the head of a request gives.
#[derive(Debug)]
pub enum HeadParse {
    Complete(ParsedHead),
    /// More bytes are needed.
    Partial,
    Invalid(HeadError),
}

/// The mathematical form of a parsed head.
pub enum HeadView {
    Complete {
        length: nat,
        method: Seq<char>,
        target: Seq<char>,
        version: u8,
        headers: Seq<(Seq<char>, Seq<u8>)>,
    },
    Partial,
    Invalid(HeadError),
}

/// Header fields as name and value bytes.
pub open spec fn head_fields(hs: Seq<(String, Vec<u8>)>) -> Seq<(Seq<char>, Seq<u8>)> {
    hs.map_values(|h: (String, Vec<u8>)| (h.0@, h.1@))
}

impl View for HeadParse {
    type V = HeadView;

    open spec fn view(&self) -> HeadView {
        match self {
            HeadParse::Complete(h) => HeadView::Complete {
                length: h.length as nat,
                method: h.method@,
                target: h.target@,
                version: h.version,
                headers: head_fields(h.headers@),
            },
            HeadParse::Partial => HeadView::Partial,
            HeadParse::Invalid(e) => HeadView::Invalid(*e),
        }
    }
}

#[verifier::external_type_specification]
#[verifier::external_body]
pub struct ExHttparseError(httparse::Error);

/// What `httparse::Request::parse` makes of the start of a buffer, with room for 16 header fields.
pub uninterp spec fn request_head(buf: Seq<u8>) -> HeadView;

/// The kind of an `httparse::Error`.
#[verifier::external_body]
fn head_error(e: httparse::Error) -> HeadError {
    match e {
        httparse::Error::HeaderName => HeadError::HeaderName,
        httparse::Error::HeaderValue => HeadError::HeaderValue,
        httparse::Error::NewLine => HeadError::NewLine,
        httparse::Error::Status => HeadError::Status,
        httparse::Error::Token => HeadError::Token,
        httparse::Error::TooManyHeaders => HeadError::TooManyHeaders,
        httparse::Error::Version => HeadError::Version,
    }
}

/// `httparse::Request::parse` with room for 16 header fields: the head at the start of `buf`,
/// which, when complete, takes up no more than `buf`, has minor version 0 or 1 and at most
/// 16 fields.
#[verifier::external_body]
pub(crate) fn parse_head(buf: &[u8]) -> (r: HeadParse)
    ensures
        r@ == request_head(buf@),
        r matches HeadParse::Complete(h) ==> h.length <= buf@.len() && h.version <= 1 && h.headers@.len() <= 16,
{
    let mut fields = [httparse::EMPTY_HEADER; 16];
    let mut req = httparse::Request::new(&mut fields);
    match req.parse(buf) {
        Ok(httparse::Status::Complete(length)) => HeadParse::Complete(ParsedHead {
            length,
            method: req.method.unwrap_or_default().to_string(),
            target: req.path.unwrap_or_default().to_string(),
            version: req.version.unwrap_or_default(),
            headers: req.headers.iter().map(|h| (h.name.to_string(), h.value.to_vec())).collect(),
        }),
        Ok(httparse::Status::Partial) => HeadParse::Partial,
        Err(e) => HeadParse::Invalid(head_error(e)),
    }
}

/// A character that a method token may hold: an ASCII letter or digit, or one of
/// `! * + - . ^ _ | ~` and the backtick.
pub open spec fn is_method_char(c: char) -> bool {
    ||| ('a' <= c && c <= 'z')
    ||| ('A' <= c && c <= 'Z')
    ||| ('0' <= c && c <= '9')
    ||| c == '!' || c == '*' || c == '+' || c == '-' || c == '.'
    ||| c == '^' || c == '_' || c == '`' || c == '|' || c == '~'
}

/// Whether `http::Method::from_bytes` accepts a method token: it is not empty and every
/// character may stand in a method.
pub open spec fn method_accepted(m: Seq<char>) -> bool {
    &&& m.len() >= 1
    &&& forall|i: int| 0 <= i < m.len() ==> is_method_char(#[trigger] m[i])
}

/// `http::Method::from_bytes`: whether the token is not empty and every byte is one that
/// the crate's table of method characters holds.
#[verifier::external_body]
fn method_valid(m: &str) -> (r: bool)
    ensures
        r == method_accepted(m@),
{
    http::Method::from_bytes(m.as_bytes()).is_ok()
}

/// The path that `http::Uri` finds in a request target, or none where it is no URI.
pub uninterp spec fn uri_path_of(target: Seq<char>) -> Option<Seq<char>>;

/// `http::Uri::from_str` and `Uri::path`: the path of a request target.
#[verifier::external_body]
fn uri_path(target: &str) -> (r: Option<String>)
    ensures
        r matches Some(p) ==> uri_path_of(target@) == Some(p@),
        r is None ==> uri_path_of(target@) is None,
{
    target.parse::<http::Uri>().ok().map(|u| u.path().to_string())
}

/// The value of a string of ASCII decimal digits.
pub open spec fn digits_value(d: Seq<u8>) -> nat
    decreases d.len(),
{
    if d.len() == 0 {
        0
    } else {
        digits_value(d.drop_last()) * 10 + (d.last() - 48) as nat
    }
}

/// Every byte is an ASCII decimal digit.
pub open spec fn all_digits(d: Seq<u8>) -> bool {
    forall|i: int| 0 <= i < d.len() ==> 48 <= #[trigger] d[i] <= 57
}

/// What `usize::from_str` gives for the text of `v`: an optional `+` and at least one
/// decimal digit, of a value that fits in `usize`.
pub open spec fn decimal_usize(v: Seq<u8>) -> Option<nat> {
    let d = if v.len() >= 2 && v[0] == 43 { v.drop_first() } else { v };
    if d.len() >= 1 && all_digits(d) && digits_value(d) <= usize::MAX {
        Some(digits_value(d))
    } else {
        None
    }
}

/// Reads a header value as a decimal `usize`, as `usize::from_str` does.
pub fn parse_usize(v: &[u8]) -> (r: Option<usize>)
    ensures
        r matches Some(n) ==> decimal_usize(v@) == Some(n as nat),
        r is None ==> decimal_usize(v@) is None,
{
    let ghost d = if v@.len() >= 2 && v@[0] == 43 { v@.drop_first() } else { v@ };
    let start: usize = if v.len() >= 2 && v[0] == 43 { 1 } else { 0 };
    if start >= v.len() {
        return None;
    }
    assert(d =~= v@.subrange(start as int, v@.len() as int));
    let mut value: usize = 0;
    let mut i: usize = start;
    while i < v.len()
        invariant
            start <= i <= v@.len(),
            start < v@.len(),
            d == (if v@.len() >= 2 && v@[0] == 43 { v@.drop_first() } else { v@ }),
            d == v@.subrange(start as int, v@.len() as int),
            all_digits(v@.subrange(start as int, i as int)),
            value == digits_value(v@.subrange(start as int, i as int)),
        decreases v@.len() - i,
    {
        let b = v[i];
        assert(v@.subrange(start as int, i + 1).drop_last() =~= v@.subrange(start as int, i as int));
        if b < 48 || b > 57 {
            assert(d[i - start] == b);
            assert(!(48 <= d[i - start] <= 57));
            assert(!all_digits(d));
            assert(decimal_usize(v@) is None);
            return None;
        }
        assert(d.take(i - start + 1) =~= v@.subrange(start as int, i + 1));
        match value.checked_mul(10) {
            Some(m) => match m.checked_add((b - 48) as usize) {
                Some(x) => {
                    value = x;
                },
                None => {
                    proof {
                        lemma_digits_grow(d, i - start + 1);
                        assert(all_digits(d) ==> digits_value(d) > usize::MAX);
                    }
                    assert(decimal_usize(v@) is None);
                    return None;
                },
            },
            None => {
                proof { lemma_digits_grow(d, i - start + 1); }
                return None;
            },
        }
        i = i + 1;
    }
    assert(v@.subrange(start as int, v@.len() as int) =~= d);
    Some(value)
}

/// A longer prefix of digits has no smaller value.
proof fn lemma_digits_grow(d: Seq<u8>, k: int)
    requires
        0 <= k <= d.len(),
    ensures
        all_digits(d) ==> digits_value(d.take(k)) <= digits_value(d),
    decreases d.len() - k,
{
    if k < d.len() {
        lemma_digits_grow(d, k + 1);
        assert(d.take(k + 1).drop_last() =~= d.take(k));
    } else {
        assert(d.take(k) =~= d);
    }
}

/// Why a request could not be read off the wire.
#[derive(Debug, Clone, Copy, PartialEq, Eq)]
pub enum DecodeError {
    /// The head is malformed.
    Parse(HeadError),
    /// The request is not HTTP/1.1.
    Version,
    /// A `Content-Length` field holds no decimal number that fits in `usize`.
    ContentLength,
    /// The method, target or a header name is not one that the http crate accepts.
    Invalid,
    /// A header name is 64 KiB long or longer.
    LongHeaderName,
}

/// The field carries the body length (its name is matched exactly).
pub open spec fn is_content_length(h: (Seq<char>, Seq<u8>)) -> bool {
    h.0 == "Content-Length"@
}

/// Every `Content-Length` field holds a decimal `usize`.
pub open spec fn lengths_valid(hs: Seq<(Seq<char>, Seq<u8>)>) -> bool {
    forall|i: int| 0 <= i < hs.len() && is_content_length(#[trigger] hs[i]) ==> decimal_usize(hs[i].1) is Some
}

/// The body length: the value of the last `Content-Length` field, or zero without one.
pub open spec fn body_length(hs: Seq<(Seq<char>, Seq<u8>)>) -> nat
    decreases hs.len(),
{
    if hs.len() == 0 {
        0
    } else if is_content_length(hs.last()) {
        match decimal_usize(hs.last().1) {
            Some(n) => n,
            None => 0,
        }
    } else {
        body_length(hs.drop_last())
    }
}

/// The body length that a head announces is the value of its last `Content-Length` field
/// (here the one at `i`, with no other after it), and zero where it has none (`i` is -1).
pub proof fn lemma_body_length_is_last(hs: Seq<(Seq<char>, Seq<u8>)>, i: int)
    requires
        lengths_valid(hs),
        -1 <= i < hs.len(),
        i >= 0 ==> is_content_length(hs[i]),
        forall|j: int| i < j < hs.len() ==> !is_content_length(#[trigger] hs[j]),
    ensures
        i == -1 ==> body_length(hs) == 0,
        i >= 0 ==> decimal_usize(hs[i].1) == Some(body_length(hs)),
    decreases hs.len(),
{
    if hs.len() > 0 {
        if i == hs.len() - 1 {
            assert(decimal_usize(hs.last().1) is Some);
        } else {
            let init = hs.drop_last();
            assert(!is_content_length(hs[hs.len() - 1]));
            assert forall|j: int| 0 <= j < init.len() && is_content_length(#[trigger] init[j])
                implies decimal_usize(init[j].1) is Some by {
                assert(init[j] == hs[j]);
            }
            assert forall|j: int| i < j < init.len() implies !is_content_length(#[trigger] init[j]) by {
                assert(init[j] == hs[j]);
            }
            lemma_body_length_is_last(init, i);
            if i >= 0 {
                assert(init[i] == hs[i]);
            }
        }
    }
}

/// Every header name is accepted by the http crate.
pub open spec fn names_accepted(hs: Seq<(Seq<char>, Seq<u8>)>) -> bool {
    forall|i: int| 0 <= i < hs.len() ==> canonical_header_name((#[trigger] hs[i]).0) is Some
}

/// The fields with their names in canonical form.
pub open spec fn canonical_fields(hs: Seq<(Seq<char>, Seq<u8>)>) -> Seq<(Seq<char>, Seq<u8>)> {
    hs.map_values(|h: (Seq<char>, Seq<u8>)| (canonical_header_name(h.0)->0, h.1))
}

/// The http crate accepts the names of the first `k` fields.
pub open spec fn accepted_before(hs: Seq<(Seq<char>, Seq<u8>)>, k: int) -> bool {
    forall|j: int| 0 <= j < k ==> canonical_header_name((#[trigger] hs[j]).0) is Some
}

/// Every name that the http crate reads, up to the first it refuses, is short enough.
pub open spec fn names_fit(hs: Seq<(Seq<char>, Seq<u8>)>) -> bool {
    forall|k: int| 0 <= k < hs.len() && accepted_before(hs, k) ==> name_fits((#[trigger] hs[k]).0)
}

/// A parsed head that a request can be read from without running past the buffer
/// or handing the http crate a header name it cannot take.
pub open spec fn head_decodable(h: HeadView, buf: Seq<u8>) -> bool {
    match h {
        HeadView::Complete { length, method, target, version, headers } => {
            &&& length <= buf.len()
            &&& lengths_valid(headers)
            &&& version == 1 ==> length + body_length(headers) <= buf.len()
            &&& version == 1 && method_accepted(method) && uri_path_of(target) is Some ==> names_fit(headers)
        },
        _ => true,
    }
}

/// What reading a request with the parsed head `h` off the buffer `before` gives, and
/// leaves in the buffer as `after`.
pub open spec fn decoded(
    h: HeadView,
    before: Seq<u8>,
    after: Seq<u8>,
    r: Result<Option<HttpRequest>, DecodeError>,
) -> bool {
    match h {
        HeadView::Partial => r is Ok && r->Ok_0 is None && after == before,
        HeadView::Invalid(e) => r == Err::<Option<HttpRequest>, DecodeError>(DecodeError::Parse(e)) && after == before,
        HeadView::Complete { length, method, target, version, headers } => {
            if version != 1 {
                r == Err::<Option<HttpRequest>, DecodeError>(DecodeError::Version) && after == before
            } else {
                let end = length + body_length(headers);
                &&& after == before.subrange(end as int, before.len() as int)
                &&& if method_accepted(method) && uri_path_of(target) is Some && names_accepted(headers) {
                    &&& r is Ok
                    &&& r->Ok_0 is Some
                    &&& r->Ok_0->0.method@ == method
                    &&& r->Ok_0->0.path@ == uri_path_of(target)->0
                    &&& head_fields(r->Ok_0->0.headers@) == canonical_fields(headers)
                    &&& r->Ok_0->0.body@ == before.subrange(length as int, end as int)
                } else {
                    r == Err::<Option<HttpRequest>, DecodeError>(DecodeError::Invalid)
                }
            }
        },
    }
}

/// The body length that the header fields announce.
fn content_length(hs: &Vec<(String, Vec<u8>)>) -> (r: usize)
    requires
        lengths_valid(head_fields(hs@)),
    ensures
        r == body_length(head_fields(hs@)),
{
    let ghost fs = head_fields(hs@);
    let mut len: usize = 0;
    let mut i: usize = 0;
    while i < hs.len()
        invariant
            0 <= i <= hs@.len(),
            fs == head_fields(hs@),
            lengths_valid(fs),
            len == body_length(fs.take(i as int)),
        decreases hs@.len() - i,
    {
        assert(fs.take(i + 1).drop_last() =~= fs.take(i as int));
        assert(fs.take(i + 1).last() == fs[i as int]);
        if str_eq(hs[i].0.as_str(), "Content-Length") {
            assert(is_content_length(fs[i as int]));
            len = parse_usize(hs[i].1.as_slice()).unwrap();
        }
        i = i + 1;
    }
    assert(fs.take(hs@.len() as int) =~= fs);
    len
}

/// A copy of the bytes of `v` from `from` up to `to`.
fn copy_range(v: &Vec<u8>, from: usize, to: usize) -> (r: Vec<u8>)
    requires
        from <= to <= v@.len(),
    ensures
        r@ == v@.subrange(from as int, to as int),
{
    let mut r: Vec<u8> = Vec::new();
    let mut i = from;
    while i < to
        invariant
            from <= i <= to <= v@.len(),
            r@ == v@.subrange(from as int, i as int),
        decreases to - i,
    {
        r.push(v[i]);
        assert(v@.subrange(from as int, i + 1) =~= v@.subrange(from as int, i as int).push(v@[i as int]));
        i = i + 1;
    }
    r
}

/// Reads a request off the front of `buf` given what parsing its head gave: nothing
/// yet where the head is incomplete; otherwise, for an HTTP/1.1 request, its head and
/// body leave the buffer, and the request is built from them where the http crate
/// accepts its method, target and header names.
pub fn decode_parsed(buf: &mut Vec<u8>, head: HeadParse) -> (r: Result<Option<HttpRequest>, DecodeError>)
    requires
        head_decodable(head@, old(buf)@),
    ensures
        decoded(head@, old(buf)@, final(buf)@, r),
{
    let ghost hv = head@;
    match head {
        HeadParse::Partial => Ok(None),
        HeadParse::Invalid(e) => Err(DecodeError::Parse(e)),
        HeadParse::Complete(h) => {
            let ghost fs = head_fields(h.headers@);
            assert(hv == HeadView::Complete {
                length: h.length as nat,
                method: h.method@,
                target: h.target@,
                version: h.version,
                headers: fs,
            });
            let body_len = content_length(&h.headers);
            if h.version != 1 {
                return Err(DecodeError::Version);
            }
            let blen = buf.len();
            assert(head_decodable(hv, buf@));
            assert(h.length + body_len <= blen);
            let end = h.length + body_len;
            let body = copy_range(buf, h.length, end);
            let rest = copy_range(buf, end, buf.len());
            *buf = rest;
            if !method_valid(h.method.as_str()) {
                return Err(DecodeError::Invalid);
            }
            let path = match uri_path(h.target.as_str()) {
                Some(p) => p,
                None => {
                    return Err(DecodeError::Invalid);
                },
            };
            assert(names_fit(fs));
            let mut fields: Vec<(String, Vec<u8>)> = Vec::new();
            let mut i: usize = 0;
            #[verifier::loop_isolation(false)]
            while i < h.headers.len()
                invariant
                    0 <= i <= h.headers@.len(),
                    fs == head_fields(h.headers@),
                    fields@.len() == i,
                    forall|j: int| 0 <= j < i ==> canonical_header_name(fs[j].0) is Some,
                    forall|j: int| 0 <= j < i ==> #[trigger] fields@[j].0@ == canonical_header_name(fs[j].0)->0
                        && fields@[j].1@ == fs[j].1,
                decreases h.headers@.len() - i,
            {
                assert(fs[i as int] == (h.headers@[i as int].0@, h.headers@[i as int].1@));
                assert(accepted_before(fs, i as int));
                assert(name_fits(fs[i as int].0));
                match header_name(h.headers[i].0.as_str()) {
                    Some(name) => {
                        let value = h.headers[i].1.clone();
                        assert(value@ =~= h.headers@[i as int].1@);
                        assert(fs[i as int] == (h.headers@[i as int].0@, h.headers@[i as int].1@));
                        fields.push((name, value));
                    },
                    None => {
                        assert(fs[i as int].0 == h.headers@[i as int].0@);
                        assert(!names_accepted(fs));
                        return Err(DecodeError::Invalid);
                    },
                }
                i = i + 1;
            }
            let req = HttpRequest { method: h.method, path, headers: fields, body };
            assert(head_fields(req.headers@) =~= canonical_fields(fs));
            Ok(Some(req))
        },
    }
}

/// Everything that reading a request off `before` can give: a `Content-Length` field
/// without a decimal `usize` is an error; an HTTP/1.1 request whose body has not all
/// arrived yet gives nothing yet; a header name of 64 KiB or more that the http crate would
/// be handed is an error; each of these leaves the buffer as it was. Otherwise the outcome
/// is as `decoded` says.
pub open spec fn decode_outcome(before: Seq<u8>, after: Seq<u8>, r: Result<Option<HttpRequest>, DecodeError>) -> bool {
    let h = request_head(before);
    match h {
        HeadView::Complete { length, version, headers, .. } => {
            if !lengths_valid(headers) {
                r == Err::<Option<HttpRequest>, DecodeError>(DecodeError::ContentLength) && after == before
            } else if version == 1 && length + body_length(headers) > before.len() {
                r is Ok && r->Ok_0 is None && after == before
            } else if head_decodable(h, before) {
                decoded(h, before, after, r)
            } else {
                r == Err::<Option<HttpRequest>, DecodeError>(DecodeError::LongHeaderName) && after == before
            }
        },
        _ => decoded(h, before, after, r),
    }
}

/// Reads a request off the front of `buf` (see `decode_parsed`), from the bytes read so
/// far: where the body of an HTTP/1.1 request has not all arrived, nothing yet, with the
/// buffer as it was; a `Content-Length` field without a decimal `usize`, or a header name of
/// 64 KiB or more that the http crate would be handed, is an error that leaves the buffer
/// as it was.
pub fn decode(buf: &mut Vec<u8>) -> (r: Result<Option<HttpRequest>, DecodeError>)
    ensures
        decode_outcome(old(buf)@, final(buf)@, r),
{
    let head = parse_head(buf.as_slice());
    let ghost hv = head@;
    match &head {
        HeadParse::Complete(h) => {
            let ghost fs = head_fields(h.headers@);
            assert(hv == HeadView::Complete {
                length: h.length as nat,
                method: h.method@,
                target: h.target@,
                version: h.version,
                headers: fs,
            });
            let mut i: usize = 0;
            #[verifier::loop_isolation(false)]
            while i < h.headers.len()
                invariant
                    0 <= i <= h.headers@.len(),
                    fs == head_fields(h.headers@),
                    forall|j: int| 0 <= j < i && is_content_length(#[trigger] fs[j]) ==> decimal_usize(fs[j].1) is Some,
                decreases h.headers@.len() - i,
            {
                assert(fs[i as int] == (h.headers@[i as int].0@, h.headers@[i as int].1@));
                if str_eq(h.headers[i].0.as_str(), "Content-Length") && parse_usize(h.headers[i].1.as_slice()).is_none() {
                    assert(is_content_length(fs[i as int]));
                    assert(!lengths_valid(fs));
                    assert(hv == request_head(buf@));
                    assert(!head_decodable(hv, buf@));
                    return Err(DecodeError::ContentLength);
                }
                i = i + 1;
            }
            let body_len = content_length(&h.headers);
            if h.version == 1 && body_len > buf.len() - h.length {
                return Ok(None);
            }
            if h.version == 1 && method_valid(h.method.as_str()) && uri_path(h.target.as_str()).is_some() {
                let mut k: usize = 0;
                #[verifier::loop_isolation(false)]
                while k < h.headers.len()
                    invariant
                        0 <= k <= h.headers@.len(),
                        fs == head_fields(h.headers@),
                        accepted_before(fs, k as int),
                        forall|j: int| 0 <= j < k ==> name_fits((#[trigger] fs[j]).0),
                    decreases h.headers@.len() - k,
                {
                    assert(fs[k as int] == (h.headers@[k as int].0@, h.headers@[k as int].1@));
                    if h.headers[k].0.as_str().as_bytes().len() >= 0x10000 {
                        assert(!names_fit(fs));
                        assert(!head_decodable(hv, buf@));
                        return Err(DecodeError::LongHeaderName);
                    }
                    if header_name(h.headers[k].0.as_str()).is_none() {
                        break;
                    }
                    k = k + 1;
                }
                assert(names_fit(fs));
            }
        },
        _ => {},
    }
    decode_parsed(buf, head)
}

/// The bytes of a text of ASCII characters.
pub open spec fn ascii_bytes(s: Seq<char>) -> Seq<u8> {
    s.map_values(|c: char| c as u8)
}

proof fn lemma_digit_char(d: nat)
    requires
        d < 10,
    ensures
        crate::json::digit_char(d) as u8 == 48 + d,
        '\0' <= crate::json::digit_char(d) <= '\u{7f}',
{
}

/// The decimal notation of a number is ASCII digits that read back as the number.
pub proof fn lemma_decimal_digits(n: nat)
    ensures
        is_ascii_chars(decimal(n)),
        decimal(n).len() >= 1,
        all_digits(ascii_bytes(decimal(n))),
        digits_value(ascii_bytes(decimal(n))) == n,
    decreases n,
{
    if n < 10 {
        lemma_digit_char(n);
        let b = ascii_bytes(decimal(n));
        assert(b.drop_last() =~= Seq::<u8>::empty());
        assert(b.last() == crate::json::digit_char(n) as u8);
        assert(digits_value(b) == digits_value(b.drop_last()) * 10 + (b.last() - 48) as nat);
    } else {
        lemma_digit_char(n % 10);
        lemma_decimal_digits(n / 10);
        let s = decimal(n / 10);
        let t = decimal(n);
        assert(t == s + seq![crate::json::digit_char(n % 10)]);
        let b = ascii_bytes(t);
        assert(b.drop_last() =~= ascii_bytes(s));
        assert(b.last() == crate::json::digit_char(n % 10) as u8);
        assert(digits_value(b) == digits_value(b.drop_last()) * 10 + (b.last() - 48) as nat);
        assert(digits_value(b) == (n / 10) * 10 + n % 10);
        assert forall|i: int| 0 <= i < t.len() implies '\0' <= #[trigger] t[i] <= '\u{7f}' by {
            if i < s.len() {
                assert(t[i] == s[i]);
            }
        }
        assert forall|i: int| 0 <= i < ascii_bytes(t).len() implies 48 <= #[trigger] ascii_bytes(t)[i] <= 57 by {
            if i < s.len() {
                assert(ascii_bytes(t)[i] == ascii_bytes(s)[i]);
            }
        }
    }
}

/// The `Content-Length` that `encode` writes reads back, as `decode` reads it, as the
/// length it was written for.
pub proof fn lemma_content_length_round_trip(n: usize)
    ensures
        decimal_usize(encode_utf8(decimal(n as nat))) == Some(n as nat),
{
    lemma_decimal_digits(n as nat);
    let t = decimal(n as nat);
    is_ascii_chars_encode_utf8(t);
    assert(encode_utf8(t) =~= ascii_bytes(t));
    assert(48 <= ascii_bytes(t)[0] <= 57);
}

} // verus!
