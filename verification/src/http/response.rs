//! Shared HTTP response builders.

use bytes::Bytes;

use vstd::prelude::*;
use vstd::utf8::*;

use crate::constants::{CRATE_CTYPE, JSON_CTYPE};
use crate::http::body;
use crate::text;

verus! {

/// A response body.
pub enum Body {
    /// No body.
    Empty,
    /// A text.
    Text(String),
    /// Raw bytes.
    Data(Bytes),
}

impl Body {
    /// The bytes that go to the client.
    pub open spec fn bytes(self) -> Seq<u8> {
        match self {
            Body::Empty => seq![],
            Body::Text(s) => encode_utf8(s@),
            Body::Data(d) => body::content(d),
        }
    }
}

/// An HTTP response, with the headers that the proxy sets.
pub struct Response {
    /// Status code.
    pub status: u16,
    /// `Content-Type` header.
    pub content_type: Option<&'static str>,
    /// `ETag` header.
    pub etag: Option<String>,
    /// `Last-Modified` header.
    pub last_modified: Option<String>,
    /// Body.
    pub body: Body,
}

/// What a client sees of a response.
pub struct ResponseView {
    /// Status code.
    pub status: u16,
    /// `Content-Type` header.
    pub content_type: Option<Seq<char>>,
    /// `ETag` header.
    pub etag: Option<Seq<char>>,
    /// `Last-Modified` header.
    pub last_modified: Option<Seq<char>>,
    /// Bytes of the body.
    pub body: Seq<u8>,
}

impl View for Response {
    type V = ResponseView;

    open spec fn view(&self) -> ResponseView {
        ResponseView {
            status: self.status,
            content_type: text::opt_str(self.content_type),
            etag: text::opt_text(self.etag),
            last_modified: text::opt_text(self.last_modified),
            body: self.body.bytes(),
        }
    }
}

/// A response without headers and body.
pub open spec fn error_view(status: u16) -> ResponseView {
    ResponseView { status, content_type: None, etag: None, last_modified: None, body: seq![] }
}

/// A JSON response.
pub open spec fn json_view(status: u16, json: Seq<char>) -> ResponseView {
    ResponseView {
        status,
        content_type: Some(JSON_CTYPE@),
        etag: None,
        last_modified: None,
        body: encode_utf8(json),
    }
}

/// A crate file.
pub open spec fn crate_view(data: Seq<u8>) -> ResponseView {
    ResponseView {
        status: 200,
        content_type: Some(CRATE_CTYPE@),
        etag: None,
        last_modified: None,
        body: data,
    }
}

/// Builds an error response with an empty body.
pub fn error_response(status: u16) -> (r: Response)
    ensures
        r@ == error_view(status),
{
    Response { status, content_type: None, etag: None, last_modified: None, body: Body::Empty }
}

/// Builds a JSON response (used for `config.json` and forwarded API errors).
pub fn json_response(status: u16, body: String) -> (r: Response)
    ensures
        r@ == json_view(status, body@),
{
    Response {
        status,
        content_type: Some(JSON_CTYPE),
        etag: None,
        last_modified: None,
        body: Body::Text(body),
    }
}

/// Builds a crate-download response from raw `.crate` bytes.
pub fn crate_response(data: Bytes) -> (r: Response)
    ensures
        r@ == crate_view(body::content(data)),
{
    Response {
        status: 200,
        content_type: Some(CRATE_CTYPE),
        etag: None,
        last_modified: None,
        body: Body::Data(data),
    }
}

/// A hexadecimal digit, in lower case.
pub open spec fn hex_char(d: int) -> char {
    if d < 10 {
        text::digit_char(d)
    } else {
        (87 + d) as u32 as char
    }
}

/// How a character is written inside a JSON string.
pub open spec fn escaped_char(c: char) -> Seq<char> {
    if c == '"' {
        seq!['\\', '"']
    } else if c == '\\' {
        seq!['\\', '\\']
    } else if c == '\n' {
        seq!['\\', 'n']
    } else if c == '\r' {
        seq!['\\', 'r']
    } else if c == '\t' {
        seq!['\\', 't']
    } else if (c as u32) < 0x20 {
        seq!['\\', 'u', '0', '0', hex_char(c as int / 16), hex_char(c as int % 16)]
    } else {
        seq![c]
    }
}

/// How a text is written inside a JSON string.
pub open spec fn escaped(s: Seq<char>) -> Seq<char>
    decreases s.len(),
{
    if s.len() == 0 {
        seq![]
    } else {
        escaped(s.drop_last()) + escaped_char(s.last())
    }
}

/// The body of a crates API error.
pub open spec fn json_error(error: Seq<char>) -> Seq<char> {
    "{\"errors\":[{\"detail\":\""@ + escaped(error) + "\"}]}"@
}

/// A hexadecimal digit, in lower case.
fn hex(d: u8) -> (r: char)
    requires
        d < 16,
    ensures
        r == hex_char(d as int),
{
    if d < 10 {
        (48 + d) as char
    } else {
        (87 + d) as char
    }
}

/// Writes a character inside a JSON string.
fn push_escaped(out: &mut String, c: char)
    ensures
        final(out)@ == old(out)@ + escaped_char(c),
{
    if c == '"' || c == '\\' {
        out.push('\\');
        out.push(c);
    } else if c == '\n' {
        out.push('\\');
        out.push('n');
    } else if c == '\r' {
        out.push('\\');
        out.push('r');
    } else if c == '\t' {
        out.push('\\');
        out.push('t');
    } else if (c as u32) < 0x20 {
        let code: u8 = c as u8;
        out.push('\\');
        out.push('u');
        out.push('0');
        out.push('0');
        out.push(hex(code / 16));
        out.push(hex(code % 16));
    } else {
        out.push(c);
    }
    assert(out@ =~= old(out)@ + escaped_char(c));
}

/// Escapes a string for safe embedding inside a JSON string literal (per
/// RFC 8259): the mandatory `"` and `\` plus the C0 control characters.
pub fn json_escape(s: &str) -> (r: String)
    ensures
        r@ == escaped(s@),
{
    let chars = text::to_chars(s);
    let mut out = String::new();
    let mut i: usize = 0;
    while i < chars.len()
        invariant
            i <= chars@.len(),
            out@ == escaped(chars@.take(i as int)),
        decreases chars@.len() - i,
    {
        assert(chars@.take(i + 1).drop_last() =~= chars@.take(i as int));
        push_escaped(&mut out, chars[i]);
        i = i + 1;
    }
    assert(chars@.take(i as int) =~= chars@);
    out
}

/// Formats a crates API JSON error body.
///
/// The error text comes from the HTTP client or internal sources and can
/// contain `"`, `\`, or control characters, so it is JSON-string-escaped to
/// keep the body well-formed.
pub fn format_json_error(error: &str) -> (r: String)
    ensures
        r@ == json_error(error@),
{
    let mut out = "{\"errors\":[{\"detail\":\"".to_owned();
    let detail = json_escape(error);
    out.append(detail.as_str());
    out.append("\"}]}");
    out
}

// Laws.

/// The value of a lower-case hexadecimal digit.
pub open spec fn hex_value(c: char) -> Option<int> {
    if text::is_digit(c) {
        Some(c as int - '0' as int)
    } else if 'a' <= c <= 'f' {
        Some(c as int - 'a' as int + 10)
    } else {
        None
    }
}

/// What the inside of a JSON string says, if it is well-formed: no bare `"`
/// and no control character, and every `\` starts one of the escapes.
pub open spec fn json_text(s: Seq<char>) -> Option<Seq<char>>
    decreases s.len(),
{
    if s.len() == 0 {
        Some(seq![])
    } else if s[0] == '\\' {
        if s.len() >= 2 && s[1] == '"' {
            prepended('"', json_text(s.skip(2)))
        } else if s.len() >= 2 && s[1] == '\\' {
            prepended('\\', json_text(s.skip(2)))
        } else if s.len() >= 2 && s[1] == 'n' {
            prepended('\n', json_text(s.skip(2)))
        } else if s.len() >= 2 && s[1] == 'r' {
            prepended('\r', json_text(s.skip(2)))
        } else if s.len() >= 2 && s[1] == 't' {
            prepended('\t', json_text(s.skip(2)))
        } else if s.len() >= 6 && s[1] == 'u' && s[2] == '0' && s[3] == '0' {
            match (hex_value(s[4]), hex_value(s[5])) {
                (Some(a), Some(b)) => prepended(
                    (a * 16 + b) as u32 as char,
                    json_text(s.skip(6)),
                ),
                _ => None,
            }
        } else {
            None
        }
    } else if s[0] == '"' || (s[0] as u32) < 0x20 {
        None
    } else {
        prepended(s[0], json_text(s.skip(1)))
    }
}

/// A character before an optional text.
pub open spec fn prepended(c: char, rest: Option<Seq<char>>) -> Option<Seq<char>> {
    match rest {
        Some(s) => Some(seq![c] + s),
        None => None,
    }
}

proof fn lemma_escaped_char_reads_back(c: char, rest: Seq<char>)
    ensures
        json_text(escaped_char(c) + rest) == prepended(c, json_text(rest)),
{
    let s = escaped_char(c) + rest;
    if c == '"' || c == '\\' || c == '\n' || c == '\r' || c == '\t' {
        assert(s.skip(2) =~= rest);
    } else if (c as u32) < 0x20 {
        assert(s.skip(6) =~= rest);
        let code = c as int;
        assert(hex_value(hex_char(code / 16)) == Some(code / 16));
        assert(hex_value(hex_char(code % 16)) == Some(code % 16));
        assert(code / 16 * 16 + code % 16 == code);
    } else {
        assert(s.skip(1) =~= rest);
    }
}

proof fn lemma_escaped_before(s: Seq<char>, rest: Seq<char>)
    ensures
        json_text(escaped(s) + rest) == (match json_text(rest) {
            Some(t) => Some(s + t),
            None => None,
        }),
    decreases s.len(),
{
    if s.len() == 0 {
        assert(escaped(s) + rest =~= rest);
        if json_text(rest) is Some {
            assert(s + json_text(rest)->0 =~= json_text(rest)->0);
        }
    } else {
        let head = s.drop_last();
        let more = escaped_char(s.last()) + rest;
        assert(escaped(s) + rest =~= escaped(head) + more);
        lemma_escaped_before(head, more);
        lemma_escaped_char_reads_back(s.last(), rest);
        if json_text(rest) is Some {
            let t = json_text(rest)->0;
            assert(head + (seq![s.last()] + t) =~= s + t);
        }
    }
}

/// An escaped text is a well-formed JSON string that says the text.
pub proof fn escaped_text_reads_back(s: Seq<char>)
    ensures
        json_text(escaped(s)) == Some(s),
{
    lemma_escaped_before(s, seq![]);
    assert(escaped(s) + seq![] =~= escaped(s));
    assert(s + seq![] =~= s);
}

/// Escaping takes a text character by character.
pub proof fn texts_are_escaped_by_character(a: Seq<char>, b: Seq<char>, c: char)
    ensures
        escaped(Seq::empty()) == Seq::<char>::empty(),
        escaped(seq![c]) == escaped_char(c),
        escaped(a + b) == escaped(a) + escaped(b),
    decreases b.len(),
{
    reveal_with_fuel(escaped, 2);
    assert(seq![c].drop_last() =~= Seq::<char>::empty());
    assert(escaped(seq![c]) =~= escaped_char(c));
    if b.len() == 0 {
        assert(a + b =~= a);
        assert(escaped(a) + escaped(b) =~= escaped(a));
    } else {
        assert((a + b).drop_last() =~= a + b.drop_last());
        texts_are_escaped_by_character(a, b.drop_last(), c);
        assert(escaped(a + b) =~= escaped(a) + escaped(b));
    }
}

/// The escapes: quote, backslash, line feed, carriage return and tab have a
/// letter of their own, the other control characters are written by code
/// point, and every other character stands for itself.
pub proof fn characters_are_escaped_by_code(c: char)
    ensures
        c as u32 == 34 ==> escaped_char(c) == "\\\""@,
        c as u32 == 92 ==> escaped_char(c) == "\\\\"@,
        c as u32 == 10 ==> escaped_char(c) == "\\n"@,
        c as u32 == 13 ==> escaped_char(c) == "\\r"@,
        c as u32 == 9 ==> escaped_char(c) == "\\t"@,
        (c as u32) < 32 && c as u32 != 9 && c as u32 != 10 && c as u32 != 13 ==> escaped_char(c)
            == "\\u00"@ + seq![
            "0123456789abcdef"@[c as int / 16],
            "0123456789abcdef"@[c as int % 16],
        ],
        c as u32 >= 32 && c as u32 != 34 && c as u32 != 92 ==> escaped_char(c) == seq![c],
{
    reveal_strlit("\\\"");
    reveal_strlit("\\\\");
    reveal_strlit("\\n");
    reveal_strlit("\\r");
    reveal_strlit("\\t");
    reveal_strlit("\\u00");
    if c as u32 == 34 {
        assert(escaped_char(c) =~= "\\\""@);
    } else if c as u32 == 92 {
        assert(escaped_char(c) =~= "\\\\"@);
    } else if c as u32 == 10 {
        assert(escaped_char(c) =~= "\\n"@);
    } else if c as u32 == 13 {
        assert(escaped_char(c) =~= "\\r"@);
    } else if c as u32 == 9 {
        assert(escaped_char(c) =~= "\\t"@);
    } else if (c as u32) < 32 {
        lemma_hex_char(c as int / 16);
        lemma_hex_char(c as int % 16);
        assert(escaped_char(c) =~= "\\u00"@ + seq![
            "0123456789abcdef"@[c as int / 16],
            "0123456789abcdef"@[c as int % 16],
        ]);
    }
}

proof fn lemma_hex_char(d: int)
    requires
        0 <= d < 16,
    ensures
        hex_char(d) == "0123456789abcdef"@[d],
{
    reveal_strlit("0123456789abcdef");
}

/// What clients see: an error has its status alone; a JSON response its text as
/// JSON; a crate file its bytes, untouched; and none of them a
/// validator.
pub proof fn responses_show_their_content(status: u16, json: Seq<char>, data: Seq<u8>, e: Seq<char>)
    ensures
        error_view(status) == (ResponseView {
            status,
            content_type: None,
            etag: None,
            last_modified: None,
            body: Seq::empty(),
        }),
        json_view(status, json) == (ResponseView {
            status,
            content_type: Some("application/json; charset=utf-8"@),
            etag: None,
            last_modified: None,
            body: encode_utf8(json),
        }),
        crate_view(data) == (ResponseView {
            status: 200,
            content_type: Some("application/x-tar"@),
            etag: None,
            last_modified: None,
            body: data,
        }),
        json_error(e) == "{\"errors\":[{\"detail\":\""@ + escaped(e) + "\"}]}"@,
{
}

} // verus!
