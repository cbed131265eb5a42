//! The exchange with the catalog service that resolves a content hash to a
//! catalog id: the request text, the reading of the response headers, and
//! the id in the response body. Connecting and moving bytes are the
//! caller's part.
use vstd::prelude::*;
use vstd::utf8::*;
use crate::cache::UNRESOLVED_ID;
use crate::json::{get_member, json_document, member, parse_json, str_of, Json};
use crate::text::{chars_of, parse_usize, parsed_usize, trim_bounds, trimmed};

verus! {

/// The catalog host, named in the `Host` header and in the TLS handshake.
pub const CATALOG_HOST: &'static str = "api.beatsaver.com";

/// Where the catalog service listens.
pub const CATALOG_ADDRESS: &'static str = "api.beatsaver.com:443";

/// The request that asks the catalog for the map with content hash `hash`.
pub open spec fn request_text(hash: Seq<char>) -> Seq<char> {
    "GET /maps/hash/"@ + hash + " HTTP/1.1\r\nHost: "@ + CATALOG_HOST@
        + "\r\nAccept: application/json\r\n\r\n"@
}

/// Writes the request for the map with content hash `hash`.
pub fn request_for(hash: &str) -> (r: String)
    ensures
        r@ == request_text(hash@),
{
    let mut r = String::from_str("GET /maps/hash/");
    r.append(hash);
    r.append(" HTTP/1.1\r\nHost: ");
    r.append(CATALOG_HOST);
    r.append("\r\nAccept: application/json\r\n\r\n");
    r
}

/// The text that `String::from_utf8_lossy` makes of `bytes`.
pub uninterp spec fn lossy_decoding(bytes: Seq<u8>) -> Seq<char>;

/// Relies on String::from_utf8_lossy: invalid sequences become U+FFFD, so
/// valid UTF-8 decodes as it is.
#[verifier::external_body]
fn lossy_text(bytes: &[u8]) -> (r: String)
    ensures
        r@ == lossy_decoding(bytes@),
        valid_utf8(bytes@) ==> r@ == decode_utf8(bytes@),
{
    String::from_utf8_lossy(bytes).into_owned()
}

pub open spec fn starts_with(s: Seq<char>, p: Seq<char>) -> bool {
    p.len() <= s.len() && s.subrange(0, p.len() as int) == p
}

pub open spec fn separator() -> Seq<char> {
    seq![':', ' ']
}

/// The first place at or after `from` where `": "` starts.
pub open spec fn separator_from(s: Seq<char>, from: int) -> Option<int>
    decreases s.len() - from,
{
    if from < 0 || from + 2 > s.len() {
        None
    } else if s[from] == ':' && s[from + 1] == ' ' {
        Some(from)
    } else {
        separator_from(s, from + 1)
    }
}

/// The second piece of `s` split at `": "`, as `s.split(": ").nth(1)` gives it.
pub open spec fn second_piece(s: Seq<char>) -> Option<Seq<char>> {
    match separator_from(s, 0) {
        None => None,
        Some(a) => match separator_from(s, a + 2) {
            None => Some(s.subrange(a + 2, s.len() as int)),
            Some(b) => Some(s.subrange(a + 2, b)),
        },
    }
}

/// What a header line tells the reader.
#[derive(Clone, Copy, Debug, PartialEq, Eq, Structural)]
pub enum HeaderStep {
    /// Read the next header line.
    Continue,
    /// The blank line: the body follows.
    EndOfHeaders,
    /// A `Content-Length` header whose value cannot be read: give up.
    Malformed,
}

/// The step a header line `head` gives, and the body length known after it,
/// where `length` was known before (`None` while no `Content-Length` header
/// has been read).
pub open spec fn header_step(head: Seq<char>, length: Option<usize>) -> (HeaderStep, Option<usize>) {
    let end = if trimmed(head).len() == 0 { HeaderStep::EndOfHeaders } else { HeaderStep::Continue };
    if starts_with(head, "Content-Length:"@) {
        match second_piece(head) {
            Some(p) => match parsed_usize(trimmed(p)) {
                Some(n) => (end, Some(n)),
                None => (HeaderStep::Malformed, length),
            },
            None => (HeaderStep::Malformed, length),
        }
    } else {
        (end, length)
    }
}

fn find_separator(s: &Vec<char>, from: usize) -> (r: Option<usize>)
    requires
        from <= s@.len(),
    ensures
        r matches Some(i) ==> separator_from(s@, from as int) == Some(i as int) && from <= i && i + 2 <= s@.len(),
        r is None ==> separator_from(s@, from as int) is None,
{
    let mut i = from;
    while s.len() - i >= 2
        invariant
            from <= i <= s@.len(),
            separator_from(s@, from as int) == separator_from(s@, i as int),
        decreases s@.len() - i,
    {
        if s[i] == ':' && s[i + 1] == ' ' {
            return Some(i);
        }
        i = i + 1;
    }
    None
}

fn has_prefix(s: &Vec<char>, p: &Vec<char>) -> (r: bool)
    ensures
        r == starts_with(s@, p@),
{
    if p.len() > s.len() {
        return false;
    }
    let mut i: usize = 0;
    while i < p.len()
        invariant
            p@.len() <= s@.len(),
            0 <= i <= p@.len(),
            s@.subrange(0, i as int) == p@.subrange(0, i as int),
        decreases p@.len() - i,
    {
        if s[i] != p[i] {
            assert(s@.subrange(0, p@.len() as int)[i as int] != p@[i as int]);
            return false;
        }
        assert(s@.subrange(0, i + 1) =~= s@.subrange(0, i as int).push(s@[i as int]));
        assert(p@.subrange(0, i + 1) =~= p@.subrange(0, i as int).push(p@[i as int]));
        i = i + 1;
    }
    assert(p@.subrange(0, i as int) =~= p@);
    true
}

/// Reads the response headers one line at a time and keeps the declared
/// body length; `None` while no `Content-Length` header has been read, in
/// which case the exchange gives the unresolved id.
pub struct HeaderScan {
    pub content_length: Option<usize>,
}

impl HeaderScan {
    pub fn new() -> (r: HeaderScan)
        ensures
            r.content_length is None,
    {
        HeaderScan { content_length: None }
    }

    /// Takes one header line, as text.
    pub fn accept_text(&mut self, head: &str) -> (r: HeaderStep)
        ensures
            (r, final(self).content_length) == header_step(head@, old(self).content_length),
    {
        let s = chars_of(head);
        let (a, b) = trim_bounds(&s, 0, s.len());
        assert(s@.subrange(0, s@.len() as int) =~= s@);
        let end = if a == b { HeaderStep::EndOfHeaders } else { HeaderStep::Continue };
        let prefix = chars_of("Content-Length:");
        if has_prefix(&s, &prefix) {
            let first = match find_separator(&s, 0) {
                Some(i) => i,
                None => return HeaderStep::Malformed,
            };
            let stop = match find_separator(&s, first + 2) {
                Some(j) => j,
                None => s.len(),
            };
            let (lo, hi) = trim_bounds(&s, first + 2, stop);
            match parse_usize(&s, lo, hi) {
                Some(n) => {
                    self.content_length = Some(n);
                    end
                },
                None => HeaderStep::Malformed,
            }
        } else {
            end
        }
    }

    /// Takes one header line as read from the connection, decoded leniently.
    pub fn accept_line(&mut self, line: &[u8]) -> (r: HeaderStep)
        ensures
            (r, final(self).content_length) == header_step(lossy_decoding(line@), old(self).content_length),
    {
        let head = lossy_text(line);
        self.accept_text(head.as_str())
    }
}

/// The catalog id that a response document gives: its string member `id`,
/// or the unresolved id.
pub open spec fn id_in(doc: Json) -> Seq<char> {
    match str_of(member(doc, "id"@)) {
        Some(id) => id@,
        None => UNRESOLVED_ID@,
    }
}

/// The catalog id that a response body gives; the unresolved id where the
/// body is not JSON or has no string `id`.
pub open spec fn id_of_body(body: Seq<u8>) -> Seq<char> {
    match json_document(lossy_decoding(body)) {
        Some(doc) => id_in(doc),
        None => UNRESOLVED_ID@,
    }
}

/// The catalog id in a response document.
pub fn catalog_id_in(doc: &Json) -> (r: String)
    ensures
        r@ == id_in(*doc),
{
    match get_member(doc, "id") {
        Some(Json::Str(id)) => id.clone(),
        _ => String::from_str(UNRESOLVED_ID),
    }
}

/// The catalog id in a response body.
pub fn catalog_id_from_body(body: &[u8]) -> (r: String)
    ensures
        r@ == id_of_body(body@),
{
    let text = lossy_text(body);
    match parse_json(text.as_str()) {
        Some(doc) => catalog_id_in(&doc),
        None => String::from_str(UNRESOLVED_ID),
    }
}

} // verus!
