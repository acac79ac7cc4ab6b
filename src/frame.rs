//! The frame parser: reads an HTTP/1.1 start line and header block out of the
//! bytes received so far, and finds the message's declared body length.

use vstd::prelude::*;
use vstd::slice::slice_subrange;
use vstd::string::StringSliceAdditionalSpecFns;
use vstd::utf8::valid_utf8;
use crate::config::MAX_NUMBERS_OF_HEADERS;

verus! {

/// How far a parse of a message head got.
#[derive(Clone, Copy, Debug, PartialEq, Eq, Structural)]
pub enum HeadStatus {
    /// The head is complete; it ends after this many bytes.
    Complete(usize),
    /// No terminating blank line yet.
    Partial,
    /// The bytes break the HTTP/1.1 grammar or the header cap.
    Invalid,
}

/// What the HTTP parser extracted from a buffer, as plain values: the status,
/// the request target (requests only), and each header's name and value.
#[derive(Debug)]
pub struct RawHead {
    pub status: HeadStatus,
    pub path: Option<String>,
    pub headers: Vec<(Vec<u8>, Vec<u8>)>,
}

/// A parsed head as mathematical values.
pub type HeadView = (HeadStatus, Option<Seq<char>>, Seq<(Seq<u8>, Seq<u8>)>);

pub open spec fn opt_string_view(s: Option<String>) -> Option<Seq<char>> {
    match s {
        Some(p) => Some(p@),
        None => None,
    }
}

impl View for RawHead {
    type V = HeadView;

    open spec fn view(&self) -> HeadView {
        (
            self.status,
            opt_string_view(self.path),
            self.headers@.map_values(|h: (Vec<u8>, Vec<u8>)| (h.0@, h.1@)),
        )
    }
}

/// What httparse makes of `buf` read as a request, given room for
/// `max_headers` header lines.
pub uninterp spec fn request_head_of(buf: Seq<u8>, max_headers: usize) -> HeadView;

/// What httparse makes of `buf` read as a response, given room for
/// `max_headers` header lines.
pub uninterp spec fn response_head_of(buf: Seq<u8>, max_headers: usize) -> HeadView;

/// Relies on `httparse::Request::parse`: the status it returns (a complete
/// head ends at a byte offset inside `buf`), the request target it read, and
/// the headers it filled in.
#[verifier::external_body]
fn httparse_request(buf: &[u8], max_headers: usize) -> (r: RawHead)
    ensures
        r@ == request_head_of(buf@, max_headers),
        r.status matches HeadStatus::Complete(n) ==> n <= buf@.len(),
{
    let mut headers = vec![httparse::EMPTY_HEADER; max_headers];
    let mut req = httparse::Request::new(&mut headers);
    let status = match req.parse(buf) {
        Ok(httparse::Status::Complete(n)) => HeadStatus::Complete(n),
        Ok(httparse::Status::Partial) => HeadStatus::Partial,
        Err(_) => HeadStatus::Invalid,
    };
    let path = req.path.map(|p| p.to_string());
    let headers = req.headers.iter().map(|h| (h.name.as_bytes().to_vec(), h.value.to_vec())).collect();
    RawHead { status, path, headers }
}

/// Relies on `httparse::Response::parse`: the status it returns (a complete
/// head ends at a byte offset inside `buf`) and the headers it filled in.
#[verifier::external_body]
fn httparse_response(buf: &[u8], max_headers: usize) -> (r: RawHead)
    ensures
        r@ == response_head_of(buf@, max_headers),
        r.status matches HeadStatus::Complete(n) ==> n <= buf@.len(),
{
    let mut headers = vec![httparse::EMPTY_HEADER; max_headers];
    let mut resp = httparse::Response::new(&mut headers);
    let status = match resp.parse(buf) {
        Ok(httparse::Status::Complete(n)) => HeadStatus::Complete(n),
        Ok(httparse::Status::Partial) => HeadStatus::Partial,
        Err(_) => HeadStatus::Invalid,
    };
    let headers = resp.headers.iter().map(|h| (h.name.as_bytes().to_vec(), h.value.to_vec())).collect();
    RawHead { status, path: None, headers }
}

/// Why a head was rejected.
#[derive(Clone, Copy, Debug, PartialEq, Eq, Structural)]
pub enum FrameError {
    /// The start line or headers break the grammar, or there are too many headers.
    Malformed,
    /// A `Content-Length` value is not a non-negative integer that fits a `usize`.
    InvalidContentLength,
}

/// The result of parsing one complete head.
#[derive(Debug, Clone, PartialEq, Eq)]
pub struct ParseHttpData {
    /// Size of the head, terminating blank line included.
    pub parsed_len: usize,
    /// The declared `Content-Length`, or 0 when there is none.
    pub content_length: usize,
    /// The request target, when the message is a request and it is not empty.
    pub path: Option<String>,
}

/// A parsed head as mathematical values: size, body length, path.
pub type FrameView = (usize, usize, Option<Seq<char>>);

impl View for ParseHttpData {
    type V = FrameView;

    open spec fn view(&self) -> FrameView {
        (self.parsed_len, self.content_length, opt_string_view(self.path))
    }
}

pub open spec fn ascii_lower(b: u8) -> u8 {
    if 65 <= b <= 90 {
        (b + 32) as u8
    } else {
        b
    }
}

/// `a` and `b` are equal up to ASCII case.
pub open spec fn eq_ignore_ascii_case(a: Seq<u8>, b: Seq<u8>) -> bool {
    a.len() == b.len() && forall|i: int| 0 <= i < a.len() ==> ascii_lower(a[i]) == ascii_lower(b[i])
}

/// The header name `content-length`.
pub open spec fn content_length_name() -> Seq<u8> {
    seq![99u8, 111, 110, 116, 101, 110, 116, 45, 108, 101, 110, 103, 116, 104]
}

pub open spec fn is_digit(b: u8) -> bool {
    48 <= b <= 57
}

/// The number written by a string of decimal digits.
pub open spec fn digits_value(s: Seq<u8>) -> nat
    decreases s.len(),
{
    if s.len() == 0 {
        0
    } else {
        digits_value(s.drop_last()) * 10 + (s.last() - 48) as nat
    }
}

/// The digits of a decimal value: an optional leading `+` dropped.
pub open spec fn unsigned_digits(v: Seq<u8>) -> Seq<u8> {
    if v.len() > 0 && v[0] == 43 {
        v.drop_first()
    } else {
        v
    }
}

/// The `usize` written in decimal by `v` (an optional `+`, then one or more
/// digits), or `None`.
pub open spec fn decimal_value(v: Seq<u8>) -> Option<usize> {
    let d = unsigned_digits(v);
    if d.len() > 0 && (forall|i: int| 0 <= i < d.len() ==> is_digit(#[trigger] d[i]))
        && digits_value(d) <= usize::MAX {
        Some(digits_value(d) as usize)
    } else {
        None
    }
}

/// Position of the first `Content-Length` header at or after `k`.
pub open spec fn content_length_index_from(headers: Seq<(Seq<u8>, Seq<u8>)>, k: int) -> Option<int>
    decreases headers.len() - k,
{
    if k < 0 || k >= headers.len() {
        None
    } else if eq_ignore_ascii_case(headers[k].0, content_length_name()) {
        Some(k)
    } else {
        content_length_index_from(headers, k + 1)
    }
}

/// What the first `Content-Length` header of a head declares: no header,
/// a length, or an invalid value.
pub open spec fn declared_length(headers: Seq<(Seq<u8>, Seq<u8>)>) -> Result<Option<usize>, FrameError> {
    match content_length_index_from(headers, 0) {
        None => Ok(None),
        Some(i) => match decimal_value(headers[i].1) {
            Some(n) => Ok(Some(n)),
            None => Err(FrameError::InvalidContentLength),
        },
    }
}

/// A path is kept only when it is not empty.
pub open spec fn nonempty_path(p: Option<Seq<char>>) -> Option<Seq<char>> {
    match p {
        Some(s) => if s.len() > 0 {
            Some(s)
        } else {
            None
        },
        None => None,
    }
}

/// The frame a parsed head describes: `Ok(None)` while the head is
/// incomplete.
pub open spec fn frame_of(head: HeadView) -> Result<Option<FrameView>, FrameError> {
    match head.0 {
        HeadStatus::Invalid => Err(FrameError::Malformed),
        HeadStatus::Partial => Ok(None),
        HeadStatus::Complete(n) => match declared_length(head.2) {
            Err(e) => Err(e),
            Ok(len) => Ok(
                Some(
                    (
                        n,
                        match len {
                            Some(l) => l,
                            None => 0,
                        },
                        nonempty_path(head.1),
                    ),
                ),
            ),
        },
    }
}

/// The request frame read from `buf`.
pub open spec fn request_frame(buf: Seq<u8>) -> Result<Option<FrameView>, FrameError> {
    frame_of(request_head_of(buf, MAX_NUMBERS_OF_HEADERS))
}

/// The response frame read from `buf`.
pub open spec fn response_frame(buf: Seq<u8>) -> Result<Option<FrameView>, FrameError> {
    frame_of(response_head_of(buf, MAX_NUMBERS_OF_HEADERS))
}

/// The view of a parse result.
pub open spec fn frame_result_view(r: Result<Option<ParseHttpData>, FrameError>) -> Result<Option<FrameView>, FrameError> {
    match r {
        Ok(Some(d)) => Ok(Some(d@)),
        Ok(None) => Ok(None),
        Err(e) => Err(e),
    }
}

fn eq_ignore_ascii_case_bytes(a: &Vec<u8>, b: &[u8]) -> (r: bool)
    ensures
        r == eq_ignore_ascii_case(a@, b@),
{
    if a.len() != b.len() {
        return false;
    }
    let mut i: usize = 0;
    while i < a.len()
        invariant
            a@.len() == b@.len(),
            i <= a@.len(),
            forall|j: int| 0 <= j < i ==> ascii_lower(a@[j]) == ascii_lower(b@[j]),
        decreases a@.len() - i,
    {
        let x = a[i];
        let y = b[i];
        let lx: u8 = if 65 <= x && x <= 90 { x + 32 } else { x };
        let ly: u8 = if 65 <= y && y <= 90 { y + 32 } else { y };
        if lx != ly {
            return false;
        }
        i = i + 1;
    }
    true
}

proof fn lemma_digits_value_prefix_le(s: Seq<u8>, k: int)
    requires
        0 <= k <= s.len(),
    ensures
        digits_value(s.subrange(0, k)) <= digits_value(s),
    decreases s.len() - k,
{
    if k == s.len() {
        assert(s.subrange(0, k) =~= s);
    } else {
        lemma_digits_value_prefix_le(s, k + 1);
        let t = s.subrange(0, k + 1);
        assert(t.drop_last() =~= s.subrange(0, k));
        assert(digits_value(t) == digits_value(t.drop_last()) * 10 + (t.last() - 48) as nat);
    }
}

/// Reads a decimal `usize` (an optional `+`, then one or more digits).
pub fn parse_decimal(v: &[u8]) -> (r: Option<usize>)
    ensures
        r == decimal_value(v@),
{
    let start: usize = if v.len() > 0 && v[0] == 43 { 1 } else { 0 };
    let ghost d = unsigned_digits(v@);
    assert(d =~= v@.subrange(start as int, v@.len() as int));
    if start >= v.len() {
        return None;
    }
    let mut value: usize = 0;
    let mut i: usize = start;
    while i < v.len()
        invariant
            start <= i <= v@.len(),
            d == unsigned_digits(v@),
            d =~= v@.subrange(start as int, v@.len() as int),
            forall|j: int| 0 <= j < i - start ==> is_digit(#[trigger] d[j]),
            value as nat == digits_value(d.subrange(0, i - start)),
        decreases v@.len() - i,
    {
        let b = v[i];
        if b < 48 || b > 57 {
            assert(d[i - start] == v@[i as int]);
            assert(!is_digit(d[i - start]));
            return None;
        }
        let digit: usize = (b - 48) as usize;
        let ghost t = d.subrange(0, i - start + 1);
        proof {
            assert(t.drop_last() =~= d.subrange(0, i - start));
            assert(t.last() == b);
            assert(digits_value(t) == digits_value(t.drop_last()) * 10 + (t.last() - 48) as nat);
        }
        if value > (usize::MAX - digit) / 10 {
            proof {
                let m = usize::MAX as int;
                let x = value as int;
                let y = digit as int;
                assert(x * 10 + y > m) by (nonlinear_arith)
                    requires
                        x > (m - y) / 10,
                        0 <= y <= 9,
                        m >= 9,
                ;
                lemma_digits_value_prefix_le(d, i - start + 1);
            }
            return None;
        }
        assert(value * 10 + digit <= usize::MAX) by (nonlinear_arith)
            requires
                value <= (usize::MAX - digit) / 10,
                digit <= 9,
        ;
        value = value * 10 + digit;
        i = i + 1;
    }
    assert(d.subrange(0, d.len() as int) =~= d);
    Some(value)
}

/// The declared body length of a head: `Ok(None)` without a `Content-Length`
/// header, an error when its value is not a valid length.
pub fn get_content_length(headers: &Vec<(Vec<u8>, Vec<u8>)>) -> (r: Result<Option<usize>, FrameError>)
    ensures
        r == declared_length(headers@.map_values(|h: (Vec<u8>, Vec<u8>)| (h.0@, h.1@))),
{
    let ghost hv = headers@.map_values(|h: (Vec<u8>, Vec<u8>)| (h.0@, h.1@));
    let name: [u8; 14] = [99u8, 111, 110, 116, 101, 110, 116, 45, 108, 101, 110, 103, 116, 104];
    assert(name@ =~= content_length_name());
    let mut i: usize = 0;
    while i < headers.len()
        invariant
            i <= headers@.len(),
            hv.len() == headers@.len(),
            name@ == content_length_name(),
            hv == headers@.map_values(|h: (Vec<u8>, Vec<u8>)| (h.0@, h.1@)),
            content_length_index_from(hv, 0) == content_length_index_from(hv, i as int),
        decreases headers@.len() - i,
    {
        if eq_ignore_ascii_case_bytes(&headers[i].0, name.as_slice()) {
            return match parse_decimal(headers[i].1.as_slice()) {
                Some(n) => Ok(Some(n)),
                None => Err(FrameError::InvalidContentLength),
            };
        }
        i = i + 1;
    }
    Ok(None)
}

/// Turns what the HTTP parser found into a frame: `Ok(None)` while the head
/// is incomplete, an error when it is malformed.
pub fn handle_parse_result(head: RawHead) -> (r: Result<Option<ParseHttpData>, FrameError>)
    ensures
        frame_result_view(r) == frame_of(head@),
{
    let n = match head.status {
        HeadStatus::Invalid => return Err(FrameError::Malformed),
        HeadStatus::Partial => return Ok(None),
        HeadStatus::Complete(n) => n,
    };
    let content_length = match get_content_length(&head.headers) {
        Err(e) => return Err(e),
        Ok(Some(l)) => l,
        Ok(None) => 0,
    };
    let path = match head.path {
        Some(p) => if p.as_str().is_empty() {
            None
        } else {
            Some(p)
        },
        None => None,
    };
    Ok(Some(ParseHttpData { parsed_len: n, content_length, path }))
}

/// Parses the bytes read so far of a request.
pub fn parse_request(buf: &[u8]) -> (r: Result<Option<ParseHttpData>, FrameError>)
    ensures
        frame_result_view(r) == request_frame(buf@),
        r matches Ok(Some(d)) ==> d.parsed_len <= buf@.len(),
{
    handle_parse_result(httparse_request(buf, MAX_NUMBERS_OF_HEADERS))
}

/// Parses the bytes read so far of a response.
pub fn parse_response(buf: &[u8]) -> (r: Result<Option<ParseHttpData>, FrameError>)
    ensures
        frame_result_view(r) == response_frame(buf@),
        r matches Ok(Some(d)) ==> d.parsed_len <= buf@.len(),
{
    handle_parse_result(httparse_response(buf, MAX_NUMBERS_OF_HEADERS))
}

/// Position of the first byte `b` in `s` at or after `k`.
pub open spec fn index_of_from(s: Seq<u8>, b: u8, k: int) -> Option<int>
    decreases s.len() - k,
{
    if k < 0 || k >= s.len() {
        None
    } else if s[k] == b {
        Some(k)
    } else {
        index_of_from(s, b, k + 1)
    }
}

/// The second space-separated field of `s`: what lies between its first
/// space and the next one (or the end). `None` when `s` has no space.
pub open spec fn second_field(s: Seq<u8>) -> Option<Seq<u8>> {
    match index_of_from(s, 32, 0) {
        None => None,
        Some(i) => match index_of_from(s, 32, i + 1) {
            None => Some(s.subrange(i + 1, s.len() as int)),
            Some(j) => Some(s.subrange(i + 1, j)),
        },
    }
}

/// Relies on `std::str::from_utf8`: a string exactly when the bytes are
/// valid UTF-8, holding those bytes.
#[verifier::external_body]
fn utf8_str(b: &[u8]) -> (r: Option<&str>)
    ensures
        r is Some <==> valid_utf8(b@),
        r matches Some(s) ==> s.spec_bytes() == b@,
{
    std::str::from_utf8(b).ok()
}

fn find_byte(s: &[u8], b: u8, k: usize) -> (r: Option<usize>)
    requires
        k <= s@.len(),
    ensures
        r matches Some(i) ==> k <= i < s@.len() && index_of_from(s@, b, k as int) == Some(i as int),
        r is None <==> index_of_from(s@, b, k as int) is None,
{
    let mut i: usize = k;
    while i < s.len()
        invariant
            k <= i <= s@.len(),
            index_of_from(s@, b, k as int) == index_of_from(s@, b, i as int),
        decreases s@.len() - i,
    {
        if s[i] == b {
            return Some(i);
        }
        i = i + 1;
    }
    None
}

/// A first look at a request's bytes: once a line has ended, the request
/// target of its first line, when it is valid UTF-8.
pub fn get_path(src: &[u8]) -> (r: Option<&str>)
    ensures
        r is Some <==> {
            &&& index_of_from(src@, 10, 0) is Some
            &&& second_field(src@) is Some
            &&& valid_utf8(second_field(src@)->Some_0)
        },
        r matches Some(p) ==> Some(p.spec_bytes()) == second_field(src@),
{
    let n = src.len();
    if find_byte(src, 10, 0).is_none() {
        return None;
    }
    let i = match find_byte(src, 32, 0) {
        None => return None,
        Some(i) => i,
    };
    let end = match find_byte(src, 32, i + 1) {
        None => n,
        Some(j) => j,
    };
    utf8_str(slice_subrange(src, i + 1, end))
}

} // verus!
