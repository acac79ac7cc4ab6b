//! The error responder: the minimal HTML responses sent to a client whose
//! request is rejected.

use vstd::prelude::*;
use vstd::slice::slice_to_vec;
use crate::config::utf8_bytes;

verus! {

/// Status line of a rejected request.
pub const BAD_REQUEST: &'static str = "400 Bad Request";

/// Status line of a request whose head does not fit the buffer.
pub const REQUEST_TOO_LARGE: &'static str = "431 Request Entity Too Large";

/// Explanation sent with a bad request.
pub const BAD_REQUEST_MESSAGE: &'static str = "Your browser sent a bad request.";

/// Explanation sent with a request that is too large.
pub const REQUEST_TOO_LARGE_MESSAGE: &'static str = "Your browser send a very large request. Me server weak, sowwy :(";

pub open spec fn digit_char(d: nat) -> char {
    seq!['0', '1', '2', '3', '4', '5', '6', '7', '8', '9'][d as int]
}

/// `n` written in decimal, without leading zeros.
pub open spec fn decimal_chars(n: nat) -> Seq<char>
    decreases n,
{
    if n < 10 {
        seq![digit_char(n)]
    } else {
        decimal_chars(n / 10) + seq![digit_char(n % 10)]
    }
}

/// The HTML page that names an error.
pub open spec fn html_content(title: Seq<char>, body: Seq<char>) -> Seq<char> {
    "<!DOCTYPE><html><head><title>"@ + title + "</title></head><body><h1>"@ + title
        + "</h1><pre>"@ + body + "</pre><pre>hps server version 1.0</pre></body></html>"@
}

/// A complete HTTP/1.1 response with an HTML body.
pub open spec fn html_response(status: Seq<char>, content: Seq<char>) -> Seq<char> {
    "HTTP/1.1 "@ + status + "\r\nserver: hps\r\ncontent-type: text/html\r\ncontent-length: "@
        + decimal_chars(utf8_bytes(content).len()) + "\r\nconnection: closed\r\n\r\n"@ + content
}

/// The bytes sent to a client whose request is rejected with `status`.
pub open spec fn error_response(status: Seq<char>, message: Seq<char>) -> Seq<u8> {
    utf8_bytes(html_response(status, html_content(status, message)))
}

/// The 400 response.
pub open spec fn bad_request_response() -> Seq<u8> {
    error_response(BAD_REQUEST@, BAD_REQUEST_MESSAGE@)
}

/// The 431 response.
pub open spec fn too_large_response() -> Seq<u8> {
    error_response(REQUEST_TOO_LARGE@, REQUEST_TOO_LARGE_MESSAGE@)
}

fn digit_str(d: usize) -> (r: &'static str)
    requires
        d < 10,
    ensures
        r@ == seq![digit_char(d as nat)],
{
    proof {
        reveal_strlit("0");
        reveal_strlit("1");
        reveal_strlit("2");
        reveal_strlit("3");
        reveal_strlit("4");
        reveal_strlit("5");
        reveal_strlit("6");
        reveal_strlit("7");
        reveal_strlit("8");
        reveal_strlit("9");
    }
    let r = if d == 0 {
        "0"
    } else if d == 1 {
        "1"
    } else if d == 2 {
        "2"
    } else if d == 3 {
        "3"
    } else if d == 4 {
        "4"
    } else if d == 5 {
        "5"
    } else if d == 6 {
        "6"
    } else if d == 7 {
        "7"
    } else if d == 8 {
        "8"
    } else {
        "9"
    };
    assert(r@ =~= seq![digit_char(d as nat)]);
    r
}

/// `n` written in decimal.
pub fn decimal_string(n: usize) -> (r: String)
    ensures
        r@ == decimal_chars(n as nat),
    decreases n,
{
    if n < 10 {
        String::from_str(digit_str(n))
    } else {
        let head = decimal_string(n / 10);
        head.concat(digit_str(n % 10))
    }
}

/// The HTML page that names an error: `title` as its title and heading,
/// `body` as its text.
pub fn generate_html_content(title: &str, body: &str) -> (r: String)
    ensures
        r@ == html_content(title@, body@),
{
    let mut s = String::from_str("<!DOCTYPE><html><head><title>");
    s.append(title);
    s.append("</title></head><body><h1>");
    s.append(title);
    s.append("</h1><pre>");
    s.append(body);
    s.append("</pre><pre>hps server version 1.0</pre></body></html>");
    s
}

/// A full HTTP/1.1 response with the status line `status_text` and the HTML
/// `content` as its body, its length declared in bytes.
pub fn generate_http_html_response(status_text: &str, content: &str) -> (r: String)
    ensures
        r@ == html_response(status_text@, content@),
{
    let mut s = String::from_str("HTTP/1.1 ");
    s.append(status_text);
    s.append("\r\nserver: hps\r\ncontent-type: text/html\r\ncontent-length: ");
    let n = content.as_bytes().len();
    assert(n as nat == utf8_bytes(content@).len());
    let len = decimal_string(n);
    s.append(len.as_str());
    s.append("\r\nconnection: closed\r\n\r\n");
    s.append(content);
    s
}

/// The bytes of the response that rejects a request with the status line
/// `response_line` and the explanation `response_content`.
pub fn client_error_bytes(response_line: &str, response_content: &str) -> (r: Vec<u8>)
    ensures
        r@ == error_response(response_line@, response_content@),
{
    let html = generate_html_content(response_line, response_content);
    let response = generate_http_html_response(response_line, html.as_str());
    slice_to_vec(response.as_str().as_bytes())
}

} // verus!
