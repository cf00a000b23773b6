//! The response writer: status line, the two headers, a blank line, then the body.
use vstd::prelude::*;

use crate::bytes::{
    all_digits, ascii_bytes, decimal, find_from, index_of_from, lemma_decimal_digits,
    lemma_decimal_parses, lemma_find_first, lemma_index_first, lit, parsed_usize, push_all,
    render_decimal,
};
use vstd::string::StringSliceAdditionalSpecFns;

verus! {

/// The status lines this server answers with.
#[derive(Clone, Copy, Debug, PartialEq, Eq, Structural)]
pub enum Status {
    Success,
    BadRequest,
    Unauthorized,
    NotFound,
}

/// The content types this server labels bodies with.
#[derive(Clone, Copy, Debug, PartialEq, Eq, Structural)]
pub enum Mime {
    Icon,
    Jpeg,
    Png,
    Svg,
    Html,
    Css,
    Javascript,
    Plain,
    Csv,
    Script,
}

/// The status code and reason phrase of a status.
pub open spec fn status_text(s: Status) -> Seq<u8> {
    match s {
        Status::Success => ascii_bytes("200 OK"@),
        Status::BadRequest => ascii_bytes("400 BAD REQUEST"@),
        Status::Unauthorized => ascii_bytes("401 UNAUTHORIZED"@),
        Status::NotFound => ascii_bytes("404 NOT FOUND"@),
    }
}

/// The media type of a content type, as sent.
pub open spec fn mime_text(m: Mime) -> Seq<u8> {
    match m {
        Mime::Icon => ascii_bytes("image/x-icon"@),
        Mime::Jpeg => ascii_bytes("image/jpeg"@),
        Mime::Png => ascii_bytes("image/png"@),
        Mime::Svg => ascii_bytes("image/svg+xml"@),
        Mime::Html => ascii_bytes("text/html"@),
        Mime::Css => ascii_bytes("text/css"@),
        Mime::Javascript => ascii_bytes("application/javascript"@),
        Mime::Plain => ascii_bytes("text/plain"@),
        Mime::Csv => ascii_bytes("text/csv"@),
        Mime::Script => ascii_bytes("text/js"@),
    }
}

/// Image types are sent from the file's raw bytes, the others as text.
pub open spec fn is_image_spec(m: Mime) -> bool {
    m is Icon || m is Jpeg || m is Png || m is Svg
}

impl Status {
    /// The status code and reason phrase.
    pub fn text(&self) -> (r: Vec<u8>)
        ensures
            r@ == status_text(*self),
    {
        proof {
            reveal_strlit("200 OK");
            reveal_strlit("400 BAD REQUEST");
            reveal_strlit("401 UNAUTHORIZED");
            reveal_strlit("404 NOT FOUND");
        }
        match self {
            Status::Success => lit("200 OK"),
            Status::BadRequest => lit("400 BAD REQUEST"),
            Status::Unauthorized => lit("401 UNAUTHORIZED"),
            Status::NotFound => lit("404 NOT FOUND"),
        }
    }
}

impl Mime {
    /// The media type as it appears in the `Content-type` header.
    pub fn text(&self) -> (r: Vec<u8>)
        ensures
            r@ == mime_text(*self),
    {
        proof {
            reveal_strlit("image/x-icon");
            reveal_strlit("image/jpeg");
            reveal_strlit("image/png");
            reveal_strlit("image/svg+xml");
            reveal_strlit("text/html");
            reveal_strlit("text/css");
            reveal_strlit("application/javascript");
            reveal_strlit("text/plain");
            reveal_strlit("text/csv");
            reveal_strlit("text/js");
        }
        match self {
            Mime::Icon => lit("image/x-icon"),
            Mime::Jpeg => lit("image/jpeg"),
            Mime::Png => lit("image/png"),
            Mime::Svg => lit("image/svg+xml"),
            Mime::Html => lit("text/html"),
            Mime::Css => lit("text/css"),
            Mime::Javascript => lit("application/javascript"),
            Mime::Plain => lit("text/plain"),
            Mime::Csv => lit("text/csv"),
            Mime::Script => lit("text/js"),
        }
    }

    /// Whether a file of this type is sent as raw bytes rather than as text.
    pub fn is_image(&self) -> (r: bool)
        ensures
            r == is_image_spec(*self),
    {
        match self {
            Mime::Icon | Mime::Jpeg | Mime::Png | Mime::Svg => true,
            _ => false,
        }
    }
}

/// Everything of a response before its body, for a body of `n` bytes.
pub open spec fn response_head(status: Seq<u8>, mime: Seq<u8>, n: nat) -> Seq<u8> {
    ascii_bytes("HTTP/1.1 "@) + status + ascii_bytes("\r\nContent-Length: "@) + decimal(n)
        + ascii_bytes("\r\nContent-type: "@) + mime + ascii_bytes("\r\n\r\n"@)
}

/// The bytes sent on the wire for a response.
pub open spec fn response_bytes(status: Seq<u8>, mime: Seq<u8>, body: Seq<u8>) -> Seq<u8> {
    response_head(status, mime, body.len()) + body
}

/// No carriage return occurs in `s`.
pub open spec fn no_cr(s: Seq<u8>) -> bool {
    forall|i: int| 0 <= i < s.len() ==> s[i] != 13
}

/// Framing: where the status and the content type hold no carriage return, a client that
/// reads the status line up to the first carriage return, then the `Content-Length: ` line,
/// reads the byte length of the body there; the first blank line ends the head, and the bytes
/// after it are exactly the body.
pub proof fn lemma_response_framing(status: Seq<u8>, mime: Seq<u8>, body: Seq<u8>)
    requires
        no_cr(status),
        no_cr(mime),
        body.len() <= usize::MAX,
    ensures
        ({
            let r = response_bytes(status, mime, body);
            let a = 9 + status.len() as int;
            let v = a + 18;
            let b = index_of_from(r, 13, v);
            let k = response_head(status, mime, body.len()).len() as int;
            &&& r.subrange(0, 9) == ascii_bytes("HTTP/1.1 "@)
            &&& index_of_from(r, 13, 0) == a
            &&& r.subrange(0, a) == ascii_bytes("HTTP/1.1 "@) + status
            &&& r.subrange(a, v) == ascii_bytes("\r\nContent-Length: "@)
            &&& parsed_usize(r.subrange(v, b)) == Some(body.len())
            &&& find_from(r, ascii_bytes("\r\n\r\n"@), 0) == Some(k - 4)
            &&& r.skip(k) == body
        }),
{
    reveal_strlit("HTTP/1.1 ");
    reveal_strlit("\r\nContent-Length: ");
    reveal_strlit("\r\nContent-type: ");
    reveal_strlit("\r\n\r\n");
    let n = body.len();
    let d = decimal(n);
    lemma_decimal_digits(n);
    lemma_decimal_parses(n);
    let pa = ascii_bytes("HTTP/1.1 "@);
    let pb = ascii_bytes("\r\nContent-Length: "@);
    let pc = ascii_bytes("\r\nContent-type: "@);
    let pe = ascii_bytes("\r\n\r\n"@);
    let h = response_head(status, mime, n);
    let r = h + body;
    let a = 9 + status.len() as int;
    let v = a + 18;
    let b = v + d.len() as int;
    let c = b + 16;
    let m = c + mime.len() as int;
    let k = m + 4;
    assert(h =~= pa + status + pb + d + pc + mime + pe);
    assert(h.len() == k);
    assert forall|j: int| 0 <= j < 9 implies r[j] == pa[j] by {}
    assert forall|j: int| 9 <= j < a implies r[j] == status[j - 9] by {}
    assert forall|j: int| a <= j < v implies r[j] == pb[j - a] by {}
    assert forall|j: int| v <= j < b implies r[j] == d[j - v] by {}
    assert forall|j: int| b <= j < c implies r[j] == pc[j - b] by {}
    assert forall|j: int| c <= j < m implies r[j] == mime[j - c] by {}
    assert forall|j: int| m <= j < k implies r[j] == pe[j - m] by {}
    assert forall|j: int| 0 <= j < a implies r[j] != 13 by {
        if j >= 9 {
            assert(status[j - 9] != 13);
        }
    }
    lemma_index_first(r, 13, 0, a);
    assert forall|j: int| v <= j < b implies r[j] != 13 by {
        assert(all_digits(d));
        assert(crate::bytes::is_digit(d[j - v]));
    }
    lemma_index_first(r, 13, v, b);
    assert(r.subrange(0, 9) =~= pa);
    assert(r.subrange(0, a) =~= pa + status);
    assert(r.subrange(a, v) =~= pb);
    assert(r.subrange(v, b) =~= d);
    assert(r.subrange(k - 4, k) =~= pe);
    assert forall|j: int| 0 <= j < k - 4 implies #[trigger] r.subrange(j, j + 4) != pe by {
        if r.subrange(j, j + 4) == pe {
            assert(r[j] == r.subrange(j, j + 4)[0]);
            assert(r[j + 2] == r.subrange(j, j + 4)[2]);
            assert(r[j] == 13 && r[j + 2] == 13);
            if j < a {
            } else if j < v {
                assert(j == a);
            } else if j < b {
                assert(crate::bytes::is_digit(d[j - v]));
            } else if j < c {
                assert(j == b);
            } else if j < m {
                assert(mime[j - c] != 13);
            }
        }
    }
    lemma_find_first(r, pe, 0, k - 4);
    assert(r.skip(k) =~= body);
}

/// Serializes a response with the given status line, content type and body.
pub fn frame(status: &[u8], mime: &[u8], body: &[u8]) -> (r: Vec<u8>)
    ensures
        r@ == response_bytes(status@, mime@, body@),
{
    proof {
        reveal_strlit("HTTP/1.1 ");
        reveal_strlit("\r\nContent-Length: ");
        reveal_strlit("\r\nContent-type: ");
        reveal_strlit("\r\n\r\n");
    }
    let mut r = lit("HTTP/1.1 ");
    push_all(&mut r, status);
    let a = lit("\r\nContent-Length: ");
    push_all(&mut r, a.as_slice());
    let n = render_decimal(body.len());
    push_all(&mut r, n.as_slice());
    let b = lit("\r\nContent-type: ");
    push_all(&mut r, b.as_slice());
    push_all(&mut r, mime);
    let c = lit("\r\n\r\n");
    push_all(&mut r, c.as_slice());
    push_all(&mut r, body);
    r
}

/// A response whose body is binary data.
pub fn bytes_response(status: Status, mime: Mime, contents: &[u8]) -> (r: Vec<u8>)
    ensures
        r@ == response_bytes(status_text(status), mime_text(mime), contents@),
{
    let s = status.text();
    let m = mime.text();
    frame(s.as_slice(), m.as_slice(), contents)
}

/// A response whose body is text; its length header counts the text's UTF-8 bytes.
pub fn str_response(status: Status, mime: Mime, contents: &str) -> (r: Vec<u8>)
    ensures
        r@ == response_bytes(status_text(status), mime_text(mime), contents.spec_bytes()),
{
    bytes_response(status, mime, contents.as_bytes())
}

} // verus!
