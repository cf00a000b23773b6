//! The request reader: the method, the path of a GET request, the `Content-Length` fields of
//! a POST request, and the body, gathered over as many reads as it takes.
use vstd::prelude::*;

use crate::bytes::{
    ascii_bytes, before_byte, copy_range, find, find_from, has_prefix, index_of, index_of_from,
    lit, parse_usize, parsed_usize, starts,
};

verus! {

/// The size of the buffer for the first read of a connection, and the largest body chunk read at once.
pub const CHUNK: usize = 1024;

/// The kind of request, by the first bytes read from the connection.
#[derive(Clone, Copy, Debug, PartialEq, Eq, Structural)]
pub enum Method {
    Get,
    Post,
    Other,
}

/// A request is a GET or a POST by the first bytes of what was read.
pub open spec fn method_of(buf: Seq<u8>) -> Method {
    if starts(buf, ascii_bytes("GET /"@)) {
        Method::Get
    } else if starts(buf, ascii_bytes("POST /"@)) {
        Method::Post
    } else {
        Method::Other
    }
}

/// Space, tab, line feed, vertical tab, form feed and carriage return.
pub open spec fn is_space(b: u8) -> bool {
    b == 32 || (9 <= b <= 13)
}

/// The index of the first whitespace byte of `s` at or after `i`, or `s.len()`.
pub open spec fn space_from(s: Seq<u8>, i: int) -> int
    decreases s.len() - i,
{
    if i < 0 || i >= s.len() {
        s.len() as int
    } else if is_space(s[i]) {
        i
    } else {
        space_from(s, i + 1)
    }
}

/// The first whitespace at or after `i` lies between `i` and the end.
pub proof fn lemma_space_from_bounds(s: Seq<u8>, i: int)
    requires
        0 <= i <= s.len(),
    ensures
        i <= space_from(s, i) <= s.len(),
    decreases s.len() - i,
{
    if i < s.len() && !is_space(s[i]) {
        lemma_space_from_bounds(s, i + 1);
    }
}

/// The path that a GET request asks for: the target after `GET /` up to the next whitespace,
/// without the query that a `?` begins.
pub open spec fn get_path(buf: Seq<u8>) -> Seq<u8> {
    before_byte(buf.subrange(5, space_from(buf, 5)), 63)
}

/// Tells a GET from a POST from anything else.
pub fn classify(buf: &[u8]) -> (r: Method)
    ensures
        r == method_of(buf@),
{
    proof {
        reveal_strlit("GET /");
        reveal_strlit("POST /");
    }
    let get = lit("GET /");
    let post = lit("POST /");
    if has_prefix(buf, get.as_slice()) {
        Method::Get
    } else if has_prefix(buf, post.as_slice()) {
        Method::Post
    } else {
        Method::Other
    }
}

/// The path that a GET request asks for.
pub fn request_path(buf: &[u8]) -> (r: Vec<u8>)
    requires
        method_of(buf@) == Method::Get,
    ensures
        r@ == get_path(buf@),
{
    proof {
        reveal_strlit("GET /");
    }
    let mut end: usize = 5;
    while end < buf.len() && !(buf[end] == 32 || (9 <= buf[end] && buf[end] <= 13))
        invariant
            5 <= end <= buf@.len(),
            space_from(buf@, 5) == space_from(buf@, end as int),
        decreases buf@.len() - end,
    {
        end = end + 1;
    }
    assert(space_from(buf@, end as int) == end);
    let target = copy_range(buf, 5, end);
    let q = index_of(target.as_slice(), 63, 0);
    let r = copy_range(target.as_slice(), 0, q);
    assert(r@ =~= before_byte(target@, 63));
    r
}

/// What a header line says of the body length: nothing if it is not a `Content-Length: `
/// line in which `: ` occurs once; otherwise the number that the rest of the line, less its
/// final byte (the carriage return), reads as, or `None` when it does not read as one.
pub open spec fn length_field(line: Seq<u8>) -> Option<Option<nat>> {
    if starts(line, ascii_bytes("Content-Length: "@)) && find_from(line, ascii_bytes(": "@), 16)
        is None {
        if line.len() > 16 {
            Some(parsed_usize(line.subrange(16, line.len() - 1)))
        } else {
            Some(None)
        }
    } else {
        None
    }
}

/// The `Content-Length` fields of the lines of `s` from index `pos` on, in order; lines end at
/// line feeds.
pub open spec fn length_fields_from(s: Seq<u8>, pos: int) -> Seq<Option<nat>>
    decreases s.len() - pos,
{
    let e = index_of_from(s, 10, pos);
    let rest = if pos <= e < s.len() {
        length_fields_from(s, e + 1)
    } else {
        Seq::empty()
    };
    match length_field(s.subrange(pos, e)) {
        Some(v) => seq![v] + rest,
        None => rest,
    }
}

/// A length field as a number.
pub open spec fn as_nat(o: Option<usize>) -> Option<nat> {
    match o {
        Some(n) => Some(n as nat),
        None => None,
    }
}

/// What one header line says of the body length.
pub fn length_of_line(line: &[u8]) -> (r: Option<Option<usize>>)
    ensures
        match r {
            Some(o) => length_field(line@) == Some(as_nat(o)),
            None => length_field(line@) is None,
        },
{
    proof {
        reveal_strlit("Content-Length: ");
        reveal_strlit(": ");
    }
    let key = lit("Content-Length: ");
    let sep = lit(": ");
    if !has_prefix(line, key.as_slice()) {
        return None;
    }
    if find(line, sep.as_slice(), 16).is_some() {
        return None;
    }
    if line.len() > 16 {
        let v = copy_range(line, 16, line.len() - 1);
        Some(parse_usize(v.as_slice()))
    } else {
        Some(None)
    }
}

/// The `Content-Length` fields of the header text, one for each line that has one, in order;
/// `None` for a field that does not read as a length. Each one calls for a body read.
pub fn content_lengths(header: &[u8]) -> (r: Vec<Option<usize>>)
    ensures
        r@.map_values(|o: Option<usize>| as_nat(o)) == length_fields_from(header@, 0),
{
    let mut r: Vec<Option<usize>> = Vec::new();
    let mut pos: usize = 0;
    loop
        invariant
            pos <= header@.len(),
            r@.map_values(|o: Option<usize>| as_nat(o)) + length_fields_from(header@, pos as int)
                == length_fields_from(header@, 0),
        decreases header@.len() - pos,
    {
        let e = index_of(header, 10, pos);
        let line = copy_range(header, pos, e);
        let f = length_of_line(line.as_slice());
        let ghost rest = if pos <= e < header@.len() {
            length_fields_from(header@, e + 1)
        } else {
            Seq::empty()
        };
        let ghost before = r@.map_values(|o: Option<usize>| as_nat(o));
        match f {
            Some(v) => {
                r.push(v);
                assert(r@.map_values(|o: Option<usize>| as_nat(o)) =~= before.push(as_nat(v)));
                assert(before.push(as_nat(v)) + rest =~= before + (seq![as_nat(v)] + rest));
            },
            None => {},
        }
        if e >= header.len() {
            assert(rest =~= Seq::<Option<nat>>::empty());
            assert(r@.map_values(|o: Option<usize>| as_nat(o)) + rest =~= r@.map_values(
                |o: Option<usize>| as_nat(o),
            ));
            return r;
        }
        pos = e + 1;
    }
}

/// The body of a POST request, gathered over as many reads as it takes.
pub struct BodyReader {
    expected: usize,
    data: Vec<u8>,
}

impl BodyReader {
    /// The number of bytes the body is declared to have.
    pub closed spec fn expected_len(&self) -> nat {
        self.expected as nat
    }

    /// The bytes received so far.
    pub closed spec fn received(&self) -> Seq<u8> {
        self.data@
    }

    /// Never more is received than declared.
    pub open spec fn wf(&self) -> bool {
        self.received().len() <= self.expected_len()
    }

    /// How many bytes the next read may take: what is missing, but at most one chunk.
    pub open spec fn wanted_spec(&self) -> nat {
        let missing = (self.expected_len() - self.received().len()) as nat;
        if missing > CHUNK {
            CHUNK as nat
        } else {
            missing
        }
    }

    /// A reader for a body of `len` bytes.
    pub fn new(len: usize) -> (r: BodyReader)
        ensures
            r.wf(),
            r.expected_len() == len,
            r.received() == Seq::<u8>::empty(),
    {
        BodyReader { expected: len, data: Vec::new() }
    }

    /// The size of the buffer for the next read.
    pub fn wanted(&self) -> (n: usize)
        requires
            self.wf(),
        ensures
            n == self.wanted_spec(),
    {
        let missing = self.expected - self.data.len();
        if missing > CHUNK {
            CHUNK
        } else {
            missing
        }
    }

    /// Adds the bytes of one read.
    pub fn accept(&mut self, chunk: &[u8])
        requires
            old(self).wf(),
            chunk@.len() <= old(self).wanted_spec(),
        ensures
            final(self).wf(),
            final(self).expected_len() == old(self).expected_len(),
            final(self).received() == old(self).received() + chunk@,
    {
        crate::bytes::push_all(&mut self.data, chunk);
    }

    /// Whether the whole body has arrived.
    pub fn is_done(&self) -> (r: bool)
        ensures
            r == (self.received().len() == self.expected_len()),
    {
        self.data.len() == self.expected
    }

    /// The bytes received.
    pub fn into_body(self) -> (r: Vec<u8>)
        ensures
            r@ == self.received(),
    {
        self.data
    }
}

} // verus!
