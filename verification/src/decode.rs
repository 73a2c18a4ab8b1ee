//! Decoding requests out of the bytes read so far.
//!
//! The head of a request (request line and header lines) is recognised by
//! `httparse`. What follows here is this engine's own: how long the body is,
//! whether all of it has arrived, and how many bytes the request takes up in
//! the buffer, so that a request standing right behind it is found next.

use crate::buffer::{as_slice, contents};
use crate::decimal::{parse_number, parsed_number};
use crate::text::{eq_ignore_ascii_case, same_ignoring_case};
use bytes::BytesMut;
use std::mem::MaybeUninit;
use vstd::prelude::*;
use vstd::slice::slice_subrange;
use vstd::string::*;
use vstd::utf8::encode_utf8;

verus! {

/// How many headers a request may carry.
pub const MAX_HEADERS: usize = 16;

/// One header line of a request.
pub struct Header<'a> {
    pub name: &'a str,
    pub value: &'a [u8],
}

/// What a `Header` stands for.
pub struct HeaderView {
    pub name: Seq<char>,
    pub value: Seq<u8>,
}

impl<'a> View for Header<'a> {
    type V = HeaderView;

    open spec fn view(&self) -> HeaderView {
        HeaderView { name: self.name@, value: self.value@ }
    }
}

/// The head of a request: request line and headers, in wire order.
pub struct RequestHead<'a> {
    pub method: &'a str,
    pub path: &'a str,
    pub version: u8,
    pub headers: Vec<Header<'a>>,
}

/// What a `RequestHead` stands for.
pub struct HeadView {
    pub method: Seq<char>,
    pub path: Seq<char>,
    pub version: u8,
    pub headers: Seq<HeaderView>,
}

impl<'a> View for RequestHead<'a> {
    type V = HeadView;

    open spec fn view(&self) -> HeadView {
        HeadView {
            method: self.method@,
            path: self.path@,
            version: self.version,
            headers: Seq::new(self.headers@.len(), |k: int| self.headers@[k]@),
        }
    }
}

/// What the tokenizer makes of a buffer.
pub enum Tokenized {
    /// The buffer ends before the head does.
    Partial,
    /// The buffer does not start with a request head, for the reason
    /// that the tokenizer names.
    Malformed(Seq<char>),
    /// The buffer starts with this head, which takes up this many bytes.
    Complete(HeadView, nat),
}

/// What `httparse` makes of a buffer when given room for `max_headers`
/// headers.
pub uninterp spec fn tokenized(buf: Seq<u8>, max_headers: nat) -> Tokenized;

/// A head as the tokenizer hands it out: its parts as far as they were
/// found, and the number of bytes that it takes up.
struct Parsed<'a> {
    method: Option<&'a str>,
    path: Option<&'a str>,
    version: Option<u8>,
    headers: Vec<Header<'a>>,
    len: usize,
}

/// `httparse::Request::parse_with_uninit_headers`, with its result moved
/// into this crate's types. What it finds is `tokenized` of the bytes and
/// the number of header slots. A head that it finds complete has method,
/// path and version, and takes up at least one byte. A failure comes back
/// as its name, which is what `Debug` prints of an `httparse::Error`. The
/// header slots are allocated anew, so their number is kept small.
#[verifier::external_body]
fn tokenize<'a>(buf: &'a [u8], max_headers: usize) -> (found: Result<Option<Parsed<'a>>, String>)
    requires
        max_headers <= u16::MAX,
    ensures
        match found {
            Ok(Some(head)) => {
                &&& head.method is Some
                &&& head.path is Some
                &&& head.version is Some
                &&& 0 < head.len
                &&& tokenized(buf@, max_headers as nat) == Tokenized::Complete(
                    HeadView {
                        method: head.method.unwrap()@,
                        path: head.path.unwrap()@,
                        version: head.version.unwrap(),
                        headers: Seq::new(head.headers@.len(), |k: int| head.headers@[k]@),
                    },
                    head.len as nat,
                )
            },
            Ok(None) => tokenized(buf@, max_headers as nat) is Partial,
            Err(reason) => tokenized(buf@, max_headers as nat) == Tokenized::Malformed(reason@),
        },
{
    let mut slots = vec![MaybeUninit::uninit(); max_headers];
    let mut req = httparse::Request::new(&mut []);
    match req.parse_with_uninit_headers(buf, &mut slots) {
        Ok(httparse::Status::Complete(len)) => Ok(Some(Parsed {
            method: req.method,
            path: req.path,
            version: req.version,
            headers: req.headers.iter().map(|h| Header { name: h.name, value: h.value }).collect(),
            len,
        })),
        Ok(httparse::Status::Partial) => Ok(None),
        Err(e) => Err(format!("{:?}", e)),
    }
}

/// Why a buffer does not start with a request head.
#[derive(Clone, Debug, PartialEq, Eq)]
pub struct DecodeError {
    reason: String,
}

impl View for DecodeError {
    type V = Seq<char>;

    closed spec fn view(&self) -> Seq<char> {
        self.reason@
    }
}

impl DecodeError {
    /// The reason as the tokenizer names it, such as `Token` or `Version`.
    pub fn reason(&self) -> (reason: &str)
        ensures
            reason@ == self@,
    {
        self.reason.as_str()
    }

    /// The failure in words.
    pub fn message(&self) -> (text: String)
        ensures
            text@ == failure_message(self@),
    {
        let mut text = "failed to parse http request: ".to_owned();
        text.append(self.reason.as_str());
        text
    }
}

/// A failure to decode, in words, given its reason.
pub open spec fn failure_message(reason: Seq<char>) -> Seq<char> {
    "failed to parse http request: "@ + reason
}

/// The first header at or after `from` whose name is `name` but for the
/// case of ASCII letters.
pub open spec fn header_index(headers: Seq<HeaderView>, name: Seq<char>, from: int) -> Option<int>
    decreases headers.len() - from,
{
    if from < 0 || from >= headers.len() {
        None
    } else if same_ignoring_case(encode_utf8(headers[from].name), encode_utf8(name)) {
        Some(from)
    } else {
        header_index(headers, name, from + 1)
    }
}

/// The body length that a head declares: the number in its first
/// `Content-Length` header, and 0 if it has none or that header holds no
/// number.
pub open spec fn content_length(headers: Seq<HeaderView>) -> nat {
    match header_index(headers, "content-length"@, 0) {
        Some(at) => match parsed_number(headers[at].value) {
            Some(n) => n,
            None => 0,
        },
        None => 0,
    }
}

/// A decoded request: its head, its body, and the number of bytes that
/// both take up in the buffer they were decoded from.
pub struct Decoded<'a> {
    raw: RequestHead<'a>,
    len: usize,
    body: &'a [u8],
}

/// What a `Decoded` stands for.
pub struct DecodedView {
    pub head: HeadView,
    pub len: nat,
    pub body: Seq<u8>,
}

impl<'a> View for Decoded<'a> {
    type V = DecodedView;

    closed spec fn view(&self) -> DecodedView {
        DecodedView { head: self.raw@, len: self.len as nat, body: self.body@ }
    }
}

impl<'a> Decoded<'a> {
    /// How many bytes the request takes up, head and body.
    pub fn len(&self) -> (len: usize)
        ensures
            len == self@.len,
    {
        self.len
    }

    /// The head of the request.
    pub fn raw(&self) -> (head: &RequestHead<'a>)
        ensures
            head@ == self@.head,
    {
        &self.raw
    }

    /// The body of the request.
    pub fn body(&self) -> (body: &'a [u8])
        ensures
            body@ == self@.body,
    {
        self.body
    }
}

/// The request at the start of `buf`, given its head and the head's length:
/// the body is made of the declared number of bytes after the head. `None`
/// while the buffer does not hold all of them.
pub open spec fn framed(buf: Seq<u8>, head: HeadView, head_len: nat) -> Option<DecodedView> {
    let body_len = content_length(head.headers);
    if head_len + body_len <= buf.len() {
        Some(
            DecodedView {
                head,
                len: head_len + body_len,
                body: buf.subrange(head_len as int, (head_len + body_len) as int),
            },
        )
    } else {
        None
    }
}

/// What decoding a buffer gives: nothing yet while the head or the body is
/// incomplete, the reason of the failure if the head is malformed, and else
/// the request at the start of the buffer.
pub open spec fn decoded(buf: Seq<u8>) -> Result<Option<DecodedView>, Seq<char>> {
    match tokenized(buf, MAX_HEADERS as nat) {
        Tokenized::Partial => Ok(None),
        Tokenized::Malformed(reason) => Err(reason),
        Tokenized::Complete(head, head_len) => Ok(framed(buf, head, head_len)),
    }
}

/// The body length that a head declares.
pub fn declared_length(headers: &Vec<Header<'_>>) -> (len: usize)
    ensures
        len == content_length(Seq::new(headers@.len(), |k: int| headers@[k]@)),
{
    let ghost views = Seq::new(headers@.len(), |k: int| headers@[k]@);
    let mut at: usize = 0;
    while at < headers.len()
        invariant
            at <= headers@.len(),
            views == Seq::new(headers@.len(), |k: int| headers@[k]@),
            header_index(views, "content-length"@, 0) == header_index(
                views,
                "content-length"@,
                at as int,
            ),
        decreases headers@.len() - at,
    {
        let header = &headers[at];
        assert(views[at as int] == header@);
        if eq_ignore_ascii_case(header.name, "content-length") {
            return match parse_number(header.value) {
                Some(n) => n,
                None => 0,
            };
        }
        at += 1;
    }
    0
}

/// Frames the request whose head the tokenizer found at the start of
/// `buf`: takes the declared number of body bytes after the head, once
/// they have all arrived.
pub fn frame_request<'a>(buf: &'a [u8], head: RequestHead<'a>, head_len: usize) -> (request: Option<
    Decoded<'a>,
>)
    ensures
        match request {
            Some(d) => framed(buf@, head@, head_len as nat) == Some(d@) && head_len <= d@.len
                <= buf@.len(),
            None => framed(buf@, head@, head_len as nat) is None,
        },
{
    let body_len = declared_length(&head.headers);
    if head_len > buf.len() || body_len > buf.len() - head_len {
        return None;
    }
    let body = slice_subrange(buf, head_len, head_len + body_len);
    Some(Decoded { raw: head, len: head_len + body_len, body })
}

/// Decodes the request at the start of the buffer, if one is there.
///
/// `Ok(None)` says that more bytes are needed: the head is incomplete, or
/// the body that it declares has not all arrived. The buffer is left as it
/// is; the caller drops `len()` bytes once it is done with the request.
pub fn decode<'a>(buf: &'a BytesMut) -> (found: Result<Option<Decoded<'a>>, DecodeError>)
    ensures
        match found {
            Ok(Some(d)) => decoded(contents(*buf)) == Ok::<Option<DecodedView>, Seq<char>>(
                Some(d@),
            ) && 0 < d@.len <= contents(*buf).len(),
            Ok(None) => decoded(contents(*buf)) == Ok::<Option<DecodedView>, Seq<char>>(None),
            Err(e) => decoded(contents(*buf)) == Err::<Option<DecodedView>, Seq<char>>(e@),
        },
{
    let bytes = as_slice(buf);
    match tokenize(bytes, MAX_HEADERS) {
        Err(reason) => Err(DecodeError { reason }),
        Ok(None) => Ok(None),
        Ok(Some(parsed)) => {
            let head = RequestHead {
                method: parsed.method.unwrap(),
                path: parsed.path.unwrap(),
                version: parsed.version.unwrap(),
                headers: parsed.headers,
            };
            Ok(frame_request(bytes, head, parsed.len))
        },
    }
}

} // verus!
