//! Responses: what a handler fills in, and the bytes it becomes on the wire.
//!
//! A response has a status, up to sixteen extra header lines and a body. The
//! body is either set as a whole, or written piece by piece into a scratch
//! buffer that the response borrows from the connection. A response that
//! has no body set sends whatever the scratch buffer holds.

use crate::buffer::{as_slice, contents};
use crate::decimal::{decimal_text, format_decimal};
use crate::decode::MAX_HEADERS;
use crate::errors::{json_error_text, outcome, HandlerError};
use bytes::BufMut;
use bytes::BytesMut;
use vstd::prelude::*;
use vstd::slice::slice_to_vec;
use vstd::string::*;
use vstd::utf8::encode_utf8;

verus! {

#[verifier::external_type_specification]
#[verifier::external_body]
pub struct ExJsonValue(serde_json::Value);

/// `serde_json::to_writer` with a `BytesMut` as the writer: appends the
/// JSON text of the value to the buffer. When it fails, what it had written
/// by then stays in the buffer.
#[verifier::external_body]
fn write_json(buf: &mut BytesMut, value: &serde_json::Value) -> (done: Result<
    (),
    serde_json::Error,
>)
    ensures
        contents(*old(buf)).is_prefix_of(contents(*final(buf))),
{
    serde_json::to_writer(buf.writer(), value)
}

/// Status code and reason phrase.
struct StatusMessage {
    code: usize,
    msg: &'static str,
}

/// The body of a response, as far as it is not in the scratch buffer.
enum Body {
    StaticStr(&'static str),
    Str(String),
    Vec(Vec<u8>),
    /// No body is set: the scratch buffer holds it.
    Dummy,
}

impl Body {
    /// The bytes of a body that is set; nothing for `Dummy`.
    spec fn bytes(&self) -> Seq<u8> {
        match self {
            Body::StaticStr(text) => encode_utf8(text@),
            Body::Str(text) => encode_utf8(text@),
            Body::Vec(bytes) => bytes@,
            Body::Dummy => Seq::empty(),
        }
    }
}

/// A response under construction.
pub struct Response<'a> {
    headers: Vec<&'static str>,
    status_message: StatusMessage,
    body: Body,
    res_buf: &'a mut BytesMut,
}

/// What a response puts on the wire.
pub struct ResponseView {
    pub code: nat,
    pub reason: Seq<char>,
    pub headers: Seq<Seq<char>>,
    pub body: Seq<u8>,
}

impl<'a> View for Response<'a> {
    type V = ResponseView;

    closed spec fn view(&self) -> ResponseView {
        ResponseView {
            code: self.status_message.code as nat,
            reason: self.status_message.msg@,
            headers: Seq::new(self.headers@.len(), |k: int| self.headers@[k]@),
            body: if self.body is Dummy {
                contents(*self.res_buf)
            } else {
                self.body.bytes()
            },
        }
    }
}

impl<'a> Response<'a> {
    /// What the scratch buffer holds.
    pub closed spec fn scratch(&self) -> Seq<u8> {
        contents(*self.res_buf)
    }

    /// Whether a body is set. If none is, the body is what the scratch
    /// buffer holds.
    pub closed spec fn body_set(&self) -> bool {
        !(self.body is Dummy)
    }

    /// What the scratch buffer holds once a body that is set has moved
    /// into it.
    pub open spec fn flushed(&self) -> Seq<u8> {
        if self.body_set() {
            self.scratch() + self@.body
        } else {
            self.scratch()
        }
    }

    /// Whether the response is as `new` makes it over an empty scratch
    /// buffer: `200 Ok`, no extra headers, no body.
    pub open spec fn is_fresh(&self) -> bool {
        &&& self@ == (ResponseView {
            code: 200,
            reason: "Ok"@,
            headers: Seq::empty(),
            body: Seq::empty(),
        })
        &&& self.scratch() == Seq::<u8>::empty()
        &&& !self.body_set()
    }

    /// While no body is set, the body of a response is what its scratch
    /// buffer holds.
    pub proof fn lemma_unset_body_is_scratch(&self)
        ensures
            !self.body_set() ==> self@.body == self.scratch(),
    {
    }

    /// A response `200 Ok` without extra headers, whose body is what the
    /// scratch buffer holds. The buffer stays the caller's to clear once
    /// the response is encoded.
    pub fn new(res_buf: &'a mut BytesMut) -> (rsp: Response<'a>)
        ensures
            rsp@ == (ResponseView {
                code: 200,
                reason: "Ok"@,
                headers: Seq::empty(),
                body: contents(*old(res_buf)),
            }),
            rsp.scratch() == contents(*old(res_buf)),
            !rsp.body_set(),
    {
        let rsp = Response {
            headers: Vec::new(),
            status_message: StatusMessage { code: 200, msg: "Ok" },
            body: Body::Dummy,
            res_buf,
        };
        assert(rsp@.headers =~= Seq::<Seq<char>>::empty());
        rsp
    }

    /// How many extra header lines the response has.
    pub fn header_count(&self) -> (count: usize)
        ensures
            count == self@.headers.len(),
    {
        self.headers.len()
    }

    /// Sets status code and reason phrase.
    pub fn status_code(&mut self, code: usize, msg: &'static str) -> (same: &mut Self)
        ensures
            same@ == (ResponseView { code: code as nat, reason: msg@, ..old(self)@ }),
            same.scratch() == old(self).scratch(),
            same.body_set() == old(self).body_set(),
            *final(self) == *final(same),
    {
        self.status_message = StatusMessage { code, msg };
        self
    }

    /// Adds a header line, such as `Content-Type: text/plain`. There is
    /// room for `MAX_HEADERS` of them.
    pub fn header(&mut self, header: &'static str) -> (same: &mut Self)
        requires
            old(self)@.headers.len() < MAX_HEADERS,
        ensures
            same@ == (ResponseView { headers: old(self)@.headers.push(header@), ..old(self)@ }),
            same.scratch() == old(self).scratch(),
            same.body_set() == old(self).body_set(),
            *final(self) == *final(same),
    {
        self.headers.push(header);
        assert(self@.headers =~= old(self)@.headers.push(header@));
        self
    }

    /// Sets the body to a text that lives as long as the program.
    pub fn body(&mut self, s: &'static str)
        ensures
            final(self)@ == (ResponseView { body: encode_utf8(s@), ..old(self)@ }),
            final(self).scratch() == old(self).scratch(),
            final(self).body_set(),
    {
        self.body = Body::StaticStr(s);
    }

    /// Sets the body to the given bytes.
    pub fn body_vec(&mut self, v: Vec<u8>)
        ensures
            final(self)@ == (ResponseView { body: v@, ..old(self)@ }),
            final(self).scratch() == old(self).scratch(),
            final(self).body_set(),
    {
        self.body = Body::Vec(v);
    }

    /// Sets the body to a copy of the given bytes.
    pub fn body_bytes(&mut self, v: &[u8])
        ensures
            final(self)@ == (ResponseView { body: v@, ..old(self)@ }),
            final(self).scratch() == old(self).scratch(),
            final(self).body_set(),
    {
        self.body = Body::Vec(slice_to_vec(v));
    }

    /// Sets the body to the given text.
    pub fn str(&mut self, s: String) -> (done: Result<(), HandlerError>)
        ensures
            done is Ok,
            final(self)@ == (ResponseView { body: encode_utf8(s@), ..old(self)@ }),
            final(self).scratch() == old(self).scratch(),
            final(self).body_set(),
    {
        self.body = Body::Str(s);
        Ok(())
    }

    /// Sets the body to a copy of the given text. An empty text unsets the
    /// body, which is then what the scratch buffer holds.
    pub fn send(&mut self, content: &str) -> (done: Result<(), HandlerError>)
        ensures
            done is Ok,
            final(self).body_set() == (content@.len() > 0),
            final(self)@ == (ResponseView {
                body: if content@.len() > 0 {
                    encode_utf8(content@)
                } else {
                    old(self).scratch()
                },
                ..old(self)@
            }),
            final(self).scratch() == old(self).scratch(),
    {
        if content.is_empty() {
            self.body = Body::Dummy;
        } else {
            self.body = Body::Str(content.to_owned());
        }
        Ok(())
    }

    /// Moves a body that is set into the scratch buffer, behind what the
    /// buffer holds, and hands out the buffer to write more of the body.
    pub fn body_mut(&mut self) -> (buf: &mut BytesMut)
        ensures
            contents(*buf) == old(self).flushed(),
            final(self)@ == (ResponseView { body: contents(*final(buf)), ..old(self)@ }),
            final(self).scratch() == contents(*final(buf)),
            !final(self).body_set(),
    {
        match &self.body {
            Body::Dummy => {},
            Body::StaticStr(s) => {
                self.res_buf.extend_from_slice(s.as_bytes());
            },
            Body::Str(s) => {
                self.res_buf.extend_from_slice(s.as_str().as_bytes());
            },
            Body::Vec(v) => {
                self.res_buf.extend_from_slice(v.as_slice());
            },
        }
        self.body = Body::Dummy;
        self.res_buf
    }

    /// Makes the response carry a JSON value: adds the header
    /// `Content-Type: application/json`, moves a body that is set into the
    /// scratch buffer, and writes the JSON text of the value behind it.
    ///
    /// When the value cannot be written, the failure comes back in words;
    /// header and scratch buffer keep what they got by then.
    pub fn json(&mut self, v: &serde_json::Value) -> (done: Result<(), HandlerError>)
        requires
            old(self)@.headers.len() < MAX_HEADERS,
        ensures
            final(self)@.code == old(self)@.code,
            final(self)@.reason == old(self)@.reason,
            final(self)@.headers == old(self)@.headers.push("Content-Type: application/json"@),
            old(self).flushed().is_prefix_of(final(self).scratch()),
            final(self)@.body == final(self).scratch(),
            !final(self).body_set(),
    {
        self.header("Content-Type: application/json");
        let buf = self.body_mut();
        match write_json(buf, v) {
            Ok(()) => Ok(()),
            Err(e) => {
                let text = json_error_text(&e);
                Err(HandlerError::new(text.as_str()))
            },
        }
    }

    /// How long the body is.
    fn body_len(&self) -> (len: usize)
        ensures
            len == self@.body.len(),
    {
        match &self.body {
            Body::Dummy => self.res_buf.len(),
            Body::StaticStr(s) => s.as_bytes().len(),
            Body::Str(s) => s.as_str().as_bytes().len(),
            Body::Vec(v) => v.len(),
        }
    }

    /// The body.
    fn get_body(&self) -> (body: &[u8])
        ensures
            body@ == self@.body,
    {
        match &self.body {
            Body::Dummy => as_slice(self.res_buf),
            Body::StaticStr(s) => s.as_bytes(),
            Body::Str(s) => s.as_str().as_bytes(),
            Body::Vec(v) => v.as_slice(),
        }
    }
}

/// The status line: `HTTP/1.1`, code and reason phrase.
pub open spec fn status_line(code: nat, reason: Seq<char>) -> Seq<u8> {
    encode_utf8("HTTP/1.1 "@) + encode_utf8(decimal_text(code)) + encode_utf8(" "@) + encode_utf8(
        reason,
    )
}

/// The extra header lines, each behind a line break.
pub open spec fn header_lines(headers: Seq<Seq<char>>) -> Seq<u8>
    decreases headers.len(),
{
    if headers.len() == 0 {
        Seq::empty()
    } else {
        header_lines(headers.drop_last()) + encode_utf8("\r\n"@) + encode_utf8(headers.last())
    }
}

/// What comes before the date: the status line, the `Server` header and
/// the name of the `Date` header.
pub open spec fn before_date(code: nat, reason: Seq<char>) -> Seq<u8> {
    status_line(code, reason) + encode_utf8("\r\nServer: M\r\nDate: "@)
}

/// What comes after the date: the `Content-Length` header with the length
/// of the body, the extra header lines, an empty line, and the body.
pub open spec fn after_date(headers: Seq<Seq<char>>, body: Seq<u8>) -> Seq<u8> {
    encode_utf8("\r\nContent-Length: "@) + encode_utf8(decimal_text(body.len())) + header_lines(
        headers,
    ) + encode_utf8("\r\n\r\n"@) + body
}

/// A response on the wire.
pub open spec fn response_bytes(rsp: ResponseView, date: Seq<char>) -> Seq<u8> {
    before_date(rsp.code, rsp.reason) + encode_utf8(date) + after_date(rsp.headers, rsp.body)
}

/// The response to a failure: `500 Internal Server Error`, with the
/// failure in words as the body.
pub open spec fn failure_response(message: Seq<char>) -> ResponseView {
    ResponseView {
        code: 500,
        reason: "Internal Server Error"@,
        headers: Seq::empty(),
        body: encode_utf8(message),
    }
}

/// The response that answers a request, given what its handler returned
/// and the response that the handler filled in: that response if the
/// handler succeeded, the response to its failure if it failed.
pub open spec fn reply(done: Result<(), Seq<char>>, rsp: ResponseView) -> ResponseView {
    match done {
        Ok(_) => rsp,
        Err(message) => failure_response(message),
    }
}

/// Appends `piece` to `buf`, which holds `sofar` behind `start`.
fn append(buf: &mut BytesMut, piece: &[u8], Ghost(start): Ghost<Seq<u8>>, Ghost(sofar): Ghost<Seq<u8>>)
    requires
        contents(*old(buf)) == start + sofar,
    ensures
        contents(*final(buf)) == start + (sofar + piece@),
{
    buf.extend_from_slice(piece);
    assert((start + sofar) + piece@ =~= start + (sofar + piece@));
}

/// Appends to `buf` what comes before the date, and the date.
fn write_head(status: &StatusMessage, date: &str, buf: &mut BytesMut)
    ensures
        contents(*final(buf)) == contents(*old(buf)) + (before_date(
            status.code as nat,
            status.msg@,
        ) + encode_utf8(date@)),
{
    let ghost start = contents(*buf);
    let ghost a = encode_utf8("HTTP/1.1 "@);
    buf.extend_from_slice("HTTP/1.1 ".as_bytes());
    let code = format_decimal(status.code);
    append(buf, code.as_str().as_bytes(), Ghost(start), Ghost(a));
    let ghost b = a + encode_utf8(code@);
    append(buf, " ".as_bytes(), Ghost(start), Ghost(b));
    let ghost c = b + encode_utf8(" "@);
    append(buf, status.msg.as_bytes(), Ghost(start), Ghost(c));
    let ghost d = c + encode_utf8(status.msg@);
    assert(d == status_line(status.code as nat, status.msg@));
    append(buf, "\r\nServer: M\r\nDate: ".as_bytes(), Ghost(start), Ghost(d));
    let ghost e = d + encode_utf8("\r\nServer: M\r\nDate: "@);
    append(buf, date.as_bytes(), Ghost(start), Ghost(e));
}

/// Appends to `buf` what comes after the date.
fn write_tail(headers: &Vec<&'static str>, body_len: usize, body: &[u8], buf: &mut BytesMut)
    requires
        body_len == body@.len(),
    ensures
        contents(*final(buf)) == contents(*old(buf)) + after_date(
            Seq::new(headers@.len(), |k: int| headers@[k]@),
            body@,
        ),
{
    let ghost start = contents(*buf);
    let ghost lines = Seq::new(headers@.len(), |k: int| headers@[k]@);
    let ghost a = encode_utf8("\r\nContent-Length: "@);
    buf.extend_from_slice("\r\nContent-Length: ".as_bytes());
    let length = format_decimal(body_len);
    append(buf, length.as_str().as_bytes(), Ghost(start), Ghost(a));
    let ghost fixed = a + encode_utf8(length@);
    assert(lines.take(0) =~= Seq::<Seq<char>>::empty());
    assert(fixed + header_lines(lines.take(0)) =~= fixed);
    let mut k: usize = 0;
    while k < headers.len()
        invariant
            k <= headers@.len(),
            lines == Seq::new(headers@.len(), |k: int| headers@[k]@),
            contents(*buf) == start + (fixed + header_lines(lines.take(k as int))),
        decreases headers@.len() - k,
    {
        let ghost sofar = fixed + header_lines(lines.take(k as int));
        append(buf, "\r\n".as_bytes(), Ghost(start), Ghost(sofar));
        let ghost broken = sofar + encode_utf8("\r\n"@);
        append(buf, headers[k].as_bytes(), Ghost(start), Ghost(broken));
        proof {
            let upto = lines.take(k + 1);
            let line = encode_utf8(headers@[k as int]@);
            assert(upto.drop_last() == lines.take(k as int));
            assert(upto.last() == headers@[k as int]@);
            assert(broken + line =~= fixed + header_lines(upto));
        }
        k += 1;
    }
    assert(lines.take(k as int) == lines);
    let ghost c = fixed + header_lines(lines);
    append(buf, "\r\n\r\n".as_bytes(), Ghost(start), Ghost(c));
    let ghost d = c + encode_utf8("\r\n\r\n"@);
    append(buf, body, Ghost(start), Ghost(d));
    assert(d + body@ == after_date(lines, body@));
}

/// Appends a response to `buf` as it goes on the wire.
fn write_response(
    status: &StatusMessage,
    headers: &Vec<&'static str>,
    body_len: usize,
    body: &[u8],
    date: &str,
    buf: &mut BytesMut,
)
    requires
        body_len == body@.len(),
    ensures
        contents(*final(buf)) == contents(*old(buf)) + response_bytes(
            ResponseView {
                code: status.code as nat,
                reason: status.msg@,
                headers: Seq::new(headers@.len(), |k: int| headers@[k]@),
                body: body@,
            },
            date@,
        ),
{
    let ghost start = contents(*buf);
    let ghost head = before_date(status.code as nat, status.msg@) + encode_utf8(date@);
    let ghost tail = after_date(Seq::new(headers@.len(), |k: int| headers@[k]@), body@);
    write_head(status, date, buf);
    write_tail(headers, body_len, body, buf);
    assert((start + head) + tail =~= start + (head + tail));
}

/// Appends the response to `buf` as it goes on the wire, with `date` in
/// its `Date` header.
///
/// The response is used up, and the scratch buffer that it borrowed is
/// cleared, so that the body is not sent a second time.
pub fn encode(rsp: Response, date: &str, buf: &mut BytesMut)
    ensures
        contents(*final(buf)) == contents(*old(buf)) + response_bytes(rsp@, date@),
{
    write_response(&rsp.status_message, &rsp.headers, rsp.body_len(), rsp.get_body(), date, buf);
    let Response { res_buf, .. } = rsp;
    res_buf.clear();
}

/// Appends to `buf` the response to a failure: `500 Internal Server
/// Error`, with the failure in words as the body.
pub fn encode_error(e: HandlerError, date: &str, buf: &mut BytesMut)
    ensures
        contents(*final(buf)) == contents(*old(buf)) + response_bytes(
            failure_response(e@),
            date@,
        ),
{
    let status = StatusMessage { code: 500, msg: "Internal Server Error" };
    let none: Vec<&'static str> = Vec::new();
    assert(Seq::new(none@.len(), |k: int| none@[k]@) =~= Seq::<Seq<char>>::empty());
    let message = e.message().as_bytes();
    write_response(&status, &none, message.len(), message, date, buf);
}

/// Appends to `buf` the answer to a request, given what its handler
/// returned and the response that the handler filled in: that response if
/// the handler succeeded, and the response to its failure if it failed.
/// Either way the scratch buffer that the response borrowed is cleared.
pub fn answer(done: Result<(), HandlerError>, rsp: Response, date: &str, buf: &mut BytesMut)
    ensures
        contents(*final(buf)) == contents(*old(buf)) + response_bytes(
            reply(outcome(done), rsp@),
            date@,
        ),
{
    match done {
        Ok(()) => encode(rsp, date, buf),
        Err(e) => {
            let Response { res_buf, .. } = rsp;
            res_buf.clear();
            encode_error(e, date, buf)
        },
    }
}

/// A response on the wire is never empty.
pub proof fn lemma_response_is_not_empty(rsp: ResponseView, date: Seq<char>)
    ensures
        response_bytes(rsp, date).len() > 0,
{
    reveal_strlit("HTTP/1.1 ");
    vstd::utf8::is_ascii_chars_encode_utf8("HTTP/1.1 "@);
}

/// Two encodings of a response differ in the date and in nothing else:
/// they start alike up to the date and go on alike after it. With the same
/// date they are the same bytes.
pub proof fn lemma_encodings_differ_in_date_only(rsp: ResponseView, first: Seq<char>, second: Seq<char>)
    ensures
        ({
            let a = response_bytes(rsp, first);
            let b = response_bytes(rsp, second);
            let before = before_date(rsp.code, rsp.reason).len() as int;
            &&& a.take(before) == b.take(before)
            &&& a.subrange(before, before + encode_utf8(first).len()) == encode_utf8(first)
            &&& b.subrange(before, before + encode_utf8(second).len()) == encode_utf8(second)
            &&& a.skip(before + encode_utf8(first).len()) == b.skip(
                before + encode_utf8(second).len(),
            )
            &&& first == second ==> a == b
        }),
{
    let head = before_date(rsp.code, rsp.reason);
    let tail = after_date(rsp.headers, rsp.body);
    let a = response_bytes(rsp, first);
    let b = response_bytes(rsp, second);
    let before = head.len() as int;
    assert(a.take(before) =~= head);
    assert(b.take(before) =~= head);
    assert(a.subrange(before, before + encode_utf8(first).len()) =~= encode_utf8(first));
    assert(b.subrange(before, before + encode_utf8(second).len()) =~= encode_utf8(second));
    assert(a.skip(before + encode_utf8(first).len()) =~= tail);
    assert(b.skip(before + encode_utf8(second).len()) =~= tail);
}

} // verus!
