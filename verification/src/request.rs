//! The request that a handler sees: the decoded request, and what the
//! route bound on its path and found in its query.

use crate::decode::{Decoded, DecodedView, Header, HeaderView};
use crate::errors::RequestError;
use crate::router::text_map;
use crate::text::{bytes_eq, eq_ignore_ascii_case, same_ignoring_case};
use std::str::Utf8Error;
use vstd::hash_map::StringHashMap;
use vstd::prelude::*;
use vstd::string::*;
use vstd::utf8::{decode_utf8, encode_utf8, valid_utf8};

verus! {

/// `std::str::from_utf8`: the bytes as a text if they are UTF-8, and a
/// failure if they are not.
#[verifier::external_body]
fn utf8_text<'a>(bytes: &'a [u8]) -> (text: Result<&'a str, Utf8Error>)
    ensures
        match text {
            Ok(text) => valid_utf8(bytes@) && text@ == decode_utf8(bytes@),
            Err(_) => !valid_utf8(bytes@),
        },
{
    std::str::from_utf8(bytes)
}

/// Whether a text is the JSON text of a value, as `serde_json` reads it.
pub uninterp spec fn is_json(text: Seq<char>) -> bool;

/// `serde_json::from_str` to a `serde_json::Value`: the value that a JSON
/// text writes, or why the text is none. Whether it finds a value is
/// `is_json` of the text.
#[verifier::external_body]
fn parse_json(text: &str) -> (value: Result<serde_json::Value, serde_json::Error>)
    ensures
        value is Ok <==> is_json(text@),
{
    serde_json::from_str(text)
}

/// A request as its handler sees it.
pub struct Request<'a> {
    req: Decoded<'a>,
    pub parameters: StringHashMap<String>,
    pub url_parameters: StringHashMap<String>,
    body: &'a [u8],
}

/// What a `Request` stands for.
pub struct RequestView {
    pub req: DecodedView,
    pub parameters: Map<Seq<char>, Seq<char>>,
    pub url_parameters: Map<Seq<char>, Seq<char>>,
    pub body: Seq<u8>,
}

impl<'a> View for Request<'a> {
    type V = RequestView;

    closed spec fn view(&self) -> RequestView {
        RequestView {
            req: self.req@,
            parameters: text_map(self.parameters@),
            url_parameters: text_map(self.url_parameters@),
            body: self.body@,
        }
    }
}

/// Whether one of the headers asks to keep the connection: its name is
/// `Connection`, in letters of either case, and its value is `keep-alive`.
pub open spec fn asks_keep_alive(headers: Seq<HeaderView>) -> bool {
    exists|k: int|
        0 <= k < headers.len() && same_ignoring_case(
            encode_utf8((#[trigger] headers[k]).name),
            encode_utf8("connection"@),
        ) && headers[k].value == encode_utf8("keep-alive"@)
}

/// The value that `m` holds for `key`.
fn lookup<'m>(m: &'m StringHashMap<String>, key: &str) -> (value: Option<&'m str>)
    ensures
        match value {
            Some(text) => text_map(m@).contains_key(key@) && text@ == text_map(m@)[key@],
            None => !text_map(m@).contains_key(key@),
        },
{
    match m.get(key) {
        Some(text) => Some(text.as_str()),
        None => None,
    }
}

impl<'a> Request<'a> {
    /// The request `req` with the parameters of its route and of its query,
    /// and `body` as its body.
    pub fn new(
        req: Decoded<'a>,
        parameters: StringHashMap<String>,
        url_parameters: StringHashMap<String>,
        body: &'a [u8],
    ) -> (request: Self)
        ensures
            request@ == (RequestView {
                req: req@,
                parameters: text_map(parameters@),
                url_parameters: text_map(url_parameters@),
                body: body@,
            }),
    {
        Request { req, parameters, url_parameters, body }
    }

    /// What the route bound to the name `key` on the path.
    pub fn parameter(&self, key: &str) -> (value: Option<&str>)
        ensures
            match value {
                Some(text) => self@.parameters.contains_key(key@) && text@
                    == self@.parameters[key@],
                None => !self@.parameters.contains_key(key@),
            },
    {
        lookup(&self.parameters, key)
    }

    /// What the query holds for `key`.
    pub fn url_parameter(&self, key: &str) -> (value: Option<&str>)
        ensures
            match value {
                Some(text) => self@.url_parameters.contains_key(key@) && text@
                    == self@.url_parameters[key@],
                None => !self@.url_parameters.contains_key(key@),
            },
    {
        lookup(&self.url_parameters, key)
    }

    /// The body.
    pub fn body(&self) -> (body: &'a [u8])
        ensures
            body@ == self@.body,
    {
        self.body
    }

    /// The body as text, if it is UTF-8.
    pub fn str_body(&self) -> (text: Result<&str, Utf8Error>)
        ensures
            match text {
                Ok(text) => valid_utf8(self@.body) && text@ == decode_utf8(self@.body),
                Err(_) => !valid_utf8(self@.body),
            },
    {
        utf8_text(self.body)
    }

    /// The body as a JSON value. A body that is not UTF-8 gives
    /// `Utf8Error`, one that is UTF-8 but not JSON gives `JsonError`, and
    /// any other gives the value that it writes.
    pub fn json_body(&self) -> (value: Result<serde_json::Value, RequestError>)
        ensures
            value is Ok <==> valid_utf8(self@.body) && is_json(decode_utf8(self@.body)),
            value matches Err(RequestError::Utf8Error(_)) <==> !valid_utf8(self@.body),
            value matches Err(RequestError::JsonError(_)) <==> valid_utf8(self@.body) && !is_json(
                decode_utf8(self@.body),
            ),
    {
        match utf8_text(self.body) {
            Err(e) => Err(RequestError::Utf8Error(e)),
            Ok(text) => json_result(parse_json(text)),
        }
    }

    /// The method, such as `GET`.
    pub fn method(&self) -> (method: &str)
        ensures
            method@ == self@.req.head.method,
    {
        self.req.raw().method
    }

    /// The request target: path and query.
    pub fn path(&self) -> (path: &str)
        ensures
            path@ == self@.req.head.path,
    {
        self.req.raw().path
    }

    /// Whether the request asks to keep the connection.
    pub fn keep_alive(&self) -> (keep: bool)
        ensures
            keep == asks_keep_alive(self@.req.head.headers),
    {
        let headers = self.headers();
        let ghost views = self@.req.head.headers;
        let mut k: usize = 0;
        while k < headers.len()
            invariant
                k <= headers@.len(),
                views == self@.req.head.headers,
                views == Seq::new(headers@.len(), |j: int| headers@[j]@),
                forall|j: int|
                    0 <= j < k ==> !(same_ignoring_case(
                        encode_utf8((#[trigger] views[j]).name),
                        encode_utf8("connection"@),
                    ) && views[j].value == encode_utf8("keep-alive"@)),
            decreases headers@.len() - k,
        {
            let header = &headers[k];
            assert(views[k as int] == header@);
            if eq_ignore_ascii_case(header.name, "connection") && bytes_eq(
                header.value,
                "keep-alive".as_bytes(),
            ) {
                assert(same_ignoring_case(
                    encode_utf8(views[k as int].name),
                    encode_utf8("connection"@),
                ) && views[k as int].value == encode_utf8("keep-alive"@));
                return true;
            }
            k += 1;
        }
        false
    }

    /// The minor version of HTTP/1: 1 for `HTTP/1.1`.
    pub fn version(&self) -> (version: u8)
        ensures
            version == self@.req.head.version,
    {
        self.req.raw().version
    }

    /// The headers, in wire order.
    pub fn headers(&self) -> (headers: &[Header<'a>])
        ensures
            Seq::new(headers@.len(), |k: int| headers@[k]@) == self@.req.head.headers,
    {
        self.req.raw().headers.as_slice()
    }
}

/// What `json_body` gives for what the JSON parser gave: the value, or
/// the parser's failure as a `JsonError`.
pub fn json_result(parsed: Result<serde_json::Value, serde_json::Error>) -> (value: Result<
    serde_json::Value,
    RequestError,
>)
    ensures
        match parsed {
            Ok(v) => value == Ok::<serde_json::Value, RequestError>(v),
            Err(e) => value == Err::<serde_json::Value, RequestError>(RequestError::JsonError(e)),
        },
{
    match parsed {
        Ok(v) => Ok(v),
        Err(e) => Err(RequestError::JsonError(e)),
    }
}

} // verus!
