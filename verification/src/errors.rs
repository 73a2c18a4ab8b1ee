//! The failures that handlers report and that requests run into.

use std::str::Utf8Error;
use vstd::prelude::*;
use vstd::string::*;

verus! {

#[verifier::external_type_specification]
#[verifier::external_body]
pub struct ExJsonError(serde_json::Error);

#[verifier::external_type_specification]
#[verifier::external_body]
pub struct ExUtf8Error(std::str::Utf8Error);

/// The failure of a handler, in words. The engine answers the request with
/// a `500` response that carries them.
#[derive(Clone, Debug)]
pub struct HandlerError {
    message: String,
}

impl View for HandlerError {
    type V = Seq<char>;

    closed spec fn view(&self) -> Seq<char> {
        self.message@
    }
}

impl HandlerError {
    /// A failure that reads `message`.
    pub fn new(message: &str) -> (e: Self)
        ensures
            e@ == message@,
    {
        HandlerError { message: message.to_owned() }
    }

    /// The failure in words.
    pub fn message(&self) -> (text: &str)
        ensures
            text@ == self@,
    {
        self.message.as_str()
    }
}

/// What a handler's result says in contracts: that it succeeded, or the
/// words of its failure.
pub open spec fn outcome(done: Result<(), HandlerError>) -> Result<(), Seq<char>> {
    match done {
        Ok(_) => Ok(()),
        Err(e) => Err(e@),
    }
}

/// `Display` of a `serde_json::Error`: the failure in words.
#[verifier::external_body]
pub(crate) fn json_error_text(e: &serde_json::Error) -> (text: String) {
    format!("{}", e)
}

/// `Display` of a `std::str::Utf8Error`: the failure in words.
#[verifier::external_body]
pub(crate) fn utf8_error_text(e: &Utf8Error) -> (text: String) {
    format!("{}", e)
}

/// Why the body of a request could not be read as asked.
#[derive(Debug)]
pub enum RequestError {
    /// The body is not the JSON text of a value.
    JsonError(serde_json::Error),
    /// The body is not UTF-8.
    Utf8Error(Utf8Error),
}

impl RequestError {
    /// The failure in words: `JSON Error: ` or `UTF-8 Error: `, and what
    /// the parser said.
    pub fn message(&self) -> (text: String)
        ensures
            match self {
                RequestError::JsonError(_) => "JSON Error: "@.is_prefix_of(text@),
                RequestError::Utf8Error(_) => "UTF-8 Error: "@.is_prefix_of(text@),
            },
    {
        match self {
            RequestError::JsonError(e) => {
                let mut text = "JSON Error: ".to_owned();
                let detail = json_error_text(e);
                text.append(detail.as_str());
                text
            },
            RequestError::Utf8Error(e) => {
                let mut text = "UTF-8 Error: ".to_owned();
                let detail = utf8_error_text(e);
                text.append(detail.as_str());
                text
            },
        }
    }
}

impl From<serde_json::Error> for RequestError {
    fn from(e: serde_json::Error) -> (r: RequestError) {
        RequestError::JsonError(e)
    }
}

impl vstd::std_specs::convert::FromSpecImpl<serde_json::Error> for RequestError {
    open spec fn obeys_from_spec() -> bool {
        true
    }

    open spec fn from_spec(e: serde_json::Error) -> RequestError {
        RequestError::JsonError(e)
    }
}

impl From<Utf8Error> for RequestError {
    fn from(e: Utf8Error) -> (r: RequestError) {
        RequestError::Utf8Error(e)
    }
}

impl vstd::std_specs::convert::FromSpecImpl<Utf8Error> for RequestError {
    open spec fn obeys_from_spec() -> bool {
        true
    }

    open spec fn from_spec(e: Utf8Error) -> RequestError {
        RequestError::Utf8Error(e)
    }
}

} // verus!
