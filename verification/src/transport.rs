//! The policy of the transport: which requests are answered at once, which
//! are dispatched, and what the response to each looks like.
//!
//! Nothing here performs I/O. The caller delivers each request, runs the
//! handler where one is to be invoked, and sends the response.
use vstd::prelude::*;
use vstd::string::{StrSliceExecFns, StringExecFns};
use vstd::utf8::encode_utf8;
use serde_json::Value;
use crate::dispatch::Outcome;
use crate::encoding::same_text;
use crate::json::{
    json_member, json_parsed, json_written, member, null, null_text, parse_json, write_json,
};

verus! {

/// A request as the transport delivers it. The address is already taken
/// apart: the authority, if the address has one, and the path without the
/// query.
#[derive(Debug, Clone, PartialEq, Eq)]
pub struct Request {
    pub method: String,
    pub authority: Option<String>,
    pub path: String,
    pub body: Vec<u8>,
}

/// A request as plain data.
pub struct RequestView {
    pub method: Seq<char>,
    pub authority: Option<Seq<char>>,
    pub path: Seq<char>,
    pub body: Seq<u8>,
}

impl View for Request {
    type V = RequestView;

    open spec fn view(&self) -> RequestView {
        RequestView {
            method: self.method@,
            authority: match self.authority {
                Some(text) => Some(text@),
                None => None,
            },
            path: self.path@,
            body: self.body@,
        }
    }
}

impl RequestView {
    /// The text of the authority, empty where the address has none.
    pub open spec fn host(self) -> Seq<char> {
        match self.authority {
            Some(text) => text,
            None => Seq::empty(),
        }
    }
}

/// A response for the transport to send: the status, the headers in the
/// order in which they are to be written, and the body.
#[derive(Debug, Clone, PartialEq, Eq)]
pub struct Response {
    pub status: u16,
    pub headers: Vec<(String, String)>,
    pub body: Vec<u8>,
}

/// A response as plain data.
pub struct ResponseView {
    pub status: u16,
    pub headers: Seq<(Seq<char>, Seq<char>)>,
    pub body: Seq<u8>,
}

impl View for Response {
    type V = ResponseView;

    open spec fn view(&self) -> ResponseView {
        ResponseView {
            status: self.status,
            headers: Seq::new(
                self.headers@.len(),
                |i: int| (self.headers@[i].0@, self.headers@[i].1@),
            ),
            body: self.body@,
        }
    }
}

/// What the method of a request asks for.
#[derive(Debug, Clone, Copy, PartialEq, Eq)]
pub enum Route {
    /// `OPTIONS`: the preflight of a cross-origin call.
    Preflight,
    /// `POST`: the call of a command.
    Command,
    /// Any other method.
    Refused,
}

/// The route of a method. Methods are compared as they are written.
pub open spec fn route_of(method: Seq<char>) -> Route {
    if method == "OPTIONS"@ {
        Route::Preflight
    } else if method == "POST"@ {
        Route::Command
    } else {
        Route::Refused
    }
}

/// The response to a preflight: 204, the three headers that open the
/// protocol to every origin, no body.
pub open spec fn preflight_reply() -> ResponseView {
    ResponseView {
        status: 204,
        headers: seq![
            ("Access-Control-Allow-Origin"@, "*"@),
            ("Access-Control-Allow-Methods"@, "POST, OPTIONS"@),
            ("Access-Control-Allow-Headers"@, "Content-Type"@),
        ],
        body: Seq::empty(),
    }
}

/// The response to a method that is neither `POST` nor `OPTIONS`: 405, the
/// methods that are allowed, and a body that says so.
pub open spec fn refusal_reply() -> ResponseView {
    ResponseView {
        status: 405,
        headers: seq![("Allow"@, "POST, OPTIONS"@), ("Access-Control-Allow-Origin"@, "*"@)],
        body: encode_utf8("Method Not Allowed"@),
    }
}

/// The response that carries a JSON text: 200 and the content type.
pub open spec fn json_reply(body: Seq<u8>) -> ResponseView {
    ResponseView {
        status: 200,
        headers: seq![
            ("Content-Type"@, "application/json"@),
            ("Access-Control-Allow-Origin"@, "*"@),
        ],
        body,
    }
}

/// The arguments that a body stands for: the JSON value that it holds. A
/// body that is not JSON is read as if it were `null`.
pub open spec fn arguments_of(body: Seq<u8>) -> Value {
    match json_parsed(body) {
        Some(value) => value,
        None => json_parsed(null_text())->0,
    }
}

/// The JSON value that answers a command: what the handler returned, as it
/// is, or an object whose only member is `error` with the message.
pub open spec fn envelope_of(outcome: Outcome) -> Value {
    match outcome {
        Ok(value) => value,
        Err(message) => json_member("error"@, message@),
    }
}

/// The response to a command that has come to an end: the envelope as JSON
/// text, or no body at all where the envelope cannot be written.
pub open spec fn reply_to(outcome: Outcome) -> ResponseView {
    json_reply(
        match json_written(envelope_of(outcome)) {
            Some(text) => text,
            None => Seq::empty(),
        },
    )
}

fn header(name: &str, value: &str) -> (pair: (String, String))
    ensures
        pair.0@ == name@,
        pair.1@ == value@,
{
    (String::from_str(name), String::from_str(value))
}

/// Decides by the method what is to be done with a request.
pub fn route(method: &str) -> (way: Route)
    ensures
        way == route_of(method@),
{
    if same_text(method, "OPTIONS") {
        Route::Preflight
    } else if same_text(method, "POST") {
        Route::Command
    } else {
        Route::Refused
    }
}

/// Builds the response to a preflight.
pub fn preflight() -> (response: Response)
    ensures
        response@ == preflight_reply(),
{
    let mut headers: Vec<(String, String)> = Vec::new();
    headers.push(header("Access-Control-Allow-Origin", "*"));
    headers.push(header("Access-Control-Allow-Methods", "POST, OPTIONS"));
    headers.push(header("Access-Control-Allow-Headers", "Content-Type"));
    let response = Response { status: 204, headers, body: Vec::new() };
    assert(response@.headers =~= preflight_reply().headers);
    response
}

/// Builds the response to a method that is not allowed.
pub fn method_not_allowed() -> (response: Response)
    ensures
        response@ == refusal_reply(),
{
    let mut headers: Vec<(String, String)> = Vec::new();
    headers.push(header("Allow", "POST, OPTIONS"));
    headers.push(header("Access-Control-Allow-Origin", "*"));
    let response = Response {
        status: 405,
        headers,
        body: "Method Not Allowed".as_bytes_vec(),
    };
    assert(response@.headers =~= refusal_reply().headers);
    response
}

/// Builds the response that carries the given JSON text.
pub fn json_response(body: Vec<u8>) -> (response: Response)
    ensures
        response@ == json_reply(body@),
{
    let mut headers: Vec<(String, String)> = Vec::new();
    headers.push(header("Content-Type", "application/json"));
    headers.push(header("Access-Control-Allow-Origin", "*"));
    let response = Response { status: 200, headers, body };
    assert(response@.headers =~= json_reply(body@).headers);
    response
}

/// Reads the arguments of a command from the body of its request.
pub fn arguments(body: &[u8]) -> (args: Value)
    ensures
        args == arguments_of(body@),
{
    match parse_json(body) {
        Ok(value) => value,
        Err(_) => null(),
    }
}

/// Wraps the outcome of a command: a value goes out as it is, an error as
/// `{"error": message}`.
pub fn envelope(outcome: Outcome) -> (value: Value)
    ensures
        value == envelope_of(outcome),
{
    match outcome {
        Ok(value) => value,
        Err(message) => member("error", message),
    }
}

/// Builds the response to a command from its outcome. The status is 200 also
/// for an error: a command that fails is reported in the body.
pub fn complete(outcome: Outcome) -> (response: Response)
    ensures
        response@ == reply_to(outcome),
{
    let value = envelope(outcome);
    let body = match write_json(&value) {
        Ok(text) => text,
        Err(_) => Vec::new(),
    };
    json_response(body)
}

} // verus!
