//! JSON-RPC 2.0 requests and responses exchanged between client and server,
//! and the client's side of a path request.

use vstd::prelude::*;
use vstd::utf8::*;
use crate::json::{JsonValue, Json};
use crate::text::utf8_text;

verus! {

/// A request to the server (JSON-RPC 2.0).
#[derive(Debug)]
pub struct Request {
    pub jsonrpc: String,
    pub method: String,
    pub params: JsonValue,
    pub id: u64,
}

/// A response from the server (JSON-RPC 2.0).
#[derive(Debug)]
pub struct Response {
    pub jsonrpc: String,
    pub result: JsonValue,
    pub id: u64,
}

/// Why the body of a reply could not be read.
#[derive(Debug, Clone, Copy, PartialEq, Eq)]
pub enum ReplyError {
    /// The server sent no body.
    EmptyBody,
    /// The body is not UTF-8 text.
    InvalidUtf8,
}

impl Request {
    /// A request for `method` with the given parameters, under JSON-RPC version "2.0".
    pub fn new(method: &str, params: JsonValue, id: u64) -> (r: Request)
        ensures
            r.jsonrpc@ == "2.0"@,
            r.method@ == method@,
            r.params == params,
            r.id == id,
    {
        Request { jsonrpc: String::from_str("2.0"), method: String::from_str(method), params, id }
    }
}

impl Response {
    /// A response carrying `result`, under JSON-RPC version "2.0".
    pub fn new(result: JsonValue, id: u64) -> (r: Response)
        ensures
            r.jsonrpc@ == "2.0"@,
            r.result == result,
            r.id == id,
    {
        Response { jsonrpc: String::from_str("2.0"), result, id }
    }
}

/// The parameters of a path request: an object whose members, in key order, are
/// `end` and `start`.
pub open spec fn path_params(start: Seq<char>, end: Seq<char>) -> Json {
    Json::Object(seq![("end"@, Json::Str(end)), ("start"@, Json::Str(start))])
}

/// The request a client sends to ask for a path from `start` to `end`.
pub fn path_request(start: &str, end: &str, id: u64) -> (r: Request)
    ensures
        r.jsonrpc@ == "2.0"@,
        r.method@ == "get_path"@,
        r.params@ == path_params(start@, end@),
        r.id == id,
{
    let mut members: Vec<(String, JsonValue)> = Vec::new();
    members.push((String::from_str("end"), JsonValue::String(String::from_str(end))));
    members.push((String::from_str("start"), JsonValue::String(String::from_str(start))));
    let params = JsonValue::Object(members);
    proof {
        crate::json::lemma_members_view(members@);
        assert(crate::json::members_view(members@) =~= seq![("end"@, Json::Str(end@)), ("start"@, Json::Str(start@))]);
    }
    Request::new("get_path", params, id)
}

/// The address of the server's path endpoint under the server's base address.
pub fn path_endpoint(base: &str) -> (r: String)
    ensures
        r@ == base@ + "/path"@,
{
    let mut url = String::from_str(base);
    url.append("/path");
    url
}

/// The text of the body of a reply to a path request: an error where the body is empty
/// or is not UTF-8.
pub fn reply_text(body: &[u8]) -> (r: Result<String, ReplyError>)
    ensures
        body@.len() == 0 ==> r == Err::<String, ReplyError>(ReplyError::EmptyBody),
        body@.len() > 0 && !valid_utf8(body@) ==> r == Err::<String, ReplyError>(ReplyError::InvalidUtf8),
        body@.len() > 0 && valid_utf8(body@) ==> (r matches Ok(s) && s@ == decode_utf8(body@)),
{
    if body.len() == 0 {
        return Err(ReplyError::EmptyBody);
    }
    match utf8_text(body) {
        Some(s) => Ok(s),
        None => Err(ReplyError::InvalidUtf8),
    }
}

} // verus!
