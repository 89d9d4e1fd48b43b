//! The server's answer to a request: routing, checking the JSON-RPC call, and
//! planning the journey it asks for.

use vstd::prelude::*;
use vstd::utf8::{valid_utf8, decode_utf8};
use crate::city::{City, city_id, city_of_name, node_name, node_name_of};
use crate::graph::{is_shortest_path, path_cost, reachable};
use crate::json::{JsonValue, Json, decimal, decimal_text, lookup, lemma_items_view, lemma_members_view, items_view, members_view};
use crate::rpc::{Request, Response, path_params};
use crate::state::{State, PlanError};
use crate::text::{str_eq, utf8_text};
use crate::time::{Timestamp, in_range, plus_seconds, clock_now, LATEST_SECS};
use crate::wire::{HttpRequest, header_name};

verus! {

broadcast use vstd::string::group_string_axioms;

/// The server's reply: a status code, header fields, and the JSON-RPC response
/// that makes up its body, where there is one.
#[derive(Debug)]
pub struct Reply {
    pub status: u16,
    pub headers: Vec<(String, String)>,
    pub body: Option<Response>,
}

/// Why the server could not answer.
#[derive(Debug, Clone, Copy, PartialEq, Eq)]
pub enum ServerError {
    /// The clock cannot be read, or reads an instant before the epoch, past the last one
    /// that chrono represents, or inside a leap second.
    ClockOutOfRange,
    /// A road has grown so crowded that no more journeys fit on it.
    RoadsFull,
    /// The journey asked for would arrive after the last instant that chrono represents.
    ArrivalOutOfRange,
}

/// The message sent back when no path connects the two cities.
pub open spec fn no_route_message() -> Seq<char> {
    "Invalid start or end city given"@
}

/// The request is a `POST` to the path endpoint.
pub open spec fn is_path_call(method: Seq<char>, path: Seq<char>) -> bool {
    method == "POST"@ && path == "/path"@
}

/// The two cities that a well-formed `get_path` call names: its parameters are an object
/// whose `start` and `end` members are strings.
pub open spec fn call_cities(req: Request) -> Option<(City, City)> {
    if req.method@ == "get_path"@ && req.params@ is Object {
        match (lookup(req.params@, "start"@), lookup(req.params@, "end"@)) {
            (Some(Json::Str(s)), Some(Json::Str(e))) => Some((city_of_name(s), city_of_name(e))),
            _ => None,
        }
    } else {
        None
    }
}

/// A city that the server knows.
pub open spec fn is_known(c: City) -> bool {
    !(c is DNE)
}

/// The nodes between which a request asks for a journey: a path call whose call names two
/// known cities.
pub open spec fn route_of(method: Seq<char>, path: Seq<char>, call: Option<Request>) -> Option<(u64, u64)> {
    if is_path_call(method, path) && call is Some && call_cities(call->0) is Some {
        let (a, b) = call_cities(call->0)->0;
        if is_known(a) && is_known(b) {
            Some((city_id(a), city_id(b)))
        } else {
            None
        }
    } else {
        None
    }
}

/// Every shortest path from `from` to `to` would arrive after the last instant that chrono
/// represents, leaving at `now`.
pub open spec fn arrives_too_late(edges: Map<(u64, u64), u64>, from: u64, to: u64, now: Timestamp) -> bool {
    forall|q: Seq<u64>| #[trigger] is_shortest_path(edges, q, from, to) ==> now.secs + path_cost(edges, q) > LATEST_SECS
}

/// The result reported for a planned path: its cost as `distance` and its cities as `path`.
pub open spec fn route_json(cost: nat, p: Seq<u64>) -> Json {
    Json::Object(
        seq![
            ("distance"@, Json::Number(decimal(cost))),
            ("path"@, Json::Array(p.map_values(|n: u64| Json::Str(node_name(n))))),
        ],
    )
}

/// The reply carries one header field: the JSON content type.
pub open spec fn json_header(r: &Reply) -> bool {
    &&& r.headers@.len() == 1
    &&& r.headers@[0].0@ == "content-type"@
    &&& r.headers@[0].1@ == "application/json"@
}

/// The reply the server gives at `now` to a request with `method` and `path` whose body was
/// read as `call`, and how it changes the state from `before` to `after`.
pub open spec fn replied(
    before: State,
    after: State,
    method: Seq<char>,
    path: Seq<char>,
    call: Option<Request>,
    now: Timestamp,
    r: Reply,
) -> bool {
    let route = route_of(method, path, call);
    let (from, to) = if route is Some { route->0 } else { (0u64, 0u64) };
    let routed = route is Some && reachable(before.edges(), from, to);
    &&& !is_path_call(method, path) ==> {
        &&& r.status == 404
        &&& r.headers@.len() == 0
        &&& r.body is None
    }
    &&& is_path_call(method, path) ==> json_header(&r)
    &&& is_path_call(method, path) && (call is None || call_cities(call->0) is None) ==> {
        &&& r.status == 400
        &&& r.body is None
    }
    &&& is_path_call(method, path) && call is Some && call_cities(call->0) is Some ==> {
        &&& r.status == 200
        &&& r.body is Some
        &&& r.body->0.jsonrpc@ == "2.0"@
        &&& r.body->0.id == call->0.id
    }
    &&& !routed ==> {
        &&& after.edges() == before.edges()
        &&& after.journeys() == before.journeys()
    }
    &&& is_path_call(method, path) && call is Some && call_cities(call->0) is Some && !routed ==> {
        r.body->0.result@ == Json::Str(no_route_message())
    }
    &&& routed ==> {
        let (arrival, p) = after.journeys().last();
        &&& after.journeys() == before.journeys().push((arrival, p))
        &&& is_shortest_path(before.edges(), p, from, to)
        &&& arrival == plus_seconds(now, path_cost(before.edges(), p) as int)
        &&& r.body->0.result@ == route_json(path_cost(before.edges(), p), p)
    }
}

/// What the server answers at `now`: the reply of `replied`, except where the journey asked
/// for would arrive after the last instant chrono represents, which is refused with the
/// state unchanged.
pub open spec fn answers(
    before: State,
    after: State,
    method: Seq<char>,
    path: Seq<char>,
    call: Option<Request>,
    now: Timestamp,
    r: Result<Reply, ServerError>,
) -> bool {
    let route = route_of(method, path, call);
    let (from, to) = if route is Some { route->0 } else { (0u64, 0u64) };
    let late = route is Some && reachable(before.edges(), from, to)
        && arrives_too_late(before.edges(), from, to, now);
    &&& (r is Err) == late
    &&& late ==> {
        &&& r == Err::<Reply, ServerError>(ServerError::ArrivalOutOfRange)
        &&& after.edges() == before.edges()
        &&& after.journeys() == before.journeys()
    }
    &&& r matches Ok(reply) ==> replied(before, after, method, path, call, now, reply)
}

/// The instant the clock read, or the epoch where none was read; only the planning of a
/// journey makes use of it.
pub open spec fn read_or_epoch(now: Option<Timestamp>) -> Timestamp {
    match now {
        Some(t) => t,
        None => Timestamp { secs: 0, nanos: 0 },
    }
}

/// What the server answers when the clock reads `now` (none where it cannot be read). The
/// clock and the roads' capacity matter only to a request that plans a journey between two
/// known cities: such a request is refused where a road is full, and otherwise gets a clock
/// error where the instant is unusable. Every other request, and a planned one at a usable
/// instant on roads below the cap, is answered as `answers` says.
pub open spec fn responded(
    before: State,
    after: State,
    method: Seq<char>,
    path: Seq<char>,
    call: Option<Request>,
    now: Option<Timestamp>,
    r: Result<Reply, ServerError>,
) -> bool {
    let planned = route_of(method, path, call) is Some;
    let usable = now is Some && in_range(now->0);
    &&& planned && !before.below_cap() ==> {
        &&& r == Err::<Reply, ServerError>(ServerError::RoadsFull)
        &&& after.edges() == before.edges()
        &&& after.journeys() == before.journeys()
    }
    &&& planned && before.below_cap() && !usable ==> {
        &&& r == Err::<Reply, ServerError>(ServerError::ClockOutOfRange)
        &&& after.edges() == before.edges()
        &&& after.journeys() == before.journeys()
    }
    &&& !planned || (before.below_cap() && usable) ==> answers(
        before,
        after,
        method,
        path,
        call,
        read_or_epoch(now),
        r,
    )
}

/// The names of the nodes of a path, as JSON strings.
fn path_names(p: &Vec<u64>) -> (r: JsonValue)
    ensures
        r@ == Json::Array(p@.map_values(|n: u64| Json::Str(node_name(n)))),
{
    let mut items: Vec<JsonValue> = Vec::new();
    let mut i: usize = 0;
    while i < p.len()
        invariant
            0 <= i <= p@.len(),
            items@.len() == i,
            forall|j: int| 0 <= j < i ==> (#[trigger] items@[j])@ == Json::Str(node_name(p@[j])),
        decreases p@.len() - i,
    {
        let name = node_name_of(p[i]);
        items.push(JsonValue::String(name));
        i = i + 1;
    }
    proof {
        lemma_items_view(items@);
        assert(items_view(items@) =~= p@.map_values(|n: u64| Json::Str(node_name(n))));
    }
    JsonValue::Array(items)
}

/// The result reported for a planned path.
fn route_result(cost: u64, p: &Vec<u64>) -> (r: JsonValue)
    ensures
        r@ == route_json(cost as nat, p@),
{
    let mut members: Vec<(String, JsonValue)> = Vec::new();
    members.push((String::from_str("distance"), JsonValue::Number(decimal_text(cost))));
    members.push((String::from_str("path"), path_names(p)));
    proof {
        lemma_members_view(members@);
        assert(members_view(members@) =~= route_json(cost as nat, p@)->Object_0);
    }
    JsonValue::Object(members)
}

/// Whether a request is a `POST` to the path endpoint, the one whose body is read as a call.
pub fn reads_call(method: &str, path: &str) -> (r: bool)
    ensures
        r == is_path_call(method@, path@),
{
    str_eq(method, "POST") && str_eq(path, "/path")
}

/// The text of a request's body, which a path call carries as JSON: none where the body
/// is not UTF-8.
pub fn call_text(request: &HttpRequest) -> (r: Option<String>)
    ensures
        r is Some <==> valid_utf8(request.body@),
        r matches Some(s) ==> s@ == decode_utf8(request.body@),
{
    utf8_text(request.body.as_slice())
}

/// A reply without a body.
fn bare_reply(status: u16, headers: Vec<(String, String)>) -> (r: Reply)
    ensures
        r.status == status,
        r.headers == headers,
        r.body is None,
{
    Reply { status, headers, body: None }
}

/// Whether a city is one the server knows.
fn known_city(c: City) -> (r: bool)
    ensures
        r == is_known(c),
{
    match c {
        City::DNE => false,
        _ => true,
    }
}

/// Answers a request, reading the clock only where a journey is to be planned: at `now`
/// where `live` is false, and at the instant `clock_now` reads where it is true. A `POST`
/// to `/path` whose body was read as a `get_path` call naming two known cities is answered
/// with a shortest path between them over the roads as they are loaded now, which becomes
/// a journey under way; where either city is unknown or no path connects them, with a
/// message and nothing changed. Any other `POST` to `/path` is a bad request; every other
/// request is not found. Also gives the clock reading it answered at.
fn answer(
    state: &mut State,
    method: &str,
    path: &str,
    call: Option<Request>,
    now: Option<Timestamp>,
    live: bool,
) -> (out: (Result<Reply, ServerError>, Ghost<Option<Timestamp>>))
    requires
        old(state).wf(),
    ensures
        final(state).wf(),
        responded(*old(state), *final(state), method@, path@, call, out.1@, out.0),
        !live ==> out.1@ == now,
{
    let mut headers: Vec<(String, String)> = Vec::new();
    if !reads_call(method, path) {
        return (Ok(bare_reply(404, headers)), Ghost(now));
    }
    proof {
        reveal_strlit("Content-Type");
        reveal_strlit("content-type");
        let n = "Content-Type"@;
        assert(crate::wire::ascii_lower(n) =~= "content-type"@);
        assert(vstd::utf8::is_ascii_chars(n));
        vstd::utf8::is_ascii_chars_encode_utf8(n);
        assert(crate::wire::name_fits(n));
        assert(crate::wire::all_header_chars(n));
    }
    let name = header_name("Content-Type").unwrap();
    headers.push((name, String::from_str("application/json")));
    let call = match call {
        Some(c) => c,
        None => {
            return (Ok(bare_reply(400, headers)), Ghost(now));
        },
    };
    if !(str_eq(call.method.as_str(), "get_path") && call.params.is_object()) {
        return (Ok(bare_reply(400, headers)), Ghost(now));
    }
    let start_name = match call.params.get("start") {
        Some(v) => match v.as_text() {
            Some(s) => s,
            None => {
                return (Ok(bare_reply(400, headers)), Ghost(now));
            },
        },
        None => {
            return (Ok(bare_reply(400, headers)), Ghost(now));
        },
    };
    let end_name = match call.params.get("end") {
        Some(v) => match v.as_text() {
            Some(s) => s,
            None => {
                return (Ok(bare_reply(400, headers)), Ghost(now));
            },
        },
        None => {
            return (Ok(bare_reply(400, headers)), Ghost(now));
        },
    };
    let start_city = City::from(start_name.as_str());
    let end_city = City::from(end_name.as_str());
    if !(known_city(start_city) && known_city(end_city)) {
        let result = JsonValue::String(String::from_str("Invalid start or end city given"));
        return (Ok(Reply { status: 200, headers, body: Some(Response::new(result, call.id)) }), Ghost(now));
    }
    if !state.has_capacity() {
        return (Err(ServerError::RoadsFull), Ghost(now));
    }
    let reading = if live { clock_now() } else { now };
    let t = match reading {
        Some(t) => t,
        None => {
            return (Err(ServerError::ClockOutOfRange), Ghost(reading));
        },
    };
    if !(t.secs >= 0 && t.secs <= LATEST_SECS && t.nanos < 1_000_000_000) {
        return (Err(ServerError::ClockOutOfRange), Ghost(reading));
    }
    let start: u64 = start_city.into();
    let end: u64 = end_city.into();
    let result = match state.plan_journey(start, end, t) {
        Ok(Some((cost, p))) => route_result(cost, &p),
        Ok(None) => JsonValue::String(String::from_str("Invalid start or end city given")),
        Err(PlanError::ArrivalOutOfRange) => {
            return (Err(ServerError::ArrivalOutOfRange), Ghost(reading));
        },
    };
    (Ok(Reply { status: 200, headers, body: Some(Response::new(result, call.id)) }), Ghost(reading))
}

/// Answers a request at the instant `now`, on roads below the cap (see `answers`).
pub fn respond_at(state: &mut State, method: &str, path: &str, call: Option<Request>, now: Timestamp) -> (r: Result<Reply, ServerError>)
    requires
        old(state).wf(),
        old(state).below_cap(),
        in_range(now),
    ensures
        final(state).wf(),
        answers(*old(state), *final(state), method@, path@, call, now, r),
{
    let (r, _) = answer(state, method, path, call, Some(now), false);
    r
}

/// Answers a request when the clock reads `now` (none where it cannot be read): the clock
/// and the roads' capacity are consulted only for a journey to be planned (see `responded`).
pub fn answer_at(state: &mut State, request: &HttpRequest, call: Option<Request>, now: Option<Timestamp>) -> (r: Result<Reply, ServerError>)
    requires
        old(state).wf(),
    ensures
        final(state).wf(),
        responded(*old(state), *final(state), request.method@, request.path@, call, now, r),
{
    let (r, _) = answer(state, request.method.as_str(), request.path.as_str(), call, now, false);
    r
}

/// Answers a request (see `answer_at`), reading the clock where a journey is to be planned.
pub fn respond(state: &mut State, request: &HttpRequest, call: Option<Request>) -> (r: Result<Reply, ServerError>)
    requires
        old(state).wf(),
    ensures
        final(state).wf(),
        exists|now: Option<Timestamp>|
            #[trigger] responded(*old(state), *final(state), request.method@, request.path@, call, now, r),
{
    let (r, Ghost(now)) = answer(state, request.method.as_str(), request.path.as_str(), call, None, true);
    assert(responded(*old(state), *state, request.method@, request.path@, call, now, r));
    r
}

/// A path request as the client builds it (`path_request`) is read by the server as a call
/// for a path between exactly the two cities it names.
pub proof fn lemma_client_calls_are_read(req: Request, start: Seq<char>, end: Seq<char>)
    requires
        req.method@ == "get_path"@,
        req.params@ == path_params(start, end),
    ensures
        call_cities(req) == Some((city_of_name(start), city_of_name(end))),
{
    reveal_strlit("start");
    reveal_strlit("end");
    let m = seq![("end"@, Json::Str(end)), ("start"@, Json::Str(start))];
    assert("end"@.len() != "start"@.len());
    assert(m.drop_first()[0] == ("start"@, Json::Str(start)));
    assert(crate::json::member(m.drop_first(), "start"@) == Some(Json::Str(start)));
    assert(crate::json::member(m, "start"@) == Some(Json::Str(start)));
    assert(crate::json::member(m, "end"@) == Some(Json::Str(end)));
}

} // verus!
