use path_rpc::json::JsonValue;
use path_rpc::rpc::Request;
use path_rpc::server::{answer_at, call_text, reads_call, respond, respond_at, Reply, ServerError};
use path_rpc::state::State;
use path_rpc::time::{Timestamp, LATEST_SECS};
use path_rpc::wire::HttpRequest;

fn now() -> Timestamp {
    Timestamp { secs: 1_700_000_000, nanos: 0 }
}

fn call(method: &str, params: JsonValue, id: u64) -> Option<Request> {
    Some(Request::new(method, params, id))
}

fn ends(start: &str, end: &str) -> JsonValue {
    JsonValue::Object(vec![
        ("start".to_string(), JsonValue::String(start.to_string())),
        ("end".to_string(), JsonValue::String(end.to_string())),
    ])
}

fn json_header(r: &Reply) -> bool {
    r.headers == vec![("content-type".to_string(), "application/json".to_string())]
}

#[test]
fn other_routes_are_not_found() {
    let mut s = State::new();
    let r = respond_at(&mut s, "GET", "/path", call("get_path", ends("Boston", "New York City"), 1), now()).unwrap();
    assert_eq!(r.status, 404);
    assert!(r.headers.is_empty());
    assert!(r.body.is_none());
    let r = respond_at(&mut s, "POST", "/other", None, now()).unwrap();
    assert_eq!(r.status, 404);
    assert!(r.body.is_none());
    let r = respond_at(&mut s, "post", "/path", None, now()).unwrap();
    assert_eq!(r.status, 404);
    assert_eq!(s.journey_count(), 0);
}

#[test]
fn unreadable_calls_are_bad_requests() {
    let mut s = State::new();
    let r = respond_at(&mut s, "POST", "/path", None, now()).unwrap();
    assert_eq!(r.status, 400);
    assert!(json_header(&r));
    assert!(r.body.is_none());
}

#[test]
fn calls_of_other_methods_are_bad_requests() {
    let mut s = State::new();
    let r = respond_at(&mut s, "POST", "/path", call("new_path", ends("Boston", "New York City"), 1), now()).unwrap();
    assert_eq!(r.status, 400);
    assert!(json_header(&r));
    assert!(r.body.is_none());
    assert_eq!(s.journey_count(), 0);
}

#[test]
fn calls_without_both_city_names_are_bad_requests() {
    let mut s = State::new();
    let r = respond_at(&mut s, "POST", "/path", call("get_path", JsonValue::Array(vec![]), 1), now()).unwrap();
    assert_eq!(r.status, 400);
    let only_start = JsonValue::Object(vec![("start".to_string(), JsonValue::String("Boston".to_string()))]);
    let r = respond_at(&mut s, "POST", "/path", call("get_path", only_start, 1), now()).unwrap();
    assert_eq!(r.status, 400);
    let number_end = JsonValue::Object(vec![
        ("start".to_string(), JsonValue::String("Boston".to_string())),
        ("end".to_string(), JsonValue::Number("3".to_string())),
    ]);
    let r = respond_at(&mut s, "POST", "/path", call("get_path", number_end, 1), now()).unwrap();
    assert_eq!(r.status, 400);
    assert!(r.body.is_none());
    assert_eq!(s.journey_count(), 0);
}

#[test]
fn path_calls_are_answered_with_a_route() {
    let mut s = State::new();
    let r = respond_at(&mut s, "POST", "/path", call("get_path", ends("Boston", "New York City"), 7), now()).unwrap();
    assert_eq!(r.status, 200);
    assert!(json_header(&r));
    let body = r.body.unwrap();
    assert_eq!(body.jsonrpc, "2.0");
    assert_eq!(body.id, 7);
    match body.result {
        JsonValue::Object(members) => {
            assert_eq!(members.len(), 2);
            assert_eq!(members[0].0, "distance");
            assert!(matches!(members[0].1, JsonValue::Number(ref n) if n == "4"));
            assert_eq!(members[1].0, "path");
            match &members[1].1 {
                JsonValue::Array(items) => {
                    let names: Vec<&str> = items
                        .iter()
                        .map(|v| match v {
                            JsonValue::String(s) => s.as_str(),
                            _ => panic!("not a name"),
                        })
                        .collect();
                    assert_eq!(names, vec!["Boston", "Providence", "New York City"]);
                }
                other => panic!("unexpected {:?}", other),
            }
        }
        other => panic!("unexpected {:?}", other),
    }
    assert_eq!(s.journey_count(), 1);
    assert_eq!(s.journey_at(0).arrival, Timestamp { secs: 1_700_000_004, nanos: 0 });
}

#[test]
fn unconnected_cities_get_a_message() {
    let mut s = State::new();
    let r = respond_at(&mut s, "POST", "/path", call("get_path", ends("New York City", "Atlantis"), 3), now()).unwrap();
    assert_eq!(r.status, 200);
    assert!(json_header(&r));
    let body = r.body.unwrap();
    assert_eq!(body.id, 3);
    assert!(matches!(body.result, JsonValue::String(ref m) if m == "Invalid start or end city given"));
    assert_eq!(s.journey_count(), 0);
}

#[test]
fn reads_call_only_for_posts_to_path() {
    assert!(reads_call("POST", "/path"));
    assert!(!reads_call("GET", "/path"));
    assert!(!reads_call("POST", "/path/"));
}

fn clock_secs() -> i64 {
    std::time::SystemTime::now()
        .duration_since(std::time::UNIX_EPOCH)
        .unwrap()
        .as_secs() as i64
}

#[test]
fn respond_answers_at_the_current_time() {
    let mut s = State::new();
    let req = HttpRequest {
        method: "POST".to_string(),
        path: "/path".to_string(),
        headers: vec![],
        body: vec![],
    };
    let before = clock_secs();
    let r = respond(&mut s, &req, call("get_path", ends("Bar Harbor", "Boston"), 2)).unwrap();
    let after = clock_secs();
    assert_eq!(r.status, 200);
    assert_eq!(s.journey_count(), 1);
    let arrival = s.journey_at(0).arrival;
    assert!(arrival.secs >= before + 5 && arrival.secs <= after + 5);
    assert!(arrival.nanos < 1_000_000_000);
}

#[test]
fn respond_leaves_other_routes_alone() {
    let mut s = State::new();
    let req = HttpRequest {
        method: "GET".to_string(),
        path: "/".to_string(),
        headers: vec![],
        body: vec![],
    };
    let r = respond(&mut s, &req, None).unwrap();
    assert_eq!(r.status, 404);
    assert_eq!(s.journey_count(), 0);
}

#[test]
fn call_text_reads_utf8_bodies() {
    let mut req = HttpRequest {
        method: "POST".to_string(),
        path: "/path".to_string(),
        headers: vec![],
        body: "{\"a\":\"é\"}".as_bytes().to_vec(),
    };
    assert_eq!(call_text(&req), Some("{\"a\":\"é\"}".to_string()));
    req.body = vec![0xc3];
    assert_eq!(call_text(&req), None);
    req.body = vec![];
    assert_eq!(call_text(&req), Some(String::new()));
}

#[test]
fn client_requests_are_answered_for_their_cities() {
    let mut s = State::new();
    let req = path_rpc::rpc::path_request("Bar Harbor", "New York City", 11);
    let r = respond_at(&mut s, "POST", "/path", Some(req), now()).unwrap();
    assert_eq!(r.status, 200);
    let body = r.body.unwrap();
    assert_eq!(body.id, 11);
    match body.result {
        JsonValue::Object(members) => {
            assert!(matches!(members[0].1, JsonValue::Number(ref n) if n == "9"));
        }
        other => panic!("unexpected {:?}", other),
    }
    assert_eq!(s.journey_at(0).path, vec![3, 1, 2, 0]);
}

fn path_post() -> HttpRequest {
    HttpRequest {
        method: "POST".to_string(),
        path: "/path".to_string(),
        headers: vec![],
        body: vec![],
    }
}

#[test]
fn unknown_cities_get_a_message_and_change_nothing() {
    let mut s = State::new();
    for (start, end) in [("Paris", "Rome"), ("Paris", "Boston"), ("Boston", "Rome"), ("Atlantis", "Atlantis")] {
        let r = respond_at(&mut s, "POST", "/path", call("get_path", ends(start, end), 5), now()).unwrap();
        assert_eq!(r.status, 200);
        assert!(json_header(&r));
        let body = r.body.unwrap();
        assert_eq!(body.jsonrpc, "2.0");
        assert_eq!(body.id, 5);
        assert!(matches!(body.result, JsonValue::String(ref m) if m == "Invalid start or end city given"));
    }
    assert_eq!(s.journey_count(), 0);
    assert_eq!(s.edge_weight(0, 1), Some(3));
}

#[test]
fn an_unreadable_clock_is_an_error() {
    let mut s = State::new();
    let c = || call("get_path", ends("Boston", "New York City"), 1);
    assert_eq!(answer_at(&mut s, &path_post(), c(), None).unwrap_err(), ServerError::ClockOutOfRange);
    let past = Timestamp { secs: LATEST_SECS + 1, nanos: 0 };
    assert_eq!(answer_at(&mut s, &path_post(), c(), Some(past)).unwrap_err(), ServerError::ClockOutOfRange);
    let before_epoch = Timestamp { secs: -1, nanos: 0 };
    assert_eq!(answer_at(&mut s, &path_post(), c(), Some(before_epoch)).unwrap_err(), ServerError::ClockOutOfRange);
    let leap = Timestamp { secs: 1_700_000_000, nanos: 1_000_000_000 };
    assert_eq!(answer_at(&mut s, &path_post(), c(), Some(leap)).unwrap_err(), ServerError::ClockOutOfRange);
    assert_eq!(s.journey_count(), 0);
}

#[test]
fn answer_at_a_usable_instant_plans_the_route() {
    let mut s = State::new();
    let c = call("get_path", ends("Boston", "New York City"), 9);
    let r = answer_at(&mut s, &path_post(), c, Some(now())).unwrap();
    assert_eq!(r.status, 200);
    assert_eq!(r.body.unwrap().id, 9);
    assert_eq!(s.journey_at(0).arrival, Timestamp { secs: 1_700_000_004, nanos: 0 });
}

#[test]
fn journeys_arriving_too_late_are_refused() {
    let mut s = State::new();
    let late = Timestamp { secs: LATEST_SECS - 2, nanos: 0 };
    let c = || call("get_path", ends("Boston", "New York City"), 1);
    assert_eq!(respond_at(&mut s, "POST", "/path", c(), late).unwrap_err(), ServerError::ArrivalOutOfRange);
    assert_eq!(answer_at(&mut s, &path_post(), c(), Some(late)).unwrap_err(), ServerError::ArrivalOutOfRange);
    assert_eq!(s.journey_count(), 0);
    assert_eq!(s.edge_weight(1, 2), Some(1));
}

#[test]
fn only_journeys_need_the_clock() {
    let mut s = State::new();
    let get = HttpRequest { method: "GET".to_string(), path: "/".to_string(), headers: vec![], body: vec![] };
    let r = answer_at(&mut s, &get, None, None).unwrap();
    assert_eq!(r.status, 404);
    let r = answer_at(&mut s, &path_post(), None, None).unwrap();
    assert_eq!(r.status, 400);
    let r = answer_at(&mut s, &path_post(), call("get_path", ends("Paris", "Boston"), 4), None).unwrap();
    assert_eq!(r.status, 200);
    assert!(matches!(r.body.unwrap().result, JsonValue::String(ref m) if m == "Invalid start or end city given"));
    let leap = Timestamp { secs: 59, nanos: 1_500_000_000 };
    let r = answer_at(&mut s, &path_post(), call("get_path", ends("Boston", "Rome"), 4), Some(leap)).unwrap();
    assert_eq!(r.status, 200);
    assert_eq!(s.journey_count(), 0);
}
