use path_rpc::json::JsonValue;
use path_rpc::rpc::{path_endpoint, path_request, reply_text, ReplyError, Request, Response};

#[test]
fn request_new_fills_in_version() {
    let req = Request::new("new_path", JsonValue::Null, 0);
    assert_eq!(req.jsonrpc, "2.0");
    assert_eq!(req.method, "new_path");
    assert!(matches!(req.params, JsonValue::Null));
    assert_eq!(req.id, 0);
}

#[test]
fn response_new_fills_in_version() {
    let res = Response::new(JsonValue::String("Bad Request".to_string()), 9);
    assert_eq!(res.jsonrpc, "2.0");
    assert!(matches!(res.result, JsonValue::String(ref s) if s == "Bad Request"));
    assert_eq!(res.id, 9);
}

#[test]
fn path_request_names_both_ends() {
    let req = path_request("Boston", "New York City", 4);
    assert_eq!(req.jsonrpc, "2.0");
    assert_eq!(req.method, "get_path");
    assert_eq!(req.id, 4);
    match &req.params {
        JsonValue::Object(members) => {
            assert_eq!(members.len(), 2);
            assert_eq!(members[0].0, "end");
            assert!(matches!(members[0].1, JsonValue::String(ref s) if s == "New York City"));
            assert_eq!(members[1].0, "start");
            assert!(matches!(members[1].1, JsonValue::String(ref s) if s == "Boston"));
        }
        other => panic!("unexpected {:?}", other),
    }
}

#[test]
fn path_endpoint_appends_path() {
    assert_eq!(path_endpoint("http://localhost:8080"), "http://localhost:8080/path");
    assert_eq!(path_endpoint(""), "/path");
}

#[test]
fn reply_text_rejects_empty_bodies() {
    assert_eq!(reply_text(b""), Err(ReplyError::EmptyBody));
}

#[test]
fn reply_text_rejects_invalid_utf8() {
    assert_eq!(reply_text(&[0x7b, 0xff, 0x7d]), Err(ReplyError::InvalidUtf8));
}

#[test]
fn reply_text_reads_utf8() {
    assert_eq!(reply_text("{\"id\":0}".as_bytes()), Ok("{\"id\":0}".to_string()));
    assert_eq!(reply_text("café".as_bytes()), Ok("café".to_string()));
}
