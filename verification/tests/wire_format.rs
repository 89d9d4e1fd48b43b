use path_rpc::wire::{decode, decode_parsed, encode, parse_usize, DecodeError, HeadError, HeadParse, ParsedHead};

fn reply(status: u16, headers: &[(&str, &str)], body: &str) -> String {
    let hs: Vec<(String, String)> = headers.iter().map(|(k, v)| (k.to_string(), v.to_string())).collect();
    let mut out = Vec::new();
    encode(status, &hs, body, &mut out);
    String::from_utf8(out).unwrap()
}

#[test]
fn encode_writes_status_fields_and_body() {
    let text = reply(200, &[("content-type", "application/json")], "{\"id\":0}");
    assert_eq!(
        text,
        "HTTP/1.1 200 OK\r\nServer: Example\r\nContent-Length: 8\r\ncontent-type: application/json\r\n\r\n{\"id\":0}"
    );
}

#[test]
fn encode_names_error_statuses() {
    assert_eq!(
        reply(404, &[], ""),
        "HTTP/1.1 404 Not Found\r\nServer: Example\r\nContent-Length: 0\r\n\r\n"
    );
    assert_eq!(
        reply(400, &[("content-type", "application/json")], ""),
        "HTTP/1.1 400 Bad Request\r\nServer: Example\r\nContent-Length: 0\r\ncontent-type: application/json\r\n\r\n"
    );
}

#[test]
fn encode_marks_unknown_statuses() {
    assert_eq!(
        reply(599, &[], "x"),
        "HTTP/1.1 599 <unknown status code>\r\nServer: Example\r\nContent-Length: 1\r\n\r\nx"
    );
}

#[test]
fn encode_counts_body_bytes() {
    let text = reply(200, &[], "café");
    assert!(text.contains("Content-Length: 5\r\n"));
    let mut out = vec![1u8, 2];
    encode(200, &vec![], "", &mut out);
    assert_eq!(&out[..2], &[1, 2]);
}

#[test]
fn content_length_written_by_encode_reads_back() {
    let body = "x".repeat(1234);
    let text = reply(200, &[], &body);
    let start = text.find("Content-Length: ").unwrap() + "Content-Length: ".len();
    let end = start + text[start..].find("\r\n").unwrap();
    assert_eq!(parse_usize(text[start..end].as_bytes()), Some(1234));
}

#[test]
fn parse_usize_reads_decimals_as_std_does() {
    assert_eq!(parse_usize(b"0"), Some(0));
    assert_eq!(parse_usize(b"42"), Some(42));
    assert_eq!(parse_usize(b"007"), Some(7));
    assert_eq!(parse_usize(b"+5"), Some(5));
    assert_eq!(parse_usize(b"+"), None);
    assert_eq!(parse_usize(b""), None);
    assert_eq!(parse_usize(b"-1"), None);
    assert_eq!(parse_usize(b"1 "), None);
    assert_eq!(parse_usize(b"++1"), None);
    assert_eq!(parse_usize(b"18446744073709551615"), Some(usize::MAX));
    assert_eq!(parse_usize(b"18446744073709551616"), None);
    for text in ["0", "9", "+12", "65535", "-3", "x"] {
        assert_eq!(parse_usize(text.as_bytes()), text.parse::<usize>().ok());
    }
}

#[test]
fn decode_reads_a_request_and_its_body() {
    let mut buf = b"POST /path?x=1 HTTP/1.1\r\nHost: here\r\nContent-Length: 5\r\n\r\nhelloGET".to_vec();
    let req = decode(&mut buf).unwrap().unwrap();
    assert_eq!(req.method, "POST");
    assert_eq!(req.path, "/path");
    assert_eq!(
        req.headers,
        vec![("host".to_string(), b"here".to_vec()), ("content-length".to_string(), b"5".to_vec())]
    );
    assert_eq!(req.body, b"hello".to_vec());
    assert_eq!(buf, b"GET".to_vec());
}

#[test]
fn decode_without_length_reads_no_body() {
    let mut buf = b"GET / HTTP/1.1\r\n\r\nrest".to_vec();
    let req = decode(&mut buf).unwrap().unwrap();
    assert_eq!(req.method, "GET");
    assert_eq!(req.path, "/");
    assert!(req.body.is_empty());
    assert_eq!(buf, b"rest".to_vec());
}

#[test]
fn decode_takes_the_last_content_length() {
    let mut buf = b"POST /path HTTP/1.1\r\nContent-Length: 9\r\nContent-Length: 2\r\n\r\nabc".to_vec();
    let req = decode(&mut buf).unwrap().unwrap();
    assert_eq!(req.body, b"ab".to_vec());
    assert_eq!(buf, b"c".to_vec());
}

#[test]
fn decode_matches_the_length_name_exactly() {
    let mut buf = b"POST /path HTTP/1.1\r\ncontent-length: 2\r\n\r\nabc".to_vec();
    let req = decode(&mut buf).unwrap().unwrap();
    assert!(req.body.is_empty());
    assert_eq!(buf, b"abc".to_vec());
}

#[test]
fn decode_waits_for_a_whole_head() {
    let mut buf = b"POST /path HTTP/1.1\r\nHost: x\r\n".to_vec();
    assert!(decode(&mut buf).unwrap().is_none());
    assert_eq!(buf, b"POST /path HTTP/1.1\r\nHost: x\r\n".to_vec());
}

#[test]
fn decode_rejects_malformed_heads() {
    let mut buf = b"POST /path HTTP/2.0\r\n\r\n".to_vec();
    assert_eq!(decode(&mut buf).unwrap_err(), DecodeError::Parse(HeadError::Version));
    let mut buf = b"PO(ST /path HTTP/1.1\r\n\r\n".to_vec();
    assert!(matches!(decode(&mut buf).unwrap_err(), DecodeError::Parse(_)));
    assert_eq!(buf, b"PO(ST /path HTTP/1.1\r\n\r\n".to_vec());
}

#[test]
fn decode_rejects_http_1_0() {
    let mut buf = b"GET / HTTP/1.0\r\n\r\n".to_vec();
    assert_eq!(decode(&mut buf).unwrap_err(), DecodeError::Version);
    assert_eq!(buf, b"GET / HTTP/1.0\r\n\r\n".to_vec());
}

#[test]
fn decode_rejects_bad_lengths() {
    let mut buf = b"POST /path HTTP/1.1\r\nContent-Length: ten\r\n\r\n".to_vec();
    assert_eq!(decode(&mut buf).unwrap_err(), DecodeError::ContentLength);
    assert_eq!(buf.len(), 44);
}

#[test]
fn decode_waits_for_the_rest_of_the_body() {
    let mut buf = b"POST /path HTTP/1.1\r\nContent-Length: 10\r\n\r\nabc".to_vec();
    assert!(decode(&mut buf).unwrap().is_none());
    assert_eq!(buf.len(), 46);
    let mut buf = b"POST /path HTTP/1.1\r\nContent-Length: 5\r\n\r\nhi".to_vec();
    assert!(decode(&mut buf).unwrap().is_none());
    assert_eq!(buf, b"POST /path HTTP/1.1\r\nContent-Length: 5\r\n\r\nhi".to_vec());
    buf.extend_from_slice(b"!!!");
    let req = decode(&mut buf).unwrap().unwrap();
    assert_eq!(req.body, b"hi!!!".to_vec());
    assert!(buf.is_empty());
}

#[test]
fn the_last_content_length_field_counts() {
    let mut buf = b"POST /path HTTP/1.1\r\nContent-Length: 9\r\nContent-Length: 2\r\n\r\nokrest".to_vec();
    let req = decode(&mut buf).unwrap().unwrap();
    assert_eq!(req.body, b"ok".to_vec());
    assert_eq!(buf, b"rest".to_vec());
    let mut buf = b"POST /path HTTP/1.1\r\ncontent-length: 3\r\n\r\nabc".to_vec();
    let req = decode(&mut buf).unwrap().unwrap();
    assert!(req.body.is_empty());
    assert_eq!(buf, b"abc".to_vec());
}

#[test]
fn header_names_and_methods_follow_the_http_tables() {
    let mut buf = b"M!x~ /p HTTP/1.1\r\nX-Odd#$%&'*+.^_`|~: v\r\n\r\n".to_vec();
    let req = decode(&mut buf).unwrap().unwrap();
    assert_eq!(req.method, "M!x~");
    assert_eq!(req.headers[0].0, "x-odd#$%&'*+.^_`|~");
    let mut buf = b"M#x /p HTTP/1.1\r\n\r\n".to_vec();
    assert_eq!(decode(&mut buf).unwrap_err(), DecodeError::Invalid);
}

#[test]
fn decode_rejects_targets_that_are_no_uri() {
    let mut buf = b"GET /a{b} HTTP/1.1\r\n\r\nz".to_vec();
    assert_eq!(decode(&mut buf).unwrap_err(), DecodeError::Invalid);
    assert_eq!(buf, b"z".to_vec());
}

#[test]
fn decode_parsed_uses_the_given_head() {
    let mut buf = b"GET /q HTTP/1.1\r\nX: 1\r\n\r\nabcdef".to_vec();
    let head = HeadParse::Complete(ParsedHead {
        length: 4,
        method: "PUT".to_string(),
        target: "/r?s".to_string(),
        version: 1,
        headers: vec![("Content-Length".to_string(), b"2".to_vec()), ("X-Y".to_string(), b"z".to_vec())],
    });
    let req = decode_parsed(&mut buf, head).unwrap().unwrap();
    assert_eq!(req.method, "PUT");
    assert_eq!(req.path, "/r");
    assert_eq!(req.body, b"/q".to_vec());
    assert_eq!(req.headers[1], ("x-y".to_string(), b"z".to_vec()));
    assert_eq!(buf.len(), 25);
    let mut buf2 = b"xyz".to_vec();
    assert!(decode_parsed(&mut buf2, HeadParse::Partial).unwrap().is_none());
    assert_eq!(buf2, b"xyz".to_vec());
    let mut buf3 = b"xyz".to_vec();
    assert_eq!(decode_parsed(&mut buf3, HeadParse::Invalid(HeadError::NewLine)).unwrap_err(), DecodeError::Parse(HeadError::NewLine));
}

#[test]
fn decode_parsed_refuses_unknown_header_names() {
    let mut buf = b"abc".to_vec();
    let head = HeadParse::Complete(ParsedHead {
        length: 1,
        method: "GET".to_string(),
        target: "/".to_string(),
        version: 1,
        headers: vec![("bad name".to_string(), b"v".to_vec())],
    });
    assert_eq!(decode_parsed(&mut buf, head).unwrap_err(), DecodeError::Invalid);
    assert_eq!(buf, b"bc".to_vec());
}

#[test]
fn decode_parsed_refuses_methods_http_refuses() {
    let mut buf = b"abc".to_vec();
    let head = HeadParse::Complete(ParsedHead {
        length: 2,
        method: String::new(),
        target: "/".to_string(),
        version: 1,
        headers: vec![],
    });
    assert_eq!(decode_parsed(&mut buf, head).unwrap_err(), DecodeError::Invalid);
    assert_eq!(buf, b"c".to_vec());
}

#[test]
fn decode_parsed_refuses_http_1_0_heads() {
    let mut buf = b"abc".to_vec();
    let head = HeadParse::Complete(ParsedHead {
        length: 2,
        method: "GET".to_string(),
        target: "/".to_string(),
        version: 0,
        headers: vec![],
    });
    assert_eq!(decode_parsed(&mut buf, head).unwrap_err(), DecodeError::Version);
    assert_eq!(buf, b"abc".to_vec());
}

#[test]
fn decode_rejects_header_names_too_long_for_http() {
    let name = "N".repeat(70_000);
    let text = format!("GET / HTTP/1.1\r\n{}: v\r\n\r\n", name);
    let mut buf = text.as_bytes().to_vec();
    assert_eq!(decode(&mut buf).unwrap_err(), DecodeError::LongHeaderName);
    assert_eq!(buf.len(), text.len());
}

#[test]
fn decode_ignores_long_names_after_a_refused_target() {
    let name = "N".repeat(70_000);
    let text = format!("GET /{{x}} HTTP/1.1\r\n{}: v\r\n\r\n", name);
    let mut buf = text.as_bytes().to_vec();
    assert_eq!(decode(&mut buf).unwrap_err(), DecodeError::Invalid);
    assert!(buf.is_empty());
}
