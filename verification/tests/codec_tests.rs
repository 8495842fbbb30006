use snare::codec::{build_response_flow, get_domain, parse_request, parse_response_raw};
use snare::errors::ParseError;

#[test]
fn parse_request_basic() {
    let raw = "GET / HTTP/1.1\r\nHost: example.com\r\n\r\nbody".to_string();
    let flow = parse_request(raw.clone(), "id-1".to_string()).unwrap();
    assert_eq!(flow.id, "id-1");
    assert_eq!(flow.method, "GET");
    assert_eq!(flow.path, "/");
    assert_eq!(flow.host, "example.com");
    assert_eq!(flow.headers, "GET / HTTP/1.1\r\nHost: example.com");
    assert_eq!(flow.body, "body");
    assert_eq!(flow.raw, raw);
}

#[test]
fn parse_request_extra_tokens_ignored() {
    let raw = "POST /x HTTP/1.1 junk\r\n\r\n".to_string();
    let flow = parse_request(raw, "i".to_string()).unwrap();
    assert_eq!(flow.method, "POST");
    assert_eq!(flow.path, "/x");
}

#[test]
fn parse_request_host_port_dropped() {
    let raw = "GET / HTTP/1.1\r\nHost: example.com:443\r\n\r\n".to_string();
    let flow = parse_request(raw, "i".to_string()).unwrap();
    assert_eq!(flow.host, "example.com");
}

#[test]
fn parse_request_host_case_insensitive() {
    let raw = "GET / HTTP/1.1\r\nhOsT: a.b\r\n\r\n".to_string();
    let flow = parse_request(raw, "i".to_string()).unwrap();
    assert_eq!(flow.host, "a.b");
}

#[test]
fn parse_request_no_host_left_empty() {
    let raw = "GET / HTTP/1.1\r\nAccept: */*\r\n\r\n".to_string();
    let flow = parse_request(raw, "i".to_string()).unwrap();
    assert_eq!(flow.host, "");
}

#[test]
fn parse_request_no_body_marker() {
    let raw = "GET / HTTP/1.1\r\nHost: h".to_string();
    let flow = parse_request(raw.clone(), "i".to_string()).unwrap();
    assert_eq!(flow.headers, raw);
    assert_eq!(flow.body, "");
}

#[test]
fn parse_request_empty_is_malformed() {
    assert_eq!(
        parse_request("".to_string(), "i".to_string()),
        Err(ParseError::MalformedRequest)
    );
}

#[test]
fn parse_request_method_only_is_malformed() {
    assert_eq!(
        parse_request("GET\r\n\r\n".to_string(), "i".to_string()),
        Err(ParseError::MalformedRequest)
    );
}

#[test]
fn get_domain_second_token() {
    let req = "CONNECT example.com:443 HTTP/1.1\r\n\r\n".to_string();
    assert_eq!(get_domain(&req).unwrap(), "example.com:443");
}

#[test]
fn get_domain_missing_target() {
    let req = "CONNECT\r\n\r\n".to_string();
    assert_eq!(get_domain(&req), Err(ParseError::MalformedRequest));
}

#[test]
fn response_raw_injects_content_length() {
    let flow = build_response_flow(
        "id".to_string(),
        "200 OK".to_string(),
        vec![("content-type".to_string(), "text/html".to_string())],
        "hi".to_string(),
    );
    assert_eq!(
        flow.raw,
        "HTTP/1.1 200 OK\r\ncontent-type: text/html\r\ncontent-length: 2\r\n\r\nhi"
    );
    assert_eq!(flow.id, "id");
    assert_eq!(flow.status, "200 OK");
    assert_eq!(flow.body, "hi");
}

#[test]
fn response_raw_keeps_declared_content_length() {
    let flow = build_response_flow(
        "id".to_string(),
        "200 OK".to_string(),
        vec![("Content-Length".to_string(), "2".to_string())],
        "hi".to_string(),
    );
    assert_eq!(flow.raw, "HTTP/1.1 200 OK\r\nContent-Length: 2\r\n\r\nhi");
}

#[test]
fn response_raw_drops_transfer_encoding() {
    let flow = build_response_flow(
        "id".to_string(),
        "200 OK".to_string(),
        vec![
            ("Transfer-Encoding".to_string(), "chunked".to_string()),
            ("content-length".to_string(), "0".to_string()),
        ],
        "".to_string(),
    );
    assert_eq!(flow.raw, "HTTP/1.1 200 OK\r\ncontent-length: 0\r\n\r\n");
    // The parsed header list itself keeps the origin's full set.
    assert_eq!(flow.headers.len(), 2);
}

#[test]
fn response_content_length_counts_bytes() {
    let flow = build_response_flow(
        "id".to_string(),
        "200 OK".to_string(),
        vec![],
        "hällo".to_string(),
    );
    // Five characters, six bytes once encoded.
    assert_eq!(flow.raw, "HTTP/1.1 200 OK\r\ncontent-length: 6\r\n\r\nhällo");
}

#[test]
fn parse_response_raw_basic() {
    let (status, headers, body) =
        parse_response_raw("HTTP/1.1 404 Not Found\r\nx-a: b\r\nx-c: d\r\n\r\ngone").unwrap();
    assert_eq!(status, "404 Not Found");
    assert_eq!(
        headers,
        vec![
            ("x-a".to_string(), "b".to_string()),
            ("x-c".to_string(), "d".to_string())
        ]
    );
    assert_eq!(body, "gone");
}

#[test]
fn parse_response_raw_rejects_other_text() {
    assert_eq!(
        parse_response_raw("garbage"),
        Err(ParseError::MalformedResponse)
    );
    assert_eq!(
        parse_response_raw("HTTP/1.1 200 OK\r\nno blank line"),
        Err(ParseError::MalformedResponse)
    );
}

#[test]
fn response_without_headers_round_trips() {
    let flow = build_response_flow("id".to_string(), "200 OK".to_string(), vec![], "".to_string());
    assert_eq!(flow.raw, "HTTP/1.1 200 OK\r\ncontent-length: 0\r\n\r\n");
    let (status, headers, body) = parse_response_raw(&flow.raw).unwrap();
    assert_eq!(status, "200 OK");
    assert_eq!(headers, vec![("content-length".to_string(), "0".to_string())]);
    assert_eq!(body, "");
}

#[test]
fn response_round_trip_reproduces_origin() {
    // An origin response with chunked transfer coding and no declared
    // length: the rebuilt bytes must parse back to the same status and
    // body, with Transfer-Encoding gone and the computed length added.
    let flow = build_response_flow(
        "id".to_string(),
        "200 OK".to_string(),
        vec![
            ("server".to_string(), "origin".to_string()),
            ("Transfer-Encoding".to_string(), "chunked".to_string()),
            ("x-tag".to_string(), "7".to_string()),
        ],
        "payload".to_string(),
    );
    let (status, headers, body) = parse_response_raw(&flow.raw).unwrap();
    assert_eq!(status, "200 OK");
    assert_eq!(body, "payload");
    assert_eq!(
        headers,
        vec![
            ("server".to_string(), "origin".to_string()),
            ("x-tag".to_string(), "7".to_string()),
            ("content-length".to_string(), "7".to_string()),
        ]
    );
}
