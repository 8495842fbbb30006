use snare::errors::ForwardError;
use snare::forward::{plan_forward, Method};

#[test]
fn plan_get_builds_absolute_url() {
    let raw = "GET /path?q=1 HTTP/1.1\r\nHost: example.com\r\nAccept: */*\r\n\r\n";
    let plan = plan_forward(raw).unwrap();
    assert_eq!(plan.method, Method::Get);
    assert_eq!(plan.url, "https://example.com/path?q=1");
    assert_eq!(plan.headers, vec![("Accept".to_string(), "*/*".to_string())]);
    assert!(plan.body.is_none());
}

#[test]
fn plan_post_attaches_body() {
    let raw = "POST /submit HTTP/1.1\r\nHost: h\r\nContent-Type: text/plain\r\n\r\npayload";
    let plan = plan_forward(raw).unwrap();
    assert_eq!(plan.method, Method::Post);
    assert_eq!(plan.url, "https://h/submit");
    assert_eq!(plan.body.as_deref(), Some("payload"));
}

#[test]
fn plan_strips_host_and_accept_encoding() {
    let raw = "GET / HTTP/1.1\r\nHost: h\r\nAccept-Encoding: gzip\r\nX-Keep: 1\r\n\r\n";
    let plan = plan_forward(raw).unwrap();
    assert_eq!(plan.headers, vec![("X-Keep".to_string(), "1".to_string())]);
}

#[test]
fn plan_without_host_uses_bare_path() {
    let raw = "GET /only HTTP/1.1\r\n\r\n";
    let plan = plan_forward(raw).unwrap();
    assert_eq!(plan.url, "/only");
}

#[test]
fn plan_last_host_wins() {
    let raw = "GET / HTTP/1.1\r\nHost: first\r\nHost: second\r\n\r\n";
    let plan = plan_forward(raw).unwrap();
    assert_eq!(plan.url, "https://second/");
}

#[test]
fn plan_header_values_are_trimmed() {
    let raw = "GET / HTTP/1.1\r\nX-A:   spaced value \r\n\r\n";
    let plan = plan_forward(raw).unwrap();
    assert_eq!(
        plan.headers,
        vec![("X-A".to_string(), "spaced value".to_string())]
    );
}

#[test]
fn plan_rejects_missing_blank_line() {
    assert_eq!(
        plan_forward("GET / HTTP/1.1\r\nHost: h"),
        Err(ForwardError::MalformedRequest)
    );
}

#[test]
fn plan_requires_three_token_request_line() {
    assert_eq!(
        plan_forward("GET /\r\n\r\n"),
        Err(ForwardError::MalformedRequest)
    );
}

#[test]
fn plan_rejects_other_methods() {
    assert_eq!(
        plan_forward("PUT / HTTP/1.1\r\nHost: h\r\n\r\n"),
        Err(ForwardError::UnsupportedMethod)
    );
}
