use bytes::BytesMut;
use server_nano::decode::decode;
use server_nano::errors::RequestError;
use server_nano::request::{json_result, Request};
use server_nano::router::query_parameters;

fn with_request<T>(wire: &[u8], body: &[u8], check: impl FnOnce(Request<'_>) -> T) -> T {
    let mut buf = BytesMut::new();
    buf.extend_from_slice(wire);
    let decoded = decode(&buf).expect("well formed").expect("complete");
    let parameters = query_parameters("?id=42&name=ann");
    let url_parameters = query_parameters("?x=1");
    check(Request::new(decoded, parameters, url_parameters, body))
}

#[test]
fn request_hands_out_its_parts() {
    with_request(
        b"PATCH /user/42?x=1 HTTP/1.1\r\nHost: h\r\nX-One: 1\r\n\r\n",
        b"payload",
        |req| {
            assert_eq!(req.method(), "PATCH");
            assert_eq!(req.path(), "/user/42?x=1");
            assert_eq!(req.version(), 1);
            assert_eq!(req.body(), b"payload");
            assert_eq!(req.headers().len(), 2);
            assert_eq!(req.headers()[0].name, "Host");
            assert_eq!(req.headers()[1].name, "X-One");
            assert_eq!(req.headers()[1].value, b"1");
            assert_eq!(req.parameter("id"), Some("42"));
            assert_eq!(req.parameter("name"), Some("ann"));
            assert_eq!(req.parameter("x"), None);
            assert_eq!(req.url_parameter("x"), Some("1"));
            assert_eq!(req.url_parameter("id"), None);
            assert_eq!(req.parameters.len(), 2);
            assert_eq!(req.url_parameters.len(), 1);
        },
    );
}

#[test]
fn keep_alive_needs_the_header_and_the_exact_value() {
    let keep = |wire: &[u8]| with_request(wire, b"", |req| req.keep_alive());
    assert!(keep(b"GET / HTTP/1.1\r\nConnection: keep-alive\r\n\r\n"));
    assert!(keep(b"GET / HTTP/1.1\r\nHost: h\r\nCONNECTION: keep-alive\r\n\r\n"));
    assert!(keep(b"GET / HTTP/1.1\r\nConnection: close\r\nconnection: keep-alive\r\n\r\n"));
    assert!(!keep(b"GET / HTTP/1.1\r\n\r\n"));
    assert!(!keep(b"GET / HTTP/1.1\r\nConnection: close\r\n\r\n"));
    assert!(!keep(b"GET / HTTP/1.1\r\nConnection: Keep-Alive\r\n\r\n"));
    assert!(!keep(b"GET / HTTP/1.1\r\nConnection: keep-alive, x\r\n\r\n"));
    assert!(!keep(b"GET / HTTP/1.1\r\nX-Connection: keep-alive\r\n\r\n"));
}

#[test]
fn str_body_reads_utf8() {
    with_request(b"GET / HTTP/1.1\r\n\r\n", "gr\u{fc}n".as_bytes(), |req| {
        assert_eq!(req.str_body().expect("utf-8"), "gr\u{fc}n");
    });
    with_request(b"GET / HTTP/1.1\r\n\r\n", b"", |req| {
        assert_eq!(req.str_body().expect("utf-8"), "");
    });
    with_request(b"GET / HTTP/1.1\r\n\r\n", b"\xff\xfe", |req| {
        assert!(req.str_body().is_err());
    });
}

#[test]
fn json_body_reads_a_value() {
    with_request(b"POST / HTTP/1.1\r\n\r\n", b"{\"a\": [1, true, null]}", |req| {
        let value = req.json_body().expect("json");
        assert_eq!(value["a"][0], 1);
        assert_eq!(value["a"][1], true);
        assert!(value["a"][2].is_null());
    });
}

#[test]
fn json_body_that_is_not_json_is_a_json_error() {
    with_request(b"POST / HTTP/1.1\r\n\r\n", b"{\"a\": ", |req| {
        let e = req.json_body().expect_err("not json");
        assert!(matches!(e, RequestError::JsonError(_)));
        assert!(e.message().starts_with("JSON Error: "));
        assert!(e.message().len() > "JSON Error: ".len());
    });
}

#[test]
fn json_body_that_is_not_utf8_is_a_utf8_error() {
    with_request(b"POST / HTTP/1.1\r\n\r\n", b"\"\xc3\x28\"", |req| {
        let e = req.json_body().expect_err("not utf-8");
        assert!(matches!(e, RequestError::Utf8Error(_)));
        assert!(e.message().starts_with("UTF-8 Error: "));
        assert!(e.message().len() > "UTF-8 Error: ".len());
    });
}

#[test]
fn request_errors_come_from_their_causes() {
    let cause = serde_json::from_str::<serde_json::Value>("nope").expect_err("not json");
    let text = cause.to_string();
    let e = RequestError::from(cause);
    assert!(matches!(e, RequestError::JsonError(_)));
    assert_eq!(e.message(), format!("JSON Error: {}", text));
    let bad: Vec<u8> = vec![0xff];
    let cause = std::str::from_utf8(&bad).expect_err("not utf-8");
    let text = cause.to_string();
    let e = RequestError::from(cause);
    assert!(matches!(e, RequestError::Utf8Error(_)));
    assert_eq!(e.message(), format!("UTF-8 Error: {}", text));
}

#[test]
fn json_result_keeps_value_and_wraps_failure() {
    let ok = json_result(serde_json::from_str("[1]"));
    assert_eq!(ok.expect("value")[0], 1);
    let err = json_result(serde_json::from_str("["));
    assert!(matches!(err, Err(RequestError::JsonError(_))));
}
