use bytes::BytesMut;
use server_nano::errors::HandlerError;
use server_nano::response::{answer, encode, encode_error, Response};

const DATE: &str = "Thu, 01 Jan 1970 00:00:00 GMT";

fn wire(fill: impl FnOnce(&mut Response)) -> Vec<u8> {
    let mut scratch = BytesMut::new();
    let mut out = BytesMut::new();
    let mut rsp = Response::new(&mut scratch);
    fill(&mut rsp);
    encode(rsp, DATE, &mut out);
    out.to_vec()
}

fn text(bytes: &[u8]) -> String {
    String::from_utf8(bytes.to_vec()).expect("utf-8")
}

#[test]
fn default_response_is_200_ok_without_body() {
    let bytes = wire(|_| {});
    assert_eq!(
        text(&bytes),
        "HTTP/1.1 200 Ok\r\nServer: M\r\nDate: Thu, 01 Jan 1970 00:00:00 GMT\r\nContent-Length: 0\r\n\r\n"
    );
}

#[test]
fn hello_round_trip() {
    let bytes = wire(|rsp| rsp.body("hello"));
    let mut headers = [httparse::EMPTY_HEADER; 16];
    let mut parsed = httparse::Response::new(&mut headers);
    let status = parsed.parse(&bytes).expect("well formed");
    let head_len = match status {
        httparse::Status::Complete(n) => n,
        httparse::Status::Partial => panic!("incomplete"),
    };
    assert_eq!(parsed.code, Some(200));
    assert_eq!(parsed.version, Some(1));
    let length = parsed
        .headers
        .iter()
        .find(|h| h.name == "Content-Length")
        .expect("content length");
    assert_eq!(length.value, b"5");
    assert_eq!(parsed.headers.len(), 3);
    assert_eq!(&bytes[head_len..], b"hello");
}

#[test]
fn same_content_encodes_to_the_same_bytes() {
    let fill = |rsp: &mut Response| {
        rsp.status_code(201, "Created").header("X-A: 1").header("X-B: 2");
        rsp.body_vec(vec![1, 2, 3]);
    };
    assert_eq!(wire(fill), wire(fill));
}

#[test]
fn another_date_changes_the_date_only() {
    let encode_with = |date: &str| {
        let mut scratch = BytesMut::new();
        let mut out = BytesMut::new();
        let mut rsp = Response::new(&mut scratch);
        rsp.header("X-A: 1");
        rsp.body("payload");
        encode(rsp, date, &mut out);
        text(&out)
    };
    let a = encode_with("Thu, 01 Jan 1970 00:00:00 GMT");
    let b = encode_with("Fri, 02 Jan 1970 10:20:30 GMT");
    assert_ne!(a, b);
    assert_eq!(
        a.replace("Thu, 01 Jan 1970 00:00:00 GMT", "@"),
        b.replace("Fri, 02 Jan 1970 10:20:30 GMT", "@")
    );
    assert_eq!(
        a,
        "HTTP/1.1 200 Ok\r\nServer: M\r\nDate: Thu, 01 Jan 1970 00:00:00 GMT\r\nContent-Length: 7\r\nX-A: 1\r\n\r\npayload"
    );
}

#[test]
fn status_other_than_200_writes_code_and_reason() {
    let bytes = wire(|rsp| {
        rsp.status_code(404, "Not Found");
    });
    assert_eq!(
        text(&bytes),
        "HTTP/1.1 404 Not Found\r\nServer: M\r\nDate: Thu, 01 Jan 1970 00:00:00 GMT\r\nContent-Length: 0\r\n\r\n"
    );
    let bytes = wire(|rsp| {
        rsp.status_code(0, "");
    });
    assert!(text(&bytes).starts_with("HTTP/1.1 0 \r\nServer: M\r\n"));
    let bytes = wire(|rsp| {
        rsp.status_code(1234567, "Long");
    });
    assert!(text(&bytes).starts_with("HTTP/1.1 1234567 Long\r\n"));
}

#[test]
fn status_200_keeps_the_reason_given() {
    let bytes = wire(|rsp| {
        rsp.status_code(200, "Fine");
    });
    assert!(text(&bytes).starts_with("HTTP/1.1 200 Fine\r\nServer: M\r\n"));
    let bytes = wire(|rsp| {
        rsp.status_code(404, "Not Found").status_code(200, "Ok");
    });
    assert!(text(&bytes).starts_with("HTTP/1.1 200 Ok\r\nServer: M\r\n"));
}

#[test]
fn headers_come_in_the_order_given() {
    let bytes = wire(|rsp| {
        rsp.header("B: 2").header("A: 1");
        rsp.header("C: 3");
    });
    assert!(text(&bytes).ends_with("Content-Length: 0\r\nB: 2\r\nA: 1\r\nC: 3\r\n\r\n"));
}

#[test]
fn sixteen_headers_fit() {
    let bytes = wire(|rsp| {
        for k in 0..16 {
            assert_eq!(rsp.header_count(), k);
            rsp.header("X: y");
        }
        assert_eq!(rsp.header_count(), 16);
    });
    assert_eq!(text(&bytes).matches("\r\nX: y").count(), 16);
}

#[test]
fn content_length_counts_bytes() {
    let bytes = wire(|rsp| rsp.body("gr\u{fc}\u{df}e"));
    let s = text(&bytes);
    assert!(s.contains("\r\nContent-Length: 7\r\n"));
    assert!(s.ends_with("\r\n\r\ngr\u{fc}\u{df}e"));
    let long = vec![b'x'; 12345];
    let bytes = wire(|rsp| rsp.body_bytes(&long));
    assert!(text(&bytes).contains("\r\nContent-Length: 12345\r\n"));
    assert!(bytes.ends_with(&long));
}

#[test]
fn body_setters_replace_each_other() {
    let bytes = wire(|rsp| {
        rsp.body("one");
        rsp.body_vec(b"two!".to_vec());
        rsp.str(String::from("three")).expect("ok");
    });
    assert!(text(&bytes).ends_with("Content-Length: 5\r\n\r\nthree"));
    let bytes = wire(|rsp| {
        rsp.str(String::from("three")).expect("ok");
        rsp.body_bytes(&[0, 255]);
    });
    assert!(bytes.ends_with(b"Content-Length: 2\r\n\r\n\x00\xff"));
}

#[test]
fn send_sets_the_body_and_empty_unsets_it() {
    let bytes = wire(|rsp| {
        rsp.send("welcome to home page!").expect("ok");
    });
    assert!(text(&bytes).ends_with("Content-Length: 21\r\n\r\nwelcome to home page!"));
    let bytes = wire(|rsp| {
        rsp.body("gone");
        rsp.send("").expect("ok");
    });
    assert!(text(&bytes).ends_with("Content-Length: 0\r\n\r\n"));
}

#[test]
fn unset_body_is_what_the_scratch_buffer_holds() {
    let mut scratch = BytesMut::new();
    scratch.extend_from_slice(b"left");
    let mut out = BytesMut::new();
    let rsp = Response::new(&mut scratch);
    encode(rsp, DATE, &mut out);
    assert!(text(&out).ends_with("Content-Length: 4\r\n\r\nleft"));
}

#[test]
fn body_mut_moves_the_body_into_the_scratch_buffer() {
    let bytes = wire(|rsp| {
        rsp.body("ab");
        rsp.body_mut().extend_from_slice(b"cd");
        rsp.body_mut().extend_from_slice(b"ef");
    });
    assert!(text(&bytes).ends_with("Content-Length: 6\r\n\r\nabcdef"));
    let bytes = wire(|rsp| {
        rsp.body_mut().extend_from_slice(b"cd");
        rsp.body("ab");
    });
    assert!(text(&bytes).ends_with("Content-Length: 2\r\n\r\nab"));
}

#[test]
fn json_writes_the_value_and_its_content_type() {
    let mut user = serde_json::Map::new();
    user.insert(String::from("username"), serde_json::Value::from("42"));
    let value = serde_json::Value::Object(user);
    let bytes = wire(|rsp| {
        rsp.json(&value).expect("ok");
    });
    assert_eq!(
        text(&bytes),
        "HTTP/1.1 200 Ok\r\nServer: M\r\nDate: Thu, 01 Jan 1970 00:00:00 GMT\r\nContent-Length: 17\r\nContent-Type: application/json\r\n\r\n{\"username\":\"42\"}"
    );
}

#[test]
fn json_goes_behind_a_body_that_was_set() {
    let value = serde_json::Value::from(vec![1, 2]);
    let bytes = wire(|rsp| {
        rsp.body("x=");
        rsp.json(&value).expect("ok");
    });
    assert!(text(&bytes).ends_with("Content-Type: application/json\r\n\r\nx=[1,2]"));
}

#[test]
fn failure_is_encoded_as_500() {
    let mut out = BytesMut::new();
    out.extend_from_slice(b"before|");
    encode_error(HandlerError::new("it broke"), DATE, &mut out);
    assert_eq!(
        text(&out),
        "before|HTTP/1.1 500 Internal Server Error\r\nServer: M\r\nDate: Thu, 01 Jan 1970 00:00:00 GMT\r\nContent-Length: 8\r\n\r\nit broke"
    );
}

#[test]
fn failure_message_is_kept() {
    let e = HandlerError::new("disk full");
    assert_eq!(e.message(), "disk full");
    assert_eq!(HandlerError::new("").message(), "");
}

#[test]
fn encode_appends_behind_what_the_buffer_holds() {
    let mut scratch = BytesMut::new();
    let mut out = BytesMut::new();
    out.extend_from_slice(b"first");
    let mut rsp = Response::new(&mut scratch);
    rsp.body("second");
    encode(rsp, DATE, &mut out);
    assert!(out.starts_with(b"firstHTTP/1.1 200 Ok\r\n"));
    assert!(out.ends_with(b"\r\n\r\nsecond"));
}

#[test]
fn encode_clears_the_scratch_buffer() {
    let mut scratch = BytesMut::new();
    let mut out = BytesMut::new();
    let mut rsp = Response::new(&mut scratch);
    rsp.body_mut().extend_from_slice(b"written once");
    encode(rsp, DATE, &mut out);
    assert!(text(&out).ends_with("Content-Length: 12\r\n\r\nwritten once"));
    assert!(scratch.is_empty());
    let again = Response::new(&mut scratch);
    let mut second = BytesMut::new();
    encode(again, DATE, &mut second);
    assert!(text(&second).ends_with("Content-Length: 0\r\n\r\n"));
}

#[test]
fn body_from_the_scratch_buffer_is_counted_and_sent() {
    let value = serde_json::Value::from(vec!["a", "b"]);
    let mut scratch = BytesMut::new();
    let mut out = BytesMut::new();
    let mut rsp = Response::new(&mut scratch);
    rsp.json(&value).expect("ok");
    encode(rsp, DATE, &mut out);
    assert!(text(&out).ends_with("Content-Length: 9\r\nContent-Type: application/json\r\n\r\n[\"a\",\"b\"]"));
    assert!(scratch.is_empty());
}

#[test]
fn answer_sends_what_the_handler_filled_in() {
    let mut scratch = BytesMut::new();
    let mut out = BytesMut::new();
    let mut rsp = Response::new(&mut scratch);
    rsp.status_code(201, "Created").header("X-A: 1");
    rsp.body_mut().extend_from_slice(b"made");
    answer(Ok(()), rsp, DATE, &mut out);
    assert_eq!(
        text(&out),
        "HTTP/1.1 201 Created\r\nServer: M\r\nDate: Thu, 01 Jan 1970 00:00:00 GMT\r\nContent-Length: 4\r\nX-A: 1\r\n\r\nmade"
    );
    assert!(scratch.is_empty());
}

#[test]
fn answer_to_a_failure_is_the_500_with_its_words() {
    let mut scratch = BytesMut::new();
    let mut out = BytesMut::new();
    let mut rsp = Response::new(&mut scratch);
    rsp.status_code(201, "Created").header("X-A: 1");
    rsp.body_mut().extend_from_slice(b"half done");
    answer(Err(HandlerError::new("no luck")), rsp, DATE, &mut out);
    assert_eq!(
        text(&out),
        "HTTP/1.1 500 Internal Server Error\r\nServer: M\r\nDate: Thu, 01 Jan 1970 00:00:00 GMT\r\nContent-Length: 7\r\n\r\nno luck"
    );
    assert!(scratch.is_empty());
}

#[test]
fn responses_read_back_as_what_they_held() {
    let cases: Vec<(usize, &'static str, Vec<&'static str>, Vec<u8>)> = vec![
        (200, "Ok", vec![], b"hello".to_vec()),
        (404, "Not Found", vec![], Vec::new()),
        (201, "Created", vec!["Location: /a/b", "X-Empty:"], b"\r\n\r\nbody with blank lines\r\n\r\n".to_vec()),
        (500, "Internal Server Error", vec!["Content-Type: text/plain"], vec![0, 13, 10, 255]),
        (299, "", vec!["A: 1", "B: 2", "C: 3"], vec![b'x'; 1000]),
    ];
    for (code, reason, headers, body) in cases {
        let bytes = wire(|rsp| {
            rsp.status_code(code, reason);
            for h in &headers {
                rsp.header(h);
            }
            rsp.body_bytes(&body);
        });
        let mut slots = [httparse::EMPTY_HEADER; 16];
        let mut parsed = httparse::Response::new(&mut slots);
        let head_len = match parsed.parse(&bytes).expect("well formed") {
            httparse::Status::Complete(n) => n,
            httparse::Status::Partial => panic!("incomplete"),
        };
        assert_eq!(parsed.code, Some(code as u16));
        let lengths: Vec<&[u8]> = parsed
            .headers
            .iter()
            .filter(|h| h.name.eq_ignore_ascii_case("content-length"))
            .map(|h| h.value)
            .collect();
        assert_eq!(lengths, vec![body.len().to_string().as_bytes()]);
        assert_eq!(parsed.headers.len(), 3 + headers.len());
        assert_eq!(&bytes[head_len..], &body[..]);
    }
}
