use cherenkov::json::Json;
use cherenkov::server::http::{self, event, leave, respond, response, sse, HeadError, Reading, HEAD_BYTES};

fn head(lines: &[&[u8]]) -> Result<(String, String, Option<usize>, bool), String> {
    let mut reading = Reading::start();
    for bytes in lines {
        reading = reading.advance(bytes).map_err(|e| e.message())?;
    }
    match reading {
        Reading::Complete(h) => Ok((h.method, h.path, h.length, h.expect)),
        _ => Err("incomplete".to_owned()),
    }
}

#[test]
fn a_head_is_read() {
    assert_eq!(
        head(&[b"POST /v1/completions HTTP/1.1\r\n", b"CONTENT-length:  12 \r\n", b"Expect: 100-Continue\r\n", b"X: y\r\n", b"\r\n"]),
        Ok(("POST".to_owned(), "/v1/completions".to_owned(), Some(12), true))
    );
    assert_eq!(head(&[b"GET / HTTP/1.0\n", b"\n"]), Ok(("GET".to_owned(), "/".to_owned(), None, false)));
}

#[test]
fn broken_heads_are_refused() {
    let first: &[u8] = b"POST / HTTP/1.1\r\n";
    let error = |lines: &[&[u8]]| head(lines).err().unwrap();
    assert_eq!(error(&[b"GET /\r\n"]), "invalid request line");
    assert_eq!(error(&[b"GET / HTTP/2\r\n"]), "invalid request line");
    assert_eq!(error(&[first, b"no colon\r\n"]), "invalid header");
    assert_eq!(error(&[first, b"Content-Length: 1\r\n", b"content-length: 1\r\n"]), "duplicate Content-Length");
    assert_eq!(error(&[first, b"Content-Length: -1\r\n"]), "invalid Content-Length");
    assert_eq!(
        error(&[first, b"Transfer-Encoding: chunked\r\n"]),
        "Transfer-Encoding is unsupported; send Content-Length"
    );
    assert_eq!(error(&[first, b"Expect: tea\r\n"]), "unsupported Expect");
    assert_eq!(error(&[b"GET / HTTP/1.1"]), "invalid or oversized HTTP headers");
}

#[test]
fn lines_must_be_text() {
    let mut remaining: usize = 100;
    let bytes: &[u8] = &[b'a', 0xff, b'\n'];
    let error = http::line(bytes, &mut remaining).err().unwrap();
    assert_eq!(error.message(), String::from_utf8(bytes.to_vec()).err().unwrap().to_string());
    let mut left: usize = 10;
    assert_eq!(http::line("é\r\n".as_bytes(), &mut left).ok(), Some("é".to_owned()));
    assert_eq!(left, 6);
}

#[test]
fn a_head_is_bounded() {
    let mut reading = Reading::start();
    assert_eq!(reading.remaining(), HEAD_BYTES);
    reading = reading.advance(b"GET / HTTP/1.1\r\n").unwrap_or_else(|e| panic!("{}", e.message()));
    let mut taken = 16;
    let field = format!("X: {}\r\n", "y".repeat(1000));
    while reading.remaining() >= field.len() {
        assert_eq!(reading.remaining(), HEAD_BYTES - taken);
        reading = match reading.advance(field.as_bytes()) {
            Ok(r) => r,
            Err(_) => return,
        };
        taken += field.len();
    }
    assert!(matches!(reading.advance(field.as_bytes()), Err(HeadError::Headers)));
}

#[test]
fn bodies_are_limited() {
    let mut reading = Reading::start();
    for bytes in [b"POST / HTTP/1.1\r\n".as_slice(), b"Content-Length: 9\r\n", b"\r\n"] {
        reading = match reading.advance(bytes) {
            Ok(r) => r,
            Err(e) => panic!("{}", e.message()),
        };
    }
    match reading {
        Reading::Complete(h) => {
            assert_eq!(h.body_length(9).ok(), Some(9));
            assert_eq!(
                h.body_length(8).err().unwrap().message(),
                "request body exceeds server limit of 8 bytes"
            );
        }
        _ => panic!("incomplete"),
    }
}

#[test]
fn responses_are_framed() {
    assert_eq!(
        response(404, b"{}"),
        b"HTTP/1.1 404 Not Found\r\nContent-Type: application/json\r\nContent-Length: 2\r\nConnection: close\r\n\r\n{}"
    );
    let ok = respond(200, &Json::object().with("a", Json::unsigned(1))).unwrap();
    assert!(ok.starts_with(b"HTTP/1.1 200 OK\r\n") && ok.ends_with(b"\r\n\r\n{\"a\":1}"));
    assert!(response(500, b"").starts_with(b"HTTP/1.1 500 Internal Server Error\r\n"));
    assert!(response(503, b"").starts_with(b"HTTP/1.1 503 Service Unavailable\r\n"));
    assert!(response(400, b"").starts_with(b"HTTP/1.1 400 Bad Request\r\n"));
}

#[test]
fn events_are_framed() {
    assert_eq!(event(b"[DONE]"), b"data: [DONE]\n\n");
    assert_eq!(sse(&Json::text("x\ny")).unwrap(), b"data: \"x\\ny\"\n\n");
    assert_eq!(leave(), "HTTP/1.1 100 Continue\r\n\r\n");
}
