use kite_lite_core::http::{
    asks_for_discovery, discovery_body, discovery_response, parse_request, read_discovery,
    requested_format, response_head, route, HttpError, OutputFormat, ReadStep, RequestReader,
    Route, MAX_HTTP_REQUEST_BYTES,
};
use kite_lite_core::json::Json;

fn read_in_pieces(request: &[u8], size: usize) -> Vec<u8> {
    let mut reader = RequestReader::new();
    let mut pieces = request.chunks(size).peekable();
    while let Some(piece) = pieces.next() {
        match reader.feed(piece) {
            ReadStep::More => assert!(pieces.peek().is_some(), "the request is complete"),
            ReadStep::Complete(bytes) => {
                assert!(pieces.peek().is_none(), "the request was not complete yet");
                return bytes;
            }
            ReadStep::Failed(message) => panic!("{message}"),
        }
    }
    panic!("nothing was read")
}

#[test]
fn requests_are_put_together_from_any_pieces() {
    let body = "<p>ñ</p>".repeat(50);
    let request = format!("POST /v1/parse HTTP/1.1\r\nHost: x\r\ncontent-length:  {} \r\n\r\n{body}", body.len());
    for size in [1, 2, 3, 7, 50, 100, request.len()] {
        assert_eq!(read_in_pieces(request.as_bytes(), size), request.as_bytes());
    }
    let bare = b"GET /health HTTP/1.1\r\n\r\n";
    assert_eq!(read_in_pieces(bare, 5), bare);
}

#[test]
fn bytes_behind_a_request_are_cut_off() {
    let mut reader = RequestReader::new();
    match reader.feed(b"GET / HTTP/1.1\r\nContent-Length: 2\r\n\r\nabcd") {
        ReadStep::Complete(bytes) => assert!(bytes.ends_with(b"\r\n\r\nab")),
        other => panic!("{other:?}"),
    }
}

fn failure(reader: &mut RequestReader, piece: &[u8]) -> String {
    match reader.feed(piece) {
        ReadStep::Failed(message) => message,
        other => panic!("expected a failure, got {other:?}"),
    }
}

#[test]
fn closed_connections_fail() {
    let mut reader = RequestReader::new();
    assert_eq!(failure(&mut reader, b""), "connection closed before request headers completed");
    let mut reader = RequestReader::new();
    assert!(matches!(reader.feed(b"GET / HTTP/1.1\r\nContent-Length: 5\r\n\r\nab"), ReadStep::More));
    assert_eq!(failure(&mut reader, b""), "connection closed before request body completed");
}

#[test]
fn requests_over_the_limit_fail() {
    assert_eq!(MAX_HTTP_REQUEST_BYTES, 2 * 1024 * 1024);
    let mut reader = RequestReader::new();
    let endless = vec![b'a'; MAX_HTTP_REQUEST_BYTES];
    assert!(matches!(reader.feed(&endless), ReadStep::More));
    assert_eq!(failure(&mut reader, b"a"), "request exceeds 2097152-byte limit");
    let mut reader = RequestReader::new();
    assert_eq!(
        failure(&mut reader, b"GET / HTTP/1.1\r\nContent-Length: 2097152\r\n\r\n"),
        "request exceeds MAX_HTTP_REQUEST_BYTES-byte limit"
    );
    let mut reader = RequestReader::new();
    assert_eq!(
        failure(&mut reader, b"GET / HTTP/1.1\r\nContent-Length: 18446744073709551615\r\n\r\n"),
        "request exceeds MAX_HTTP_REQUEST_BYTES-byte limit"
    );
}

fn complete(request: &[u8]) -> bool {
    matches!(RequestReader::new().feed(request), ReadStep::Complete(_))
}

#[test]
fn first_readable_length_counts() {
    assert!(complete(b"GET / HTTP/1.1\r\nContent-Length: x\r\nContent-Length: +2\r\n\r\nab"));
    assert!(!complete(b"GET / HTTP/1.1\r\nContent-Length: 3\r\nContent-Length: 2\r\n\r\nab"));
    assert!(complete(b"GET / HTTP/1.1\r\nContent-Length: -1\r\n\r\n"));
    assert!(complete(b"GET / HTTP/1.1\r\nContent-Length: 99999999999999999999\r\n\r\n"));
    assert!(complete(b"GET / HTTP/1.1\r\nContent-Length: \xff\r\n\r\n"));
    assert!(complete(b"GET / HTTP/1.1\r\nContent-Length:\r\n\r\n"));
}

#[test]
fn requests_are_taken_apart() {
    let request = parse_request(&b"POST /v1/render?format=png&x HTTP/1.1\r\nHost: h\r\n\r\nbody\r\n\r\nmore".to_vec()).unwrap();
    assert_eq!(request.method, "POST");
    assert_eq!(request.path, "/v1/render");
    assert_eq!(request.query, "format=png&x");
    assert_eq!(request.body, "body\r\n\r\nmore");
    let request = parse_request(&b"GET /health HTTP/1.1\r\n\r\n".to_vec()).unwrap();
    assert_eq!((request.path.as_str(), request.query.as_str(), request.body.as_str()), ("/health", "", ""));
}

#[test]
fn broken_requests_say_why() {
    let why = |bytes: &[u8]| parse_request(&bytes.to_vec()).unwrap_err();
    let not_utf8 = why(b"GET / \xff\r\n\r\n");
    assert!(matches!(not_utf8, HttpError::NotUtf8(_)));
    assert_eq!(not_utf8.message(), "invalid utf-8 sequence of 1 bytes from index 6");
    assert_eq!(why(b"GET / HTTP/1.1\r\n"), HttpError::Malformed);
    assert_eq!(why(b"\r\n\r\n"), HttpError::NoRequestLine);
    assert_eq!(why(b" \r\nHost: x\r\n\r\n"), HttpError::NoMethod);
    assert_eq!(why(b"GET\r\n\r\n"), HttpError::NoPath);
    assert_eq!(HttpError::Malformed.message(), "malformed HTTP request");
    assert_eq!(HttpError::NoRequestLine.message(), "missing request line");
    assert_eq!(HttpError::NoMethod.message(), "missing HTTP method");
    assert_eq!(HttpError::NoPath.message(), "missing HTTP path");
}

fn routed(line: &str) -> Route {
    route(&parse_request(&format!("{line} HTTP/1.1\r\n\r\n").into_bytes()).unwrap())
}

#[test]
fn routes_go_by_method_and_path() {
    assert_eq!(routed("GET /health"), Route::Health);
    assert_eq!(routed("POST /health"), Route::NotFound);
    assert_eq!(routed("POST /v1/parse"), Route::Parse);
    assert_eq!(routed("POST /v1/eval?x"), Route::Eval);
    assert_eq!(routed("GET /v1/parse"), Route::NotFound);
    assert_eq!(routed("GET /nope"), Route::NotFound);
    assert_eq!(routed("POST /v1/render"), Route::Render(OutputFormat::Svg));
    assert_eq!(routed("POST /v1/render?format=svg"), Route::Render(OutputFormat::Svg));
    assert_eq!(routed("POST /v1/render?format=png"), Route::Render(OutputFormat::Png));
    assert_eq!(routed("POST /v1/render?x=1&form%61t=pdf&format=png"), Route::Render(OutputFormat::Pdf));
    assert_eq!(routed("POST /v1/render?format=gif"), Route::Render(OutputFormat::Svg));
    assert_eq!(requested_format(&Vec::new()), OutputFormat::Svg);
}

#[test]
fn answers_have_a_status_and_a_type() {
    assert_eq!(Route::Health.status(), "200 OK");
    assert_eq!(Route::NotFound.status(), "404 Not Found");
    assert_eq!(Route::Parse.content_type(), "application/json");
    assert_eq!(Route::Render(OutputFormat::Pdf).content_type(), "application/pdf");
    assert_eq!(Route::Health.fixed_answer().as_deref(), Some(r#"{"ok":true,"service":"kite-lite"}"#));
    assert_eq!(Route::NotFound.fixed_answer().as_deref(), Some(r#"{"error":"not found"}"#));
    assert_eq!(Route::Eval.fixed_answer(), None);
    assert_eq!(
        response_head("200 OK", "image/png", 12),
        "HTTP/1.1 200 OK\r\nContent-Type: image/png\r\nContent-Length: 12\r\nConnection: close\r\n\r\n"
    );
}

#[test]
fn discovery_is_told_from_a_websocket() {
    assert!(asks_for_discovery(&b"GET /json/version HTTP/1.1".to_vec()));
    assert!(asks_for_discovery(&b"GET /json".to_vec()));
    assert!(!asks_for_discovery(&b"GET / HTTP/1.1".to_vec()));
    assert!(!asks_for_discovery(&b"GET /jso".to_vec()));
    assert!(!asks_for_discovery(&Vec::new()));
}

#[test]
fn discovery_requests_name_a_path_and_a_host() {
    let request = read_discovery(&b"GET /json/list HTTP/1.1\r\nAccept: */*\r\nHOST: localhost:1 \r\n\r\n".to_vec()).unwrap();
    assert_eq!((request.path.as_str(), request.host.as_str()), ("/json/list", "localhost:1"));
    let request = read_discovery(&Vec::new()).unwrap();
    assert_eq!((request.path.as_str(), request.host.as_str()), ("/", "127.0.0.1:9222"));
    assert_eq!(
        read_discovery(&vec![255]).unwrap_err().message(),
        "invalid utf-8 sequence of 1 bytes from index 0"
    );
}

fn text(json: &Json, key: &str) -> String {
    json.get_str(key).expect("a text").to_string()
}

#[test]
fn discovery_endpoints_name_the_socket() {
    let version = discovery_body("/json/version", "h:1", "T", "u");
    assert_eq!(text(&version, "webSocketDebuggerUrl"), "ws://h:1/");
    assert_eq!(text(&version, "Browser"), "kite-lite/0.1.0");
    match discovery_body("/json", "h:1", "T", "u") {
        Json::Array(targets) => {
            assert_eq!(targets.len(), 1);
            assert_eq!(text(&targets[0], "id"), "kite-lite-target");
            assert_eq!(text(&targets[0], "title"), "T");
            assert_eq!(text(&targets[0], "url"), "u");
        }
        other => panic!("{other:?}"),
    }
    assert_eq!(text(&discovery_body("/json/x", "h", "T", "u"), "error"), "not found");
}

#[test]
fn discovery_answers_give_their_length_in_bytes() {
    let request = read_discovery(&b"GET /json/nope HTTP/1.1\r\n\r\n".to_vec()).unwrap();
    assert_eq!(
        discovery_response(&request, "", ""),
        "HTTP/1.1 200 OK\r\nContent-Type: application/json\r\nContent-Length: 21\r\nConnection: close\r\n\r\n{\"error\":\"not found\"}"
    );
    let request = read_discovery(&b"GET /json HTTP/1.1\r\nHost: h\r\n\r\n".to_vec()).unwrap();
    let response = discovery_response(&request, "ñ", "u");
    let (head, body) = response.split_once("\r\n\r\n").expect("a head and a body");
    assert!(head.contains(&format!("Content-Length: {}", body.len())));
    assert_eq!(
        body,
        "[{\"id\":\"kite-lite-target\",\"title\":\"ñ\",\"type\":\"page\",\"url\":\"u\",\"webSocketDebuggerUrl\":\"ws://h/\"}]"
    );
}

#[test]
fn pieces_with_bytes_behind_the_request_give_the_request() {
    let request = b"GET / HTTP/1.1\r\nContent-Length: 3\r\n\r\nabc";
    let mut all = request.to_vec();
    all.extend_from_slice(b"and more");
    for size in [1, 4, 10, 39, all.len()] {
        let mut reader = RequestReader::new();
        let mut read = None;
        for piece in all.chunks(size) {
            if let ReadStep::Complete(bytes) = reader.feed(piece) {
                read = Some(bytes);
                break;
            }
        }
        assert_eq!(read.as_deref(), Some(&request[..]));
    }
}
