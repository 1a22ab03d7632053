use std::io::Read;

use http_server::{
    dispatch, finish_read, finish_write, get_status_text, handle_connection, parse_encoding,
    Action, HttpRequest, HttpResponse, RequestError,
};

fn buffer(text: &[u8]) -> Vec<u8> {
    let mut buf = vec![0u8; 1024];
    buf[..text.len()].copy_from_slice(text);
    buf
}

fn request(text: &str) -> HttpRequest {
    HttpRequest::new(&buffer(text.as_bytes())).unwrap()
}

fn respond(action: Action) -> HttpResponse {
    match action {
        Action::Respond(r) => r,
        _ => panic!("expected a response"),
    }
}

fn gunzip(data: &[u8]) -> Vec<u8> {
    let mut out = Vec::new();
    flate2::read::GzDecoder::new(data).read_to_end(&mut out).unwrap();
    out
}

fn split_head(bytes: &[u8]) -> (String, Vec<u8>) {
    let at = bytes.windows(4).position(|w| w == b"\r\n\r\n").unwrap();
    (String::from_utf8(bytes[..at + 4].to_vec()).unwrap(), bytes[at + 4..].to_vec())
}

#[test]
fn status_texts_of_registered_codes() {
    assert_eq!(get_status_text(200), "OK");
    assert_eq!(get_status_text(201), "Created");
    assert_eq!(get_status_text(400), "Bad Request");
    assert_eq!(get_status_text(404), "Not Found");
    assert_eq!(get_status_text(405), "Method Not Allowed");
    assert_eq!(get_status_text(500), "Internal Server Error");
}

#[test]
fn status_text_of_unregistered_code() {
    assert_eq!(get_status_text(418), "Unknown");
    assert_eq!(get_status_text(0), "Unknown");
}

#[test]
fn status_line_carries_reason_phrase() {
    for (code, line) in [
        (200u16, "HTTP/1.1 200 OK\r\n"),
        (201, "HTTP/1.1 201 Created\r\n"),
        (404, "HTTP/1.1 404 Not Found\r\n"),
        (405, "HTTP/1.1 405 Method Not Allowed\r\n"),
        (400, "HTTP/1.1 400 Bad Request\r\n"),
        (500, "HTTP/1.1 500 Internal Server Error\r\n"),
        (299, "HTTP/1.1 299 Unknown\r\n"),
        (7, "HTTP/1.1 7 Unknown\r\n"),
    ] {
        let bytes = HttpResponse::new(code).as_bytes();
        assert!(bytes.starts_with(line.as_bytes()), "{}", code);
    }
}

#[test]
fn plain_response_bytes() {
    let mut response = HttpResponse::new(200);
    response.set_header("Content-Type", "text/plain").set_body(b"abc".to_vec());
    assert_eq!(
        response.as_bytes(),
        b"HTTP/1.1 200 OK\r\nContent-Type: text/plain\r\nContent-Length: 3\r\n\r\nabc".to_vec()
    );
}

#[test]
fn empty_response_bytes() {
    assert_eq!(
        HttpResponse::new(404).as_bytes(),
        b"HTTP/1.1 404 Not Found\r\nContent-Length: 0\r\n\r\n".to_vec()
    );
}

#[test]
fn set_header_replaces_value() {
    let mut response = HttpResponse::new(200);
    response.set_header("X-A", "1").set_header("X-B", "2").set_header("X-A", "3");
    assert_eq!(response.header("X-A").unwrap(), &b"3".to_vec());
    assert_eq!(
        response.as_bytes(),
        b"HTTP/1.1 200 OK\r\nX-A: 3\r\nX-B: 2\r\nContent-Length: 0\r\n\r\n".to_vec()
    );
}

#[test]
fn content_length_is_computed() {
    let mut response = HttpResponse::new(200);
    response.set_header("Content-Length", "99").set_body(b"hello".to_vec());
    assert_eq!(
        response.as_bytes(),
        b"HTTP/1.1 200 OK\r\nContent-Length: 5\r\n\r\nhello".to_vec()
    );
}

#[test]
fn set_status_code_changes_status() {
    let mut response = HttpResponse::new(200);
    response.set_status_code(201);
    assert_eq!(response.status_code(), 201);
    assert!(response.as_bytes().starts_with(b"HTTP/1.1 201 Created\r\n"));
}

#[test]
fn gzip_round_trip() {
    let body = b"hello hello hello hello hello hello hello".to_vec();
    let mut response = HttpResponse::new(200);
    response.set_header("Content-Encoding", "gzip").set_body(body.clone());
    let (head, sent) = split_head(&response.as_bytes());
    assert_ne!(sent, body);
    assert_eq!(gunzip(&sent), body);
    assert!(head.starts_with("HTTP/1.1 200 OK\r\nContent-Encoding: gzip\r\n"));
    assert!(head.ends_with(&format!("Content-Length: {}\r\n\r\n", sent.len())));
    assert_ne!(sent.len(), body.len());
}

#[test]
fn gzip_of_empty_body() {
    let mut response = HttpResponse::new(404);
    response.set_header("Content-Encoding", "gzip");
    let (head, sent) = split_head(&response.as_bytes());
    assert!(!sent.is_empty());
    assert_eq!(gunzip(&sent), Vec::<u8>::new());
    assert!(head.ends_with(&format!("Content-Length: {}\r\n\r\n", sent.len())));
}

#[test]
fn other_encoding_is_not_compressed() {
    let mut response = HttpResponse::new(200);
    response.set_header("Content-Encoding", "br").set_body(b"xyz".to_vec());
    assert_eq!(
        response.as_bytes(),
        b"HTTP/1.1 200 OK\r\nContent-Encoding: br\r\nContent-Length: 3\r\n\r\nxyz".to_vec()
    );
}

#[test]
fn parses_request_line_and_headers() {
    let req = request("GET /echo/abc HTTP/1.1\r\nHost: localhost\r\nUser-Agent: curl/8.0\r\n\r\n");
    assert_eq!(req.method(), &b"GET".to_vec());
    assert_eq!(req.path(), &b"/echo/abc".to_vec());
    assert_eq!(req.header("Host").unwrap(), &b"localhost".to_vec());
    assert_eq!(req.header("User-Agent").unwrap(), &b"curl/8.0".to_vec());
    assert!(req.header("user-agent").is_none());
    assert!(req.body().is_empty());
}

#[test]
fn header_split_once() {
    let req = request("GET / HTTP/1.1\r\nX-Note: a: b\r\n\r\n");
    assert_eq!(req.header("X-Note").unwrap(), &b"a: b".to_vec());
}

#[test]
fn duplicate_header_last_wins() {
    let req = request("GET / HTTP/1.1\r\nX: 1\r\nX: 2\r\n\r\n");
    assert_eq!(req.header("X").unwrap(), &b"2".to_vec());
}

#[test]
fn body_without_padding() {
    let req = request("POST /files/a HTTP/1.1\r\nContent-Length: 5\r\n\r\nhello");
    assert_eq!(req.method(), &b"POST".to_vec());
    assert_eq!(req.body(), &b"hello".to_vec());
}

#[test]
fn body_lines_are_joined() {
    let req = HttpRequest::parse(b"POST /x HTTP/1.1\r\n\r\nab\r\ncd").unwrap();
    assert_eq!(req.body(), &b"abcd".to_vec());
}

#[test]
fn missing_path_is_rejected() {
    let r = HttpRequest::new(&buffer(b"GET\r\n\r\n"));
    assert!(matches!(r, Err(RequestError::MalformedRequestLine)));
}

#[test]
fn all_zero_buffer_is_rejected() {
    let r = HttpRequest::new(&[0u8; 1024]);
    assert!(matches!(r, Err(RequestError::MalformedRequestLine)));
}

#[test]
fn empty_text_is_rejected() {
    assert!(matches!(HttpRequest::parse(b""), Err(RequestError::MalformedRequestLine)));
}

#[test]
fn malformed_header_is_rejected() {
    let r = HttpRequest::new(&buffer(b"GET / HTTP/1.1\r\nNoSeparator\r\n\r\n"));
    assert!(matches!(r, Err(RequestError::MalformedHeader)));
}

#[test]
fn invalid_utf8_is_replaced() {
    let req = HttpRequest::new(&buffer(b"GET /echo/\xff HTTP/1.1\r\n\r\n")).unwrap();
    assert_eq!(req.path(), &b"/echo/\xef\xbf\xbd".to_vec());
}

#[test]
fn parse_encoding_finds_gzip() {
    let v = b"identity, gzip".to_vec();
    assert_eq!(parse_encoding(Some(&v)), Some("gzip"));
    let v = b"gzip".to_vec();
    assert_eq!(parse_encoding(Some(&v)), Some("gzip"));
    let v = "br,\u{a0}gzip\t ,deflate".as_bytes().to_vec();
    assert_eq!(parse_encoding(Some(&v)), Some("gzip"));
}

#[test]
fn parse_encoding_without_gzip() {
    let v = b"identity".to_vec();
    assert_eq!(parse_encoding(Some(&v)), None);
    let v = b"gzipx, x-gzip".to_vec();
    assert_eq!(parse_encoding(Some(&v)), None);
    let v = b"GZIP".to_vec();
    assert_eq!(parse_encoding(Some(&v)), None);
    assert_eq!(parse_encoding(None), None);
}

#[test]
fn get_root() {
    let r = respond(dispatch(&request("GET / HTTP/1.1\r\n\r\n"), None));
    assert_eq!(r.status_code(), 200);
    assert!(r.body().is_empty());
    assert!(r.header("Content-Type").is_none());
}

#[test]
fn get_echo() {
    let r = respond(dispatch(&request("GET /echo/hello-world HTTP/1.1\r\n\r\n"), None));
    assert_eq!(r.status_code(), 200);
    assert_eq!(r.body(), &b"hello-world".to_vec());
    assert_eq!(r.header("Content-Type").unwrap(), &b"text/plain".to_vec());
    assert!(r.header("Content-Encoding").is_none());
}

#[test]
fn get_echo_empty() {
    let r = respond(dispatch(&request("GET /echo/ HTTP/1.1\r\n\r\n"), None));
    assert_eq!(r.status_code(), 200);
    assert!(r.body().is_empty());
}

#[test]
fn get_user_agent() {
    let req = request("GET /user-agent HTTP/1.1\r\nUser-Agent: curl/8.0\r\n\r\n");
    let r = respond(dispatch(&req, None));
    assert_eq!(r.status_code(), 200);
    assert_eq!(r.body(), &b"curl/8.0".to_vec());
    assert_eq!(r.header("Content-Type").unwrap(), &b"text/plain".to_vec());
}

#[test]
fn get_user_agent_missing() {
    let r = respond(dispatch(&request("GET /user-agent HTTP/1.1\r\n\r\n"), None));
    assert_eq!(r.status_code(), 400);
}

#[test]
fn post_then_get_file() {
    let root: &[u8] = b"/srv/files";
    let post = request("POST /files/note.txt HTTP/1.1\r\nContent-Length: 5\r\n\r\nhello");
    let (written_path, stored) = match dispatch(&post, Some(root)) {
        Action::WriteFile { path, contents, response } => {
            let done = finish_write(response, true);
            assert_eq!(done.status_code(), 201);
            assert!(done.body().is_empty());
            (path, contents)
        }
        _ => panic!("expected a write"),
    };
    assert_eq!(written_path, b"/srv/files/note.txt".to_vec());
    assert_eq!(stored, b"hello".to_vec());
    let get = request("GET /files/note.txt HTTP/1.1\r\n\r\n");
    match dispatch(&get, Some(root)) {
        Action::ReadFile { path, response } => {
            assert_eq!(path, written_path);
            let done = finish_read(response, Some(stored));
            assert_eq!(done.status_code(), 200);
            assert_eq!(done.body(), &b"hello".to_vec());
            assert_eq!(
                done.header("Content-Type").unwrap(),
                &b"application/octet-stream".to_vec()
            );
        }
        _ => panic!("expected a read"),
    }
}

#[test]
fn file_path_without_root() {
    match dispatch(&request("GET /files/a.txt HTTP/1.1\r\n\r\n"), None) {
        Action::ReadFile { path, .. } => assert_eq!(path, b"/a.txt".to_vec()),
        _ => panic!("expected a read"),
    }
}

#[test]
fn get_missing_file() {
    match dispatch(&request("GET /files/missing.txt HTTP/1.1\r\n\r\n"), Some(b"/empty")) {
        Action::ReadFile { response, .. } => {
            let done = finish_read(response, None);
            assert_eq!(done.status_code(), 404);
            assert!(done.body().is_empty());
        }
        _ => panic!("expected a read"),
    }
}

#[test]
fn failed_write_is_500() {
    let post = request("POST /files/x HTTP/1.1\r\n\r\ndata");
    match dispatch(&post, None) {
        Action::WriteFile { response, .. } => {
            assert_eq!(finish_write(response, false).status_code(), 500);
        }
        _ => panic!("expected a write"),
    }
}

#[test]
fn post_elsewhere_is_404() {
    let r = respond(dispatch(&request("POST /echo/x HTTP/1.1\r\n\r\n"), None));
    assert_eq!(r.status_code(), 404);
}

#[test]
fn get_unknown_path_is_404() {
    let r = respond(dispatch(&request("GET /nothing HTTP/1.1\r\n\r\n"), None));
    assert_eq!(r.status_code(), 404);
    assert!(r.body().is_empty());
}

#[test]
fn accept_encoding_with_gzip() {
    let req = request("GET /echo/abc HTTP/1.1\r\nAccept-Encoding: identity, gzip\r\n\r\n");
    let r = respond(dispatch(&req, None));
    assert_eq!(r.header("Content-Encoding").unwrap(), &b"gzip".to_vec());
    let (head, sent) = split_head(&r.as_bytes());
    assert!(head.contains("Content-Encoding: gzip\r\n"));
    assert_eq!(gunzip(&sent), b"abc".to_vec());
}

#[test]
fn accept_encoding_without_gzip() {
    let req = request("GET /echo/abc HTTP/1.1\r\nAccept-Encoding: identity\r\n\r\n");
    let r = respond(dispatch(&req, None));
    assert!(r.header("Content-Encoding").is_none());
    let bytes = r.as_bytes();
    assert!(!String::from_utf8(bytes.clone()).unwrap().contains("Content-Encoding"));
    assert!(bytes.ends_with(b"\r\n\r\nabc"));
}

#[test]
fn post_negotiates_gzip() {
    let req = request("POST /files/z HTTP/1.1\r\nAccept-Encoding: deflate, gzip\r\n\r\nq");
    match dispatch(&req, None) {
        Action::WriteFile { response, .. } => {
            let done = finish_write(response, true);
            assert_eq!(done.header("Content-Encoding").unwrap(), &b"gzip".to_vec());
        }
        _ => panic!("expected a write"),
    }
}

#[test]
fn unsupported_method_is_405() {
    for text in [
        "PUT / HTTP/1.1\r\n\r\n",
        "PUT /files/a HTTP/1.1\r\n\r\n",
        "DELETE /echo/x HTTP/1.1\r\nAccept-Encoding: gzip\r\n\r\n",
        "get / HTTP/1.1\r\n\r\n",
    ] {
        let r = respond(dispatch(&request(text), None));
        assert_eq!(r.status_code(), 405);
        assert!(r.header("Content-Encoding").is_none());
        assert_eq!(
            r.as_bytes(),
            b"HTTP/1.1 405 Method Not Allowed\r\nContent-Length: 0\r\n\r\n".to_vec()
        );
    }
}

#[test]
fn handle_connection_routes() {
    let r = respond(handle_connection(&buffer(b"GET /echo/xyz HTTP/1.1\r\n\r\n"), None));
    assert_eq!(r.body(), &b"xyz".to_vec());
}

#[test]
fn handle_connection_bad_request() {
    let r = respond(handle_connection(&buffer(b"GARBAGE\r\n\r\n"), None));
    assert_eq!(r.status_code(), 400);
    assert_eq!(
        r.as_bytes(),
        b"HTTP/1.1 400 Bad Request\r\nContent-Length: 0\r\n\r\n".to_vec()
    );
}
