//! End-to-end scenarios through the public pipeline: parse, route,
//! negotiate, serialize, and the file-gateway halves.
use std::io::Read;

use httpcore::http::{Header, Method};
use httpcore::parse::parse;
use httpcore::router::{file_read_response, file_write_response, handle_request, Action};

fn respond_bytes(input: &[u8]) -> Vec<u8> {
    match handle_request(input) {
        Action::Respond(w) => w,
        other => panic!("expected a response, got {:?}", action_name(&other)),
    }
}

fn action_name(a: &Action) -> &'static str {
    match a {
        Action::Respond(_) => "Respond",
        Action::ReadFile(_, _) => "ReadFile",
        Action::WriteFile(_, _, _) => "WriteFile",
        Action::Close => "Close",
    }
}

/// Splits a wire response into (head, body) at the blank line.
fn split_wire(wire: &[u8]) -> (Vec<u8>, Vec<u8>) {
    for i in 0..wire.len().saturating_sub(3) {
        if &wire[i..i + 4] == b"\r\n\r\n" {
            return (wire[..i + 2].to_vec(), wire[i + 4..].to_vec());
        }
    }
    panic!("no blank line in wire output");
}

#[test]
fn get_root_is_bare_200() {
    let w = respond_bytes(b"GET / HTTP/1.1\r\n\r\n");
    assert_eq!(w, b"HTTP/1.1 200 OK\r\n\r\n".to_vec());
}

#[test]
fn get_root_ignores_headers_and_body() {
    let w = respond_bytes(b"GET / HTTP/1.1\r\nUser-Agent: x\r\nHost: h\r\n\r\nstray");
    assert_eq!(w, b"HTTP/1.1 200 OK\r\n\r\n".to_vec());
}

#[test]
fn echo_hello_is_text_plain() {
    let w = respond_bytes(b"GET /echo/hello HTTP/1.1\r\n\r\n");
    assert_eq!(
        w,
        b"HTTP/1.1 200 OK\r\nContent-Type: text/plain\r\nContent-Length: 5\r\n\r\nhello".to_vec()
    );
}

#[test]
fn echo_longer_body_has_exact_decimal_length() {
    let w = respond_bytes(b"GET /echo/0123456789ab HTTP/1.1\r\n\r\n");
    assert_eq!(
        w,
        b"HTTP/1.1 200 OK\r\nContent-Type: text/plain\r\nContent-Length: 12\r\n\r\n0123456789ab"
            .to_vec()
    );
}

#[test]
fn echo_empty_suffix_is_empty_text() {
    let w = respond_bytes(b"GET /echo/ HTTP/1.1\r\n\r\n");
    assert_eq!(
        w,
        b"HTTP/1.1 200 OK\r\nContent-Type: text/plain\r\nContent-Length: 0\r\n\r\n".to_vec()
    );
}

#[test]
fn unmatched_path_is_404() {
    let w = respond_bytes(b"GET /nonexistent/path HTTP/1.1\r\n\r\n");
    assert_eq!(w, b"HTTP/1.1 404 Not Found\r\n\r\n".to_vec());
}

#[test]
fn user_agent_is_echoed() {
    let w = respond_bytes(b"GET /user-agent HTTP/1.1\r\nUser-Agent: foobar/1.2.3\r\n\r\n");
    assert_eq!(
        w,
        b"HTTP/1.1 200 OK\r\nContent-Type: text/plain\r\nContent-Length: 12\r\n\r\nfoobar/1.2.3"
            .to_vec()
    );
}

#[test]
fn user_agent_missing_closes_connection() {
    let a = handle_request(b"GET /user-agent HTTP/1.1\r\n\r\n");
    assert!(matches!(a, Action::Close));
}

#[test]
fn files_post_then_get_round_trip() {
    let post = handle_request(b"POST /files/report.txt HTTP/1.1\r\n\r\nhello file");
    let stored = match post {
        Action::WriteFile(name, contents, wants_gzip) => {
            assert_eq!(name, b"report.txt".to_vec());
            assert_eq!(contents, b"hello file".to_vec());
            assert!(!wants_gzip);
            assert!(matches!(file_write_response(true, false), Some(w)
                if w == b"HTTP/1.1 201 Created\r\n\r\n".to_vec()));
            contents
        }
        other => panic!("expected WriteFile, got {}", action_name(&other)),
    };
    let get = handle_request(b"GET /files/report.txt HTTP/1.1\r\n\r\n");
    match get {
        Action::ReadFile(name, wants_gzip) => {
            assert_eq!(name, b"report.txt".to_vec());
            assert!(!wants_gzip);
            let w = file_read_response(Some(stored.clone()), false);
            assert_eq!(
                w,
                b"HTTP/1.1 200 OK\r\nContent-Type: application/octet-stream\r\nContent-Length: 10\r\n\r\nhello file"
                    .to_vec()
            );
        }
        other => panic!("expected ReadFile, got {}", action_name(&other)),
    }
}

#[test]
fn files_missing_is_404_with_empty_body() {
    let w = file_read_response(None, false);
    assert_eq!(w, b"HTTP/1.1 404 Not Found\r\n\r\n".to_vec());
}

#[test]
fn files_write_failure_closes_connection() {
    assert!(file_write_response(false, false).is_none());
    assert!(file_write_response(false, true).is_none());
}

#[test]
fn files_post_without_body_closes_connection() {
    let a = handle_request(b"POST /files/report.txt HTTP/1.1\r\n\r\n");
    assert!(matches!(a, Action::Close));
}

#[test]
fn files_name_with_separator_is_not_served() {
    let a = handle_request(b"GET /files/a/b HTTP/1.1\r\n\r\n");
    match a {
        Action::Respond(w) => assert_eq!(w, b"HTTP/1.1 404 Not Found\r\n\r\n".to_vec()),
        other => panic!("expected Respond, got {}", action_name(&other)),
    }
}

#[test]
fn files_dotdot_is_not_served() {
    let a = handle_request(b"GET /files/.. HTTP/1.1\r\n\r\n");
    match a {
        Action::Respond(w) => assert_eq!(w, b"HTTP/1.1 404 Not Found\r\n\r\n".to_vec()),
        other => panic!("expected Respond, got {}", action_name(&other)),
    }
}

#[test]
fn files_post_dotdot_closes_connection() {
    let a = handle_request(b"POST /files/.. HTTP/1.1\r\n\r\nbody");
    assert!(matches!(a, Action::Close));
}

#[test]
fn echo_gzip_negotiation() {
    let w = respond_bytes(b"GET /echo/hello HTTP/1.1\r\nAccept-Encoding: gzip\r\n\r\n");
    let (head, body) = split_wire(&w);
    let head_str = String::from_utf8(head).unwrap();
    assert!(head_str.starts_with("HTTP/1.1 200 OK\r\n"));
    assert!(head_str.contains("Content-Encoding: gzip\r\n"));
    assert!(head_str.contains("Content-Type: text/plain\r\n"));
    // Content-Length states the compressed length exactly.
    let cl: usize = head_str
        .lines()
        .find_map(|l| l.strip_prefix("Content-Length: "))
        .unwrap()
        .parse()
        .unwrap();
    assert_eq!(cl, body.len());
    // The body is no longer the plain text, and gunzipping restores it.
    assert_ne!(body, b"hello".to_vec());
    let mut decoder = flate2::read::GzDecoder::new(&body[..]);
    let mut plain = Vec::new();
    decoder.read_to_end(&mut plain).unwrap();
    assert_eq!(plain, b"hello".to_vec());
}

#[test]
fn unknown_encoding_value_is_dropped() {
    let w = respond_bytes(b"GET /echo/hi HTTP/1.1\r\nAccept-Encoding: br\r\n\r\n");
    let (head, body) = split_wire(&w);
    let head_str = String::from_utf8(head).unwrap();
    assert!(!head_str.contains("Content-Encoding"));
    assert_eq!(body, b"hi".to_vec());
}

#[test]
fn method_is_case_insensitive() {
    let w = respond_bytes(b"get / HTTP/1.1\r\n\r\n");
    assert_eq!(w, b"HTTP/1.1 200 OK\r\n\r\n".to_vec());
    let w = respond_bytes(b"GeT / HTTP/1.1\r\n\r\n");
    assert_eq!(w, b"HTTP/1.1 200 OK\r\n\r\n".to_vec());
}

#[test]
fn unknown_method_closes_connection() {
    let a = handle_request(b"PUT / HTTP/1.1\r\n\r\n");
    assert!(matches!(a, Action::Close));
}

#[test]
fn empty_input_closes_connection() {
    let a = handle_request(b"");
    assert!(matches!(a, Action::Close));
}

#[test]
fn missing_url_closes_connection() {
    let a = handle_request(b"GET\r\n\r\n");
    assert!(matches!(a, Action::Close));
}

#[test]
fn two_connections_are_independent() {
    let first = respond_bytes(b"GET / HTTP/1.1\r\n\r\n");
    let second = respond_bytes(b"GET / HTTP/1.1\r\n\r\n");
    assert_eq!(first, b"HTTP/1.1 200 OK\r\n\r\n".to_vec());
    assert_eq!(second, b"HTTP/1.1 200 OK\r\n\r\n".to_vec());
    // A connection carrying different bytes leaves others untouched.
    let third = respond_bytes(b"GET /echo/other HTTP/1.1\r\n\r\n");
    assert!(third.ends_with(b"other"));
    let fourth = respond_bytes(b"GET / HTTP/1.1\r\n\r\n");
    assert_eq!(fourth, b"HTTP/1.1 200 OK\r\n\r\n".to_vec());
}

#[test]
fn parse_extracts_line_headers_and_body() {
    let req = parse(b"POST /files/x HTTP/1.1\r\nUser-Agent:  spaced out  \r\nHost: h\r\n\r\nraw body")
        .unwrap();
    assert!(matches!(req.line.method, Method::Post));
    assert_eq!(req.line.url, b"/files/x".to_vec());
    // The unknown Host header is dropped; the User-Agent value is trimmed.
    assert_eq!(req.headers.len(), 1);
    assert!(matches!(&req.headers[0], Header::UserAgent(v) if *v == b"spaced out".to_vec()));
    assert_eq!(req.body, Some(b"raw body".to_vec()));
}

#[test]
fn parse_header_name_is_case_insensitive() {
    let req = parse(b"GET / HTTP/1.1\r\nUSER-AGENT: x\r\nacCePt-enCoDing: gzip\r\n\r\n").unwrap();
    assert_eq!(req.headers.len(), 2);
    assert!(matches!(&req.headers[0], Header::UserAgent(v) if *v == b"x".to_vec()));
    assert!(matches!(&req.headers[1], Header::AcceptEncoding));
}

#[test]
fn parse_empty_body_is_none() {
    let req = parse(b"GET / HTTP/1.1\r\nHost: h\r\n\r\n").unwrap();
    assert!(req.body.is_none());
}

#[test]
fn parse_without_blank_line_has_no_body() {
    let req = parse(b"GET / HTTP/1.1\r\nUser-Agent: x").unwrap();
    assert_eq!(req.headers.len(), 1);
    assert!(req.body.is_none());
}
