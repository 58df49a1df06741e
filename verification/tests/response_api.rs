//! Direct exercises of the response constructors, the compression
//! step, and the serializer.
use std::io::Read;

use httpcore::http::{Header, Response};

fn wire(r: &Response) -> Vec<u8> {
    let mut out = Vec::new();
    r.write_to(&mut out);
    out
}

#[test]
fn empty_serializes_bare_200() {
    assert_eq!(wire(&Response::empty()), b"HTTP/1.1 200 OK\r\n\r\n".to_vec());
}

#[test]
fn created_serializes_bare_201() {
    assert_eq!(wire(&Response::created()), b"HTTP/1.1 201 Created\r\n\r\n".to_vec());
}

#[test]
fn not_found_serializes_bare_404() {
    assert_eq!(wire(&Response::not_found()), b"HTTP/1.1 404 Not Found\r\n\r\n".to_vec());
}

#[test]
fn text_carries_exact_content_length() {
    let r = Response::text(b"abc".to_vec());
    assert_eq!(r.status_code, 200);
    assert_eq!(r.headers.len(), 2);
    assert!(matches!(r.headers[1], Header::ContentLength(3)));
    assert_eq!(
        wire(&r),
        b"HTTP/1.1 200 OK\r\nContent-Type: text/plain\r\nContent-Length: 3\r\n\r\nabc".to_vec()
    );
}

#[test]
fn file_found_is_octet_stream() {
    let r = Response::file_found(vec![0u8, 159, 146, 150]);
    assert_eq!(
        wire(&r),
        [
            b"HTTP/1.1 200 OK\r\nContent-Type: application/octet-stream\r\nContent-Length: 4\r\n\r\n"
                .to_vec(),
            vec![0u8, 159, 146, 150],
        ]
        .concat()
    );
}

#[test]
fn compressed_updates_content_length_to_gzip_size() {
    let body: Vec<u8> = std::iter::repeat(b'a').take(100).collect();
    let r = Response::text(body.clone()).compressed();
    let gz = match &r.body {
        Some(b) => b.clone(),
        None => panic!("compressed response lost its body"),
    };
    assert_ne!(gz, body);
    // The Content-Length header was rewritten to the compressed size,
    // and Content-Encoding was appended after it.
    assert!(matches!(r.headers[1], Header::ContentLength(n) if n == gz.len()));
    assert!(matches!(r.headers[2], Header::ContentEncoding));
    let mut decoder = flate2::read::GzDecoder::new(&gz[..]);
    let mut plain = Vec::new();
    decoder.read_to_end(&mut plain).unwrap();
    assert_eq!(plain, body);
}

#[test]
fn compressed_without_body_only_adds_header() {
    let r = Response::empty().compressed();
    assert!(r.body.is_none());
    assert_eq!(r.headers.len(), 1);
    assert!(matches!(r.headers[0], Header::ContentEncoding));
    assert_eq!(wire(&r), b"HTTP/1.1 200 OK\r\nContent-Encoding: gzip\r\n\r\n".to_vec());
}
