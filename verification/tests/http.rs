//! Responses of local servers.
use prompt_compressor::runtime::http::{
    decode_chunked_body, is_complete_chunked_body, parse_http_response,
};

#[test]
fn decodes_chunked_json_response() {
    let response = b"HTTP/1.1 200 OK\r\nTransfer-Encoding: chunked\r\n\r\n7\r\n{\"ok\":1\r\n1\r\n}\r\n0\r\n\r\n";

    assert_eq!(
        parse_http_response(response).expect("valid chunked response"),
        "{\"ok\":1}"
    );
}

#[test]
fn rejects_shorter_than_declared_chunk() {
    let error = decode_chunked_body(b"9\r\nabc\r\n0\r\n\r\n")
        .expect_err("truncated chunk must be rejected");

    assert!(error.message().contains("shorter than declared"));
}

#[test]
fn chunks_that_are_written_are_read_back() {
    let chunks: [&[u8]; 3] = [b"a", b"0123456789abcdefg", b"\r\n"];
    let mut body: Vec<u8> = Vec::new();
    for chunk in chunks {
        body.extend(format!("{:x}\r\n", chunk.len()).into_bytes());
        body.extend(chunk);
        body.extend(b"\r\n");
    }
    assert!(decode_chunked_body(&body).is_err());
    assert!(!is_complete_chunked_body(&body).expect("no fault"));
    body.extend(b"0\r\n\r\n");
    assert!(is_complete_chunked_body(&body).expect("no fault"));
    assert_eq!(decode_chunked_body(&body).expect("chunks"), b"a0123456789abcdefg\r\n");
}
