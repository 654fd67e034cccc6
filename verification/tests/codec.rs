//! Tests of the frame codec: classification, decoding, exact re-encoding.

use ra_multiplex::frame::{
    classify_header_line, decode_frame, encode_frame, encode_frame_header, FrameError, HeaderLine,
};

#[test]
fn round_trip_arbitrary_body() {
    let body: Vec<u8> = b"{ \"a\" :\t[1,2 ,3],\n\"z\":\"\\\"quoted\\\"\"}".to_vec();
    let encoded = encode_frame(&body);
    let decoded = decode_frame(&encoded).expect("frame must decode");
    assert_eq!(decoded.0, body);
    assert_eq!(decoded.1, encoded.len());
}

#[test]
fn round_trip_empty_body() {
    let body: Vec<u8> = Vec::new();
    let encoded = encode_frame(&body);
    assert_eq!(encoded, b"Content-Length: 0\r\n\r\n".to_vec());
    let decoded = decode_frame(&encoded).expect("frame must decode");
    assert_eq!(decoded.0, body);
    assert_eq!(decoded.1, encoded.len());
}

#[test]
fn encode_exact_bytes() {
    let body = b"{\"id\":1,\"method\":\"initialize\"}";
    let encoded = encode_frame(body);
    let mut expected = b"Content-Length: 30\r\n\r\n".to_vec();
    expected.extend_from_slice(body);
    assert_eq!(encoded, expected);
}

#[test]
fn header_only_content_length_succeeds() {
    let input = b"Content-Length: 5\r\n\r\nhello";
    let (body, consumed) = decode_frame(input).expect("minimal header block must decode");
    assert_eq!(body, b"hello".to_vec());
    assert_eq!(consumed, input.len());
}

#[test]
fn unknown_header_always_fails() {
    let input = b"X-Custom: 1\r\nContent-Length: 3\r\n\r\nabc";
    assert_eq!(decode_frame(input), Err(FrameError::UnknownHeader));
    let after = b"Content-Length: 3\r\nX-Custom: 1\r\n\r\nabc";
    assert_eq!(decode_frame(after), Err(FrameError::UnknownHeader));
}

#[test]
fn content_type_accepted_and_dropped_on_output() {
    let input = b"Content-Type: application/vscode-jsonrpc\r\nContent-Length: 2\r\n\r\n{}";
    let (body, consumed) = decode_frame(input).expect("content-type is accepted");
    assert_eq!(body, b"{}".to_vec());
    assert_eq!(consumed, input.len());
    let reencoded = encode_frame(&body);
    assert_eq!(reencoded, b"Content-Length: 2\r\n\r\n{}".to_vec());
}

#[test]
fn declared_length_beyond_stream_end_fails() {
    let input = b"Content-Length: 10\r\n\r\nabc";
    assert_eq!(decode_frame(input), Err(FrameError::TruncatedBody));
}

#[test]
fn missing_content_length_fails() {
    let input = b"Content-Type: x\r\n\r\nabc";
    assert_eq!(decode_frame(input), Err(FrameError::MissingLength));
}

#[test]
fn line_without_crlf_fails() {
    let input = b"Content-Length: 3";
    assert_eq!(decode_frame(input), Err(FrameError::MalformedLine));
    let lf_only = b"Content-Length: 3\n\r\n\r\nabc";
    assert_eq!(decode_frame(lf_only), Err(FrameError::MalformedLine));
}

#[test]
fn bad_length_value_fails() {
    assert_eq!(
        decode_frame(b"Content-Length: abc\r\n\r\n"),
        Err(FrameError::BadLength)
    );
    assert_eq!(
        decode_frame(b"Content-Length: \r\n\r\n"),
        Err(FrameError::BadLength)
    );
    assert_eq!(
        decode_frame(b"Content-Length: 99999999999999999999999999\r\n\r\n"),
        Err(FrameError::BadLength)
    );
}

#[test]
fn repeated_content_length_keeps_last() {
    let input = b"Content-Length: 9\r\nContent-Length: 2\r\n\r\nxy";
    let (body, _) = decode_frame(input).expect("last declared length wins");
    assert_eq!(body, b"xy".to_vec());
}

#[test]
fn classify_lines() {
    assert_eq!(classify_header_line(b"\r\n"), HeaderLine::Blank);
    assert_eq!(
        classify_header_line(b"Content-Length: 42\r\n"),
        HeaderLine::ContentLength(42)
    );
    assert_eq!(
        classify_header_line(b"Content-Length: +7\r\n"),
        HeaderLine::ContentLength(7)
    );
    assert_eq!(
        classify_header_line(b"Content-Type: utf8\r\n"),
        HeaderLine::ContentType
    );
    assert_eq!(
        classify_header_line(b"Accept: json\r\n"),
        HeaderLine::Invalid(FrameError::UnknownHeader)
    );
    assert_eq!(
        classify_header_line(b"Content-Length: 1\n"),
        HeaderLine::Invalid(FrameError::MalformedLine)
    );
    assert_eq!(
        classify_header_line(b""),
        HeaderLine::Invalid(FrameError::MalformedLine)
    );
}

#[test]
fn header_bytes_are_exact() {
    assert_eq!(encode_frame_header(0), b"Content-Length: 0\r\n\r\n".to_vec());
    assert_eq!(
        encode_frame_header(1048576),
        b"Content-Length: 1048576\r\n\r\n".to_vec()
    );
}
