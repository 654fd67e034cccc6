//! Tests of the per-direction relay decisions: header accumulation, body
//! handling and `id` logging, and the independence of the two directions.

use ra_multiplex::frame::FrameError;
use ra_multiplex::relay::{header_begin, header_feed, process_body, relay_frame, HeaderStep};

#[test]
fn id_is_surfaced_exactly_when_present() {
    let body = b"{\"id\":1,\"method\":\"initialize\"}";
    let (_, id) = process_body(body).expect("valid document");
    // The logged value is the parser's own rendering of the `id` member.
    let parsed: serde_json::Value = serde_json::from_str("1").unwrap();
    assert_eq!(id, Some(format!("{:?}", parsed)));

    let notification = b"{\"method\":\"initialized\",\"params\":{}}";
    let (_, id) = process_body(notification).expect("valid document");
    assert_eq!(id, None);
}

#[test]
fn string_id_is_surfaced() {
    let body = b"{\"id\":\"req-7\",\"method\":\"shutdown\"}";
    let (_, id) = process_body(body).expect("valid document");
    let parsed: serde_json::Value = serde_json::from_str("\"req-7\"").unwrap();
    assert_eq!(id, Some(format!("{:?}", parsed)));
}

#[test]
fn undecodable_payload_is_rejected() {
    assert_eq!(process_body(b"not json"), Err(FrameError::BadPayload));
    // A document that is not a key-value object at top level is rejected too.
    assert_eq!(process_body(b"[1,2,3]"), Err(FrameError::BadPayload));
}

#[test]
fn forwarded_bytes_are_header_plus_verbatim_body() {
    let body = b"{\"id\":2}";
    let (out, _) = process_body(body).expect("valid document");
    assert_eq!(out, b"Content-Length: 8\r\n\r\n{\"id\":2}".to_vec());
}

#[test]
fn header_accumulation() {
    let acc = header_begin();
    let acc = match header_feed(acc, b"Content-Type: application/vscode-jsonrpc\r\n") {
        HeaderStep::More(a) => a,
        other => panic!("expected more lines, got {:?}", other),
    };
    let acc = match header_feed(acc, b"Content-Length: 4\r\n") {
        HeaderStep::More(a) => a,
        other => panic!("expected more lines, got {:?}", other),
    };
    assert_eq!(header_feed(acc, b"\r\n"), HeaderStep::Body(4));
}

#[test]
fn blank_line_without_length_stops_the_loop() {
    let acc = header_begin();
    assert_eq!(
        header_feed(acc, b"\r\n"),
        HeaderStep::Reject(FrameError::MissingLength)
    );
}

#[test]
fn unknown_header_rejected_from_any_state() {
    let acc = header_begin();
    assert_eq!(
        header_feed(acc, b"X-Flow: on\r\n"),
        HeaderStep::Reject(FrameError::UnknownHeader)
    );
    let acc = match header_feed(acc, b"Content-Length: 4\r\n") {
        HeaderStep::More(a) => a,
        other => panic!("expected more lines, got {:?}", other),
    };
    assert_eq!(
        header_feed(acc, b"X-Flow: on\r\n"),
        HeaderStep::Reject(FrameError::UnknownHeader)
    );
}

#[test]
fn relay_frame_end_to_end() {
    let input = b"Content-Type: utf8\r\nContent-Length: 30\r\n\r\n{\"id\":1,\"method\":\"initialize\"}rest";
    let (out, id, consumed) = relay_frame(input).expect("frame relays");
    assert_eq!(
        out,
        b"Content-Length: 30\r\n\r\n{\"id\":1,\"method\":\"initialize\"}".to_vec()
    );
    let parsed: serde_json::Value = serde_json::from_str("1").unwrap();
    assert_eq!(id, Some(format!("{:?}", parsed)));
    assert_eq!(consumed, input.len() - 4);
}

/// The two directions of one connection share no state: one direction's
/// source failing mid-stream leaves the other decoding its own frames
/// untouched.
#[test]
fn directions_are_independent() {
    // Direction A: client-to-process stream dies on a block with no length.
    let a_stream = b"Content-Type: utf8\r\n\r\n";
    // Direction B: process-to-client stream carries two frames back to back.
    let b_stream = b"Content-Length: 8\r\n\r\n{\"id\":1}Content-Length: 8\r\n\r\n{\"id\":2}";

    let a_result = relay_frame(a_stream);
    assert_eq!(a_result, Err(FrameError::MissingLength));

    // B's loop, driven after A's failure, still forwards both frames.
    let (out1, id1, used1) = relay_frame(b_stream).expect("first frame");
    assert_eq!(out1, b"Content-Length: 8\r\n\r\n{\"id\":1}".to_vec());
    assert!(id1.is_some());
    let (out2, id2, used2) = relay_frame(&b_stream[used1..]).expect("second frame");
    assert_eq!(out2, b"Content-Length: 8\r\n\r\n{\"id\":2}".to_vec());
    assert!(id2.is_some());
    assert_eq!(used1 + used2, b_stream.len());
}
