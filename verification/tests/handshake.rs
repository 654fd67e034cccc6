//! Tests of the handshake decoder: the record shape, the version gate, and
//! the sentinel terminator.

use ra_multiplex::handshake::{
    decode_handshake, trim_init_terminator, HandshakeError, PROTO_VERSION,
};

#[test]
fn valid_handshake_decodes() {
    let bytes = b"{\"version\":1,\"cwd\":\"/tmp\",\"args\":[]}";
    let init = decode_handshake(bytes).expect("handshake decodes");
    assert_eq!(init.version, PROTO_VERSION);
    assert_eq!(init.cwd, "/tmp".to_string());
    assert!(init.args.is_empty());
    assert!(init.check_version());
}

#[test]
fn arguments_are_kept_in_order() {
    let bytes = b"{\"version\":1,\"cwd\":\"/work\",\"args\":[\"--log-file\",\"/dev/null\"]}";
    let init = decode_handshake(bytes).expect("handshake decodes");
    assert_eq!(
        init.args,
        vec!["--log-file".to_string(), "/dev/null".to_string()]
    );
}

#[test]
fn wrong_version_is_rejected() {
    let bytes = b"{\"version\":2,\"cwd\":\"/tmp\",\"args\":[]}";
    assert_eq!(
        decode_handshake(bytes),
        Err(HandshakeError::VersionMismatch)
    );
    let zero = b"{\"version\":0,\"cwd\":\"/tmp\",\"args\":[]}";
    assert_eq!(decode_handshake(zero), Err(HandshakeError::VersionMismatch));
}

#[test]
fn malformed_records_are_rejected() {
    assert_eq!(decode_handshake(b""), Err(HandshakeError::Malformed));
    assert_eq!(decode_handshake(b"hello"), Err(HandshakeError::Malformed));
    // Missing fields.
    assert_eq!(
        decode_handshake(b"{\"version\":1}"),
        Err(HandshakeError::Malformed)
    );
    // Fields of the wrong shape.
    assert_eq!(
        decode_handshake(b"{\"version\":\"1\",\"cwd\":\"/tmp\",\"args\":[]}"),
        Err(HandshakeError::Malformed)
    );
    assert_eq!(
        decode_handshake(b"{\"version\":1,\"cwd\":\"/tmp\",\"args\":[3]}"),
        Err(HandshakeError::Malformed)
    );
    assert_eq!(
        decode_handshake(b"{\"version\":-1,\"cwd\":\"/tmp\",\"args\":[]}"),
        Err(HandshakeError::Malformed)
    );
}

#[test]
fn terminator_is_excluded() {
    let raw = b"{\"version\":1,\"cwd\":\"/tmp\",\"args\":[]}\0".to_vec();
    let trimmed = trim_init_terminator(raw);
    assert_eq!(trimmed, b"{\"version\":1,\"cwd\":\"/tmp\",\"args\":[]}".to_vec());
    let init = decode_handshake(&trimmed).expect("trimmed handshake decodes");
    assert_eq!(init.cwd, "/tmp".to_string());
}

#[test]
fn empty_buffer_trims_to_empty() {
    let trimmed = trim_init_terminator(Vec::new());
    assert!(trimmed.is_empty());
}
