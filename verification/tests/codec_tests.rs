use lsp_ws_proxy::codec::{decode_frame, encode_frame, DecodeOutcome};

#[test]
fn encode_exact_bytes() {
    let frame = encode_frame(b"abc");
    assert_eq!(frame, b"Content-Length: 3\r\n\r\nabc".to_vec());
}

#[test]
fn encode_empty_body() {
    let frame = encode_frame(b"");
    assert_eq!(frame, b"Content-Length: 0\r\n\r\n".to_vec());
}

#[test]
fn decode_of_encode_round_trips() {
    let body = br#"{"jsonrpc":"2.0","id":1,"method":"initialize","params":{}}"#;
    let frame = encode_frame(body);
    match decode_frame(frame.as_slice()) {
        DecodeOutcome::Frame { body: out, used } => {
            assert_eq!(out, body.to_vec());
            assert_eq!(used, frame.len());
        }
        _ => panic!("expected a complete frame"),
    }
}

#[test]
fn decode_incomplete_body() {
    let r = decode_frame(b"Content-Length: 10\r\n\r\nabc");
    assert!(matches!(r, DecodeOutcome::Incomplete));
}

#[test]
fn decode_incomplete_headers() {
    let r = decode_frame(b"Content-Length: 3");
    assert!(matches!(r, DecodeOutcome::Incomplete));
}

#[test]
fn decode_missing_content_length_is_malformed() {
    let r = decode_frame(b"Content-Type: application/json\r\n\r\nhi");
    assert!(matches!(r, DecodeOutcome::Malformed));
}

#[test]
fn decode_non_numeric_length_is_malformed() {
    let r = decode_frame(b"Content-Length: 12x\r\n\r\nabc");
    assert!(matches!(r, DecodeOutcome::Malformed));
}

#[test]
fn decode_header_line_without_colon_is_malformed() {
    let r = decode_frame(b"garbage\r\nContent-Length: 2\r\n\r\nhi");
    assert!(matches!(r, DecodeOutcome::Malformed));
}

#[test]
fn decode_ignores_unknown_headers() {
    let r = decode_frame(b"Foo: bar\r\nContent-Length: 2\r\n\r\nhiX");
    match r {
        DecodeOutcome::Frame { body, used } => {
            assert_eq!(body, b"hi".to_vec());
            assert_eq!(used, b"Foo: bar\r\nContent-Length: 2\r\n\r\nhi".len());
        }
        _ => panic!("expected a frame"),
    }
}

#[test]
fn decode_leaves_following_frame() {
    let mut buf = encode_frame(b"one");
    buf.extend_from_slice(&encode_frame(b"two"));
    match decode_frame(buf.as_slice()) {
        DecodeOutcome::Frame { body, used } => {
            assert_eq!(body, b"one".to_vec());
            match decode_frame(&buf[used..]) {
                DecodeOutcome::Frame { body, .. } => assert_eq!(body, b"two".to_vec()),
                _ => panic!("expected the second frame"),
            }
        }
        _ => panic!("expected the first frame"),
    }
}

#[test]
fn decode_twenty_digit_length_is_malformed() {
    let r = decode_frame(b"Content-Length: 99999999999999999999\r\n\r\n");
    assert!(matches!(r, DecodeOutcome::Malformed));
}

#[test]
fn decode_nineteen_digit_length_waits_for_the_body() {
    let r = decode_frame(b"Content-Length: 9999999999999999999\r\n\r\n");
    assert!(matches!(r, DecodeOutcome::Incomplete));
}

#[test]
fn decode_length_with_leading_zeros() {
    let r = decode_frame(b"Content-Length: 002\r\n\r\nhi");
    match r {
        DecodeOutcome::Frame { body, .. } => assert_eq!(body, b"hi".to_vec()),
        _ => panic!("leading zeros are still a number"),
    }
}
