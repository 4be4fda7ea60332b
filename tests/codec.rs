use rpc_proxy::codec::{decode_frame, encode_frame, Decoded, FrameError};

#[test]
fn encode_writes_length_header() {
    assert_eq!(encode_frame(b"{}"), b"Content-Length: 2\r\n\r\n{}".to_vec());
    assert_eq!(encode_frame(b""), b"Content-Length: 0\r\n\r\n".to_vec());
    let long = vec![b'a'; 1234];
    let framed = encode_frame(&long);
    assert!(framed.starts_with(b"Content-Length: 1234\r\n\r\n"));
    assert_eq!(framed.len(), 24 + 1234);
}

#[test]
fn framing_round_trip_with_utf8_and_newlines() {
    let body = "{\"text\":\"héllo\\nwörld 🚀\",\"n\":1}".as_bytes().to_vec();
    let mut framed = encode_frame(&body);
    let len = framed.len();
    framed.extend_from_slice(b"Content-Length: 1\r\n");
    assert_eq!(
        decode_frame(&framed, false),
        Ok(Decoded::Frame { body: body.clone(), consumed: len })
    );
    let raw_newline = b"{\"a\":\"line\nbreak\"}".to_vec();
    let framed = encode_frame(&raw_newline);
    assert_eq!(
        decode_frame(&framed, true),
        Ok(Decoded::Frame { body: raw_newline.clone(), consumed: framed.len() })
    );
}

#[test]
fn framing_round_trip_through_json_text() {
    let value: serde_json::Value =
        serde_json::from_str("{\"s\":\"multi\\nline ✓\",\"a\":[1,2.5,null]}").unwrap();
    let body = serde_json::to_vec(&value).unwrap();
    match decode_frame(&encode_frame(&body), true) {
        Ok(Decoded::Frame { body: back, .. }) => {
            let parsed: serde_json::Value = serde_json::from_slice(&back).unwrap();
            assert_eq!(parsed, value);
        }
        other => panic!("unexpected {:?}", other),
    }
}

#[test]
fn other_headers_are_ignored() {
    let buf = b"Content-Type: application/json\r\nContent-Length: 3\r\nX: y\r\n\r\n[1]rest";
    assert_eq!(
        decode_frame(buf, false),
        Ok(Decoded::Frame { body: b"[1]".to_vec(), consumed: buf.len() - 4 })
    );
}

#[test]
fn missing_length_header() {
    assert_eq!(decode_frame(b"Content-Type: x\r\n\r\n{}", false), Err(FrameError::MissingLengthHeader));
    assert_eq!(decode_frame(b"\r\n{}", true), Err(FrameError::MissingLengthHeader));
    assert_eq!(decode_frame(b"Content-Length: abc\r\n\r\n{}", false), Err(FrameError::MissingLengthHeader));
}

#[test]
fn clean_close_at_frame_boundary() {
    assert_eq!(decode_frame(b"", true), Err(FrameError::UnexpectedEof));
    assert_eq!(decode_frame(b"", false), Ok(Decoded::NeedMore));
}

#[test]
fn close_inside_header_is_truncation() {
    assert_eq!(decode_frame(b"Content-Len", true), Err(FrameError::Truncated));
    assert_eq!(decode_frame(b"Content-Len", false), Ok(Decoded::NeedMore));
}

#[test]
fn close_inside_body_is_truncation() {
    assert_eq!(decode_frame(b"Content-Length: 10\r\n\r\n{}", true), Err(FrameError::Truncated));
    assert_eq!(decode_frame(b"Content-Length: 10\r\n\r\n{}", false), Ok(Decoded::NeedMore));
}

#[test]
fn length_too_large_for_memory_is_not_a_length() {
    let buf = b"Content-Length: 99999999999999999999999\r\n\r\n";
    assert_eq!(decode_frame(buf, false), Err(FrameError::MissingLengthHeader));
}
