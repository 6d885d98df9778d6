use http_me::codec::{decode_frame, decode_frames, encode_subscribe, encode_text, ws_sub, ws_text, FrameKind};

fn hex_field_of(frame: &[u8]) -> String {
    // Everything between "TEXT " and the first CRLF.
    assert_eq!(&frame[..5], b"TEXT ");
    let end = frame.windows(2).position(|w| w == b"\r\n").expect("no CRLF");
    String::from_utf8(frame[5..end].to_vec()).expect("hex field not UTF-8")
}

#[test]
fn ws_text_matches_wire_format() {
    assert_eq!(ws_text("Hello"), b"TEXT 05\r\nHello\r\n".to_vec());
    assert_eq!(ws_text(""), b"TEXT 00\r\n\r\n".to_vec());
    // The length field counts bytes, not characters.
    assert_eq!(ws_text("h\u{e9}llo"), "TEXT 06\r\nh\u{e9}llo\r\n".as_bytes().to_vec());
}

#[test]
fn ws_text_length_field_parses_back() {
    // Two-digit zero padding below 16, natural width above.
    for len in [0usize, 1, 15, 16, 255, 256] {
        let msg = "x".repeat(len);
        let frame = ws_text(&msg);
        let field = hex_field_of(&frame);
        assert_eq!(usize::from_str_radix(&field, 16).unwrap(), len);
        if len < 16 {
            assert_eq!(field.len(), 2);
            assert!(field.starts_with('0'));
        }
    }
}

#[test]
fn encode_text_round_trips() {
    for payload in [
        b"".to_vec(),
        b"hello world".to_vec(),
        b"OPEN\r\n".to_vec(),
        b"TEXT 05\r\nHello\r\n".to_vec(),
        vec![0u8, 255, 13, 10, 128],
        vec![7u8; 300],
    ] {
        let frame = encode_text(&payload);
        let (decoded, used) = decode_frame(&frame);
        assert_eq!(decoded.kind, FrameKind::Text);
        assert_eq!(decoded.payload, payload);
        assert_eq!(used, frame.len());
    }
}

#[test]
fn ws_sub_builds_subscribe_command() {
    let frame = ws_sub("chatroomtest");
    assert_eq!(
        frame,
        b"TEXT 2f\r\nc:{\"type\":\"subscribe\",\"channel\":\"chatroomtest\"}\r\n".to_vec()
    );
    // Stripping the TEXT framing leaves the control payload, byte for byte.
    let (decoded, _) = decode_frame(&frame);
    assert_eq!(decoded.kind, FrameKind::Text);
    assert_eq!(
        decoded.payload,
        b"c:{\"type\":\"subscribe\",\"channel\":\"chatroomtest\"}".to_vec()
    );
}

#[test]
fn encode_subscribe_equals_ws_sub() {
    assert_eq!(encode_subscribe(b"chan-7"), ws_sub("chan-7"));
}

#[test]
fn decode_open_frame() {
    let (f, used) = decode_frame(b"OPEN\r\n");
    assert_eq!(f.kind, FrameKind::Open);
    assert!(f.payload.is_empty());
    assert_eq!(used, 6);
}

#[test]
fn decode_close_frame() {
    let (f, used) = decode_frame(b"CLOSE\r\n");
    assert_eq!(f.kind, FrameKind::Close);
    assert!(f.payload.is_empty());
    assert_eq!(used, 7);
}

#[test]
fn decode_unknown_bytes() {
    for body in [
        &b"PING\r\n"[..],
        b"",
        b"OPEN",
        b"TEXT",
        b"TEXT \r\n",          // no hex digits
        b"TEXT zz\r\nxx\r\n",  // not hex
        b"TEXT 05\r\nHi\r\n",  // declared length exceeds what is there
        b"TEXT 02\r\nHi\rX",   // missing closing CRLF
        b"TEXT 2\nhi\r\n",     // missing CR after length
    ] {
        let (f, used) = decode_frame(body);
        assert_eq!(f.kind, FrameKind::Unknown, "body {:?}", body);
        assert!(f.payload.is_empty());
        assert_eq!(used, body.len());
    }
}

#[test]
fn decode_text_with_trailing_data() {
    let mut buf = encode_text(b"hi");
    let frame_len = buf.len();
    buf.extend_from_slice(b"CLOSE\r\n");
    let (f, used) = decode_frame(&buf);
    assert_eq!(f.kind, FrameKind::Text);
    assert_eq!(f.payload, b"hi".to_vec());
    assert_eq!(used, frame_len);
}

#[test]
fn decode_frames_walks_the_buffer() {
    let mut buf = b"OPEN\r\n".to_vec();
    buf.extend_from_slice(&encode_text(b"one"));
    buf.extend_from_slice(&encode_text(b"two"));
    buf.extend_from_slice(b"CLOSE\r\n");
    let frames = decode_frames(&buf);
    assert_eq!(frames.len(), 4);
    assert_eq!(frames[0].kind, FrameKind::Open);
    assert_eq!(frames[1].kind, FrameKind::Text);
    assert_eq!(frames[1].payload, b"one".to_vec());
    assert_eq!(frames[2].kind, FrameKind::Text);
    assert_eq!(frames[2].payload, b"two".to_vec());
    assert_eq!(frames[3].kind, FrameKind::Close);
}

#[test]
fn decode_frames_stops_on_unknown() {
    let mut buf = b"OPEN\r\n".to_vec();
    buf.extend_from_slice(b"garbage that is not a frame");
    let frames = decode_frames(&buf);
    assert_eq!(frames.len(), 2);
    assert_eq!(frames[0].kind, FrameKind::Open);
    assert_eq!(frames[1].kind, FrameKind::Unknown);
}
