use http_me::codec::ws_sub;
use http_me::session::handle_fanout_ws;

const MEDIA: &str = "application/websocket-events";

#[test]
fn open_frame_gets_subscribe_reply() {
    let resp = handle_fanout_ws(Some(MEDIA), b"OPEN\r\n", "test");
    assert_eq!(resp.status, 200);
    let mut expected = b"OPEN\r\n".to_vec();
    expected.extend_from_slice(&ws_sub("test"));
    assert_eq!(resp.body, expected);
    assert!(resp.body.starts_with(b"OPEN\r\n"));
    assert_eq!(
        resp.headers,
        vec![
            ("Content-Type".to_string(), MEDIA.to_string()),
            (
                "Sec-WebSocket-Extensions".to_string(),
                "grip; message-prefix=\"\"".to_string()
            ),
        ]
    );
}

#[test]
fn wrong_content_type_is_rejected() {
    for ct in [None, Some("text/plain"), Some("application/websocket-event"), Some("")] {
        let resp = handle_fanout_ws(ct, b"OPEN\r\n", "test");
        assert_eq!(resp.status, 400);
        assert_eq!(resp.body, b"Not a WebSocket-over-HTTP request.\n".to_vec());
        assert!(resp.headers.is_empty());
    }
}

#[test]
fn gate_ignores_body_content() {
    // Any request lacking the exact media type yields 400, whatever the body.
    for body in [&b""[..], b"OPEN\r\n", b"TEXT 02\r\nhi\r\n", b"garbage"] {
        let resp = handle_fanout_ws(Some("text/html"), body, "c");
        assert_eq!(resp.status, 400);
    }
}

#[test]
fn text_frame_is_echoed_with_raw_framing() {
    let body = b"TEXT 05\r\nHello\r\n";
    let resp = handle_fanout_ws(Some(MEDIA), body, "test");
    assert_eq!(resp.status, 200);
    // The echo embeds the whole raw request body, framing bytes and all.
    let expected = {
        let mut msg = b"You said: ".to_vec();
        msg.extend_from_slice(body);
        http_me::codec::encode_text(&msg)
    };
    assert_eq!(resp.body, expected);
    assert_eq!(
        resp.headers,
        vec![("Content-Type".to_string(), MEDIA.to_string())]
    );
}

#[test]
fn text_frame_with_invalid_utf8_echoes_empty() {
    // A well-formed TEXT frame whose bytes are not valid UTF-8:
    // the echo substitutes nothing rather than failing.
    let mut body = b"TEXT 02\r\n".to_vec();
    body.extend_from_slice(&[0xffu8, 0xfe]);
    body.extend_from_slice(b"\r\n");
    let resp = handle_fanout_ws(Some(MEDIA), &body, "test");
    assert_eq!(resp.status, 200);
    assert_eq!(resp.body, b"TEXT 0a\r\nYou said: \r\n".to_vec());
}

#[test]
fn close_frame_gets_empty_reply() {
    let resp = handle_fanout_ws(Some(MEDIA), b"CLOSE\r\n", "test");
    assert_eq!(resp.status, 200);
    assert!(resp.body.is_empty());
    assert_eq!(
        resp.headers,
        vec![("Content-Type".to_string(), MEDIA.to_string())]
    );
}

#[test]
fn unknown_frame_gets_empty_reply() {
    for body in [&b""[..], b"PING\r\n", b"TEXT zz\r\n"] {
        let resp = handle_fanout_ws(Some(MEDIA), body, "test");
        assert_eq!(resp.status, 200);
        assert!(resp.body.is_empty());
    }
}

#[test]
fn open_reply_decodes_to_subscribe() {
    // The remainder after OPEN\r\n decodes as a TEXT frame carrying the
    // subscribe command for the session's channel.
    let resp = handle_fanout_ws(Some(MEDIA), b"OPEN\r\n", "chatroomtest");
    let rest = &resp.body[6..];
    let (frame, used) = http_me::codec::decode_frame(rest);
    assert_eq!(frame.kind, http_me::codec::FrameKind::Text);
    assert_eq!(used, rest.len());
    assert_eq!(
        frame.payload,
        b"c:{\"type\":\"subscribe\",\"channel\":\"chatroomtest\"}".to_vec()
    );
}
