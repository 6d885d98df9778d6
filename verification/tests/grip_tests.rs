use http_me::grip::{grip_control, grip_response, hold_mode_value, HoldMode};

#[test]
fn grip_response_sets_hold_headers() {
    let resp = grip_response("text/event-stream", "stream", "chatroomtest");
    assert_eq!(resp.status, 200);
    assert_eq!(
        resp.headers,
        vec![
            ("Content-Type".to_string(), "text/event-stream".to_string()),
            ("Grip-Hold".to_string(), "stream".to_string()),
            ("Grip-Channel".to_string(), "chatroomtest".to_string()),
        ]
    );
    assert_eq!(resp.body, b"{\"msg\":\"hello world\"}".to_vec());
}

#[test]
fn hold_mode_values() {
    assert_eq!(hold_mode_value(HoldMode::Response), "response");
    assert_eq!(hold_mode_value(HoldMode::Stream), "stream");
}

#[test]
fn grip_control_response_mode() {
    let resp = grip_control("text/plain", HoldMode::Response, "chan");
    assert_eq!(resp.status, 200);
    assert_eq!(
        resp.headers,
        vec![
            ("Content-Type".to_string(), "text/plain".to_string()),
            ("Grip-Hold".to_string(), "response".to_string()),
            ("Grip-Channel".to_string(), "chan".to_string()),
        ]
    );
    assert!(!resp.body.is_empty());
}

#[test]
fn grip_control_stream_mode() {
    let resp = grip_control("text/event-stream", HoldMode::Stream, "chan");
    assert_eq!(resp.headers[1].1, "stream");
}
