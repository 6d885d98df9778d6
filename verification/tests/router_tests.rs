use http_me::router::{
    endpoint_wants_status, endpoint_wants_tarpit, route_request, tarpit_flag_set, Route,
};

#[test]
fn unsigned_realtime_request_is_handed_off() {
    // A realtime-path request without the infrastructure signature never
    // reaches the session handler: it always maps to the handoff.
    for path in ["/fanout", "/fanout/chat", "/fanout?x=1"] {
        assert_eq!(route_request(path, false), Route::FanoutHandoff, "{}", path);
    }
}

#[test]
fn signed_realtime_request_reaches_the_session() {
    assert_eq!(route_request("/fanout", true), Route::FanoutSession);
    assert_eq!(route_request("/fanout/chat", true), Route::FanoutSession);
}

#[test]
fn plain_paths_route_to_their_endpoints() {
    assert_eq!(route_request("/status/404", false), Route::Status);
    assert_eq!(route_request("/anything/test", true), Route::Anything);
    assert_eq!(route_request("/static-assets/app.js", false), Route::StaticAssets);
    assert_eq!(route_request("/forms/post", false), Route::FormsPost);
    assert_eq!(route_request("/utilities/set_headers", false), Route::SetHeaders);
    assert_eq!(route_request("/client_ip_data", false), Route::ClientIpData);
    assert_eq!(route_request("/", false), Route::SwaggerRoot);
    assert_eq!(route_request("/nothing-here", false), Route::Fallback);
    assert_eq!(route_request("", false), Route::Fallback);
}

#[test]
fn prefix_matching_is_literal() {
    // Prefix routing, as the service does it: longer paths under a
    // prefix still match it.
    assert_eq!(route_request("/statuses", false), Route::Status);
    assert_eq!(route_request("/static-assets", false), Route::Fallback);
}

#[test]
fn endpoint_header_status_directive() {
    assert!(endpoint_wants_status(Some("status=302")));
    assert!(endpoint_wants_status(Some("a status b")));
    assert!(!endpoint_wants_status(Some("statu=302")));
    assert!(!endpoint_wants_status(None));
}

#[test]
fn endpoint_header_tarpit_directive() {
    assert!(endpoint_wants_tarpit(Some("tarpit")));
    assert!(endpoint_wants_tarpit(Some("x,tarpit,y")));
    assert!(!endpoint_wants_tarpit(Some("tar pit")));
    assert!(!endpoint_wants_tarpit(None));
}

#[test]
fn tarpit_marker_flag() {
    assert!(tarpit_flag_set(Some("1")));
    assert!(tarpit_flag_set(Some("01")));
    assert!(!tarpit_flag_set(Some("0")));
    assert!(!tarpit_flag_set(None));
}
