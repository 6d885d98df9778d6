//! Construction of GRIP hold-control responses.
//!
//! When the service receives a plain HTTP request it wants to make
//! long-lived (long-poll or SSE), the hold infrastructure re-issues the
//! request to this same service, which must then answer with GRIP
//! headers telling the infrastructure to hold the connection open and
//! which channel to associate it with.

use crate::http::HttpResponse;
use crate::http::header_pairs;
use crate::http::push_header;
use vstd::prelude::*;
use vstd::slice::slice_to_vec;

verus! {

/// How the infrastructure should hold the connection: `Response` holds
/// until a single publish and then closes (long-poll); `Stream` holds
/// and delivers every publish (SSE / streaming).
#[derive(Clone, Copy, PartialEq, Eq, Structural, Debug)]
pub enum HoldMode {
    Response,
    Stream,
}

/// The `Grip-Hold` header value a hold mode selects.
pub open spec fn hold_mode_chars(m: HoldMode) -> Seq<char> {
    if m == HoldMode::Response {
        "response"@
    } else {
        "stream"@
    }
}

/// The fixed placeholder body of a hold-control response:
/// `{"msg":"hello world"}`.
pub open spec fn grip_body() -> Seq<u8> {
    seq![
        123u8, 34u8, 109u8, 115u8, 103u8, 34u8, 58u8, 34u8, 104u8, 101u8, 108u8, 108u8,
        111u8, 32u8, 119u8, 111u8, 114u8, 108u8, 100u8, 34u8, 125u8,
    ]
}

/// The exec bytes of the placeholder body.
pub fn grip_body_vec() -> (v: Vec<u8>)
    ensures
        v@ == grip_body(),
{
    let a: [u8; 21] = [
        123u8, 34u8, 109u8, 115u8, 103u8, 34u8, 58u8, 34u8, 104u8, 101u8, 108u8, 108u8,
        111u8, 32u8, 119u8, 111u8, 114u8, 108u8, 100u8, 34u8, 125u8,
    ];
    let v = slice_to_vec(a.as_slice());
    assert(v@ =~= grip_body());
    v
}

/// The exec value of the `Grip-Hold` header for a hold mode.
pub fn hold_mode_value(m: HoldMode) -> (r: &'static str)
    ensures
        r@ == hold_mode_chars(m),
{
    match m {
        HoldMode::Response => "response",
        HoldMode::Stream => "stream",
    }
}

/// Returns a GRIP response to initialize a stream: status 200, a
/// content-type header with the caller's value, `Grip-Hold` set to
/// `ghold`, `Grip-Channel` set to `chan`, and the fixed placeholder
/// body.
pub fn grip_response(ctype: &str, ghold: &str, chan: &str) -> (r: HttpResponse)
    ensures
        r.status == 200,
        header_pairs(r.headers@) == seq![
            ("Content-Type"@, ctype@),
            ("Grip-Hold"@, ghold@),
            ("Grip-Channel"@, chan@),
        ],
        r.body@ == grip_body(),
{
    let mut headers: Vec<(String, String)> = Vec::new();
    push_header(&mut headers, "Content-Type", ctype);
    push_header(&mut headers, "Grip-Hold", ghold);
    push_header(&mut headers, "Grip-Channel", chan);
    assert(header_pairs(headers@) =~= seq![
        ("Content-Type"@, ctype@),
        ("Grip-Hold"@, ghold@),
        ("Grip-Channel"@, chan@),
    ]);
    HttpResponse { status: 200, headers, body: grip_body_vec() }
}

/// Build the hold-control response for a hold mode: as `grip_response`,
/// with `Grip-Hold` carrying `response` or `stream` according to the
/// mode.
pub fn grip_control(ctype: &str, mode: HoldMode, chan: &str) -> (r: HttpResponse)
    ensures
        r.status == 200,
        header_pairs(r.headers@) == seq![
            ("Content-Type"@, ctype@),
            ("Grip-Hold"@, hold_mode_chars(mode)),
            ("Grip-Channel"@, chan@),
        ],
        r.body@ == grip_body(),
{
    grip_response(ctype, hold_mode_value(mode), chan)
}

} // verus!
