//! The realtime session state machine.
//!
//! One HTTP request stands for one round of a simulated persistent
//! connection.  The handler first gates on the event-protocol
//! content-type, then decodes the leading frame of the request body and
//! answers it: an OPEN frame gets `OPEN\r\n` followed by a subscribe
//! command for the session's channel; a TEXT frame gets an echo TEXT
//! frame; CLOSE and unrecognized bytes get an empty success response.

use crate::bytestr::bytes_eq;
use crate::codec::FrameKind;
use crate::codec::decode_frame;
use crate::codec::encode_subscribe;
use crate::codec::encode_text;
use crate::codec::leading_kind;
use crate::codec::open_marker;
use crate::codec::open_marker_vec;
use crate::codec::subscribe_payload;
use crate::codec::text_frame;
use crate::http::HttpResponse;
use crate::http::header_pairs;
use crate::http::push_header;
use vstd::prelude::*;
use vstd::slice::slice_to_vec;
use vstd::string::StringSliceAdditionalSpecFns;
use vstd::utf8::valid_utf8;

verus! {

/// The bytes of the event-protocol media type,
/// `application/websocket-events`.
pub open spec fn media_type_bytes() -> Seq<u8> {
    seq![
        97u8, 112u8, 112u8, 108u8, 105u8, 99u8, 97u8, 116u8, 105u8, 111u8, 110u8, 47u8,
        119u8, 101u8, 98u8, 115u8, 111u8, 99u8, 107u8, 101u8, 116u8, 45u8, 101u8, 118u8,
        101u8, 110u8, 116u8, 115u8,
    ]
}

/// The bytes of the rejection body,
/// `Not a WebSocket-over-HTTP request.` with a trailing newline.
pub open spec fn reject_body() -> Seq<u8> {
    seq![
        78u8, 111u8, 116u8, 32u8, 97u8, 32u8, 87u8, 101u8, 98u8, 83u8, 111u8, 99u8,
        107u8, 101u8, 116u8, 45u8, 111u8, 118u8, 101u8, 114u8, 45u8, 72u8, 84u8, 84u8,
        80u8, 32u8, 114u8, 101u8, 113u8, 117u8, 101u8, 115u8, 116u8, 46u8, 10u8,
    ]
}

/// The bytes of the echo prefix `You said: `.
pub open spec fn echo_prefix() -> Seq<u8> {
    seq![89u8, 111u8, 117u8, 32u8, 115u8, 97u8, 105u8, 100u8, 58u8, 32u8]
}

/// The payload echoed back for an inbound TEXT frame: the prefix
/// followed by the *entire raw request body*, framing bytes included —
/// or by nothing when the body is not valid UTF-8.  Echoing the raw
/// frame rather than the decoded payload is deliberate wire-compatible
/// behavior, odd as it looks.
pub open spec fn echo_payload(body: Seq<u8>) -> Seq<u8> {
    echo_prefix() + (if valid_utf8(body) {
        body
    } else {
        Seq::<u8>::empty()
    })
}

/// The view of an optional content-type header value, as bytes.
pub open spec fn ct_bytes(ct: Option<&str>) -> Option<Seq<u8>> {
    match ct {
        Some(s) => Some(s.spec_bytes()),
        None => None,
    }
}

/// The exec bytes of the event-protocol media type.
pub fn media_type_vec() -> (v: Vec<u8>)
    ensures
        v@ == media_type_bytes(),
{
    let a: [u8; 28] = [
        97u8, 112u8, 112u8, 108u8, 105u8, 99u8, 97u8, 116u8, 105u8, 111u8, 110u8, 47u8,
        119u8, 101u8, 98u8, 115u8, 111u8, 99u8, 107u8, 101u8, 116u8, 45u8, 101u8, 118u8,
        101u8, 110u8, 116u8, 115u8,
    ];
    let v = slice_to_vec(a.as_slice());
    assert(v@ =~= media_type_bytes());
    v
}

/// The exec bytes of the rejection body.
pub fn reject_body_vec() -> (v: Vec<u8>)
    ensures
        v@ == reject_body(),
{
    let a: [u8; 35] = [
        78u8, 111u8, 116u8, 32u8, 97u8, 32u8, 87u8, 101u8, 98u8, 83u8, 111u8, 99u8,
        107u8, 101u8, 116u8, 45u8, 111u8, 118u8, 101u8, 114u8, 45u8, 72u8, 84u8, 84u8,
        80u8, 32u8, 114u8, 101u8, 113u8, 117u8, 101u8, 115u8, 116u8, 46u8, 10u8,
    ];
    let v = slice_to_vec(a.as_slice());
    assert(v@ =~= reject_body());
    v
}

/// The exec bytes of the echo prefix.
pub fn echo_prefix_vec() -> (v: Vec<u8>)
    ensures
        v@ == echo_prefix(),
{
    let a: [u8; 10] = [89u8, 111u8, 117u8, 32u8, 115u8, 97u8, 105u8, 100u8, 58u8, 32u8];
    let v = slice_to_vec(a.as_slice());
    assert(v@ =~= echo_prefix());
    v
}

/// Relies on `core::str::from_utf8`: it returns `Ok` exactly when the
/// bytes are valid UTF-8 (the encoding that `vstd::utf8::valid_utf8`
/// spells out).
#[verifier::external_body]
fn utf8_is_valid(b: &[u8]) -> (r: bool)
    ensures
        r == valid_utf8(b@),
{
    core::str::from_utf8(b).is_ok()
}

/// Handle one round of a WebSocket-over-HTTP session for channel
/// `chan`.
///
/// The request is rejected with status 400 and a fixed explanation
/// unless its content-type equals the event-protocol media type
/// exactly.  Otherwise the answer is status 200 with the event-protocol
/// content-type, and the body answers the leading frame of the request
/// body: OPEN gets `OPEN\r\n` plus a subscribe command for `chan` (and
/// the message-prefix extension header); TEXT gets an echo TEXT frame
/// whose payload is `You said: ` plus the raw request body (or nothing
/// if the body is not valid UTF-8); CLOSE and unrecognized bytes get an
/// empty body.
pub fn handle_fanout_ws(content_type: Option<&str>, body: &[u8], chan: &str) -> (r: HttpResponse)
    ensures
        r.status == 200 || r.status == 400,
        (r.status == 400) <==> ct_bytes(content_type) != Some(media_type_bytes()),
        r.status == 400 ==> r.body@ == reject_body() && r.headers@.len() == 0,
        r.status == 200 ==> ({
            let k = leading_kind(body@);
            &&& (k == FrameKind::Open ==> r.body@ == open_marker() + text_frame(
                subscribe_payload(chan.spec_bytes()),
            ) && header_pairs(r.headers@) == seq![
                ("Content-Type"@, "application/websocket-events"@),
                ("Sec-WebSocket-Extensions"@, "grip; message-prefix=\"\""@),
            ])
            &&& (k == FrameKind::Text ==> r.body@ == text_frame(echo_payload(body@))
                && header_pairs(r.headers@) == seq![
                ("Content-Type"@, "application/websocket-events"@),
            ])
            &&& ((k == FrameKind::Close || k == FrameKind::Unknown) ==> r.body@.len() == 0
                && header_pairs(r.headers@) == seq![
                ("Content-Type"@, "application/websocket-events"@),
            ])
        }),
{
    let ct_ok: bool = match content_type {
        Some(ct) => {
            let media = media_type_vec();
            bytes_eq(ct.as_bytes(), media.as_slice())
        }
        None => false,
    };
    if !ct_ok {
        return HttpResponse { status: 400, headers: Vec::new(), body: reject_body_vec() };
    }
    let mut headers: Vec<(String, String)> = Vec::new();
    push_header(&mut headers, "Content-Type", "application/websocket-events");
    assert(header_pairs(headers@) =~= seq![
        ("Content-Type"@, "application/websocket-events"@),
    ]);
    let (frame, _used) = decode_frame(body);
    match frame.kind {
        FrameKind::Open => {
            push_header(&mut headers, "Sec-WebSocket-Extensions", "grip; message-prefix=\"\"");
            assert(header_pairs(headers@) =~= seq![
                ("Content-Type"@, "application/websocket-events"@),
                ("Sec-WebSocket-Extensions"@, "grip; message-prefix=\"\""@),
            ]);
            let mut out = open_marker_vec();
            let mut sub = encode_subscribe(chan.as_bytes());
            out.append(&mut sub);
            HttpResponse { status: 200, headers, body: out }
        }
        FrameKind::Text => {
            let mut msg = echo_prefix_vec();
            if utf8_is_valid(body) {
                crate::bytestr::push_all(&mut msg, body);
            }
            assert(msg@ == echo_payload(body@));
            let out = encode_text(msg.as_slice());
            HttpResponse { status: 200, headers, body: out }
        }
        FrameKind::Close => {
            HttpResponse { status: 200, headers, body: Vec::new() }
        }
        FrameKind::Unknown => {
            HttpResponse { status: 200, headers, body: Vec::new() }
        }
    }
}

} // verus!
