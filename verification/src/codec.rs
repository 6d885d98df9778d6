//! The WebSocket-over-HTTP event frame codec.
//!
//! A frame stream is plain bytes.  The wire format, byte for byte:
//!
//! - `OPEN\r\n` — an OPEN frame, no payload;
//! - `TEXT <hex>\r\n<payload>\r\n` — a TEXT frame, where `<hex>` is the
//!   payload's byte length in lowercase hexadecimal (two digits minimum,
//!   as two-digit zero-padded formatting yields);
//! - `CLOSE\r\n` — a CLOSE frame, no payload;
//! - anything else decodes to an UNKNOWN frame, which is not an error.

use crate::bytestr::push_all;
use crate::bytestr::seq_starts_with;
use crate::bytestr::has_prefix;
use crate::hex::hex_rep;
use crate::hex::hex_width2;
use crate::hex::hex_width2_vec;
use crate::hex::hex_value;
use crate::hex::is_hex_digit;
use crate::hex::is_hex_digit_byte;
use crate::hex::hex_val_byte;
use crate::hex::lemma_hex_value_push;
use crate::hex::lemma_hex_width2_value;
use vstd::prelude::*;
use vstd::slice::slice_subrange;
use vstd::slice::slice_to_vec;
use vstd::string::StringSliceAdditionalSpecFns;

verus! {

/// The kind of one wire frame.
#[derive(Clone, Copy, PartialEq, Eq, Structural, Debug)]
pub enum FrameKind {
    Open,
    Text,
    Close,
    Unknown,
}

/// One decoded frame: a kind, and a payload that is non-empty only for
/// TEXT frames.
#[derive(Debug)]
pub struct Frame {
    pub kind: FrameKind,
    pub payload: Vec<u8>,
}

/// A frame as the specification sees it.
#[verifier::ext_equal]
pub struct SpecFrame {
    pub kind: FrameKind,
    pub payload: Seq<u8>,
}

/// The bytes of `OPEN\r\n`.
pub open spec fn open_marker() -> Seq<u8> {
    seq![79u8, 80u8, 69u8, 78u8, 13u8, 10u8]
}

/// The bytes of `CLOSE\r\n`.
pub open spec fn close_marker() -> Seq<u8> {
    seq![67u8, 76u8, 79u8, 83u8, 69u8, 13u8, 10u8]
}

/// The bytes of `TEXT ` (with the trailing space).
pub open spec fn text_marker() -> Seq<u8> {
    seq![84u8, 69u8, 88u8, 84u8, 32u8]
}

/// The bytes of `\r\n`.
pub open spec fn crlf() -> Seq<u8> {
    seq![13u8, 10u8]
}

/// The bytes of `c:{"type":"subscribe","channel":"`, the head of a
/// subscribe control payload.
pub open spec fn subscribe_head() -> Seq<u8> {
    seq![
        99u8, 58u8, 123u8, 34u8, 116u8, 121u8, 112u8, 101u8, 34u8, 58u8, 34u8, 115u8,
        117u8, 98u8, 115u8, 99u8, 114u8, 105u8, 98u8, 101u8, 34u8, 44u8, 34u8, 99u8,
        104u8, 97u8, 110u8, 110u8, 101u8, 108u8, 34u8, 58u8, 34u8,
    ]
}

/// The complete subscribe control payload for channel `ch`: the head,
/// the channel bytes inserted verbatim (no escaping), then `"}`.
pub open spec fn subscribe_payload(ch: Seq<u8>) -> Seq<u8> {
    subscribe_head() + ch + seq![34u8, 125u8]
}

/// The encoding of a TEXT frame carrying `p`.
pub open spec fn text_frame(p: Seq<u8>) -> Seq<u8> {
    text_marker() + hex_width2(p.len()) + crlf() + p + crlf()
}

/// The exec bytes of `OPEN\r\n`.
pub fn open_marker_vec() -> (v: Vec<u8>)
    ensures
        v@ == open_marker(),
{
    let a: [u8; 6] = [79u8, 80u8, 69u8, 78u8, 13u8, 10u8];
    let v = slice_to_vec(a.as_slice());
    assert(v@ =~= open_marker());
    v
}

/// The exec bytes of `CLOSE\r\n`.
pub fn close_marker_vec() -> (v: Vec<u8>)
    ensures
        v@ == close_marker(),
{
    let a: [u8; 7] = [67u8, 76u8, 79u8, 83u8, 69u8, 13u8, 10u8];
    let v = slice_to_vec(a.as_slice());
    assert(v@ =~= close_marker());
    v
}

/// The exec bytes of `TEXT `.
pub fn text_marker_vec() -> (v: Vec<u8>)
    ensures
        v@ == text_marker(),
{
    let a: [u8; 5] = [84u8, 69u8, 88u8, 84u8, 32u8];
    let v = slice_to_vec(a.as_slice());
    assert(v@ =~= text_marker());
    v
}

/// The exec bytes of the subscribe payload head.
pub fn subscribe_head_vec() -> (v: Vec<u8>)
    ensures
        v@ == subscribe_head(),
{
    let a: [u8; 33] = [
        99u8, 58u8, 123u8, 34u8, 116u8, 121u8, 112u8, 101u8, 34u8, 58u8, 34u8, 115u8,
        117u8, 98u8, 115u8, 99u8, 114u8, 105u8, 98u8, 101u8, 34u8, 44u8, 34u8, 99u8,
        104u8, 97u8, 110u8, 110u8, 101u8, 108u8, 34u8, 58u8, 34u8,
    ];
    let v = slice_to_vec(a.as_slice());
    assert(v@ =~= subscribe_head());
    v
}

/// Encode `payload` as a TEXT frame:
/// `TEXT <lowercase hex byte length>\r\n<payload>\r\n`.
pub fn encode_text(payload: &[u8]) -> (r: Vec<u8>)
    ensures
        r@ == text_frame(payload@),
{
    let mut r = text_marker_vec();
    let mut h = hex_width2_vec(payload.len());
    r.append(&mut h);
    r.push(13u8);
    r.push(10u8);
    push_all(&mut r, payload);
    r.push(13u8);
    r.push(10u8);
    assert(r@ =~= text_frame(payload@));
    r
}

/// Encode the subscribe control command for channel `channel` and wrap
/// it as a TEXT frame.  The channel bytes are inserted verbatim: a name
/// containing `"` would corrupt the JSON, matching the wire behavior
/// this codec reproduces.
pub fn encode_subscribe(channel: &[u8]) -> (r: Vec<u8>)
    ensures
        r@ == text_frame(subscribe_payload(channel@)),
{
    let mut p = subscribe_head_vec();
    push_all(&mut p, channel);
    p.push(34u8);
    p.push(125u8);
    assert(p@ =~= subscribe_payload(channel@));
    encode_text(p.as_slice())
}

/// Returns a WebSocket-over-HTTP formatted TEXT message.  The length
/// field counts the bytes of `msg`, not its characters.
pub fn ws_text(msg: &str) -> (r: Vec<u8>)
    ensures
        r@ == text_frame(msg.spec_bytes()),
{
    encode_text(msg.as_bytes())
}

/// Returns a channel-subscription command in a WebSocket-over-HTTP
/// format.
pub fn ws_sub(ch: &str) -> (r: Vec<u8>)
    ensures
        r@ == text_frame(subscribe_payload(ch.spec_bytes())),
{
    encode_subscribe(ch.as_bytes())
}

/// Index of the first byte at or after `i` that is not a hex digit
/// (`b.len()` when the digits run to the end).
pub open spec fn hex_run_end(b: Seq<u8>, i: int) -> int
    decreases b.len() - i,
{
    if 0 <= i && i < b.len() && is_hex_digit(b[i]) {
        hex_run_end(b, i + 1)
    } else {
        i
    }
}

/// `hex_run_end` is pinned down by: everything before it (from `i`) is a
/// hex digit, and it is the length or sits on a non-digit.
pub proof fn lemma_hex_run_end_is(b: Seq<u8>, i: int, j: int)
    requires
        0 <= i <= j <= b.len(),
        forall|k: int| i <= k < j ==> is_hex_digit(#[trigger] b[k]),
        j < b.len() ==> !is_hex_digit(b[j]),
    ensures
        hex_run_end(b, i) == j,
    decreases j - i,
{
    if i < j {
        lemma_hex_run_end_is(b, i + 1, j);
    }
}

/// Where the hex length field of a leading TEXT frame ends.
pub open spec fn text_header_end(b: Seq<u8>) -> int {
    hex_run_end(b, 5)
}

/// The payload length a leading TEXT frame declares.
pub open spec fn text_declared_len(b: Seq<u8>) -> nat {
    hex_value(b.subrange(5, text_header_end(b)))
}

/// `b` begins with a complete, well-formed TEXT frame.
pub open spec fn text_well_formed(b: Seq<u8>) -> bool {
    let e = text_header_end(b);
    let n = text_declared_len(b);
    &&& seq_starts_with(b, text_marker())
    &&& 5 < e
    &&& e + 4 + n <= b.len()
    &&& b[e] == 13 && b[e + 1] == 10
    &&& b[e + 2 + n] == 13 && b[e + 3 + n] == 10
}

/// The payload of the leading well-formed TEXT frame.
pub open spec fn text_frame_payload(b: Seq<u8>) -> Seq<u8> {
    b.subrange(text_header_end(b) + 2, text_header_end(b) + 2 + text_declared_len(b))
}

/// The kind of the leading frame of `b`.
pub open spec fn leading_kind(b: Seq<u8>) -> FrameKind {
    if seq_starts_with(b, open_marker()) {
        FrameKind::Open
    } else if seq_starts_with(b, close_marker()) {
        FrameKind::Close
    } else if text_well_formed(b) {
        FrameKind::Text
    } else {
        FrameKind::Unknown
    }
}

/// The payload of the leading frame of `b` (empty unless TEXT).
pub open spec fn leading_payload(b: Seq<u8>) -> Seq<u8> {
    if leading_kind(b) == FrameKind::Text {
        text_frame_payload(b)
    } else {
        Seq::empty()
    }
}

/// How many bytes the leading frame of `b` occupies.  An UNKNOWN frame
/// swallows the rest of the buffer: there is no way to resynchronize.
pub open spec fn leading_used(b: Seq<u8>) -> int {
    match leading_kind(b) {
        FrameKind::Open => 6,
        FrameKind::Close => 7,
        FrameKind::Text => text_header_end(b) + 4 + text_declared_len(b),
        FrameKind::Unknown => b.len() as int,
    }
}

/// The leading frame of `b` as a `SpecFrame`.
pub open spec fn leading_frame(b: Seq<u8>) -> SpecFrame {
    SpecFrame { kind: leading_kind(b), payload: leading_payload(b) }
}

/// Decode the leading frame of `b`.  Returns the frame and the number of
/// bytes it occupied.  Never fails: bytes that match no known frame come
/// back as an UNKNOWN frame spanning the rest of the buffer.
pub fn decode_frame(b: &[u8]) -> (r: (Frame, usize))
    ensures
        r.0.kind == leading_kind(b@),
        r.0.payload@ == leading_payload(b@),
        r.1 as int == leading_used(b@),
{
    let open_m = open_marker_vec();
    if has_prefix(b, open_m.as_slice()) {
        return (Frame { kind: FrameKind::Open, payload: Vec::new() }, 6);
    }
    let close_m = close_marker_vec();
    if has_prefix(b, close_m.as_slice()) {
        return (Frame { kind: FrameKind::Close, payload: Vec::new() }, 7);
    }
    let text_m = text_marker_vec();
    if !has_prefix(b, text_m.as_slice()) {
        return (Frame { kind: FrameKind::Unknown, payload: Vec::new() }, b.len());
    }
    // Scan the hex length field, tracking its value; `ovf` records that
    // the value is at least 2^64 and so cannot name a payload that fits.
    let blen: usize = b.len();
    assert(b@.len() == blen);
    let mut j: usize = 5;
    let mut acc: u128 = 0;
    let mut ovf: bool = false;
    while j < b.len() && is_hex_digit_byte(b[j])
        invariant
            5 <= j <= b@.len(),
            b@.len() <= usize::MAX,
            forall|k: int| 5 <= k < j ==> is_hex_digit(#[trigger] b@[k]),
            !ovf ==> acc as nat == hex_value(b@.subrange(5, j as int)) && acc
                < 0x1_0000_0000_0000_0000u128,
            ovf ==> hex_value(b@.subrange(5, j as int)) >= 0x1_0000_0000_0000_0000,
        decreases b@.len() - j,
    {
        let d = hex_val_byte(b[j]);
        proof {
            assert(b@.subrange(5, j + 1 as int) =~= b@.subrange(5, j as int).push(b@[j as int]));
            lemma_hex_value_push(b@.subrange(5, j as int), b@[j as int]);
        }
        if !ovf {
            acc = acc * 16 + d as u128;
            if acc >= 0x1_0000_0000_0000_0000u128 {
                ovf = true;
            }
        }
        j = j + 1;
    }
    proof {
        lemma_hex_run_end_is(b@, 5, j as int);
    }
    if j == 5 {
        return (Frame { kind: FrameKind::Unknown, payload: Vec::new() }, b.len());
    }
    if b.len() - j < 2 || b[j] != 13 || b[j + 1] != 10 {
        return (Frame { kind: FrameKind::Unknown, payload: Vec::new() }, b.len());
    }
    let room = b.len() - j - 2;
    if ovf || room < 2 || acc > (room - 2) as u128 {
        return (Frame { kind: FrameKind::Unknown, payload: Vec::new() }, b.len());
    }
    let n = acc as usize;
    if b[j + 2 + n] != 13 || b[j + 3 + n] != 10 {
        return (Frame { kind: FrameKind::Unknown, payload: Vec::new() }, b.len());
    }
    let payload = slice_to_vec(slice_subrange(b, j + 2, j + 2 + n));
    assert(payload@ == text_frame_payload(b@));
    (Frame { kind: FrameKind::Text, payload }, j + 4 + n)
}

/// Framing round-trip: for every payload `p`, decoding `text_frame(p)`
/// yields a TEXT frame whose payload is exactly `p`, spanning the whole
/// encoding.
pub proof fn lemma_text_frame_round_trip(p: Seq<u8>)
    ensures
        leading_kind(text_frame(p)) == FrameKind::Text,
        leading_payload(text_frame(p)) == p,
        leading_used(text_frame(p)) == text_frame(p).len(),
{
    let b = text_frame(p);
    let h = hex_width2(p.len());
    lemma_hex_width2_value(p.len());
    let e = 5 + h.len() as int;
    assert(b.len() == 5 + h.len() + 2 + p.len() + 2);
    assert(forall|k: int| 0 <= k < 5 ==> b[k] == text_marker()[k]);
    assert(forall|k: int| 5 <= k < e ==> b[k] == h[k - 5]);
    assert(b[e] == 13 && b[e + 1] == 10);
    assert(forall|k: int| e + 2 <= k < e + 2 + p.len() ==> b[k] == p[k - (e + 2)]);
    assert(b[e + 2 + p.len()] == 13 && b[e + 3 + p.len()] == 10);
    assert(!seq_starts_with(b, open_marker())) by {
        if seq_starts_with(b, open_marker()) {
            assert(b.subrange(0, 6)[0] == b[0]);
        }
    }
    assert(!seq_starts_with(b, close_marker())) by {
        if seq_starts_with(b, close_marker()) {
            assert(b.subrange(0, 7)[0] == b[0]);
        }
    }
    assert(seq_starts_with(b, text_marker())) by {
        assert(b.subrange(0, 5) =~= text_marker());
    }
    assert(text_header_end(b) == e) by {
        assert(forall|k: int| 5 <= k < e ==> is_hex_digit(#[trigger] b[k]));
        assert(!is_hex_digit(b[e]));
        lemma_hex_run_end_is(b, 5, e);
    }
    assert(b.subrange(5, e) =~= h);
    assert(text_declared_len(b) == p.len());
    assert(text_well_formed(b));
    assert(text_frame_payload(b) =~= p);
}

/// Length correctness: the hex length field an encoded TEXT frame
/// carries, parsed back as hex, is exactly the payload's byte length.
pub proof fn lemma_text_frame_length_field(p: Seq<u8>)
    ensures
        text_frame(p).subrange(5, 5 + hex_width2(p.len()).len() as int) == hex_width2(p.len()),
        hex_value(hex_width2(p.len())) == p.len(),
{
    let b = text_frame(p);
    let h = hex_width2(p.len());
    lemma_hex_width2_value(p.len());
    assert(forall|k: int| 5 <= k < 5 + h.len() ==> b[k] == h[k - 5]);
    assert(b.subrange(5, 5 + h.len() as int) =~= h);
}

/// The frames of `b`, decoded front to back until the buffer is
/// exhausted.
pub open spec fn decode_all_spec(b: Seq<u8>) -> Seq<SpecFrame>
    decreases b.len(),
{
    if b.len() == 0 {
        Seq::empty()
    } else {
        let used = leading_used(b);
        if 1 <= used <= b.len() {
            seq![leading_frame(b)] + decode_all_spec(b.skip(used))
        } else {
            seq![leading_frame(b)]
        }
    }
}

/// A leading frame always occupies between 1 byte and the whole buffer.
pub proof fn lemma_leading_used_bounds(b: Seq<u8>)
    requires
        b.len() > 0,
    ensures
        1 <= leading_used(b) <= b.len(),
{
    match leading_kind(b) {
        FrameKind::Open => {
            assert(open_marker().len() == 6);
        }
        FrameKind::Close => {
            assert(close_marker().len() == 7);
        }
        FrameKind::Text => {
            assert(text_well_formed(b));
        }
        FrameKind::Unknown => {}
    }
}

/// The `SpecFrame` view of a decoded frame vector.
pub open spec fn frames_view(fs: Seq<Frame>) -> Seq<SpecFrame> {
    fs.map_values(|f: Frame| SpecFrame { kind: f.kind, payload: f.payload@ })
}

/// Decode every frame in `b`, front to back, until the buffer is
/// exhausted.  One malformed frame ends the walk with a single UNKNOWN
/// frame, since the format gives no way to resynchronize.
pub fn decode_frames(b: &[u8]) -> (r: Vec<Frame>)
    ensures
        frames_view(r@) == decode_all_spec(b@),
{
    let blen: usize = b.len();
    assert(b@.len() == blen);
    let mut frames: Vec<Frame> = Vec::new();
    let mut start: usize = 0;
    proof {
        assert(b@.skip(0) =~= b@);
        assert(frames_view(frames@) + decode_all_spec(b@) =~= decode_all_spec(b@));
    }
    while start < b.len()
        invariant
            start <= b@.len(),
            b@.len() <= usize::MAX,
            decode_all_spec(b@) == frames_view(frames@) + decode_all_spec(
                b@.skip(start as int),
            ),
        decreases b@.len() - start,
    {
        let rest = slice_subrange(b, start, b.len());
        let (f, used) = decode_frame(rest);
        proof {
            lemma_leading_used_bounds(rest@);
        }
        let ghost prev = frames@;
        frames.push(f);
        proof {
            let s = b@.skip(start as int);
            assert(frames_view(frames@) =~= frames_view(prev) + seq![
                SpecFrame { kind: f.kind, payload: f.payload@ },
            ]);
            assert(seq![leading_frame(s)] =~= seq![
                SpecFrame { kind: f.kind, payload: f.payload@ },
            ]);
            assert(s.skip(leading_used(s)) =~= b@.skip(start + used as int));
            assert(decode_all_spec(b@) =~= frames_view(frames@) + decode_all_spec(
                b@.skip(start + used as int),
            ));
        }
        start = start + used;
    }
    assert(b@.skip(start as int) =~= Seq::<u8>::empty());
    assert(decode_all_spec(b@) =~= frames_view(frames@));
    frames
}

} // verus!
