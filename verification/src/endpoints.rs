//! Parsing helpers for the plain testing endpoints: status-code
//! selection, static-asset names and content types, the custom-header
//! echo, and the CORS preflight answer.  The endpoints themselves are
//! thin glue around a key/value store and the HTTP layer; what is here
//! is the part that computes.

use crate::bytestr::index_of_from;
use crate::bytestr::find_byte_from;
use crate::bytestr::bytes_eq;
use crate::bytestr::has_prefix;
use crate::bytestr::push_all;
use crate::bytestr::seq_contains_sub;
use crate::bytestr::seq_starts_with;
use crate::http::HttpResponse;
use crate::http::header_pairs;
use crate::http::push_header;
use crate::router::status_token;
use crate::router::endpoint_wants_status;
use vstd::prelude::*;
use vstd::slice::slice_subrange;
use vstd::slice::slice_to_vec;
use vstd::string::StringSliceAdditionalSpecFns;

verus! {

/// ASCII `0` through `9`.
pub open spec fn is_digit(b: u8) -> bool {
    48 <= b && b <= 57
}

/// Every byte of `s` is a decimal digit.
pub open spec fn all_digits(s: Seq<u8>) -> bool {
    forall|i: int| 0 <= i < s.len() ==> is_digit(#[trigger] s[i])
}

/// The number a string of decimal digit bytes denotes.
pub open spec fn dec_value(s: Seq<u8>) -> nat
    decreases s.len(),
{
    if s.len() == 0 {
        0
    } else {
        dec_value(s.drop_last()) * 10 + (if is_digit(s.last()) {
            (s.last() - 48) as nat
        } else {
            0
        })
    }
}

/// `s` with one leading `+` removed, as integer parsing allows.
pub open spec fn plus_stripped(s: Seq<u8>) -> Seq<u8> {
    if s.len() >= 1 && s[0] == 43 {
        s.skip(1)
    } else {
        s
    }
}

/// `s` parses as a `u16`: after an optional leading `+`, one or more
/// decimal digits and nothing else, with a value of at most 65535.
pub open spec fn parses_as_u16(s: Seq<u8>) -> bool {
    let d = plus_stripped(s);
    d.len() >= 1 && all_digits(d) && dec_value(d) <= 65535
}

/// The status code `s` selects: its `u16` value, or 200 when `s` does
/// not parse as one.
pub open spec fn status_or_default(s: Seq<u8>) -> u16 {
    if parses_as_u16(s) {
        dec_value(plus_stripped(s)) as u16
    } else {
        200
    }
}

proof fn lemma_dec_value_push(s: Seq<u8>, b: u8)
    requires
        is_digit(b),
    ensures
        dec_value(s.push(b)) == dec_value(s) * 10 + (b - 48),
{
    assert(s.push(b).drop_last() =~= s);
    assert(s.push(b).last() == b);
}

/// Parse a status code: the `u16` value of `s`, or 200 when `s` is not
/// a `u16` numeral.
pub fn parse_status(s: &[u8]) -> (r: u16)
    ensures
        r == status_or_default(s@),
{
    let ghost d = plus_stripped(s@);
    let start: usize = if s.len() >= 1 && s[0] == 43 {
        1
    } else {
        0
    };
    assert(d =~= s@.skip(start as int));
    if s.len() == start {
        return 200;
    }
    let mut i: usize = start;
    let mut acc: u32 = 0;
    let mut over: bool = false;
    while i < s.len()
        invariant
            start <= i <= s@.len(),
            s@.len() <= usize::MAX,
            start <= s@.len(),
            d == s@.skip(start as int),
            d == plus_stripped(s@),
            d.len() >= 1,
            forall|k: int| start <= k < i ==> is_digit(#[trigger] s@[k]),
            !over ==> acc as nat == dec_value(s@.subrange(start as int, i as int)) && acc
                <= 65535,
            over ==> dec_value(s@.subrange(start as int, i as int)) > 65535,
        decreases s@.len() - i,
    {
        let b = s[i];
        if b < 48 || b > 57 {
            assert(!all_digits(d)) by {
                assert(d[i - start] == s@[i as int]);
            }
            return 200;
        }
        proof {
            assert(s@.subrange(start as int, i + 1 as int) =~= s@.subrange(
                start as int,
                i as int,
            ).push(s@[i as int]));
            lemma_dec_value_push(s@.subrange(start as int, i as int), b);
        }
        if !over {
            acc = acc * 10 + (b - 48) as u32;
            if acc > 65535 {
                over = true;
            }
        }
        i = i + 1;
    }
    assert(s@.subrange(start as int, s@.len() as int) =~= d);
    if over {
        assert(!parses_as_u16(s@));
        200
    } else {
        assert(parses_as_u16(s@));
        acc as u16
    }
}

/// The text between the first `=` and the next `=` (or the end), when
/// `s` has an `=` at all.  This is the second field of an `=`-split.
pub open spec fn eq_split_second(s: Seq<u8>) -> Option<Seq<u8>> {
    let i = index_of_from(s, 0, 61);
    if i == s.len() {
        None
    } else {
        Some(s.subrange(i + 1, index_of_from(s, i + 1, 61)))
    }
}

/// The status code the `endpoint` header selects: the second `=`-field
/// of its value, parsed with a 200 default; `None` when the value has
/// no `=` at all (callers treat that as a malformed directive).
pub fn status_from_header(ep: &str) -> (r: Option<u16>)
    ensures
        r == match eq_split_second(ep.spec_bytes()) {
            Some(seg) => Some(status_or_default(seg)),
            None => None::<u16>,
        },
{
    let b = ep.as_bytes();
    let blen: usize = b.len();
    assert(b@.len() == blen);
    proof {
        crate::bytestr::lemma_index_of_from(b@, 0, 61);
    }
    match find_byte_from(b, 0, 61) {
        None => None,
        Some(i) => {
            proof {
                crate::bytestr::lemma_index_of_from(b@, i + 1 as int, 61);
            }
            let j: usize = match find_byte_from(b, i + 1, 61) {
                Some(j) => j,
                None => b.len(),
            };
            let seg = slice_subrange(b, i + 1, j);
            Some(parse_status(seg))
        }
    }
}

/// The second `/`-separated segment of `p`, after the leading slash:
/// for `/status/404` it is `404`; `None` when there is no second
/// segment.
pub open spec fn second_segment(p: Seq<u8>) -> Option<Seq<u8>> {
    let t = path_tail(p);
    let i = index_of_from(t, 0, 47);
    if i == t.len() {
        None
    } else {
        Some(t.subrange(i + 1, index_of_from(t, i + 1, 47)))
    }
}

/// `p` with its leading `/` removed, when it has one.
pub open spec fn path_tail(p: Seq<u8>) -> Seq<u8> {
    if p.len() >= 1 && p[0] == 47 {
        p.skip(1)
    } else {
        p
    }
}

/// The status code the path selects: its second segment parsed with a
/// 200 default, or `None` when the path has no second segment (callers
/// answer that with a 500 and an explanatory body).
pub fn status_from_path(path: &str) -> (r: Option<u16>)
    ensures
        r == match second_segment(path.spec_bytes()) {
            Some(seg) => Some(status_or_default(seg)),
            None => None::<u16>,
        },
{
    let b = path.as_bytes();
    let start: usize = if b.len() >= 1 && b[0] == 47 {
        1
    } else {
        0
    };
    let t = slice_subrange(b, start, b.len());
    let tlen: usize = t.len();
    assert(t@.len() == tlen);
    assert(t@ =~= path_tail(path.spec_bytes()));
    proof {
        crate::bytestr::lemma_index_of_from(t@, 0, 47);
    }
    match find_byte_from(t, 0, 47) {
        None => None,
        Some(i) => {
            proof {
                crate::bytestr::lemma_index_of_from(t@, i + 1 as int, 47);
            }
            let j: usize = match find_byte_from(t, i + 1, 47) {
                Some(j) => j,
                None => t.len(),
            };
            let seg = slice_subrange(t, i + 1, j);
            Some(parse_status(seg))
        }
    }
}

/// What the status endpoint decides for a request.
#[derive(Clone, Copy, PartialEq, Eq, Structural, Debug)]
pub enum StatusOutcome {
    /// Answer with this status code.
    Code(u16),
    /// The `endpoint` header asked for a status but carries no `=`:
    /// the caller fails the request as the directive is unusable.
    MalformedHeader,
    /// The path has no second segment to read a code from: the caller
    /// answers 500 with an explanatory body.
    PathTooShort,
}

/// The view of an optional header value, as bytes.
pub open spec fn opt_bytes(s: Option<&str>) -> Option<Seq<u8>> {
    match s {
        Some(v) => Some(v.spec_bytes()),
        None => None,
    }
}

/// The status decision, in order of precedence: an `endpoint` header
/// containing `status` wins, then a `status` query parameter, then the
/// second path segment.
pub open spec fn status_outcome_spec(
    ep: Option<Seq<u8>>,
    query: Option<Seq<u8>>,
    path: Seq<u8>,
) -> StatusOutcome {
    if ep is Some && seq_contains_sub(ep->0, status_token()) {
        match eq_split_second(ep->0) {
            Some(seg) => StatusOutcome::Code(status_or_default(seg)),
            None => StatusOutcome::MalformedHeader,
        }
    } else if query is Some {
        StatusOutcome::Code(status_or_default(query->0))
    } else {
        match second_segment(path) {
            Some(seg) => StatusOutcome::Code(status_or_default(seg)),
            None => StatusOutcome::PathTooShort,
        }
    }
}

/// Decide the status code for a request to the status endpoint, from
/// the `endpoint` header, the `status` query parameter and the path,
/// in that order of precedence.
pub fn status_decision(
    endpoint_header: Option<&str>,
    query_status: Option<&str>,
    path: &str,
) -> (r: StatusOutcome)
    ensures
        r == status_outcome_spec(
            opt_bytes(endpoint_header),
            opt_bytes(query_status),
            path.spec_bytes(),
        ),
{
    if endpoint_wants_status(endpoint_header) {
        let h = endpoint_header.unwrap();
        match status_from_header(h) {
            Some(code) => StatusOutcome::Code(code),
            None => StatusOutcome::MalformedHeader,
        }
    } else {
        match query_status {
            Some(q) => StatusOutcome::Code(parse_status(q.as_bytes())),
            None => match status_from_path(path) {
                Some(code) => StatusOutcome::Code(code),
                None => StatusOutcome::PathTooShort,
            },
        }
    }
}

/// Index of the last occurrence of `x` in `b`; -1 when there is none.
pub open spec fn last_index_of(b: Seq<u8>, x: u8) -> int
    decreases b.len(),
{
    if b.len() == 0 {
        -1
    } else if b.last() == x {
        b.len() - 1
    } else {
        last_index_of(b.drop_last(), x)
    }
}

/// What `last_index_of` returns: the last hit, or -1.
pub proof fn lemma_last_index_of(b: Seq<u8>, x: u8)
    ensures
        -1 <= last_index_of(b, x) < b.len(),
        last_index_of(b, x) >= 0 ==> b[last_index_of(b, x)] == x,
        forall|k: int| last_index_of(b, x) < k < b.len() ==> b[k] != x,
    decreases b.len(),
{
    if b.len() > 0 && b.last() != x {
        lemma_last_index_of(b.drop_last(), x);
        assert(forall|k: int| 0 <= k < b.len() - 1 ==> b.drop_last()[k] == #[trigger] b[k]);
    }
}

/// `last_index_of` is pinned down by the properties above.
pub proof fn lemma_last_index_of_is(b: Seq<u8>, x: u8, j: int)
    requires
        -1 <= j < b.len(),
        j >= 0 ==> b[j] == x,
        forall|k: int| j < k < b.len() ==> b[k] != x,
    ensures
        last_index_of(b, x) == j,
    decreases b.len(),
{
    if b.len() > 0 {
        if b.last() == x {
            assert(j == b.len() - 1);
        } else {
            assert(j < b.len() - 1);
            assert(forall|k: int| 0 <= k < b.len() - 1 ==> b.drop_last()[k] == #[trigger] b[k]);
            lemma_last_index_of_is(b.drop_last(), x, j);
        }
    }
}

/// Index of the last occurrence of `x` in `b`, if any.
pub fn rfind_byte(b: &[u8], x: u8) -> (r: Option<usize>)
    ensures
        r matches Some(j) ==> last_index_of(b@, x) == j as int,
        r is None ==> last_index_of(b@, x) == -1,
{
    let mut k: usize = b.len();
    while k > 0
        invariant
            k <= b@.len(),
            forall|m: int| k <= m < b@.len() ==> b@[m] != x,
        decreases k,
    {
        if b[k - 1] == x {
            proof {
                lemma_last_index_of_is(b@, x, k - 1 as int);
            }
            return Some(k - 1);
        }
        k = k - 1;
    }
    proof {
        lemma_last_index_of_is(b@, x, -1);
    }
    None
}

/// The file name a static-asset path names: everything after the last
/// `/` of the path's tail (for `/static-assets/app.js`, `app.js`).
pub open spec fn asset_filename(p: Seq<u8>) -> Seq<u8> {
    let t = path_tail(p);
    t.subrange(last_index_of(t, 47) + 1, t.len() as int)
}

/// The byte range of the asset file name within `path`, so callers can
/// slice the path string itself (the bounds always sit after a `/` or
/// at an end, so they are character boundaries).
pub fn asset_filename_range(path: &str) -> (r: (usize, usize))
    ensures
        r.0 <= r.1 <= path.spec_bytes().len(),
        path.spec_bytes().subrange(r.0 as int, r.1 as int) == asset_filename(
            path.spec_bytes(),
        ),
{
    let b = path.as_bytes();
    let start: usize = if b.len() >= 1 && b[0] == 47 {
        1
    } else {
        0
    };
    let t = slice_subrange(b, start, b.len());
    let tlen: usize = t.len();
    assert(t@.len() == tlen);
    assert(t@ =~= path_tail(path.spec_bytes()));
    let lo: usize = match rfind_byte(t, 47) {
        Some(j) => {
            proof {
                lemma_last_index_of(t@, 47);
            }
            start + j + 1
        }
        None => start,
    };
    assert(path.spec_bytes().subrange(lo as int, b@.len() as int) =~= asset_filename(
        path.spec_bytes(),
    ));
    (lo, b.len())
}

/// The extension of a file name: everything after its last `.`, or the
/// whole name when it has none.
pub open spec fn extension_of(name: Seq<u8>) -> Seq<u8> {
    name.subrange(last_index_of(name, 46) + 1, name.len() as int)
}

/// The content type served for a file name, decided by its extension.
pub open spec fn content_type_chars(name: Seq<u8>) -> Seq<char> {
    let e = extension_of(name);
    if e == seq![106u8, 115u8] {
        "application/javascript; charset=utf-8"@
    } else if e == seq![99u8, 115u8, 115u8] {
        "text/css; charset=utf-8"@
    } else if e == seq![104u8, 116u8, 109u8, 108u8] {
        "text/html; charset=utf-8"@
    } else if e == seq![106u8, 115u8, 111u8, 110u8] {
        "application/json; charset=utf-8"@
    } else if e == seq![106u8, 112u8, 103u8] {
        "image/jpg"@
    } else if e == seq![112u8, 110u8, 103u8] {
        "image/png"@
    } else {
        "text/plain"@
    }
}

/// The `Content-Type` header value for a static asset, from the file
/// name's extension.
pub fn asset_content_type(filename: &str) -> (r: &'static str)
    ensures
        r@ == content_type_chars(filename.spec_bytes()),
{
    let b = filename.as_bytes();
    let blen: usize = b.len();
    assert(b@.len() == blen);
    let lo: usize = match rfind_byte(b, 46) {
        Some(j) => {
            proof {
                lemma_last_index_of(b@, 46);
            }
            j + 1
        }
        None => 0,
    };
    let ext = slice_subrange(b, lo, b.len());
    assert(ext@ =~= extension_of(filename.spec_bytes()));
    let js: [u8; 2] = [106u8, 115u8];
    if bytes_eq(ext, js.as_slice()) {
        return "application/javascript; charset=utf-8";
    }
    let css: [u8; 3] = [99u8, 115u8, 115u8];
    if bytes_eq(ext, css.as_slice()) {
        return "text/css; charset=utf-8";
    }
    let html: [u8; 4] = [104u8, 116u8, 109u8, 108u8];
    if bytes_eq(ext, html.as_slice()) {
        return "text/html; charset=utf-8";
    }
    let json: [u8; 4] = [106u8, 115u8, 111u8, 110u8];
    if bytes_eq(ext, json.as_slice()) {
        return "application/json; charset=utf-8";
    }
    let jpg: [u8; 3] = [106u8, 112u8, 103u8];
    if bytes_eq(ext, jpg.as_slice()) {
        return "image/jpg";
    }
    let png: [u8; 3] = [112u8, 110u8, 103u8];
    if bytes_eq(ext, png.as_slice()) {
        return "image/png";
    }
    "text/plain"
}

/// The bytes of the request-header prefix `x-`.
pub open spec fn x_prefix() -> Seq<u8> {
    seq![120u8, 45u8]
}

/// The bytes of the response-header prefix `resp-`.
pub open spec fn resp_prefix() -> Seq<u8> {
    seq![114u8, 101u8, 115u8, 112u8, 45u8]
}

/// The response header echoing a request header: names starting with
/// `x-` come back prefixed with `resp-`, all others are dropped.
pub fn echoed_header_name(name: &[u8]) -> (r: Option<Vec<u8>>)
    ensures
        seq_starts_with(name@, x_prefix()) ==> (r matches Some(v) && v@ == resp_prefix()
            + name@),
        !seq_starts_with(name@, x_prefix()) ==> r is None,
{
    let xp: [u8; 2] = [120u8, 45u8];
    assert(xp@ =~= x_prefix());
    if has_prefix(name, xp.as_slice()) {
        let rp: [u8; 5] = [114u8, 101u8, 115u8, 112u8, 45u8];
        let mut v = slice_to_vec(rp.as_slice());
        assert(v@ =~= resp_prefix());
        push_all(&mut v, name);
        Some(v)
    } else {
        None
    }
}

/// The bytes of the method name `OPTIONS`.
pub open spec fn options_method() -> Seq<u8> {
    seq![79u8, 80u8, 84u8, 73u8, 79u8, 78u8, 83u8]
}

/// The CORS preflight answer: an `OPTIONS` request gets status 200
/// with the three CORS allowance headers and an empty body; any other
/// method gets `None` and proceeds to the echo.
pub fn cors_preflight(method: &str) -> (r: Option<HttpResponse>)
    ensures
        method.spec_bytes() == options_method() ==> (r matches Some(resp) && resp.status
            == 200 && header_pairs(resp.headers@) == seq![
            ("Access-Control-Allow-Origin"@, "*"@),
            ("Access-Control-Allow-Methods"@, "GET, POST, PUT, DELETE, OPTIONS"@),
            ("Access-Control-Allow-Headers"@, "Content-Type, Authorization"@),
        ] && resp.body@.len() == 0),
        method.spec_bytes() != options_method() ==> r is None,
{
    let opt: [u8; 7] = [79u8, 80u8, 84u8, 73u8, 79u8, 78u8, 83u8];
    assert(opt@ =~= options_method());
    if bytes_eq(method.as_bytes(), opt.as_slice()) {
        let mut headers: Vec<(String, String)> = Vec::new();
        push_header(&mut headers, "Access-Control-Allow-Origin", "*");
        push_header(&mut headers, "Access-Control-Allow-Methods", "GET, POST, PUT, DELETE, OPTIONS");
        push_header(&mut headers, "Access-Control-Allow-Headers", "Content-Type, Authorization");
        assert(header_pairs(headers@) =~= seq![
            ("Access-Control-Allow-Origin"@, "*"@),
            ("Access-Control-Allow-Methods"@, "GET, POST, PUT, DELETE, OPTIONS"@),
            ("Access-Control-Allow-Headers"@, "Content-Type, Authorization"@),
        ]);
        Some(HttpResponse { status: 200, headers, body: Vec::new() })
    } else {
        None
    }
}

} // verus!
