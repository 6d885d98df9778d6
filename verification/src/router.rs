//! Request routing.
//!
//! The router classifies an inbound request by its path and by whether
//! it carries the hold infrastructure's signature header.  A request on
//! the realtime path without the signature must be handed off to the
//! hold infrastructure; one with the signature goes to the realtime
//! session handler.  Every other path maps to one of the plain testing
//! endpoints.  The router also reads the request directives carried in
//! the `endpoint` header: a status override, and the tarpit opt-in.

use crate::bytestr::bytes_eq;
use crate::bytestr::contains_sub;
use crate::bytestr::has_prefix;
use crate::bytestr::seq_contains_sub;
use crate::bytestr::seq_starts_with;
use vstd::prelude::*;
use vstd::string::StringSliceAdditionalSpecFns;

verus! {

/// Where a request is dispatched.
#[derive(Clone, Copy, PartialEq, Eq, Structural, Debug)]
pub enum Route {
    /// Realtime path, unsigned: delegate to the hold infrastructure.
    FanoutHandoff,
    /// Realtime path, signed: run the realtime session handler.
    FanoutSession,
    Status,
    Anything,
    StaticAssets,
    FormsPost,
    SetHeaders,
    ClientIpData,
    /// The bare root path: serve the documentation page.
    SwaggerRoot,
    /// No special path matched: answer with the accumulated response.
    Fallback,
}

/// The bytes of the realtime path prefix `/fanout`.
pub open spec fn fanout_prefix() -> Seq<u8> {
    seq![47u8, 102u8, 97u8, 110u8, 111u8, 117u8, 116u8]
}

/// The bytes of `/status`.
pub open spec fn status_prefix() -> Seq<u8> {
    seq![47u8, 115u8, 116u8, 97u8, 116u8, 117u8, 115u8]
}

/// The bytes of `/anything`.
pub open spec fn anything_prefix() -> Seq<u8> {
    seq![47u8, 97u8, 110u8, 121u8, 116u8, 104u8, 105u8, 110u8, 103u8]
}

/// The bytes of `/static-assets/`.
pub open spec fn static_assets_prefix() -> Seq<u8> {
    seq![
        47u8, 115u8, 116u8, 97u8, 116u8, 105u8, 99u8, 45u8, 97u8, 115u8, 115u8, 101u8,
        116u8, 115u8, 47u8,
    ]
}

/// The bytes of `/forms/post`.
pub open spec fn forms_post_prefix() -> Seq<u8> {
    seq![47u8, 102u8, 111u8, 114u8, 109u8, 115u8, 47u8, 112u8, 111u8, 115u8, 116u8]
}

/// The bytes of `/utilities/set_headers`.
pub open spec fn set_headers_prefix() -> Seq<u8> {
    seq![
        47u8, 117u8, 116u8, 105u8, 108u8, 105u8, 116u8, 105u8, 101u8, 115u8, 47u8,
        115u8, 101u8, 116u8, 95u8, 104u8, 101u8, 97u8, 100u8, 101u8, 114u8, 115u8,
    ]
}

/// The bytes of `/client_ip_data`.
pub open spec fn client_ip_prefix() -> Seq<u8> {
    seq![
        47u8, 99u8, 108u8, 105u8, 101u8, 110u8, 116u8, 95u8, 105u8, 112u8, 95u8, 100u8,
        97u8, 116u8, 97u8,
    ]
}

/// The bytes of the `status` directive token.
pub open spec fn status_token() -> Seq<u8> {
    seq![115u8, 116u8, 97u8, 116u8, 117u8, 115u8]
}

/// The bytes of the `tarpit` directive token.
pub open spec fn tarpit_token() -> Seq<u8> {
    seq![116u8, 97u8, 114u8, 112u8, 105u8, 116u8]
}

/// Routing, as a function of the path bytes and the presence of the
/// signature header.  Prefixes are tried in order; only the bare `/`
/// serves the documentation page.
pub open spec fn route_spec(path: Seq<u8>, signed: bool) -> Route {
    if seq_starts_with(path, fanout_prefix()) {
        if signed {
            Route::FanoutSession
        } else {
            Route::FanoutHandoff
        }
    } else if seq_starts_with(path, status_prefix()) {
        Route::Status
    } else if seq_starts_with(path, anything_prefix()) {
        Route::Anything
    } else if seq_starts_with(path, static_assets_prefix()) {
        Route::StaticAssets
    } else if seq_starts_with(path, forms_post_prefix()) {
        Route::FormsPost
    } else if seq_starts_with(path, set_headers_prefix()) {
        Route::SetHeaders
    } else if seq_starts_with(path, client_ip_prefix()) {
        Route::ClientIpData
    } else if path == seq![47u8] {
        Route::SwaggerRoot
    } else {
        Route::Fallback
    }
}

/// Classify a request.  A request on the realtime path never reaches
/// the session handler without the infrastructure's signature: unsigned
/// requests always map to the handoff delegation.
pub fn route_request(path: &str, has_signature: bool) -> (r: Route)
    ensures
        r == route_spec(path.spec_bytes(), has_signature),
        seq_starts_with(path.spec_bytes(), fanout_prefix()) && !has_signature ==> r
            == Route::FanoutHandoff,
        seq_starts_with(path.spec_bytes(), fanout_prefix()) && has_signature ==> r
            == Route::FanoutSession,
{
    let p = path.as_bytes();
    let fanout: [u8; 7] = [47u8, 102u8, 97u8, 110u8, 111u8, 117u8, 116u8];
    assert(fanout@ =~= fanout_prefix());
    if has_prefix(p, fanout.as_slice()) {
        return if has_signature {
            Route::FanoutSession
        } else {
            Route::FanoutHandoff
        };
    }
    let status: [u8; 7] = [47u8, 115u8, 116u8, 97u8, 116u8, 117u8, 115u8];
    assert(status@ =~= status_prefix());
    if has_prefix(p, status.as_slice()) {
        return Route::Status;
    }
    let anything: [u8; 9] = [47u8, 97u8, 110u8, 121u8, 116u8, 104u8, 105u8, 110u8, 103u8];
    assert(anything@ =~= anything_prefix());
    if has_prefix(p, anything.as_slice()) {
        return Route::Anything;
    }
    let stat_assets: [u8; 15] = [
        47u8, 115u8, 116u8, 97u8, 116u8, 105u8, 99u8, 45u8, 97u8, 115u8, 115u8, 101u8,
        116u8, 115u8, 47u8,
    ];
    assert(stat_assets@ =~= static_assets_prefix());
    if has_prefix(p, stat_assets.as_slice()) {
        return Route::StaticAssets;
    }
    let forms: [u8; 11] = [
        47u8, 102u8, 111u8, 114u8, 109u8, 115u8, 47u8, 112u8, 111u8, 115u8, 116u8,
    ];
    assert(forms@ =~= forms_post_prefix());
    if has_prefix(p, forms.as_slice()) {
        return Route::FormsPost;
    }
    let sethdr: [u8; 22] = [
        47u8, 117u8, 116u8, 105u8, 108u8, 105u8, 116u8, 105u8, 101u8, 115u8, 47u8,
        115u8, 101u8, 116u8, 95u8, 104u8, 101u8, 97u8, 100u8, 101u8, 114u8, 115u8,
    ];
    assert(sethdr@ =~= set_headers_prefix());
    if has_prefix(p, sethdr.as_slice()) {
        return Route::SetHeaders;
    }
    let clientip: [u8; 15] = [
        47u8, 99u8, 108u8, 105u8, 101u8, 110u8, 116u8, 95u8, 105u8, 112u8, 95u8, 100u8,
        97u8, 116u8, 97u8,
    ];
    assert(clientip@ =~= client_ip_prefix());
    if has_prefix(p, clientip.as_slice()) {
        return Route::ClientIpData;
    }
    let root: [u8; 1] = [47u8];
    if bytes_eq(p, root.as_slice()) {
        assert(path.spec_bytes() =~= seq![47u8]);
        return Route::SwaggerRoot;
    }
    assert(path.spec_bytes() != seq![47u8]) by {
        assert(root@ =~= seq![47u8]);
    }
    Route::Fallback
}

/// Does the `endpoint` header ask for a status override?  True exactly
/// when the header is present and its value contains `status`.
pub fn endpoint_wants_status(endpoint_header: Option<&str>) -> (r: bool)
    ensures
        r == match endpoint_header {
            Some(h) => seq_contains_sub(h.spec_bytes(), status_token()),
            None => false,
        },
{
    match endpoint_header {
        Some(h) => {
            let tok: [u8; 6] = [115u8, 116u8, 97u8, 116u8, 117u8, 115u8];
            assert(tok@ =~= status_token());
            contains_sub(h.as_bytes(), tok.as_slice())
        }
        None => false,
    }
}

/// Does the `endpoint` header opt into tarpit delivery?  True exactly
/// when the header is present and its value contains `tarpit`.
pub fn endpoint_wants_tarpit(endpoint_header: Option<&str>) -> (r: bool)
    ensures
        r == match endpoint_header {
            Some(h) => seq_contains_sub(h.spec_bytes(), tarpit_token()),
            None => false,
        },
{
    match endpoint_header {
        Some(h) => {
            let tok: [u8; 6] = [116u8, 97u8, 114u8, 112u8, 105u8, 116u8];
            assert(tok@ =~= tarpit_token());
            contains_sub(h.as_bytes(), tok.as_slice())
        }
        None => false,
    }
}

/// Is the tarpit action flag set on a response?  True exactly when the
/// marker header is present and its value contains `1`.
pub fn tarpit_flag_set(marker_header: Option<&str>) -> (r: bool)
    ensures
        r == match marker_header {
            Some(h) => seq_contains_sub(h.spec_bytes(), seq![49u8]),
            None => false,
        },
{
    match marker_header {
        Some(h) => {
            let tok: [u8; 1] = [49u8];
            assert(tok@ =~= seq![49u8]);
            contains_sub(h.as_bytes(), tok.as_slice())
        }
        None => false,
    }
}

} // verus!
