//! The library's view of an HTTP response: a status code, ordered
//! headers, and a body of plain bytes.  The surrounding program turns
//! this into whatever its HTTP stack wants.

use vstd::prelude::*;
use vstd::string::StringExecFns;

verus! {

/// A complete response, ready to be handed to the HTTP layer.
pub struct HttpResponse {
    pub status: u16,
    pub headers: Vec<(String, String)>,
    pub body: Vec<u8>,
}

/// The headers as pairs of character sequences, in order.
pub open spec fn header_pairs(h: Seq<(String, String)>) -> Seq<(Seq<char>, Seq<char>)> {
    h.map_values(|p: (String, String)| (p.0@, p.1@))
}

/// Append one header.
pub fn push_header(headers: &mut Vec<(String, String)>, name: &str, value: &str)
    ensures
        header_pairs(final(headers)@) == header_pairs(old(headers)@).push((name@, value@)),
{
    headers.push((String::from_str(name), String::from_str(value)));
    assert(header_pairs(headers@) =~= header_pairs(old(headers)@).push((name@, value@)));
}

} // verus!
