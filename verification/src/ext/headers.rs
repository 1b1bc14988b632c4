//! `http`'s header map and extensions.

use crate::lb::service::RouteDecision;
use http::{Extensions, HeaderMap};
use vstd::prelude::*;

verus! {

/// `http::HeaderMap`, a multimap from header names to values; opaque.
#[verifier::external_type_specification]
#[verifier::external_body]
#[verifier::reject_recursive_types(T)]
pub struct ExHeaderMap<T>(http::HeaderMap<T>);

/// `http::HeaderValue`, the bytes of one header; opaque.
#[verifier::external_type_specification]
#[verifier::external_body]
pub struct ExHeaderValue(http::HeaderValue);

/// What the map holds, read as text: each header name, in lower case, whose first value consists of
/// visible ASCII characters, spaces and tabs only, with that value.
pub uninterp spec fn readable_headers(headers: HeaderMap) -> Map<Seq<char>, Seq<char>>;

/// Whether the text is a header name in the form in which a header map keeps it: short, lower-case
/// letters and hyphens only.
pub open spec fn plain_header_name(name: Seq<char>) -> bool {
    &&& 0 < name.len() <= 64
    &&& forall|i: int| 0 <= i < name.len() ==> 'a' <= #[trigger] name[i] <= 'z' || name[i] == '-'
}

/// `HeaderMap::get` and, on what it finds, `HeaderValue::to_str`: the first value of the header,
/// provided that it is readable as text.
#[verifier::external_body]
pub(crate) fn header_text(headers: &HeaderMap, name: &str) -> (text: Option<String>)
    requires
        plain_header_name(name@),
    ensures
        match text {
            Some(t) => readable_headers(*headers).contains_key(name@)
                && readable_headers(*headers)[name@] == t@,
            None => !readable_headers(*headers).contains_key(name@),
        },
{
    headers.get(name).and_then(|value| value.to_str().ok()).map(|t| t.to_string())
}

/// `http::Extensions`, a map from types to one value of each; opaque.
#[verifier::external_type_specification]
#[verifier::external_body]
pub struct ExExtensions(http::Extensions);

/// The cluster that the routing decision among the extensions names, if there is a decision.
pub uninterp spec fn routed_cluster(extensions: Extensions) -> Option<Seq<char>>;

/// `Extensions::get`: a clone of the routing decision among the extensions, if there is one.
#[verifier::external_body]
pub(crate) fn route_decision(extensions: &Extensions) -> (decision: Option<RouteDecision>)
    ensures
        match decision {
            Some(d) => routed_cluster(*extensions) == Some(d.cluster@),
            None => routed_cluster(*extensions) is None,
        },
{
    extensions.get::<RouteDecision>().cloned()
}

}
