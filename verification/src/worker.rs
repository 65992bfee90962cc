//! The OAuth token-exchange worker: its CORS headers and request routing.
use vstd::prelude::*;

verus! {

/// The CORS headers the worker adds to every response, as (name, value) pairs.
pub open spec fn cors_header_pairs() -> Seq<(Seq<char>, Seq<char>)> {
    seq![
        ("Access-Control-Allow-Origin"@, "*"@),
        ("Access-Control-Allow-Methods"@, "POST, OPTIONS"@),
        ("Access-Control-Allow-Headers"@, "Content-Type"@),
    ]
}

/// The CORS headers: any origin, `POST` and `OPTIONS`, and the `Content-Type` header.
pub fn cors_headers() -> (h: Vec<(String, String)>)
    ensures
        h@.map_values(|p: (String, String)| (p.0@, p.1@)) == cors_header_pairs(),
{
    let mut h: Vec<(String, String)> = Vec::new();
    h.push((String::from_str("Access-Control-Allow-Origin"), String::from_str("*")));
    h.push((String::from_str("Access-Control-Allow-Methods"), String::from_str("POST, OPTIONS")));
    h.push((String::from_str("Access-Control-Allow-Headers"), String::from_str("Content-Type")));
    assert(h@.map_values(|p: (String, String)| (p.0@, p.1@)) =~= cors_header_pairs());
    h
}

/// What the worker does with a request.
#[derive(Clone, Copy, Debug, PartialEq, Eq)]
pub enum WorkerRoute {
    /// Answer a CORS preflight with an empty response.
    Preflight,
    /// Answer `Not Found` with status 404.
    NotFound,
    /// Exchange the OAuth code for a token.
    Exchange,
}

/// The route of a request with the given method and path.
pub open spec fn route_of(method: Seq<char>, path: Seq<char>) -> WorkerRoute {
    if method == "OPTIONS"@ {
        WorkerRoute::Preflight
    } else if method != "POST"@ || path != "/exchange"@ {
        WorkerRoute::NotFound
    } else {
        WorkerRoute::Exchange
    }
}

/// Routes a request: preflight for `OPTIONS`, the exchange for `POST /exchange`,
/// and not found for anything else.
pub fn worker_route(method: &str, path: &str) -> (r: WorkerRoute)
    ensures
        r == route_of(method@, path@),
{
    let m = crate::text::chars_of(method);
    let p = crate::text::chars_of(path);
    let options = crate::text::chars_of("OPTIONS");
    let post = crate::text::chars_of("POST");
    let exchange = crate::text::chars_of("/exchange");
    if crate::text::chars_eq(m.as_slice(), options.as_slice()) {
        WorkerRoute::Preflight
    } else if !crate::text::chars_eq(m.as_slice(), post.as_slice()) || !crate::text::chars_eq(
        p.as_slice(),
        exchange.as_slice(),
    ) {
        WorkerRoute::NotFound
    } else {
        WorkerRoute::Exchange
    }
}

} // verus!
