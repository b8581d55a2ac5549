use vstd::prelude::*;
use vstd::utf8::{encode_utf8, valid_utf8};
use crate::routes::{empty_ep_map, ep_view, Endpoint, EpEntry};

verus! {

#[verifier::external_type_specification]
#[verifier::external_body]
#[verifier::reject_recursive_types(T)]
pub struct ExRouter<T>(matchit::Router<T>);

/// The routes a router holds: each registered route's bytes, mapped to the
/// endpoint stored under it.
pub uninterp spec fn router_map(r: matchit::Router<Endpoint>) -> Map<Seq<u8>, EpEntry>;

/// True when `k` holds neither `{` nor `}`, the only bytes that matchit
/// treats as route syntax rather than literally.
pub open spec fn no_braces(k: Seq<u8>) -> bool {
    forall|i: int| 0 <= i < k.len() ==> k[i] != 123 && k[i] != 125
}

/// The routers this crate builds: every route is the byte sequence of its
/// endpoint's path, nonempty and brace-free, so matchit stores and matches
/// it literally. (The empty route is kept out: inserting it leaves the tree
/// root in the shape matchit's insert takes for an empty tree, and the next
/// route would overwrite it.)
pub open spec fn router_wf(m: Map<Seq<u8>, EpEntry>) -> bool {
    forall|k: Seq<u8>| #[trigger] m.dom().contains(k) ==> {
        &&& k.len() >= 1
        &&& valid_utf8(k)
        &&& no_braces(k)
        &&& k == encode_utf8(m[k].0)
    }
}

/// Relies on matchit::Router::new: a new router holds no routes.
#[verifier::external_body]
pub(crate) fn router_new() -> (r: matchit::Router<Endpoint>)
    ensures
        router_map(r) == empty_ep_map(),
{
    matchit::Router::new()
}

/// Relies on matchit::Router::insert: a nonempty brace-free route is stored
/// literally, succeeds exactly when it is not yet registered, and on failure
/// leaves the router as it was.
#[verifier::external_body]
pub(crate) fn router_insert(r: &mut matchit::Router<Endpoint>, ep: Endpoint) -> (ok: bool)
    requires
        router_wf(router_map(*old(r))),
        no_braces(encode_utf8(ep.path@)),
        ep.path@.len() > 0,
    ensures
        ok == !router_map(*old(r)).dom().contains(encode_utf8(ep.path@)),
        ok ==> router_map(*final(r)) == router_map(*old(r)).insert(
            encode_utf8(ep.path@),
            ep_view(ep),
        ),
        !ok ==> router_map(*final(r)) == router_map(*old(r)),
{
    let route = ep.path.clone();
    r.insert(route, ep).is_ok()
}

/// Relies on matchit::Router::at: in a router of brace-free routes, a path
/// matches exactly the registered route it equals byte for byte.
#[verifier::external_body]
pub(crate) fn router_at<'a>(r: &'a matchit::Router<Endpoint>, path: &[u8]) -> (res: Option<&'a Endpoint>)
    requires
        router_wf(router_map(*r)),
    ensures
        match res {
            Some(e) => router_map(*r).dom().contains(path@) && ep_view(*e) == router_map(*r)[path@],
            None => !router_map(*r).dom().contains(path@),
        },
{
    match std::str::from_utf8(path) {
        Ok(p) => match r.at(p) {
            Ok(m) => Some(m.value),
            Err(_) => None,
        },
        Err(_) => None,
    }
}

} // verus!
