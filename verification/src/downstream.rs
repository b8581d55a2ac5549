use vstd::prelude::*;
use rand::seq::IndexedRandom;
use vstd::string::StrSliceExecFns;
use vstd::utf8::encode_utf8;
use crate::errors::ProxyError;
use crate::helpers::{
    extract_path, extracted_path, http_404_chars, http_404_response, http_404_spec,
    json_escape_free, json_quote_plain, match_key_in, match_prefix, matched_key_spec,
    replace_first, rewrite_path,
};
use crate::router::{router_map, router_wf};
use crate::routes::{EpEntry, Route, UpstreamTarget};

verus! {

/// What the connection handler does with one chunk read from the client:
/// hand it (possibly rewritten) to the upstream connector, or answer the
/// client directly.
pub enum ChunkAction {
    Forward(Vec<u8>),
    Respond(Vec<u8>),
}

/// A route whose router, if any, holds only literally-stored routes.
pub open spec fn route_wf(r: Route) -> bool {
    match r.endpoints {
        Some(router) => router_wf(router_map(router)),
        None => true,
    }
}

/// A matched route key is never empty and starts with `/`.
pub proof fn lemma_match_key_shape(m: Map<Seq<u8>, EpEntry>, parts: Seq<Seq<u8>>)
    ensures
        match_key_in(m, parts) matches Some(k) ==> k.len() >= 1 && k[0] == 47,
    decreases parts.len(),
{
    if parts.len() > 0 {
        lemma_match_key_shape(m, parts.drop_last());
    }
}

/// The byte pattern replaced when a matched endpoint rewrites: the matched
/// route itself, extended by the following `/` separator when the request
/// path continues past it.
pub open spec fn rewrite_pattern(k: Seq<u8>, path: Seq<u8>) -> Seq<u8> {
    if k.len() - 1 < path.len() {
        k + seq![47u8]
    } else {
        k
    }
}

/// Decides what to do with one chunk read from the client: a passthrough
/// route forwards it unmodified; an HTTP route matches the request path
/// against the registered endpoints, applies the endpoint's rewrite, and
/// answers 404 when nothing matches.
pub fn process_chunk(route: &Route, body: &[u8], not_found_message: &str) -> (r: ChunkAction)
    requires
        route_wf(*route),
    ensures
        ({
            let p = extracted_path(body@);
            match route.endpoints {
                None => r matches ChunkAction::Forward(b) && b@ == body@,
                Some(router) => {
                    let m = router_map(router);
                    match matched_key_spec(m, p) {
                        None => r matches ChunkAction::Respond(resp) && resp@ == encode_utf8(
                            http_404_spec(not_found_message@),
                        ),
                        Some(k) => match m[k].1 {
                            None => r matches ChunkAction::Forward(b) && b@ == body@,
                            Some(rw) => r matches ChunkAction::Forward(b) && b@ == replace_first(
                                body@,
                                rewrite_pattern(k, p),
                                encode_utf8(rw),
                            ),
                        },
                    }
                },
            }
        }),
        (route.endpoints matches Some(router) && matched_key_spec(
            router_map(router),
            extracted_path(body@),
        ) is None && json_escape_free(not_found_message@) ==> (r matches ChunkAction::Respond(
            resp,
        ) && resp@ == encode_utf8(http_404_chars(json_quote_plain(not_found_message@))))),
{
    match &route.endpoints {
        None => ChunkAction::Forward(vstd::slice::slice_to_vec(body)),
        Some(router) => {
            let path = extract_path(body);
            match match_prefix(router, path.as_slice()) {
                None => {
                    let resp = http_404_response(not_found_message);
                    assert(matched_key_spec(router_map(*router), extracted_path(body@)) is None);
                    let rb = resp.as_str().as_bytes_vec();
                    assert(rb@ == encode_utf8(http_404_spec(not_found_message@)));
                    ChunkAction::Respond(rb)
                },
                Some(ep) => {
                    match &ep.rewrite {
                        None => ChunkAction::Forward(vstd::slice::slice_to_vec(body)),
                        Some(rw) => {
                            proof {
                                lemma_match_key_shape(
                                    router_map(*router),
                                    crate::helpers::split_slash(
                                        crate::helpers::trim_trailing_slashes(path@),
                                    ),
                                );
                            }
                            let mut pattern = ep.path.as_str().as_bytes_vec();
                            if pattern.len() - 1 < path.len() {
                                pattern.push(47);
                            }
                            let rep = rw.as_str().as_bytes_vec();
                            proof {
                                let p = extracted_path(body@);
                                let m = router_map(*router);
                                let k = matched_key_spec(m, p)->Some_0;
                                assert(p == path@);
                                assert(encode_utf8(ep.path@) == k);
                                assert(m[k].1 == Some(rw@));
                                assert(pattern@ == rewrite_pattern(k, p));
                                assert(rep@ == encode_utf8(rw@));
                            }
                            ChunkAction::Forward(rewrite_path(body, pattern, rep))
                        },
                    }
                },
            }
        },
    }
}

/// Relies on rand's IndexedRandom::choose, drawing from the thread-local
/// generator: some element of the slice for a nonempty slice, None for an
/// empty one; which element comes back is left open.
#[verifier::external_body]
fn choose_random<'a>(targets: &'a Vec<UpstreamTarget>) -> (r: Option<&'a UpstreamTarget>)
    ensures
        r is Some <==> targets@.len() > 0,
        r matches Some(t) ==> exists|i: int| 0 <= i < targets@.len() && *t == targets@[i],
{
    targets.as_slice().choose(&mut rand::rng())
}

impl Route {
    /// Picks the backend for one accepted connection, uniformly at random
    /// among the route's targets; a route without targets refuses the
    /// connection.
    pub fn choose_target(&self) -> (r: Result<&UpstreamTarget, ProxyError>)
        ensures
            r is Err <==> self.targets@.len() == 0,
            r matches Err(e) ==> e matches ProxyError::DownStreamServerEmptyTargets,
            r matches Ok(t) ==> exists|i: int| 0 <= i < self.targets@.len() && *t
                == self.targets@[i],
    {
        match choose_random(&self.targets) {
            Some(t) => Ok(t),
            None => Err(ProxyError::DownStreamServerEmptyTargets),
        }
    }
}

} // verus!
