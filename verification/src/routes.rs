use vstd::prelude::*;

verus! {

/// One registered HTTP path and its optional rewrite rule within a route.
#[derive(Debug)]
pub struct Endpoint {
    pub path: String,
    pub rewrite: Option<String>,
}

/// The character sequences of an optional string.
pub open spec fn opt_str_view(o: Option<String>) -> Option<Seq<char>> {
    match o {
        Some(s) => Some(s@),
        None => None,
    }
}

/// A registered endpoint as plain values: its path and its optional rewrite.
pub type EpEntry = (Seq<char>, Option<Seq<char>>);

/// A map holding no registered endpoints.
pub open spec fn empty_ep_map() -> Map<Seq<u8>, EpEntry> {
    Map::empty()
}

/// What an endpoint registers: its path and its optional rewrite.
pub open spec fn ep_view(e: Endpoint) -> EpEntry {
    (e.path@, opt_str_view(e.rewrite))
}

impl Clone for Endpoint {
    fn clone(&self) -> (r: Self)
        ensures
            r == *self,
    {
        Endpoint {
            path: self.path.clone(),
            rewrite: match &self.rewrite {
                Some(s) => Some(s.clone()),
                None => None,
            },
        }
    }
}

/// A backend host:port a route may forward to. Equality is structural.
#[derive(Debug)]
pub struct UpstreamTarget {
    pub host: String,
    pub port: u16,
}

/// The plain value of a target: its host characters and its port.
pub open spec fn target_view(t: UpstreamTarget) -> (Seq<char>, u16) {
    (t.host@, t.port)
}

impl Clone for UpstreamTarget {
    fn clone(&self) -> (r: Self)
        ensures
            r == *self,
    {
        UpstreamTarget { host: self.host.clone(), port: self.port }
    }
}

impl PartialEq for UpstreamTarget {
    fn eq(&self, other: &Self) -> (r: bool) {
        self.host == other.host && self.port == other.port
    }
}

impl vstd::std_specs::cmp::PartialEqSpecImpl for UpstreamTarget {
    open spec fn obeys_eq_spec() -> bool {
        true
    }

    open spec fn eq_spec(&self, other: &Self) -> bool {
        self.host@ == other.host@ && self.port == other.port
    }
}

/// The merged routing unit for one listen port. `endpoints` is `None` for a
/// raw-TCP passthrough route and holds the path router for an HTTP-aware one;
/// `endpoint_rules` lists the registered endpoints in registration order.
#[derive(Debug)]
pub struct Route {
    pub listen: u16,
    pub endpoints: Option<matchit::Router<Endpoint>>,
    pub endpoint_rules: Vec<Endpoint>,
    pub targets: Vec<UpstreamTarget>,
}

} // verus!
