use vstd::prelude::*;
use vstd::string::StrSliceExecFns;
use vstd::utf8::encode_utf8;
use crate::config::{IngressConf, IngressSpec, Kind};
use crate::errors::ProxyError;
use crate::router::{no_braces, router_at, router_insert, router_map, router_new, router_wf};
use crate::routes::{ep_view, opt_str_view, target_view, Endpoint, EpEntry, Route, UpstreamTarget};

verus! {

/// All ingress rules of a list of declaration files, in order.
pub open spec fn flat_specs(cs: Seq<IngressConf>) -> Seq<IngressSpec>
    decreases cs.len(),
{
    if cs.len() == 0 {
        Seq::empty()
    } else {
        cs[0].spec@ + flat_specs(cs.drop_first())
    }
}

/// An HTTP rule carries its mandatory path: present, nonempty, and
/// brace-free (a brace would read as route syntax, not a literal).
pub open spec fn path_present(s: IngressSpec) -> bool {
    s.path matches Some(p) && p@.len() > 0
}

/// A rule is well-formed when an HTTP rule carries a usable path.
pub open spec fn spec_ok(s: IngressSpec) -> bool {
    s.kind is Http ==> path_present(s) && no_braces(ep_key(s))
}

/// Every rule of the list is well-formed.
pub open spec fn all_specs_ok(specs: Seq<IngressSpec>) -> bool {
    forall|i: int| 0 <= i < specs.len() ==> spec_ok(#[trigger] specs[i])
}

/// The distinct listen ports of the rules, in order of first appearance.
pub open spec fn ports_of(specs: Seq<IngressSpec>) -> Seq<u16>
    decreases specs.len(),
{
    if specs.len() == 0 {
        Seq::empty()
    } else {
        let rest = ports_of(specs.drop_last());
        if rest.contains(specs.last().listen) {
            rest
        } else {
            rest.push(specs.last().listen)
        }
    }
}

/// The route bytes an HTTP rule registers under.
pub open spec fn ep_key(s: IngressSpec) -> Seq<u8> {
    encode_utf8((s.path->Some_0)@)
}

/// The endpoint an HTTP rule registers.
pub open spec fn ep_entry_of(s: IngressSpec) -> EpEntry {
    ((s.path->Some_0)@, opt_str_view(s.rewrite))
}

/// What the builder accumulates for one listen port.
pub struct PortModel {
    /// Whether an HTTP rule was seen, so the route carries a path router.
    pub has_http: bool,
    /// The registered endpoints, keyed by route bytes.
    pub eps: Map<Seq<u8>, EpEntry>,
    /// The registered endpoints in registration order.
    pub order: Seq<EpEntry>,
    /// The merged targets, deduplicated, in order of first appearance.
    pub targets: Seq<(Seq<char>, u16)>,
}

/// The state of a port before any of its rules is folded in.
pub open spec fn empty_port_model() -> PortModel {
    PortModel { has_http: false, eps: Map::empty(), order: Seq::empty(), targets: Seq::empty() }
}

/// Folds one rule's targets in, skipping those already present.
pub open spec fn add_targets(ts: Seq<(Seq<char>, u16)>, new: Seq<UpstreamTarget>) -> Seq<
    (Seq<char>, u16),
>
    decreases new.len(),
{
    if new.len() == 0 {
        ts
    } else {
        let tv = target_view(new[0]);
        let ts1 = if ts.contains(tv) {
            ts
        } else {
            ts.push(tv)
        };
        add_targets(ts1, new.drop_first())
    }
}

/// Folds one rule into a port's state: an HTTP rule registers its endpoint
/// unless its path is brace-laden or already taken (the first registration
/// wins); every rule merges its targets.
pub open spec fn add_spec_to_port(pm: PortModel, s: IngressSpec) -> PortModel {
    let pm1 = if s.kind is Http {
        if no_braces(ep_key(s)) && !pm.eps.dom().contains(ep_key(s)) {
            PortModel {
                has_http: true,
                eps: pm.eps.insert(ep_key(s), ep_entry_of(s)),
                order: pm.order.push(ep_entry_of(s)),
                targets: pm.targets,
            }
        } else {
            PortModel { has_http: true, ..pm }
        }
    } else {
        pm
    };
    PortModel { targets: add_targets(pm1.targets, s.targets@), ..pm1 }
}

/// The state of port `p` after the first `n` rules.
pub open spec fn port_model_n(specs: Seq<IngressSpec>, p: u16, n: int) -> PortModel
    decreases n,
    when 0 <= n <= specs.len()
{
    if n <= 0 {
        empty_port_model()
    } else {
        let prev = port_model_n(specs, p, n - 1);
        if specs[n - 1].listen == p {
            add_spec_to_port(prev, specs[n - 1])
        } else {
            prev
        }
    }
}

/// The state of port `p` after all rules.
pub open spec fn port_model(specs: Seq<IngressSpec>, p: u16) -> PortModel {
    port_model_n(specs, p, specs.len() as int)
}

/// The endpoints of a list, as plain values.
pub open spec fn ep_views(s: Seq<Endpoint>) -> Seq<EpEntry> {
    Seq::new(s.len(), |i: int| ep_view(s[i]))
}

/// The targets of a list, as plain values.
pub open spec fn target_views(s: Seq<UpstreamTarget>) -> Seq<(Seq<char>, u16)> {
    Seq::new(s.len(), |i: int| target_view(s[i]))
}

/// A built route agrees with the model of its port: same port, a router
/// exactly when an HTTP rule was seen, and the modelled endpoints and
/// targets.
pub open spec fn route_matches(r: Route, specs: Seq<IngressSpec>, p: u16) -> bool {
    let pm = port_model(specs, p);
    &&& r.listen == p
    &&& (r.endpoints is Some <==> pm.has_http)
    &&& match r.endpoints {
        Some(router) => router_map(router) == pm.eps && router_wf(pm.eps),
        None => true,
    }
    &&& ep_views(r.endpoint_rules@) == pm.order
    &&& target_views(r.targets@) == pm.targets
}

/// A nonempty text encodes to at least one byte.
proof fn lemma_encode_nonempty(s: Seq<char>)
    requires
        s.len() > 0,
    ensures
        encode_utf8(s).len() >= 1,
{
    assert(encode_utf8(s) == vstd::utf8::encode_scalar(s[0] as u32) + encode_utf8(
        s.drop_first(),
    ));
    assert(vstd::utf8::encode_scalar(s[0] as u32).len() >= 1);
}

/// True when `p` is among `ports`.
fn ports_contains(ports: &Vec<u16>, p: u16) -> (r: bool)
    ensures
        r == ports@.contains(p),
{
    let n = ports.len();
    let mut i: usize = 0;
    while i < n
        invariant
            0 <= i <= n == ports@.len(),
            forall|j: int| 0 <= j < i ==> ports@[j] != p,
        decreases n - i,
    {
        if ports[i] == p {
            assert(ports@[i as int] == p);
            return true;
        }
        i = i + 1;
    }
    assert(!ports@.contains(p));
    false
}

/// True when a target with `t`'s host and port is already in `ts`.
fn targets_contain(ts: &Vec<UpstreamTarget>, t: &UpstreamTarget) -> (r: bool)
    ensures
        r == target_views(ts@).contains(target_view(*t)),
{
    let n = ts.len();
    let mut i: usize = 0;
    while i < n
        invariant
            0 <= i <= n == ts@.len(),
            forall|j: int| 0 <= j < i ==> target_views(ts@)[j] != target_view(*t),
        decreases n - i,
    {
        let e = &ts[i];
        if *e == *t {
            assert(target_views(ts@)[i as int] == target_view(*t));
            return true;
        }
        assert(target_views(ts@)[i as int] != target_view(*t));
        i = i + 1;
    }
    assert(!target_views(ts@).contains(target_view(*t)));
    false
}

/// True when `b` holds no brace byte.
fn is_brace_free(b: &Vec<u8>) -> (r: bool)
    ensures
        r == no_braces(b@),
{
    let n = b.len();
    let mut i: usize = 0;
    while i < n
        invariant
            0 <= i <= n == b@.len(),
            forall|j: int| 0 <= j < i ==> b@[j] != 123 && b@[j] != 125,
        decreases n - i,
    {
        if b[i] == 123 || b[i] == 125 {
            return false;
        }
        i = i + 1;
    }
    true
}

impl Route {
    /// Builds the route table: folds the declared rules into one route per
    /// distinct listen port. The first endpoint registered for a path wins,
    /// targets are merged without duplicates, and a port with only TCP rules
    /// gets no path router. An HTTP rule without its mandatory path is a
    /// fatal configuration error.
    pub fn new(configs: Vec<IngressConf>) -> (r: Result<Vec<Route>, ProxyError>)
        ensures
            ({
                let specs = flat_specs(configs@);
                &&& r is Err <==> !all_specs_ok(specs)
                &&& (r matches Err(e) ==> (e matches ProxyError::HttpSpecMissingPath
                    || e matches ProxyError::HttpSpecInvalidPath))
                &&& ((r matches Err(e) && e matches ProxyError::HttpSpecMissingPath) ==> exists|
                    i: int,
                |
                    0 <= i < specs.len() && (#[trigger] specs[i]).kind is Http && !path_present(
                        specs[i],
                    ))
                &&& ((r matches Err(e) && e matches ProxyError::HttpSpecInvalidPath) ==> exists|
                    i: int,
                |
                    0 <= i < specs.len() && (#[trigger] specs[i]).kind is Http && !no_braces(
                        ep_key(specs[i]),
                    ))
                &&& (r matches Ok(routes) ==> {
                    &&& routes@.len() == ports_of(specs).len()
                    &&& forall|i: int|
                        0 <= i < routes@.len() ==> route_matches(
                            #[trigger] routes@[i],
                            specs,
                            ports_of(specs)[i],
                        )
                    &&& forall|i: int, j: int|
                        0 <= i < j < routes@.len() ==> #[trigger] routes@[i].listen
                            != #[trigger] routes@[j].listen
                })
            }),
    {
        let ghost cs0 = configs@;

        // Flatten the declaration files into one ordered list of rules.
        let mut confs = configs;
        let mut all: Vec<IngressSpec> = Vec::new();
        while confs.len() > 0
            invariant
                all@ + flat_specs(confs@) == flat_specs(cs0),
            decreases confs.len(),
        {
            let ghost before = confs@;
            let mut c = confs.remove(0);
            proof {
                assert(confs@ =~= before.drop_first());
                assert(flat_specs(before) == before[0].spec@ + flat_specs(before.drop_first()));
                assert(all@ + (c.spec@ + flat_specs(confs@)) =~= (all@ + c.spec@) + flat_specs(
                    confs@,
                ));
            }
            while c.spec.len() > 0
                invariant
                    (all@ + c.spec@) + flat_specs(confs@) == flat_specs(cs0),
                decreases c.spec.len(),
            {
                let ghost sb = c.spec@;
                let s = c.spec.remove(0);
                all.push(s);
                proof {
                    assert(c.spec@ =~= sb.drop_first());
                    assert((all@ + c.spec@) =~= (all@.drop_last() + sb));
                }
            }
            assert(all@ + flat_specs(confs@) =~= (all@ + c.spec@) + flat_specs(confs@));
        }
        assert(all@ =~= flat_specs(cs0));

        // An HTTP rule whose path is missing, empty or brace-laden is
        // rejected up front.
        let n = all.len();
        let mut vi: usize = 0;
        while vi < n
            invariant
                cs0 == configs@,
                0 <= vi <= n == all@.len(),
                all@ == flat_specs(cs0),
                forall|j: int| 0 <= j < vi ==> spec_ok(#[trigger] all@[j]),
            decreases n - vi,
        {
            let s = &all[vi];
            if s.kind == Kind::Http {
                match &s.path {
                    None => {
                        assert(!path_present(all@[vi as int]));
                        assert(!all_specs_ok(flat_specs(cs0)));
                        return Err(ProxyError::HttpSpecMissingPath);
                    },
                    Some(q) => {
                        if q.as_str().is_empty() {
                            assert(!path_present(all@[vi as int]));
                            assert(!all_specs_ok(flat_specs(cs0)));
                            return Err(ProxyError::HttpSpecMissingPath);
                        }
                        let qb = q.as_str().as_bytes_vec();
                        assert(qb@ == ep_key(all@[vi as int]));
                        if !is_brace_free(&qb) {
                            assert(!spec_ok(all@[vi as int]));
                            assert(!all_specs_ok(flat_specs(cs0)));
                            return Err(ProxyError::HttpSpecInvalidPath);
                        }
                    },
                }
            }
            vi = vi + 1;
        }
        assert(all_specs_ok(all@));

        // The distinct ports, in order of first appearance.
        let mut ports: Vec<u16> = Vec::new();
        let mut ii: usize = 0;
        assert(all@.take(0) =~= Seq::<IngressSpec>::empty());
        while ii < n
            invariant
                0 <= ii <= n == all@.len(),
                ports@ == ports_of(all@.take(ii as int)),
            decreases n - ii,
        {
            let ghost pre = all@.take(ii as int);
            proof {
                assert(all@.take(ii + 1).drop_last() =~= pre);
                assert(all@.take(ii + 1).last() == all@[ii as int]);
            }
            if !ports_contains(&ports, all[ii].listen) {
                ports.push(all[ii].listen);
            }
            ii = ii + 1;
        }
        assert(all@.take(n as int) =~= all@);
        assert(ports@ == ports_of(all@));

        // Build one route per port.
        let mut routes: Vec<Route> = Vec::new();
        let np = ports.len();
        let mut pi: usize = 0;
        while pi < np
            invariant
                0 <= pi <= np == ports@.len(),
                routes@.len() == pi,
                n == all@.len(),
                all@ == flat_specs(cs0),
                ports@ == ports_of(all@),
                all_specs_ok(all@),
                forall|i: int|
                    0 <= i < pi ==> route_matches(#[trigger] routes@[i], all@, ports@[i]),
            decreases np - pi,
        {
            let p = ports[pi];
            let mut has_http = false;
            let mut router = router_new();
            let mut rules: Vec<Endpoint> = Vec::new();
            let mut targets: Vec<UpstreamTarget> = Vec::new();
            let mut si: usize = 0;
            while si < n
                invariant
                    0 <= si <= n == all@.len(),
                    all_specs_ok(all@),
                    router_wf(router_map(router)),
                    has_http == port_model_n(all@, p, si as int).has_http,
                    router_map(router) == port_model_n(all@, p, si as int).eps,
                    ep_views(rules@) == port_model_n(all@, p, si as int).order,
                    target_views(targets@) == port_model_n(all@, p, si as int).targets,
                decreases n - si,
            {
                let ghost pm0 = port_model_n(all@, p, si as int);
                let s = &all[si];
                if s.listen == p {
                    if s.kind == Kind::Http {
                        has_http = true;
                        let q = match &s.path {
                            Some(q) => q,
                            None => {
                                proof {
                                    assert(spec_ok(all@[si as int]));
                                    assert(false);
                                }
                                vstd::pervasive::unreached()
                            },
                        };
                        let key = q.as_str().as_bytes_vec();
                        assert(key@ == ep_key(all@[si as int]));
                        if is_brace_free(&key) {
                            let hit = router_at(&router, key.as_slice()).is_some();
                            if !hit {
                                let ep = Endpoint {
                                    path: q.clone(),
                                    rewrite: match &s.rewrite {
                                        Some(rw) => Some(rw.clone()),
                                        None => None,
                                    },
                                };
                                assert(ep_view(ep) == ep_entry_of(all@[si as int]));
                                let ghost rules0 = rules@;
                                rules.push(ep.clone());
                                proof {
                                    assert(ep_views(rules@) =~= ep_views(rules0).push(ep_view(ep)));
                                }
                                let ghost m0 = router_map(router);
                                let ok = router_insert(&mut router, ep);
                                assert(ok);
                                proof {
                                    let kk = encode_utf8(q@);
                                    vstd::utf8::encode_utf8_valid_utf8(q@);
                                    lemma_encode_nonempty(q@);
                                    let m1 = router_map(router);
                                    assert forall|k: Seq<u8>| #[trigger] m1.dom().contains(k)
                                        implies k.len() >= 1 && vstd::utf8::valid_utf8(k)
                                        && no_braces(k) && k == encode_utf8(m1[k].0) by {
                                        if k == kk {
                                            assert(m1[k] == ep_view(ep));
                                        } else {
                                            assert(m0.dom().contains(k));
                                            assert(m1[k] == m0[k]);
                                        }
                                    }
                                    assert(router_wf(m1));
                                }
                            }
                        }
                    }
                    // Merge this rule's targets, keeping the first of equals.
                    let ghost t0 = target_views(targets@);
                    let tn = s.targets.len();
                    let mut tj: usize = 0;
                    assert(s.targets@.skip(0) =~= s.targets@);
                    while tj < tn
                        invariant
                            0 <= tj <= tn == s.targets@.len(),
                            add_targets(t0, s.targets@) == add_targets(
                                target_views(targets@),
                                s.targets@.skip(tj as int),
                            ),
                        decreases tn - tj,
                    {
                        let ghost rem = s.targets@.skip(tj as int);
                        proof {
                            assert(rem[0] == s.targets@[tj as int]);
                            assert(rem.drop_first() =~= s.targets@.skip(tj + 1));
                        }
                        let t = &s.targets[tj];
                        if !targets_contain(&targets, t) {
                            let ghost tv0 = target_views(targets@);
                            targets.push(t.clone());
                            proof {
                                assert(target_views(targets@) =~= tv0.push(target_view(*t)));
                            }
                        }
                        tj = tj + 1;
                    }
                    proof {
                        assert(s.targets@.skip(tn as int) =~= Seq::<UpstreamTarget>::empty());
                        assert(port_model_n(all@, p, si + 1) == add_spec_to_port(
                            pm0,
                            all@[si as int],
                        ));
                    }
                } else {
                    assert(port_model_n(all@, p, si + 1) == pm0);
                }
                si = si + 1;
            }
            let ghost pm = port_model(all@, p);
            let route = if has_http {
                Route { listen: p, endpoints: Some(router), endpoint_rules: rules, targets }
            } else {
                Route { listen: p, endpoints: None, endpoint_rules: rules, targets }
            };
            assert(route_matches(route, all@, p));
            routes.push(route);
            pi = pi + 1;
        }

        proof {
            lemma_route_merge(all@);
        }
        Ok(routes)
    }
}

/// Law: the route table has exactly one entry per distinct listen port
/// appearing in the declared rules: the port list is duplicate-free and
/// holds exactly the declared ports.
pub proof fn lemma_route_merge(specs: Seq<IngressSpec>)
    ensures
        forall|i: int, j: int|
            0 <= i < j < ports_of(specs).len() ==> #[trigger] ports_of(specs)[i]
                != #[trigger] ports_of(specs)[j],
        forall|p: u16|
            ports_of(specs).contains(p) <==> exists|i: int|
                0 <= i < specs.len() && (#[trigger] specs[i]).listen == p,
    decreases specs.len(),
{
    if specs.len() > 0 {
        lemma_route_merge(specs.drop_last());
        let rest = ports_of(specs.drop_last());
        let last = specs.last().listen;
        assert forall|p: u16| ports_of(specs).contains(p) implies exists|i: int|
            0 <= i < specs.len() && (#[trigger] specs[i]).listen == p by {
            if p == last {
                assert(specs[specs.len() - 1].listen == p);
            } else {
                assert(rest.contains(p));
                let i = choose|i: int|
                    0 <= i < specs.drop_last().len() && (#[trigger] specs.drop_last()[i]).listen
                        == p;
                assert(specs[i].listen == p);
            }
        }
        assert forall|p: u16|
            (exists|i: int| 0 <= i < specs.len() && (#[trigger] specs[i]).listen == p) implies ports_of(
            specs,
        ).contains(p) by {
            let i = choose|i: int| 0 <= i < specs.len() && (#[trigger] specs[i]).listen == p;
            if i < specs.len() - 1 {
                assert(specs.drop_last()[i].listen == p);
                assert(rest.contains(p));
                if !rest.contains(last) {
                    assert(ports_of(specs) == rest.push(last));
                    let k = choose|k: int| 0 <= k < rest.len() && rest[k] == p;
                    assert(ports_of(specs)[k] == p);
                } else {
                    assert(ports_of(specs) == rest);
                }
            } else {
                if rest.contains(last) {
                    assert(ports_of(specs) == rest);
                } else {
                    assert(ports_of(specs)[ports_of(specs).len() - 1] == last);
                }
            }
        }
    }
}

/// No two entries of the target list are the same (host, port) pair.
pub open spec fn distinct_targets(ts: Seq<(Seq<char>, u16)>) -> bool {
    forall|i: int, j: int| 0 <= i < j < ts.len() ==> ts[i] != ts[j]
}

/// Merging targets keeps the list duplicate-free and adds exactly the
/// incoming pairs.
proof fn lemma_add_targets(ts: Seq<(Seq<char>, u16)>, new: Seq<UpstreamTarget>)
    requires
        distinct_targets(ts),
    ensures
        distinct_targets(add_targets(ts, new)),
        forall|tv: (Seq<char>, u16)|
            add_targets(ts, new).contains(tv) <==> ts.contains(tv) || exists|j: int|
                0 <= j < new.len() && target_view(#[trigger] new[j]) == tv,
    decreases new.len(),
{
    if new.len() > 0 {
        let tv0 = target_view(new[0]);
        let ts1 = if ts.contains(tv0) {
            ts
        } else {
            ts.push(tv0)
        };
        assert forall|y: (Seq<char>, u16)| #[trigger] ts1.contains(y) implies ts.contains(y) || y
            == tv0 by {
            let k = choose|k: int| 0 <= k < ts1.len() && ts1[k] == y;
            if k < ts.len() {
                assert(ts[k] == y);
            }
        }
        if !ts.contains(tv0) {
            assert forall|i: int, j: int| 0 <= i < j < ts1.len() implies ts1[i] != ts1[j] by {
                if j == ts.len() {
                    assert(ts.contains(ts[i]));
                }
            }
        }
        assert(distinct_targets(ts1));
        lemma_add_targets(ts1, new.drop_first());
        assert forall|tv: (Seq<char>, u16)| #[trigger] add_targets(ts, new).contains(tv) implies ts.contains(
            tv,
        ) || exists|j: int| 0 <= j < new.len() && target_view(#[trigger] new[j]) == tv by {
            if !ts.contains(tv) {
                if ts1.contains(tv) {
                    assert(target_view(new[0]) == tv);
                } else {
                    let j = choose|j: int|
                        0 <= j < new.drop_first().len() && target_view(
                            #[trigger] new.drop_first()[j],
                        ) == tv;
                    assert(target_view(new[j + 1]) == tv);
                }
            }
        }
        assert forall|tv: (Seq<char>, u16)|
            ts.contains(tv) || (exists|j: int|
                0 <= j < new.len() && target_view(#[trigger] new[j]) == tv) implies add_targets(
            ts,
            new,
        ).contains(tv) by {
            if ts.contains(tv) {
                let k = choose|k: int| 0 <= k < ts.len() && ts[k] == tv;
                assert(ts1[k] == tv);
                assert(ts1.contains(tv));
            } else {
                let j = choose|j: int| 0 <= j < new.len() && target_view(#[trigger] new[j]) == tv;
                if j == 0 {
                    if ts.contains(tv0) {
                        let k = choose|k: int| 0 <= k < ts.len() && ts[k] == tv0;
                        assert(ts1.contains(tv));
                    } else {
                        assert(ts1[ts.len() as int] == tv0);
                        assert(ts1.contains(tv));
                    }
                } else {
                    assert(target_view(new.drop_first()[j - 1]) == tv);
                }
            }
        }
    }
}

/// Merging more targets never drops one already present.
proof fn lemma_add_targets_keeps(ts: Seq<(Seq<char>, u16)>, new: Seq<UpstreamTarget>, tv: (Seq<char>, u16))
    requires
        ts.contains(tv),
    ensures
        add_targets(ts, new).contains(tv),
    decreases new.len(),
{
    if new.len() > 0 {
        let tv0 = target_view(new[0]);
        let ts1 = if ts.contains(tv0) {
            ts
        } else {
            ts.push(tv0)
        };
        let k = choose|k: int| 0 <= k < ts.len() && ts[k] == tv;
        assert(ts1[k] == tv);
        assert(ts1.contains(tv));
        lemma_add_targets_keeps(ts1, new.drop_first(), tv);
    }
}

/// Each incoming target ends up in the merged list.
proof fn lemma_add_targets_adds(ts: Seq<(Seq<char>, u16)>, new: Seq<UpstreamTarget>, j: int)
    requires
        0 <= j < new.len(),
    ensures
        add_targets(ts, new).contains(target_view(new[j])),
    decreases new.len(),
{
    let tv0 = target_view(new[0]);
    let ts1 = if ts.contains(tv0) {
        ts
    } else {
        ts.push(tv0)
    };
    if j == 0 {
        if ts.contains(tv0) {
            let k = choose|k: int| 0 <= k < ts.len() && ts[k] == tv0;
            assert(ts1[k] == tv0);
        } else {
            assert(ts1[ts.len() as int] == tv0);
        }
        assert(ts1.contains(tv0));
        lemma_add_targets_keeps(ts1, new.drop_first(), tv0);
    } else {
        lemma_add_targets_adds(ts1, new.drop_first(), j - 1);
        assert(new.drop_first()[j - 1] == new[j]);
    }
}

/// The target set of port `p` after the first `n` rules: duplicate-free,
/// and holding exactly the pairs the first `n` rules declare for `p`.
#[verifier::rlimit(50)]
proof fn lemma_target_dedup_n(specs: Seq<IngressSpec>, p: u16, n: int)
    requires
        0 <= n <= specs.len(),
    ensures
        distinct_targets(port_model_n(specs, p, n).targets),
        forall|tv: (Seq<char>, u16)|
            port_model_n(specs, p, n).targets.contains(tv) <==> exists|i: int, j: int|
                0 <= i < n && specs[i].listen == p && 0 <= j < specs[i].targets@.len()
                    && #[trigger] target_view(specs[i].targets@[j]) == tv,
    decreases n,
{
    if n > 0 {
        lemma_target_dedup_n(specs, p, n - 1);
        let prev = port_model_n(specs, p, n - 1);
        let s = specs[n - 1];
        if s.listen == p {
            assert(add_spec_to_port(prev, s).targets == add_targets(prev.targets, s.targets@));
            lemma_add_targets(prev.targets, s.targets@);
            assert forall|tv: (Seq<char>, u16)| #[trigger] port_model_n(
                specs,
                p,
                n,
            ).targets.contains(tv) implies exists|i: int, j: int|
                0 <= i < n && specs[i].listen == p && 0 <= j < specs[i].targets@.len()
                    && #[trigger] target_view(specs[i].targets@[j]) == tv by {
                if prev.targets.contains(tv) {
                    assert(exists|i: int, j: int|
                        0 <= i < n - 1 && specs[i].listen == p && 0 <= j
                            < specs[i].targets@.len() && #[trigger] target_view(
                            specs[i].targets@[j],
                        ) == tv);
                    let (i, j) = choose|i: int, j: int|
                        0 <= i < n - 1 && specs[i].listen == p && 0 <= j
                            < specs[i].targets@.len() && #[trigger] target_view(
                            specs[i].targets@[j],
                        ) == tv;
                    assert(0 <= i < n && specs[i].listen == p && 0 <= j < specs[i].targets@.len()
                        && target_view(specs[i].targets@[j]) == tv);
                } else {
                    let j = choose|j: int|
                        0 <= j < s.targets@.len() && target_view(#[trigger] s.targets@[j]) == tv;
                    assert(specs[n - 1].listen == p && target_view(specs[n - 1].targets@[j]) == tv);
                }
            }
            assert forall|tv: (Seq<char>, u16)|
                (exists|i: int, j: int|
                    0 <= i < n && specs[i].listen == p && 0 <= j < specs[i].targets@.len()
                        && #[trigger] target_view(specs[i].targets@[j])
                        == tv) implies port_model_n(specs, p, n).targets.contains(tv) by {
                let (i, j) = choose|i: int, j: int|
                    0 <= i < n && specs[i].listen == p && 0 <= j < specs[i].targets@.len()
                        && #[trigger] target_view(specs[i].targets@[j]) == tv;
                if i < n - 1 {
                    assert(prev.targets.contains(tv));
                    lemma_add_targets_keeps(prev.targets, s.targets@, tv);
                } else {
                    assert(target_view(s.targets@[j]) == tv);
                    lemma_add_targets_adds(prev.targets, s.targets@, j);
                }
                assert(port_model_n(specs, p, n).targets == add_targets(prev.targets, s.targets@));
            }
        } else {
            assert(port_model_n(specs, p, n) == prev);
            assert forall|tv: (Seq<char>, u16)|
                (exists|i: int, j: int|
                    0 <= i < n && specs[i].listen == p && 0 <= j < specs[i].targets@.len()
                        && #[trigger] target_view(specs[i].targets@[j])
                        == tv) implies port_model_n(specs, p, n).targets.contains(tv) by {
                let (i, j) = choose|i: int, j: int|
                    0 <= i < n && specs[i].listen == p && 0 <= j < specs[i].targets@.len()
                        && #[trigger] target_view(specs[i].targets@[j]) == tv;
                assert(i < n - 1);
                assert(prev.targets.contains(tv));
            }
        }
    } else {
        assert(port_model_n(specs, p, n).targets.len() == 0);
    }
}

/// Law: for a port targeted by rules declaring overlapping targets, the
/// merged route holds each (host, port) pair once: the target list is
/// duplicate-free and holds exactly the pairs declared for the port.
pub proof fn lemma_target_dedup(specs: Seq<IngressSpec>, p: u16)
    ensures
        distinct_targets(port_model(specs, p).targets),
        forall|tv: (Seq<char>, u16)|
            port_model(specs, p).targets.contains(tv) <==> exists|i: int, j: int|
                0 <= i < specs.len() && specs[i].listen == p && 0 <= j
                    < specs[i].targets@.len() && #[trigger] target_view(specs[i].targets@[j]) == tv,
{
    lemma_target_dedup_n(specs, p, specs.len() as int);
}

/// Law: a port declared only by TCP rules is raw passthrough: its model has
/// no HTTP side, so the built route carries no path router.
pub proof fn lemma_tcp_passthrough(specs: Seq<IngressSpec>, p: u16)
    requires
        forall|i: int|
            0 <= i < specs.len() && (#[trigger] specs[i]).listen == p ==> specs[i].kind is Tcp,
    ensures
        !port_model(specs, p).has_http,
{
    lemma_tcp_passthrough_n(specs, p, specs.len() as int);
}

/// `has_http` stays false while only TCP rules name the port.
proof fn lemma_tcp_passthrough_n(specs: Seq<IngressSpec>, p: u16, n: int)
    requires
        0 <= n <= specs.len(),
        forall|i: int|
            0 <= i < specs.len() && (#[trigger] specs[i]).listen == p ==> specs[i].kind is Tcp,
    ensures
        !port_model_n(specs, p, n).has_http,
    decreases n,
{
    if n > 0 {
        lemma_tcp_passthrough_n(specs, p, n - 1);
    }
}

} // verus!
