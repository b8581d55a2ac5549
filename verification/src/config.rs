use vstd::prelude::*;
use crate::routes::UpstreamTarget;

verus! {

/// Whether an ingress rule routes raw TCP or HTTP with a path.
#[derive(Clone, Copy, PartialEq, Eq, Structural, Debug)]
pub enum Kind {
    Http,
    Tcp,
}

/// One declared routing rule: kind, listen port, optional path and rewrite,
/// and the backend targets.
pub struct IngressSpec {
    pub kind: Kind,
    pub path: Option<String>,
    pub listen: u16,
    pub rewrite: Option<String>,
    pub targets: Vec<UpstreamTarget>,
}

/// Declared TLS switch; the gateway does not terminate TLS.
pub struct TlsConf {
    pub enabled: bool,
}

/// One ingress declaration file: a name and its list of rules.
pub struct IngressConf {
    pub name: String,
    pub spec: Vec<IngressSpec>,
    pub tls: TlsConf,
}

} // verus!
