use vstd::prelude::*;

verus! {

/// Number of upstream dial retries performed when none is configured.
pub const DEFAULT_MAX_RETRIES: u32 = 10;

/// Process-wide configuration, read once at startup from the environment
/// and passed explicitly to the servers and connectors that need it.
pub struct Settings {
    /// Directory holding the ingress declaration files.
    pub liteginx_conf_dir: String,
    /// Pause between upstream dial attempts, as a duration string.
    pub upstream_reconnect_heartbeat: Option<String>,
    /// How many times a failed upstream dial is retried.
    pub upstream_reconnect_max_retries: Option<u32>,
    /// Message carried in the body of a 404 response.
    pub not_found_message: Option<String>,
}

/// The heartbeat string used when none is configured.
pub open spec fn default_heartbeat() -> Seq<char> {
    "10s"@
}

/// The 404 message used when none is configured.
pub open spec fn default_not_found() -> Seq<char> {
    "not found"@
}

/// The heartbeat string a `Settings` value is effectively configured with.
pub open spec fn effective_heartbeat_of(s: Settings) -> Seq<char> {
    match s.upstream_reconnect_heartbeat {
        Some(h) => h@,
        None => default_heartbeat(),
    }
}

/// The retry budget a `Settings` value is effectively configured with.
pub open spec fn effective_max_retries_of(s: Settings) -> u32 {
    match s.upstream_reconnect_max_retries {
        Some(n) => n,
        None => DEFAULT_MAX_RETRIES,
    }
}

/// The 404 message a `Settings` value is effectively configured with.
pub open spec fn effective_not_found_of(s: Settings) -> Seq<char> {
    match s.not_found_message {
        Some(m) => m@,
        None => default_not_found(),
    }
}

impl Settings {
    /// Assembles the configuration from plain values; the caller reads them
    /// from the environment.
    pub fn new(
        liteginx_conf_dir: String,
        upstream_reconnect_heartbeat: Option<String>,
        upstream_reconnect_max_retries: Option<u32>,
        not_found_message: Option<String>,
    ) -> (r: Settings)
        ensures
            r.liteginx_conf_dir == liteginx_conf_dir,
            r.upstream_reconnect_heartbeat == upstream_reconnect_heartbeat,
            r.upstream_reconnect_max_retries == upstream_reconnect_max_retries,
            r.not_found_message == not_found_message,
    {
        Settings {
            liteginx_conf_dir,
            upstream_reconnect_heartbeat,
            upstream_reconnect_max_retries,
            not_found_message,
        }
    }

    /// The configured heartbeat string, or "10s".
    pub fn effective_heartbeat(&self) -> (r: &str)
        ensures
            r@ == effective_heartbeat_of(*self),
    {
        match &self.upstream_reconnect_heartbeat {
            Some(h) => h.as_str(),
            None => "10s",
        }
    }

    /// The configured retry budget, or 10.
    pub fn effective_max_retries(&self) -> (r: u32)
        ensures
            r == effective_max_retries_of(*self),
    {
        match &self.upstream_reconnect_max_retries {
            Some(n) => *n,
            None => DEFAULT_MAX_RETRIES,
        }
    }

    /// The configured 404 message, or "not found".
    pub fn effective_not_found(&self) -> (r: &str)
        ensures
            r@ == effective_not_found_of(*self),
    {
        match &self.not_found_message {
            Some(m) => m.as_str(),
            None => "not found",
        }
    }
}

} // verus!
