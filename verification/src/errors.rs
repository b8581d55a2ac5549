use vstd::prelude::*;

verus! {

/// The error taxonomy of the gateway.
///
/// Startup/config errors are fatal before any server starts; the
/// per-connection errors end only the connection they belong to.
#[derive(Debug)]
pub enum ProxyError {
    Generic,
    /// An HTTP ingress spec without its mandatory `path` field, or with an
    /// empty one.
    HttpSpecMissingPath,
    /// An HTTP ingress spec whose path holds a brace, which the path router
    /// reads as route syntax rather than a literal.
    HttpSpecInvalidPath,
    /// A connection was accepted for a route with no upstream targets.
    DownStreamServerEmptyTargets,
    /// Dialing the upstream target failed and the retry budget is exhausted.
    UpstreamConnectionRefused(String),
    DownstreamMessageError,
    UpstreamConnectionClosed,
    UpstreamReaderClosed,
    UpstreamClientsEnded,
    DownStreamServerEnded,
    DownStreamEndOfBytes,
    UpStreamEndOfBytes,
    IoError(String),
    JSONDecodeError(String),
    /// A reconnect heartbeat string that does not parse as a duration.
    DurationError(String),
    ChannelWriteError(String),
}

impl ProxyError {
    /// A short human-readable description of the error.
    pub fn message(&self) -> (r: &'static str)
        ensures
            r@ == message_of(*self),
    {
        match self {
            ProxyError::Generic => "generic error",
            ProxyError::HttpSpecMissingPath => "http spec missing mandatory field path",
            ProxyError::HttpSpecInvalidPath => "http spec path holds braces",
            ProxyError::DownStreamServerEmptyTargets => "empty targets, cannot start downstream server",
            ProxyError::UpstreamConnectionRefused(_) => "error connecting to upstream target",
            ProxyError::DownstreamMessageError => "error sending message downstream",
            ProxyError::UpstreamConnectionClosed => "upstream connection closed",
            ProxyError::UpstreamReaderClosed => "upstream reader closed",
            ProxyError::UpstreamClientsEnded => "upstream clients ended",
            ProxyError::DownStreamServerEnded => "downstream server ended",
            ProxyError::DownStreamEndOfBytes => "end of bytes received from downstream",
            ProxyError::UpStreamEndOfBytes => "end of bytes received from upstream",
            ProxyError::IoError(_) => "io error",
            ProxyError::JSONDecodeError(_) => "json decode error",
            ProxyError::DurationError(_) => "invalid time format error",
            ProxyError::ChannelWriteError(_) => "error writing to channel",
        }
    }
}

/// The description `message` returns for each error.
pub open spec fn message_of(e: ProxyError) -> Seq<char> {
    match e {
        ProxyError::Generic => "generic error"@,
        ProxyError::HttpSpecMissingPath => "http spec missing mandatory field path"@,
        ProxyError::HttpSpecInvalidPath => "http spec path holds braces"@,
        ProxyError::DownStreamServerEmptyTargets => "empty targets, cannot start downstream server"@,
        ProxyError::UpstreamConnectionRefused(_) => "error connecting to upstream target"@,
        ProxyError::DownstreamMessageError => "error sending message downstream"@,
        ProxyError::UpstreamConnectionClosed => "upstream connection closed"@,
        ProxyError::UpstreamReaderClosed => "upstream reader closed"@,
        ProxyError::UpstreamClientsEnded => "upstream clients ended"@,
        ProxyError::DownStreamServerEnded => "downstream server ended"@,
        ProxyError::DownStreamEndOfBytes => "end of bytes received from downstream"@,
        ProxyError::UpStreamEndOfBytes => "end of bytes received from upstream"@,
        ProxyError::IoError(_) => "io error"@,
        ProxyError::JSONDecodeError(_) => "json decode error"@,
        ProxyError::DurationError(_) => "invalid time format error"@,
        ProxyError::ChannelWriteError(_) => "error writing to channel"@,
    }
}

} // verus!
