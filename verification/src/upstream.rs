use vstd::prelude::*;
use vstd::string::{StrSliceExecFns, StringExecFns};
use crate::conf::{default_heartbeat, effective_heartbeat_of, effective_max_retries_of, Settings};
use crate::errors::ProxyError;

verus! {

/// The duration a string denotes, as whole seconds and subsecond
/// nanoseconds.
pub uninterp spec fn parsed_duration(s: Seq<char>) -> Option<(u64, u32)>;

/// Longest heartbeat string the gateway accepts. humantime's parser checks
/// every addition and multiplication, but carrying nanoseconds over at
/// exactly u64::MAX seconds would not return; reaching that many seconds
/// takes a thirteen-character year count, so twelve characters stay clear
/// of the edge.
pub const MAX_HEARTBEAT_LEN: usize = 12;

/// A pause between dial attempts, as whole seconds and subsecond
/// nanoseconds.
pub struct Heartbeat {
    pub secs: u64,
    pub nanos: u32,
}

/// Relies on humantime::parse_duration: the result is a function of the
/// string alone, and its documentation gives that "10s" denotes ten seconds.
/// The length bound keeps the total below the u64::MAX-seconds carry edge,
/// past which the call would not return.
#[verifier::external_body]
fn parse_duration_str(s: &str) -> (r: Result<Heartbeat, ProxyError>)
    requires
        s@.len() <= MAX_HEARTBEAT_LEN,
    ensures
        r matches Ok(h) ==> (parsed_duration(s@) matches Some(d) && d.0 == h.secs && d.1 == h.nanos),
        (r is Err <==> parsed_duration(s@) is None),
        s@ == default_heartbeat() ==> r is Ok,
        (r matches Err(e) ==> e matches ProxyError::DurationError(_)),
        r matches Ok(h) ==> (s@ == default_heartbeat() ==> h.secs == 10 && h.nanos == 0),
{
    match humantime::parse_duration(s) {
        Ok(d) => Ok(Heartbeat { secs: d.as_secs(), nanos: d.subsec_nanos() }),
        Err(e) => Err(ProxyError::DurationError(format!("{}", e))),
    }
}

/// Where one connection's upstream connector stands.
#[derive(PartialEq, Eq, Structural, Clone, Copy, Debug)]
pub enum ConnState {
    /// The next step is a dial attempt.
    Dialing,
    /// The backend answered; bytes are being pumped.
    Connected,
    /// The retry budget is exhausted; the connection is being refused.
    Failed,
}

/// What the caller runs next after reporting a dial result.
pub enum UpstreamAction {
    /// Pump bytes both ways until either side ends.
    Pump,
    /// Sleep one heartbeat, then dial again.
    RetryAfterHeartbeat,
    /// Report the connection refused and close the client socket.
    GiveUp,
}

/// The retry/backoff supervisor for one client connection's backend link.
/// Each client connection gets its own connector and its own backend
/// socket; nothing here is shared across connections.
#[derive(Debug)]
pub struct UpstreamConnector {
    /// How many failed dials are retried before giving up.
    pub max_retries: u32,
    /// Seconds slept between dial attempts.
    pub heartbeat_secs: u64,
    /// Subsecond part of the pause between dial attempts.
    pub heartbeat_nanos: u32,
    /// Dial attempts already failed.
    pub attempt: u32,
    /// Where the connector stands.
    pub state: ConnState,
}

/// How one dial result moves the connector: success connects, a failure
/// within the budget schedules a retry, and one beyond it fails the
/// connector.
pub open spec fn step_dial(c: UpstreamConnector, ok: bool) -> UpstreamConnector {
    if ok {
        UpstreamConnector { state: ConnState::Connected, ..c }
    } else if c.attempt < c.max_retries {
        UpstreamConnector { attempt: (c.attempt + 1) as u32, ..c }
    } else {
        UpstreamConnector { state: ConnState::Failed, ..c }
    }
}

/// The connector after `k` failed dials.
pub open spec fn after_failures(c: UpstreamConnector, k: nat) -> UpstreamConnector
    decreases k,
{
    if k == 0 {
        c
    } else {
        step_dial(after_failures(c, (k - 1) as nat), false)
    }
}

impl UpstreamConnector {
    /// Sets up the connector for one connection from the settings: attempt
    /// zero, ready to dial. A heartbeat string that is over twelve
    /// characters or does not parse as a duration is a configuration error.
    pub fn new(settings: &Settings) -> (r: Result<UpstreamConnector, ProxyError>)
        ensures
            (r matches Ok(c) ==> {
                &&& c.attempt == 0
                &&& c.state is Dialing
                &&& c.max_retries == effective_max_retries_of(*settings)
                &&& Some((c.heartbeat_secs, c.heartbeat_nanos)) == parsed_duration(
                    effective_heartbeat_of(*settings),
                )
            }),
            (r is Err <==> (effective_heartbeat_of(*settings).len() > MAX_HEARTBEAT_LEN
                || parsed_duration(effective_heartbeat_of(*settings)) is None)),
            (r matches Err(e) ==> e matches ProxyError::DurationError(_)),
            settings.upstream_reconnect_heartbeat is None ==> (r matches Ok(c)
                && c.heartbeat_secs == 10 && c.heartbeat_nanos == 0),
    {
        let hb = settings.effective_heartbeat();
        if hb.unicode_len() > MAX_HEARTBEAT_LEN {
            proof {
                reveal_strlit("10s");
            }
            return Err(
                ProxyError::DurationError(
                    String::from_str("upstream reconnect heartbeat is too long"),
                ),
            );
        }
        match parse_duration_str(hb) {
            Ok(d) => Ok(
                UpstreamConnector {
                    max_retries: settings.effective_max_retries(),
                    heartbeat_secs: d.secs,
                    heartbeat_nanos: d.nanos,
                    attempt: 0,
                    state: ConnState::Dialing,
                },
            ),
            Err(e) => Err(e),
        }
    }

    /// Feeds one dial result in and says what to do next: pump on success,
    /// sleep one heartbeat and redial while the budget lasts, give up once
    /// it is spent.
    pub fn on_dial_result(&mut self, ok: bool) -> (a: UpstreamAction)
        requires
            old(self).state is Dialing,
        ensures
            *final(self) == step_dial(*old(self), ok),
            (a is Pump <==> ok),
            (a is RetryAfterHeartbeat <==> !ok && old(self).attempt < old(self).max_retries),
            (a is GiveUp <==> !ok && old(self).attempt >= old(self).max_retries),
    {
        if ok {
            self.state = ConnState::Connected;
            UpstreamAction::Pump
        } else if self.attempt < self.max_retries {
            self.attempt = self.attempt + 1;
            UpstreamAction::RetryAfterHeartbeat
        } else {
            self.state = ConnState::Failed;
            UpstreamAction::GiveUp
        }
    }

    /// The failure reported to the caller once the budget is spent.
    pub fn refused_error(&self, detail: String) -> (r: ProxyError)
        ensures
            r matches ProxyError::UpstreamConnectionRefused(d) && d == detail,
    {
        ProxyError::UpstreamConnectionRefused(detail)
    }
}

/// Law: an upstream connector pointed at a never-reachable address performs
/// exactly `max_retries + 1` dial attempts and then stops: after `k` of at
/// most `max_retries` failures it is still dialing (so each of the first
/// `max_retries + 1` dials happens), the next failure moves it to `Failed`,
/// and a failed connector accepts no further dial (`on_dial_result`
/// requires `Dialing`).
pub proof fn lemma_bounded_retry(c: UpstreamConnector, k: nat)
    requires
        c.state is Dialing,
        c.attempt == 0,
    ensures
        after_failures(c, k).max_retries == c.max_retries,
        k <= c.max_retries ==> after_failures(c, k).state is Dialing && after_failures(
            c,
            k,
        ).attempt == k,
        k == c.max_retries + 1 ==> after_failures(c, k).state is Failed && after_failures(
            c,
            k,
        ).attempt == c.max_retries,
    decreases k,
{
    if k > 0 {
        lemma_bounded_retry(c, (k - 1) as nat);
    }
}

} // verus!
