//! The gateway's request routing and lifecycle. Routing: the first path
//! segment of an inbound request is the routing key; an unresolvable key
//! answers an empty success, a CONNECT with a valid socket-address
//! authority starts a tunnel to that authority, a CONNECT with a bad
//! authority answers a client error, and anything else is forwarded to
//! the resolved endpoint with the key segment stripped. Lifecycle: the
//! accept loop is a state machine that races new connections against one
//! shutdown notification, stops accepting the instant shutdown is seen,
//! and stops only once every spawned task has finished.

use vstd::prelude::*;
use vstd::string::StrSliceExecFns;
use crate::addr::{chars_vec, is_socket_addr, valid_socket_addr};
use crate::registry::{resolvable, ServiceRegistry};

verus! {

/// Index of the first `/` at or after `i`, or the length.
pub open spec fn first_slash(p: Seq<char>, i: int) -> int
    decreases p.len() - i,
{
    if i < 0 || i >= p.len() {
        p.len() as int
    } else if p[i] == '/' {
        i
    } else {
        first_slash(p, i + 1)
    }
}

/// The path with one leading `/` stripped.
pub open spec fn strip_lead(p: Seq<char>) -> Seq<char> {
    if p.len() > 0 && p[0] == '/' {
        p.subrange(1, p.len() as int)
    } else {
        p
    }
}

/// The routing key: the first path segment after one leading `/`.
pub open spec fn route_key(p: Seq<char>) -> Seq<char> {
    strip_lead(p).subrange(0, first_slash(strip_lead(p), 0))
}

/// What is forwarded to the backend: everything after the key segment,
/// or `/` when nothing follows it.
pub open spec fn forward_path(p: Seq<char>) -> Seq<char> {
    let q = strip_lead(p);
    let e = first_slash(q, 0);
    if e == q.len() {
        seq!['/']
    } else {
        q.subrange(e, q.len() as int)
    }
}

proof fn lemma_first_slash_at(q: Seq<char>, i: int, e: int)
    requires
        0 <= i <= e <= q.len(),
        forall|t: int| i <= t < e ==> q[t] != '/',
        e < q.len() ==> q[e] == '/',
    ensures
        first_slash(q, i) == e,
    decreases e - i,
{
    if i < e {
        lemma_first_slash_at(q, i + 1, e);
    }
}

/// Split a request path into its routing key and the forwarded remainder.
pub fn split_path(path: &str) -> (r: (String, String))
    ensures
        r.0@ == route_key(path@),
        r.1@ == forward_path(path@),
{
    let v = chars_vec(path);
    let n = v.len();
    let start: usize = if n > 0 && v[0] == '/' {
        1
    } else {
        0
    };
    let ghost q = strip_lead(path@);
    proof {
        assert(q =~= path@.subrange(start as int, n as int));
    }
    let e = match crate::addr::find_char(&v, start, n, '/') {
        Some(d) => d,
        None => n,
    };
    proof {
        assert forall|t: int| 0 <= t < e - start implies q[t] != '/' by {
            assert(q[t] == path@[start + t]);
        }
        if e < n {
            assert(q[e - start] == path@[e as int]);
        }
        lemma_first_slash_at(q, 0, e - start);
    }
    let key = path.substring_char(start, e).to_owned();
    proof {
        assert(key@ =~= route_key(path@));
    }
    if e == n {
        let rest = "/".to_owned();
        proof {
            reveal_strlit("/");
            assert(rest@ =~= seq!['/']);
        }
        (key, rest)
    } else {
        let rest = path.substring_char(e, n).to_owned();
        proof {
            assert(rest@ =~= forward_path(path@));
        }
        (key, rest)
    }
}

/// How one request is handled, decided from the registry, the method
/// class and the request target.
#[derive(Debug)]
pub enum RouteDecision {
    /// The routing key has no registered service or no endpoint: answer
    /// an empty success and do no network work.
    NoRoute,
    /// A CONNECT whose authority is a valid socket address: tunnel raw
    /// bytes to that authority after answering an empty success.
    Tunnel { target: String },
    /// A CONNECT whose authority is missing or no socket address: answer
    /// a client error with a diagnostic body.
    BadConnect,
    /// Any other method: forward the request to the resolved endpoint
    /// with the key segment stripped from the path.
    Forward { endpoint: String, path: String },
}

/// Whether a CONNECT authority is present and a valid socket address.
pub open spec fn authority_ok(authority: Option<&str>) -> bool {
    match authority {
        Some(a) => valid_socket_addr(a@),
        None => false,
    }
}

/// Decide a request's route. The routing key gates on the registry in
/// every case; a CONNECT then tunnels to the request's own authority,
/// anything else is forwarded to the resolved endpoint.
pub fn route_request(reg: &ServiceRegistry, is_connect: bool, path: &str, authority: Option<
    &str,
>) -> (d: RouteDecision)
    requires
        reg.wf(),
    ensures
        d is NoRoute <==> !resolvable(reg@, route_key(path@)),
        d is Tunnel <==> resolvable(reg@, route_key(path@)) && is_connect && authority_ok(
            authority,
        ),
        d is BadConnect <==> resolvable(reg@, route_key(path@)) && is_connect && !authority_ok(
            authority,
        ),
        d is Forward <==> resolvable(reg@, route_key(path@)) && !is_connect,
        d matches RouteDecision::Tunnel { target } ==> target@ == authority.unwrap()@,
        d matches RouteDecision::Forward { endpoint, path: fp } ==> reg@.contains_key(
            route_key(path@),
        ) && reg@[route_key(path@)].endpoints.contains(endpoint@) && fp@ == forward_path(path@),
{
    let (key, rest) = split_path(path);
    match reg.resolve_endpoint(key) {
        None => RouteDecision::NoRoute,
        Some(endpoint) => {
            if is_connect {
                match authority {
                    Some(a) => {
                        if is_socket_addr(a) {
                            RouteDecision::Tunnel { target: a.to_owned() }
                        } else {
                            RouteDecision::BadConnect
                        }
                    },
                    None => RouteDecision::BadConnect,
                }
            } else {
                RouteDecision::Forward { endpoint, path: rest }
            }
        },
    }
}

/// The HTTP answer owed at the gateway itself: empty success for a
/// routing miss and for a started tunnel, a client error with a
/// diagnostic for a malformed CONNECT, and nothing here for a forward
/// (the backend's response is relayed instead).
pub fn decision_response(d: &RouteDecision) -> (r: Option<(u16, String)>)
    ensures
        match d {
            RouteDecision::NoRoute => r matches Some((status, body)) && status == 200 && body@
                =~= Seq::<char>::empty(),
            RouteDecision::Tunnel { .. } => r matches Some((status, body)) && status == 200
                && body@ =~= Seq::<char>::empty(),
            RouteDecision::BadConnect => r matches Some((status, body)) && status == 400 && body@
                == "CONNECT must be to a socket address"@,
            RouteDecision::Forward { .. } => r is None,
        },
{
    match d {
        RouteDecision::NoRoute => Some((200, String::new())),
        RouteDecision::Tunnel { .. } => Some((200, String::new())),
        RouteDecision::BadConnect => Some((400, "CONNECT must be to a socket address".to_owned())),
        RouteDecision::Forward { .. } => None,
    }
}

/// The accept loop's phase over the server lifetime.
#[derive(Clone, Copy, Debug, PartialEq, Eq, Structural)]
pub enum GatewayPhase {
    /// Constructed, not yet serving.
    Idle,
    /// Listener bound, accept loop racing connections against shutdown.
    Serving,
    /// Shutdown observed: no more accepts, awaiting in-flight tasks.
    Draining,
    /// Every spawned task has finished; serve returns.
    Stopped,
}

/// What the accept loop observes at one suspension point.
#[derive(Clone, Copy, Debug, PartialEq, Eq, Structural)]
pub enum GatewayEvent {
    /// The listener is bound and the loop starts.
    Started,
    /// A new connection is ready to be accepted.
    ConnectionReady,
    /// Accepting a connection failed; the loop goes on.
    AcceptFailed,
    /// The shutdown notification arrived (it wins any race).
    ShutdownReceived,
    /// One spawned connection task completed, well or badly.
    TaskFinished,
}

/// What the embedding loop must do next.
#[derive(Clone, Copy, Debug, PartialEq, Eq, Structural)]
pub enum GatewayAction {
    /// Accept the ready connection and spawn its handler task.
    AcceptAndSpawn,
    /// Do nothing further for this event.
    Ignore,
    /// Leave the accept loop without accepting anything more.
    ExitAcceptLoop,
}

/// The gateway lifecycle state: its phase and how many spawned
/// connection tasks have not yet finished.
#[derive(Clone, Copy, Debug, PartialEq, Eq, Structural)]
pub struct GatewayState {
    pub phase: GatewayPhase,
    pub pending: u64,
}

/// The lifecycle transition relation: one observed event maps to the
/// next state and the action owed. Shutdown is prioritized: once it is
/// observed, a ready connection is never accepted; the stopped phase is
/// reached only with zero pending tasks.
pub open spec fn gw_step(s: GatewayState, ev: GatewayEvent) -> (GatewayState, GatewayAction) {
    match ev {
        GatewayEvent::Started => {
            if s.phase == GatewayPhase::Idle {
                (GatewayState { phase: GatewayPhase::Serving, ..s }, GatewayAction::Ignore)
            } else {
                (s, GatewayAction::Ignore)
            }
        },
        GatewayEvent::ConnectionReady => {
            if s.phase == GatewayPhase::Serving {
                (
                    GatewayState { pending: (s.pending + 1) as u64, ..s },
                    GatewayAction::AcceptAndSpawn,
                )
            } else {
                (s, GatewayAction::Ignore)
            }
        },
        GatewayEvent::AcceptFailed => (s, GatewayAction::Ignore),
        GatewayEvent::ShutdownReceived => {
            if s.phase == GatewayPhase::Serving {
                if s.pending == 0 {
                    (
                        GatewayState { phase: GatewayPhase::Stopped, ..s },
                        GatewayAction::ExitAcceptLoop,
                    )
                } else {
                    (
                        GatewayState { phase: GatewayPhase::Draining, ..s },
                        GatewayAction::ExitAcceptLoop,
                    )
                }
            } else {
                (s, GatewayAction::Ignore)
            }
        },
        GatewayEvent::TaskFinished => {
            let left: u64 = if s.pending > 0 {
                (s.pending - 1) as u64
            } else {
                0
            };
            if s.phase == GatewayPhase::Draining && left == 0 {
                (
                    GatewayState { phase: GatewayPhase::Stopped, pending: left },
                    GatewayAction::Ignore,
                )
            } else {
                (GatewayState { pending: left, ..s }, GatewayAction::Ignore)
            }
        },
    }
}

/// Stopped means drained.
pub open spec fn gw_wf(s: GatewayState) -> bool {
    s.phase == GatewayPhase::Stopped ==> s.pending == 0
}

impl GatewayState {
    pub fn new() -> (r: Self)
        ensures
            r == (GatewayState { phase: GatewayPhase::Idle, pending: 0 }),
            gw_wf(r),
    {
        GatewayState { phase: GatewayPhase::Idle, pending: 0 }
    }

    /// Take one lifecycle step.
    pub fn on_event(&mut self, ev: GatewayEvent) -> (act: GatewayAction)
        requires
            old(self).pending < u64::MAX,
            gw_wf(*old(self)),
        ensures
            (*final(self), act) == gw_step(*old(self), ev),
            gw_wf(*final(self)),
    {
        match ev {
            GatewayEvent::Started => {
                if self.phase == GatewayPhase::Idle {
                    self.phase = GatewayPhase::Serving;
                }
                GatewayAction::Ignore
            },
            GatewayEvent::ConnectionReady => {
                if self.phase == GatewayPhase::Serving {
                    self.pending = self.pending + 1;
                    GatewayAction::AcceptAndSpawn
                } else {
                    GatewayAction::Ignore
                }
            },
            GatewayEvent::AcceptFailed => GatewayAction::Ignore,
            GatewayEvent::ShutdownReceived => {
                if self.phase == GatewayPhase::Serving {
                    if self.pending == 0 {
                        self.phase = GatewayPhase::Stopped;
                    } else {
                        self.phase = GatewayPhase::Draining;
                    }
                    GatewayAction::ExitAcceptLoop
                } else {
                    GatewayAction::Ignore
                }
            },
            GatewayEvent::TaskFinished => {
                if self.pending > 0 {
                    self.pending = self.pending - 1;
                }
                if self.phase == GatewayPhase::Draining && self.pending == 0 {
                    self.phase = GatewayPhase::Stopped;
                }
                GatewayAction::Ignore
            },
        }
    }
}

/// Once shutdown has been observed, no event ever makes the gateway
/// accept a connection again, and it never serves again.
pub proof fn lemma_no_accept_after_shutdown(s: GatewayState, ev: GatewayEvent)
    requires
        s.phase == GatewayPhase::Draining || s.phase == GatewayPhase::Stopped,
    ensures
        gw_step(s, ev).1 != GatewayAction::AcceptAndSpawn,
        gw_step(s, ev).0.phase == GatewayPhase::Draining || gw_step(s, ev).0.phase
            == GatewayPhase::Stopped,
{
}

/// The stopped phase is reached only with zero pending tasks: serve
/// returns only after every previously accepted connection's task has
/// completed.
pub proof fn lemma_stop_only_after_drain(s: GatewayState, ev: GatewayEvent)
    requires
        gw_wf(s),
    ensures
        gw_wf(gw_step(s, ev).0),
        gw_step(s, ev).0.phase == GatewayPhase::Stopped ==> gw_step(s, ev).0.pending == 0,
{
}

/// A single-slot, one-shot notification: the shutdown coordinator's
/// slot, and equally the signal listener's "has fired" state. The first
/// request is delivered; every later one is a harmless no-op.
pub struct OneShot {
    pub fired: bool,
}

impl OneShot {
    pub fn new() -> (r: Self)
        ensures
            !r.fired,
    {
        OneShot { fired: false }
    }

    /// Request the notification: delivered exactly on the first call.
    pub fn request(&mut self) -> (delivered: bool)
        ensures
            final(self).fired,
            delivered == !old(self).fired,
    {
        let delivered = !self.fired;
        self.fired = true;
        delivered
    }
}

} // verus!
