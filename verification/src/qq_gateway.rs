//! The QQ WebSocket gateway session as a state machine: the driver performs
//! each action and reports what happened as the next event.

use vstd::prelude::*;

use crate::qq::{dispatch_route, dispatch_route_spec, DispatchRoute, DEFAULT_INTENTS};

verus! {

#[derive(Debug, Clone, Copy, PartialEq, Eq, Structural)]
pub enum GatewayPhase {
    /// About to connect (or reconnect).
    Connecting,
    /// Connected; waiting for the server's hello.
    AwaitingHello,
    /// Hello received; waiting for an access token.
    AwaitingToken,
    /// Identify sent; waiting for it to go out.
    SendingIdentify,
    /// Identified: heartbeats and events flow.
    Running,
    /// Shut down.
    Stopped,
}

#[derive(Debug, Clone, Copy, PartialEq, Eq, Structural)]
pub struct GatewayState {
    pub phase: GatewayPhase,
    /// The sequence number of the last event received on this connection.
    pub last_sequence: Option<u64>,
    /// Milliseconds between heartbeats, as the hello announced.
    pub heartbeat_interval: u32,
}

/// A text frame of the gateway: its op code, sequence and event type, and the
/// heartbeat interval when its data reads as hello data.
#[derive(Debug, Clone)]
pub struct GatewayFrame {
    pub op: u8,
    pub s: Option<u64>,
    pub t: Option<String>,
    pub hello_interval: Option<u32>,
}

#[derive(Debug, Clone)]
pub enum GatewayEvent {
    /// Shutdown was requested.
    Shutdown,
    Connected,
    ConnectFailed,
    /// A text frame that parsed.
    Frame(GatewayFrame),
    /// A text frame that did not parse.
    Unparsable,
    Ping,
    Pong,
    Closed,
    StreamError,
    StreamEnded,
    /// Any other WebSocket message.
    OtherMessage,
    /// The last frame the driver sent went out.
    Sent,
    /// Sending a frame failed.
    SendFailed,
    TokenReady,
    TokenFailed,
    HeartbeatTick,
}

#[derive(Debug, Clone, Copy, PartialEq, Eq, Structural)]
pub enum GatewayAction {
    Nothing,
    /// Return without closing.
    Stop,
    /// Send a close frame, then return.
    CloseAndStop,
    /// Connect to the gateway.
    Connect,
    /// Answer a ping with a pong carrying its data.
    SendPong,
    /// Wait five seconds, then connect again.
    ReconnectAfterDelay,
    /// Obtain an access token.
    FetchToken,
    /// Send identify with `QQBot <token>` and these intents.
    SendIdentify { intents: u32 },
    /// Start a heartbeat timer of this period.
    StartHeartbeat { interval_ms: u32 },
    /// Send a heartbeat carrying this sequence number.
    SendHeartbeat { seq: u64 },
    /// Hand the event's data to its handler.
    Dispatch { route: DispatchRoute },
}

/// The interval assumed until the hello announces one.
pub const DEFAULT_HEARTBEAT_INTERVAL_MS: u32 = 41250;

pub open spec fn in_phase(s: GatewayState, phase: GatewayPhase) -> GatewayState {
    GatewayState { phase, ..s }
}

/// The gateway's transition: the next state and the action to perform.
pub open spec fn gateway_next(s: GatewayState, e: GatewayEvent) -> (GatewayState, GatewayAction) {
    let reconnect = (in_phase(s, GatewayPhase::Connecting), GatewayAction::ReconnectAfterDelay);
    let stay = (s, GatewayAction::Nothing);
    match s.phase {
        GatewayPhase::Stopped => stay,
        GatewayPhase::Connecting => match e {
            GatewayEvent::Shutdown => (in_phase(s, GatewayPhase::Stopped), GatewayAction::Stop),
            GatewayEvent::Connected => (
                GatewayState {
                    phase: GatewayPhase::AwaitingHello,
                    last_sequence: None,
                    heartbeat_interval: DEFAULT_HEARTBEAT_INTERVAL_MS,
                },
                GatewayAction::Nothing,
            ),
            GatewayEvent::ConnectFailed => reconnect,
            _ => stay,
        },
        GatewayPhase::AwaitingHello => match e {
            GatewayEvent::Shutdown => (in_phase(s, GatewayPhase::Stopped), GatewayAction::Stop),
            GatewayEvent::Frame(f) => if f.op == 10 && f.hello_interval is Some {
                (
                    GatewayState {
                        phase: GatewayPhase::AwaitingToken,
                        heartbeat_interval: f.hello_interval->0,
                        ..s
                    },
                    GatewayAction::FetchToken,
                )
            } else {
                stay
            },
            GatewayEvent::Ping => (s, GatewayAction::SendPong),
            GatewayEvent::SendFailed => reconnect,
            GatewayEvent::Closed => reconnect,
            GatewayEvent::StreamError => reconnect,
            GatewayEvent::StreamEnded => reconnect,
            _ => stay,
        },
        GatewayPhase::AwaitingToken => match e {
            GatewayEvent::Shutdown => (in_phase(s, GatewayPhase::Stopped), GatewayAction::Stop),
            GatewayEvent::TokenReady => (
                in_phase(s, GatewayPhase::SendingIdentify),
                GatewayAction::SendIdentify { intents: DEFAULT_INTENTS },
            ),
            GatewayEvent::TokenFailed => reconnect,
            _ => stay,
        },
        GatewayPhase::SendingIdentify => match e {
            GatewayEvent::Shutdown => (in_phase(s, GatewayPhase::Stopped), GatewayAction::Stop),
            GatewayEvent::Sent => (
                in_phase(s, GatewayPhase::Running),
                GatewayAction::StartHeartbeat { interval_ms: s.heartbeat_interval },
            ),
            GatewayEvent::SendFailed => reconnect,
            _ => stay,
        },
        GatewayPhase::Running => match e {
            GatewayEvent::Shutdown => (
                in_phase(s, GatewayPhase::Stopped),
                GatewayAction::CloseAndStop,
            ),
            GatewayEvent::HeartbeatTick => (
                s,
                GatewayAction::SendHeartbeat {
                    seq: match s.last_sequence {
                        Some(q) => q,
                        None => 0,
                    },
                },
            ),
            GatewayEvent::Frame(f) => {
                let s2 = match f.s {
                    Some(q) => GatewayState { last_sequence: Some(q), ..s },
                    None => s,
                };
                if f.op == 0 {
                    match f.t {
                        Some(t) => (s2, GatewayAction::Dispatch { route: dispatch_route_spec(t@) }),
                        None => (s2, GatewayAction::Nothing),
                    }
                } else if f.op == 7 || f.op == 9 {
                    (in_phase(s2, GatewayPhase::Connecting), GatewayAction::ReconnectAfterDelay)
                } else {
                    (s2, GatewayAction::Nothing)
                }
            },
            GatewayEvent::Ping => (s, GatewayAction::SendPong),
            GatewayEvent::SendFailed => reconnect,
            GatewayEvent::Closed => reconnect,
            GatewayEvent::StreamError => reconnect,
            GatewayEvent::StreamEnded => reconnect,
            _ => stay,
        },
    }
}

/// The state a gateway session starts in: about to connect.
pub fn gateway_start() -> (s: GatewayState)
    ensures
        s.phase == GatewayPhase::Connecting,
        s.last_sequence is None,
        s.heartbeat_interval == DEFAULT_HEARTBEAT_INTERVAL_MS,
{
    GatewayState {
        phase: GatewayPhase::Connecting,
        last_sequence: None,
        heartbeat_interval: DEFAULT_HEARTBEAT_INTERVAL_MS,
    }
}

fn reconnect_from(s: GatewayState) -> (r: (GatewayState, GatewayAction))
    ensures
        r == (in_phase(s, GatewayPhase::Connecting), GatewayAction::ReconnectAfterDelay),
{
    (GatewayState { phase: GatewayPhase::Connecting, ..s }, GatewayAction::ReconnectAfterDelay)
}

fn stop_from(s: GatewayState) -> (r: (GatewayState, GatewayAction))
    ensures
        r == (in_phase(s, GatewayPhase::Stopped), GatewayAction::Stop),
{
    (GatewayState { phase: GatewayPhase::Stopped, ..s }, GatewayAction::Stop)
}

/// One step of the gateway session.
pub fn gateway_step(s: GatewayState, e: &GatewayEvent) -> (r: (GatewayState, GatewayAction))
    ensures
        r == gateway_next(s, *e),
{
    match s.phase {
        GatewayPhase::Stopped => (s, GatewayAction::Nothing),
        GatewayPhase::Connecting => match e {
            GatewayEvent::Shutdown => stop_from(s),
            GatewayEvent::Connected => (
                GatewayState {
                    phase: GatewayPhase::AwaitingHello,
                    last_sequence: None,
                    heartbeat_interval: DEFAULT_HEARTBEAT_INTERVAL_MS,
                },
                GatewayAction::Nothing,
            ),
            GatewayEvent::ConnectFailed => reconnect_from(s),
            _ => (s, GatewayAction::Nothing),
        },
        GatewayPhase::AwaitingHello => match e {
            GatewayEvent::Shutdown => stop_from(s),
            GatewayEvent::Frame(f) => {
                if f.op == 10 {
                    match f.hello_interval {
                        Some(i) => (
                            GatewayState {
                                phase: GatewayPhase::AwaitingToken,
                                heartbeat_interval: i,
                                ..s
                            },
                            GatewayAction::FetchToken,
                        ),
                        None => (s, GatewayAction::Nothing),
                    }
                } else {
                    (s, GatewayAction::Nothing)
                }
            },
            GatewayEvent::Ping => (s, GatewayAction::SendPong),
            GatewayEvent::SendFailed | GatewayEvent::Closed | GatewayEvent::StreamError
            | GatewayEvent::StreamEnded => reconnect_from(s),
            _ => (s, GatewayAction::Nothing),
        },
        GatewayPhase::AwaitingToken => match e {
            GatewayEvent::Shutdown => stop_from(s),
            GatewayEvent::TokenReady => (
                GatewayState { phase: GatewayPhase::SendingIdentify, ..s },
                GatewayAction::SendIdentify { intents: DEFAULT_INTENTS },
            ),
            GatewayEvent::TokenFailed => reconnect_from(s),
            _ => (s, GatewayAction::Nothing),
        },
        GatewayPhase::SendingIdentify => match e {
            GatewayEvent::Shutdown => stop_from(s),
            GatewayEvent::Sent => (
                GatewayState { phase: GatewayPhase::Running, ..s },
                GatewayAction::StartHeartbeat { interval_ms: s.heartbeat_interval },
            ),
            GatewayEvent::SendFailed => reconnect_from(s),
            _ => (s, GatewayAction::Nothing),
        },
        GatewayPhase::Running => match e {
            GatewayEvent::Shutdown => (
                GatewayState { phase: GatewayPhase::Stopped, ..s },
                GatewayAction::CloseAndStop,
            ),
            GatewayEvent::HeartbeatTick => {
                let seq = match s.last_sequence {
                    Some(q) => q,
                    None => 0,
                };
                (s, GatewayAction::SendHeartbeat { seq })
            },
            GatewayEvent::Frame(f) => {
                let s2 = match f.s {
                    Some(q) => GatewayState { last_sequence: Some(q), ..s },
                    None => s,
                };
                if f.op == 0 {
                    match &f.t {
                        Some(t) => (s2, GatewayAction::Dispatch { route: dispatch_route(t.as_str()) }),
                        None => (s2, GatewayAction::Nothing),
                    }
                } else if f.op == 7 || f.op == 9 {
                    reconnect_from(s2)
                } else {
                    (s2, GatewayAction::Nothing)
                }
            },
            GatewayEvent::Ping => (s, GatewayAction::SendPong),
            GatewayEvent::SendFailed | GatewayEvent::Closed | GatewayEvent::StreamError
            | GatewayEvent::StreamEnded => reconnect_from(s),
            _ => (s, GatewayAction::Nothing),
        },
    }
}

/// Once stopped, a session stays stopped and does nothing more.
pub proof fn lemma_stopped_is_final(s: GatewayState, e: GatewayEvent)
    requires
        s.phase == GatewayPhase::Stopped,
    ensures
        gateway_next(s, e) == (s, GatewayAction::Nothing),
{
}

/// A shutdown request stops the session from any phase; a running session
/// closes its connection first.
pub proof fn lemma_shutdown_stops(s: GatewayState)
    ensures
        gateway_next(s, GatewayEvent::Shutdown).0.phase == GatewayPhase::Stopped,
        s.phase == GatewayPhase::Running ==> gateway_next(s, GatewayEvent::Shutdown).1
            == GatewayAction::CloseAndStop,
{
}

/// Heartbeats are sent only once identified, and carry the sequence number of
/// the last event received (0 before any).
pub proof fn lemma_heartbeat_carries_last_sequence(s: GatewayState, e: GatewayEvent, seq: u64)
    requires
        gateway_next(s, e).1 == (GatewayAction::SendHeartbeat { seq }),
    ensures
        s.phase == GatewayPhase::Running,
        seq == (match s.last_sequence {
            Some(q) => q,
            None => 0,
        }),
{
}

/// Events are handed to their handlers only once identified.
pub proof fn lemma_dispatch_only_when_running(s: GatewayState, e: GatewayEvent)
    requires
        gateway_next(s, e).1 is Dispatch,
    ensures
        s.phase == GatewayPhase::Running,
{
}

/// The heartbeat timer runs at the period the hello announced.
pub proof fn lemma_heartbeat_period_from_hello(s: GatewayState, f: GatewayFrame, t: GatewayState)
    requires
        s.phase == GatewayPhase::AwaitingHello,
        f.op == 10,
        f.hello_interval is Some,
        t == gateway_next(s, GatewayEvent::Frame(f)).0,
    ensures
        gateway_next(gateway_next(t, GatewayEvent::TokenReady).0, GatewayEvent::Sent).1
            == (GatewayAction::StartHeartbeat { interval_ms: f.hello_interval->0 }),
{
}

/// A running session remembers the sequence number of every event that carries one.
pub proof fn lemma_sequence_tracked(s: GatewayState, f: GatewayFrame)
    requires
        s.phase == GatewayPhase::Running,
        f.s is Some,
    ensures
        gateway_next(s, GatewayEvent::Frame(f)).0.last_sequence == f.s,
{
}

} // verus!
