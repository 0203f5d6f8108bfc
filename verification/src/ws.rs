//! The WebSocket session: caller-facing lifecycle operations and the
//! decision core of the background execution unit. The session object models
//! the shared state (status and command channel); the driver turns each
//! transport event into status updates and actions, and decides reconnection.
//! The surrounding program owns the physical socket: it performs the actions
//! and feeds the events back in.

use vstd::prelude::*;
use vstd::utf8::{decode_utf8, valid_utf8};

use vstd::arithmetic::power2::{pow2, lemma_pow2_strictly_increases, lemma_pow2_unfold,
    lemma2_to64, lemma2_to64_rest};

use crate::errors::ClientError;
use crate::json::{json_text, to_json_text, JsonValue};

verus! {

/// The lifecycle states of a session.
#[derive(Debug, Clone, Copy, PartialEq, Eq, Structural)]
pub enum WsStatus {
    Connecting,
    Connected,
    Disconnecting,
    Disconnected,
    Reconnecting,
    Error,
}

/// A command the caller hands to the background unit.
#[derive(Debug, Clone)]
pub enum WsCommand {
    Send(String),
    Close,
}

/// The model of a command.
pub enum WsCommandV {
    Send(Seq<char>),
    Close,
}

impl View for WsCommand {
    type V = WsCommandV;

    open spec fn view(&self) -> WsCommandV {
        match self {
            WsCommand::Send(s) => WsCommandV::Send(s@),
            WsCommand::Close => WsCommandV::Close,
        }
    }
}

/// The models of a command list.
pub open spec fn queue_model(q: Seq<WsCommand>) -> Seq<WsCommandV> {
    Seq::new(q.len(), |i: int| q[i]@)
}

/// Session configuration.
#[derive(Debug, Clone)]
pub struct WsConfig {
    pub headers: Option<Vec<(String, String)>>,
    pub timeout: Option<u64>,
    pub auto_reconnect: Option<bool>,
    pub max_reconnect_attempts: Option<u32>,
}

/// The bound on the caller-facing command channel.
pub const COMMAND_QUEUE_CAPACITY: usize = 100;

/// Whether `url::Url::parse` accepts this string; the answer depends on the
/// string alone.
pub uninterp spec fn url_is_valid(s: Seq<char>) -> bool;

/// Relies on `url::Url::parse`: validity of a URL string is a function of
/// the string alone.
#[verifier::external_body]
fn url_parse_ok(s: &str) -> (r: bool)
    ensures
        r == url_is_valid(s@),
{
    url::Url::parse(s).is_ok()
}

/// One logical WebSocket endpoint: the target, the configuration, the shared
/// status, and the commands accepted from the caller and not yet drained by
/// the background unit. The command channel exists from `connect()` until the
/// background unit is fully torn down; the channel the transport layer uses
/// is bounded by `COMMAND_QUEUE_CAPACITY`, with callers waiting for space.
#[derive(Debug)]
pub struct WebSocketClient {
    pub url: String,
    pub config: WsConfig,
    pub status: WsStatus,
    pub command_queue: Option<Vec<WsCommand>>,
}

impl WebSocketClient {
    /// A session for `url`; without a configuration, the defaults: no extra
    /// headers, a thirty-unit timeout, auto-reconnect on, three attempts.
    pub fn new(url: &str, config: Option<WsConfig>) -> (r: Self)
        ensures
            r.url@ == url@,
            r.status == WsStatus::Disconnected,
            r.command_queue is None,
            match config {
                Some(c) => r.config == c,
                None => r.config.headers is None && r.config.timeout == Some(30u64)
                    && r.config.auto_reconnect == Some(true)
                    && r.config.max_reconnect_attempts == Some(3u32),
            },
    {
        WebSocketClient {
            url: String::from_str(url),
            config: match config {
                Some(c) => c,
                None => WsConfig {
                    headers: None,
                    timeout: Some(30),
                    auto_reconnect: Some(true),
                    max_reconnect_attempts: Some(3),
                },
            },
            status: WsStatus::Disconnected,
            command_queue: None,
        }
    }

    /// The current connection state.
    pub fn status(&self) -> (r: WsStatus)
        ensures
            r == self.status,
    {
        self.status
    }

    /// Starts the session. Valid only from `Disconnected`: any other state
    /// yields an already-active error with no side effects, so a second
    /// `connect()` can never start a second background unit. On acceptance
    /// the command channel is created and the state becomes `Connecting`;
    /// an unparsable URL instead leaves the session in `Error`.
    pub fn connect(&mut self) -> (r: Result<(), ClientError>)
        ensures
            old(self).status != WsStatus::Disconnected ==> r is Err && r->Err_0
                is WsAlreadyActive && *final(self) == *old(self),
            old(self).status == WsStatus::Disconnected ==> {
                &&& final(self).url == old(self).url
                &&& final(self).config == old(self).config
                &&& final(self).command_queue is Some
                &&& final(self).command_queue->0@.len() == 0
                &&& (url_is_valid(old(self).url@) ==> r is Ok && final(self).status
                    == WsStatus::Connecting)
                &&& (!url_is_valid(old(self).url@) ==> r is Err && r->Err_0
                    is WsTransportError && final(self).status == WsStatus::Error)
            },
    {
        match self.status {
            WsStatus::Disconnected => {
                self.status = WsStatus::Connecting;
                self.command_queue = Some(Vec::new());
                if url_parse_ok(self.url.as_str()) {
                    Ok(())
                } else {
                    self.status = WsStatus::Error;
                    Err(
                        ClientError::WsTransportError {
                            cause: String::from_str("the session URL does not parse"),
                        },
                    )
                }
            },
            _ => Err(ClientError::WsAlreadyActive),
        }
    }

    /// Enqueues a text message. Valid only while `Connected`: otherwise the
    /// call fails with a not-connected error and enqueues nothing. Delivery
    /// is asynchronous; the call does not wait for the transport.
    pub fn send(&mut self, message: &str) -> (r: Result<(), ClientError>)
        ensures
            old(self).status != WsStatus::Connected ==> r is Err && r->Err_0 is WsNotConnected
                && *final(self) == *old(self),
            old(self).status == WsStatus::Connected && old(self).command_queue is None ==> r
                is Err && r->Err_0 is WsCommandChannelClosed && *final(self) == *old(self),
            old(self).status == WsStatus::Connected && old(self).command_queue is Some ==> r
                is Ok && final(self).command_queue is Some && queue_model(
                final(self).command_queue->0@,
            ) == queue_model(old(self).command_queue->0@).push(WsCommandV::Send(message@))
                && final(self).status == old(self).status && final(self).url == old(self).url
                && final(self).config == old(self).config,
    {
        match self.status {
            WsStatus::Connected => {
                match &mut self.command_queue {
                    Some(q) => {
                        let ghost before = q@;
                        q.push(WsCommand::Send(String::from_str(message)));
                        proof {
                            assert(queue_model(q@) =~= queue_model(before).push(
                                WsCommandV::Send(message@),
                            ));
                        }
                        Ok(())
                    },
                    None => Err(ClientError::WsCommandChannelClosed),
                }
            },
            _ => Err(ClientError::WsNotConnected),
        }
    }

    /// Serializes a structured value and enqueues it as one text message:
    /// what the peer receives as text is exactly the serialization.
    pub fn send_structured(&mut self, value: &JsonValue) -> (r: Result<(), ClientError>)
        ensures
            old(self).status != WsStatus::Connected ==> r is Err && r->Err_0 is WsNotConnected
                && *final(self) == *old(self),
            old(self).status == WsStatus::Connected && old(self).command_queue is None ==> r
                is Err && r->Err_0 is WsCommandChannelClosed && *final(self) == *old(self),
            old(self).status == WsStatus::Connected && old(self).command_queue is Some ==> r
                is Ok && final(self).command_queue is Some && queue_model(
                final(self).command_queue->0@,
            ) == queue_model(old(self).command_queue->0@).push(
                WsCommandV::Send(json_text(value@)),
            ) && final(self).status == old(self).status && final(self).url == old(self).url
                && final(self).config == old(self).config,
    {
        let text = to_json_text(value);
        self.send(text.as_str())
    }

    /// Requests teardown. A no-op success when already `Disconnected`;
    /// otherwise enqueues a close command without waiting for the session to
    /// reach `Disconnected`.
    pub fn close(&mut self) -> (r: Result<(), ClientError>)
        ensures
            old(self).status == WsStatus::Disconnected ==> r is Ok && *final(self) == *old(self),
            old(self).status != WsStatus::Disconnected && old(self).command_queue is None ==> r
                is Err && r->Err_0 is WsCommandChannelClosed && *final(self) == *old(self),
            old(self).status != WsStatus::Disconnected && old(self).command_queue is Some ==> r
                is Ok && final(self).command_queue is Some && queue_model(
                final(self).command_queue->0@,
            ) == queue_model(old(self).command_queue->0@).push(WsCommandV::Close)
                && final(self).status == old(self).status && final(self).url == old(self).url
                && final(self).config == old(self).config,
    {
        match self.status {
            WsStatus::Disconnected => Ok(()),
            _ => {
                match &mut self.command_queue {
                    Some(q) => {
                        let ghost before = q@;
                        q.push(WsCommand::Close);
                        proof {
                            assert(queue_model(q@) =~= queue_model(before).push(
                                WsCommandV::Close,
                            ));
                        }
                        Ok(())
                    },
                    None => Err(ClientError::WsCommandChannelClosed),
                }
            },
        }
    }
}

/// A session for `url`, already started.
pub fn connect_websocket(url: &str, config: Option<WsConfig>) -> (r: Result<
    WebSocketClient,
    ClientError,
>)
    ensures
        url_is_valid(url@) ==> r is Ok && r->Ok_0.status == WsStatus::Connecting && r->Ok_0.url@
            == url@,
        !url_is_valid(url@) ==> r is Err && r->Err_0 is WsTransportError,
{
    let mut client = WebSocketClient::new(url, config);
    match client.connect() {
        Ok(()) => Ok(client),
        Err(e) => Err(e),
    }
}

/// An event the background unit reacts to: an inbound frame, a caller
/// command, a keepalive tick, or a transport outcome.
#[derive(Debug)]
pub enum WsEvent {
    TextFrame(String),
    BinaryFrame(Vec<u8>),
    Ping,
    Pong,
    CloseFrame(Option<u16>, String),
    TransportError(String),
    StreamEnd,
    Command(WsCommand),
    ChannelClosed,
    KeepaliveTick,
    WriteFailed(String),
}

/// An effect the background unit asks its host to perform: invoke a handler,
/// or write a frame.
#[derive(Debug)]
pub enum WsAction {
    EmitMessage(String),
    EmitError(String),
    EmitOpen,
    EmitClose(Option<u16>, String),
    SendPong,
    SendPing,
    SendText(String),
    SendClose,
}

/// How one event leaves the message loop.
#[derive(Debug)]
pub enum LoopOutcome {
    Continue,
    EndOk,
    EndErr(String),
}

/// What follows once the message loop has ended.
#[derive(Debug, Clone, Copy, PartialEq, Eq, Structural)]
pub enum LoopEnd {
    Retry { backoff_secs: u64 },
    Stop,
}

/// The backoff before reconnect attempt `n`: exponential, saturating at the
/// largest representable value.
pub open spec fn backoff_secs_spec(n: u32) -> u64 {
    if n < 64 {
        pow2(n as nat) as u64
    } else {
        u64::MAX
    }
}

/// Exec mirror of `backoff_secs_spec`.
fn backoff_secs(n: u32) -> (r: u64)
    ensures
        r == backoff_secs_spec(n),
{
    if n >= 64 {
        return u64::MAX;
    }
    proof {
        lemma2_to64();
    }
    let mut acc: u64 = 1;
    let mut i: u32 = 0;
    while i < n
        invariant
            i <= n < 64,
            acc == pow2(i as nat),
        decreases n - i,
    {
        proof {
            lemma2_to64_rest();
            if (i as nat) < 63 {
                lemma_pow2_strictly_increases(i as nat, 63);
            }
            lemma_pow2_unfold((i + 1) as nat);
        }
        acc = acc * 2;
        i = i + 1;
    }
    acc
}

/// The decision core of the background unit: the reconnect counter and the
/// keepalive bookkeeping. Time is modeled in keepalive ticks, one per fixed
/// interval.
#[derive(Debug, Clone, Copy, PartialEq, Eq, Structural)]
pub struct SessionDriver {
    pub auto_reconnect: bool,
    pub max_attempts: u32,
    pub attempts: u32,
    pub ticks_without_pong: u32,
}

/// What `after_loop` does: on a retry the attempt counter grows and the
/// session backs off exponentially; otherwise the session settles in
/// `Disconnected` and the close handler fires (the `bool` of the result),
/// exactly once per stop.
pub open spec fn spec_after_loop(d: SessionDriver) -> (SessionDriver, WsStatus, bool, Option<
    u64,
>) {
    if d.auto_reconnect && d.attempts < d.max_attempts {
        (
            SessionDriver { attempts: (d.attempts + 1) as u32, ..d },
            WsStatus::Reconnecting,
            false,
            Some(backoff_secs_spec((d.attempts + 1) as u32)),
        )
    } else {
        (d, WsStatus::Disconnected, true, None)
    }
}

impl SessionDriver {
    /// A fresh driver from a session configuration; missing fields default
    /// to auto-reconnect with three attempts.
    pub fn new(config: &WsConfig) -> (r: Self)
        ensures
            r.auto_reconnect == match config.auto_reconnect {
                Some(b) => b,
                None => true,
            },
            r.max_attempts == match config.max_reconnect_attempts {
                Some(m) => m,
                None => 3u32,
            },
            r.attempts == 0,
            r.ticks_without_pong == 0,
    {
        SessionDriver {
            auto_reconnect: match config.auto_reconnect {
                Some(b) => b,
                None => true,
            },
            max_attempts: match config.max_reconnect_attempts {
                Some(m) => m,
                None => 3,
            },
            attempts: 0,
            ticks_without_pong: 0,
        }
    }

    /// A successful handshake: the attempt counter resets, the session is
    /// `Connected`, and the open handler fires.
    pub fn handshake_succeeded(&mut self) -> (r: (WsStatus, Vec<WsAction>))
        ensures
            final(self).attempts == 0,
            final(self).ticks_without_pong == 0,
            final(self).auto_reconnect == old(self).auto_reconnect,
            final(self).max_attempts == old(self).max_attempts,
            r.0 == WsStatus::Connected,
            r.1@.len() == 1 && r.1@[0] is EmitOpen,
    {
        self.attempts = 0;
        self.ticks_without_pong = 0;
        let mut actions: Vec<WsAction> = Vec::new();
        actions.push(WsAction::EmitOpen);
        (WsStatus::Connected, actions)
    }

    /// A failed handshake: the error handler fires with the failure detail
    /// and the session is in `Error`; the reconnection decision follows.
    pub fn handshake_failed(&mut self, detail: &str) -> (r: (WsStatus, Vec<WsAction>))
        ensures
            *final(self) == *old(self),
            r.0 == WsStatus::Error,
            r.1@.len() == 1 && (r.1@[0] matches WsAction::EmitError(e) && e@
                == "Connection error: "@ + detail@),
    {
        let mut msg = String::new();
        msg.append("Connection error: ");
        msg.append(detail);
        let mut actions: Vec<WsAction> = Vec::new();
        actions.push(WsAction::EmitError(msg));
        (WsStatus::Error, actions)
    }

    /// Handles one event of the message loop. Text frames reach the message
    /// handler; binary frames are decoded first and a decode failure is
    /// non-fatal; pings are answered; pongs feed the keepalive; close frames
    /// and stream end finish the loop cleanly; transport and write failures
    /// finish it with an error; a close command finishes it cleanly whatever
    /// the close write does (the transient `Disconnecting` state lies inside
    /// this step); a keepalive tick sends a ping after a full interval
    /// without a pong.
    pub fn process_event(&mut self, ev: WsEvent) -> (r: (
        Vec<WsAction>,
        Option<WsStatus>,
        LoopOutcome,
    ))
        ensures
            final(self).auto_reconnect == old(self).auto_reconnect && final(self).max_attempts
                == old(self).max_attempts && final(self).attempts == old(self).attempts,
            ev matches WsEvent::TextFrame(t) ==> r.0@ == seq![WsAction::EmitMessage(t)] && r.1
                is None && r.2 is Continue && *final(self) == *old(self),
            ev matches WsEvent::BinaryFrame(d) ==> {
                &&& valid_utf8(d@) ==> r.0@.len() == 1 && (r.0@[0] matches
                    WsAction::EmitMessage(s) && s@ == decode_utf8(d@))
                &&& !valid_utf8(d@) ==> r.0@.len() == 1 && r.0@[0] is EmitError
                &&& r.1 is None
                &&& r.2 is Continue
                &&& *final(self) == *old(self)
            },
            ev is Ping ==> r.0@ == seq![WsAction::SendPong] && r.1 is None && r.2 is Continue
                && *final(self) == *old(self),
            ev is Pong ==> r.0@.len() == 0 && r.1 is None && r.2 is Continue && final(self).ticks_without_pong == 0,
            ev matches WsEvent::CloseFrame(code, reason) ==> r.0@ == seq![
                WsAction::EmitClose(code, reason),
            ] && r.1 == Some(WsStatus::Disconnected) && r.2 is EndOk && *final(self) == *old(self),
            ev matches WsEvent::TransportError(e) ==> r.0@.len() == 1 && (r.0@[0] matches
                WsAction::EmitError(m) && m@ == "WebSocket error: "@ + e@) && r.1 is None && (
            r.2 matches LoopOutcome::EndErr(c) && c@ == "WebSocket error: "@ + e@) && *final(self) == *old(self),
            ev is StreamEnd ==> r.0@.len() == 1 && (r.0@[0] matches WsAction::EmitClose(
                code,
                reason,
            ) && code is None && reason@ == "Connection closed"@) && r.1 == Some(
                WsStatus::Disconnected,
            ) && r.2 is EndOk && *final(self) == *old(self),
            ev matches WsEvent::Command(c) ==> {
                &&& c matches WsCommand::Send(t) ==> r.0@ == seq![WsAction::SendText(t)] && r.1
                    is None && r.2 is Continue && *final(self) == *old(self)
                &&& c is Close ==> r.0@ == seq![WsAction::SendClose] && r.1 == Some(
                    WsStatus::Disconnected,
                ) && r.2 is EndOk && *final(self) == *old(self)
            },
            ev is ChannelClosed ==> r.0@.len() == 0 && r.1 is None && r.2 is EndOk && *final(self) == *old(self),
            ev is KeepaliveTick ==> {
                let t = if old(self).ticks_without_pong < u32::MAX {
                    (old(self).ticks_without_pong + 1) as u32
                } else {
                    old(self).ticks_without_pong
                };
                &&& final(self).ticks_without_pong == t
                &&& (t >= 2 ==> r.0@ == seq![WsAction::SendPing])
                &&& (t < 2 ==> r.0@.len() == 0)
                &&& r.1 is None
                &&& r.2 is Continue
            },
            ev matches WsEvent::WriteFailed(e) ==> r.0@.len() == 1 && (r.0@[0] matches
                WsAction::EmitError(m) && m@ == e@) && r.1 is None && (r.2 matches
                LoopOutcome::EndErr(c) && c@ == e@) && *final(self) == *old(self),
    {
        let mut actions: Vec<WsAction> = Vec::new();
        match ev {
            WsEvent::TextFrame(t) => {
                actions.push(WsAction::EmitMessage(t));
                proof {
                    assert(actions@ =~= seq![WsAction::EmitMessage(t)]);
                }
                (actions, None, LoopOutcome::Continue)
            },
            WsEvent::BinaryFrame(d) => {
                match crate::text::utf8_to_string(&d) {
                    Some(s) => {
                        actions.push(WsAction::EmitMessage(s));
                        (actions, None, LoopOutcome::Continue)
                    },
                    None => {
                        actions.push(
                            WsAction::EmitError(
                                String::from_str("Received binary data that is not valid UTF-8"),
                            ),
                        );
                        (actions, None, LoopOutcome::Continue)
                    },
                }
            },
            WsEvent::Ping => {
                actions.push(WsAction::SendPong);
                proof {
                    assert(actions@ =~= seq![WsAction::SendPong]);
                }
                (actions, None, LoopOutcome::Continue)
            },
            WsEvent::Pong => {
                self.ticks_without_pong = 0;
                (actions, None, LoopOutcome::Continue)
            },
            WsEvent::CloseFrame(code, reason) => {
                actions.push(WsAction::EmitClose(code, reason));
                proof {
                    assert(actions@ =~= seq![
                        WsAction::EmitClose(ev->CloseFrame_0, ev->CloseFrame_1),
                    ]);
                }
                (actions, Some(WsStatus::Disconnected), LoopOutcome::EndOk)
            },
            WsEvent::TransportError(e) => {
                let mut msg = String::new();
                msg.append("WebSocket error: ");
                msg.append(e.as_str());
                let cause = msg.clone();
                actions.push(WsAction::EmitError(msg));
                (actions, None, LoopOutcome::EndErr(cause))
            },
            WsEvent::StreamEnd => {
                actions.push(
                    WsAction::EmitClose(None, String::from_str("Connection closed")),
                );
                (actions, Some(WsStatus::Disconnected), LoopOutcome::EndOk)
            },
            WsEvent::Command(WsCommand::Send(t)) => {
                actions.push(WsAction::SendText(t));
                proof {
                    assert(actions@ =~= seq![WsAction::SendText(ev->Command_0->Send_0)]);
                }
                (actions, None, LoopOutcome::Continue)
            },
            WsEvent::Command(WsCommand::Close) => {
                actions.push(WsAction::SendClose);
                proof {
                    assert(actions@ =~= seq![WsAction::SendClose]);
                }
                (actions, Some(WsStatus::Disconnected), LoopOutcome::EndOk)
            },
            WsEvent::ChannelClosed => (actions, None, LoopOutcome::EndOk),
            WsEvent::KeepaliveTick => {
                if self.ticks_without_pong < u32::MAX {
                    self.ticks_without_pong = self.ticks_without_pong + 1;
                }
                if self.ticks_without_pong >= 2 {
                    actions.push(WsAction::SendPing);
                    proof {
                        assert(actions@ =~= seq![WsAction::SendPing]);
                    }
                }
                (actions, None, LoopOutcome::Continue)
            },
            WsEvent::WriteFailed(e) => {
                let cause = e.clone();
                actions.push(WsAction::EmitError(e));
                (actions, None, LoopOutcome::EndErr(cause))
            },
        }
    }

    /// The reconnection decision once the message loop has ended, clean or
    /// not: retry with exponential backoff while auto-reconnect is on and
    /// attempts remain, else settle in `Disconnected` and fire the close
    /// handler exactly once.
    pub fn after_loop(&mut self) -> (r: (WsStatus, Vec<WsAction>, LoopEnd))
        ensures
            ({
                let m = spec_after_loop(*old(self));
                &&& *final(self) == m.0
                &&& r.0 == m.1
                &&& (m.2 ==> r.1@.len() == 1 && (r.1@[0] matches WsAction::EmitClose(
                    code,
                    reason,
                ) && code is None && reason@ == "Connection closed"@))
                &&& (!m.2 ==> r.1@.len() == 0)
                &&& r.2 == match m.3 {
                    Some(b) => LoopEnd::Retry { backoff_secs: b },
                    None => LoopEnd::Stop,
                }
            }),
    {
        if self.auto_reconnect && self.attempts < self.max_attempts {
            self.attempts = self.attempts + 1;
            let b = backoff_secs(self.attempts);
            (WsStatus::Reconnecting, Vec::new(), LoopEnd::Retry { backoff_secs: b })
        } else {
            let mut actions: Vec<WsAction> = Vec::new();
            actions.push(
                WsAction::EmitClose(None, String::from_str("Connection closed")),
            );
            (WsStatus::Disconnected, actions, LoopEnd::Stop)
        }
    }
}

/// While attempts remain, each loop end backs off `2^attempts` time units
/// with the freshly incremented counter, stays reconnecting, and fires no
/// close handler.
pub proof fn lemma_retry_backoff(d: SessionDriver)
    requires
        d.auto_reconnect,
        d.attempts < d.max_attempts,
    ensures
        spec_after_loop(d).0.attempts == d.attempts + 1,
        spec_after_loop(d).1 == WsStatus::Reconnecting,
        !spec_after_loop(d).2,
        spec_after_loop(d).3 == Some(backoff_secs_spec((d.attempts + 1) as u32)),
{
}

/// Once attempts are exhausted (or auto-reconnect is off), the session
/// settles in `Disconnected`, the close handler fires exactly once, and the
/// background unit stops.
pub proof fn lemma_close_once_on_stop(d: SessionDriver)
    requires
        !(d.auto_reconnect && d.attempts < d.max_attempts),
    ensures
        spec_after_loop(d).1 == WsStatus::Disconnected,
        spec_after_loop(d).2,
        spec_after_loop(d).3 is None,
{
}

/// A session with auto-reconnect on and three attempts whose every handshake
/// fails: the three retries back off two, four and eight time units, and the
/// fourth loop end settles in `Disconnected` with the close handler fired on
/// that step alone.
pub proof fn lemma_exhaustion_run(d0: SessionDriver)
    requires
        d0.auto_reconnect,
        d0.max_attempts == 3,
        d0.attempts == 0,
    ensures
        ({
            let s1 = spec_after_loop(d0);
            let s2 = spec_after_loop(s1.0);
            let s3 = spec_after_loop(s2.0);
            let s4 = spec_after_loop(s3.0);
            &&& s1.1 == WsStatus::Reconnecting && !s1.2 && s1.3 == Some(2u64)
            &&& s2.1 == WsStatus::Reconnecting && !s2.2 && s2.3 == Some(4u64)
            &&& s3.1 == WsStatus::Reconnecting && !s3.2 && s3.3 == Some(8u64)
            &&& s4.1 == WsStatus::Disconnected && s4.2 && s4.3 is None
        }),
{
    lemma2_to64();
}

} // verus!
