//! The connection to the remote control server.

use vstd::prelude::*;

use crate::error::{RemoteControlError, RemoteControlErrorView};
use crate::protocol::settings::DeviceSettings;
use crate::remote_url::{remote_control_endpoint_url, RemoteControlUrlKind, MAX_URL_CHARS};
use crate::session::{ActionOwner, TransmissionCommand};
use crate::text::{push_decimal, push_text, same_text};

verus! {

pub const DISABLED_POLL_INTERVAL_MS: u64 = 500;

pub const EVENT_LOOP_TICK_MS: u64 = 100;

pub const CONNECT_TIMEOUT_MS: u64 = 3_000;

pub const INITIAL_SYNC_DELAY_MS: u64 = 500;

pub const RECONNECT_BASE_DELAY_MS: u64 = 1_000;

pub const RECONNECT_MAX_DELAY_MS: u64 = 30_000;

pub const REMOTE_PING_INTERVAL_MS: u64 = 5_000;

pub const REMOTE_PING_TIMEOUT_MS: u64 = 15_000;

// ----- One connection -----

/// A connection from the moment it is asked for. Times are microseconds of the clock that counts
/// from the start of the device.
#[derive(Debug, Clone, Copy, PartialEq, Eq, Structural)]
pub struct Session {
    /// Whether the server has answered a first ping.
    pub connected: bool,
    /// Whether the socket is open.
    pub transport_connected: bool,
    pub connect_started_us: u64,
    pub initial_sync_due_us: Option<u64>,
    pub next_ping_us: u64,
    pub last_nonce: u32,
    /// The ping that waits for its pong.
    pub pending_ping: Option<PendingPing>,
}

/// A ping that was sent.
#[derive(Debug, Clone, Copy, PartialEq, Eq, Structural)]
pub struct PendingPing {
    pub nonce: u32,
    pub sent_us: u64,
}

/// What to do before waiting for the socket.
#[derive(Debug, Clone, Copy, PartialEq, Eq, Structural)]
pub enum Prepared {
    /// The settings changed: give the connection up.
    SettingsChanged { was_connected: bool },
    /// Send a ping.
    Ping { nonce: u32 },
    Nothing,
}

/// What to do about pings once the connection is up.
#[derive(Debug)]
pub enum KeepAlive {
    Nothing,
    /// Send a ping.
    Ping { nonce: u32 },
    /// No pong came in time: give the connection up.
    TimedOut { error: RemoteControlError },
}

/// What came from the socket.
#[derive(Debug)]
pub enum SessionEvent {
    Connected,
    Disconnected { reason: String },
    Pong { nonce: u32 },
    /// A message that needs nothing more of the connection.
    Handled,
    /// A message could not be answered.
    SendFailed { reason: String },
    Failed { reason: String },
    /// Nothing came within a tick.
    Quiet,
    ChannelClosed,
}

/// What to do about what came from the socket.
#[derive(Debug)]
pub enum SessionAction {
    Nothing,
    /// The connection is up: report it, log it, and send where things stand.
    Established { rtt_ms: u32 },
    /// A pong came: report how long it took.
    RoundTrip { rtt_ms: u32 },
    /// Give the connection up.
    Leave { was_connected: bool, error: RemoteControlError },
}

/// Whole milliseconds since a moment; nothing if that moment is still to come.
pub open spec fn since_ms(start_us: u64, now_us: u64) -> u64 {
    if now_us >= start_us {
        ((now_us - start_us) / 1000) as u64
    } else {
        0
    }
}

fn elapsed(start_us: u64, now_us: u64) -> (r: u64)
    ensures
        r == since_ms(start_us, now_us),
{
    if now_us >= start_us {
        (now_us - start_us) / 1000
    } else {
        0
    }
}

/// How long a ping took, in whole milliseconds and at least one.
pub open spec fn round_trip(start_us: u64, now_us: u64) -> u32 {
    let ms = since_ms(start_us, now_us);
    if ms < 1 {
        1
    } else if ms > u32::MAX {
        u32::MAX
    } else {
        ms as u32
    }
}

pub fn now_rtt_ms(started_at_us: u64, now_us: u64) -> (r: u32)
    ensures
        r == round_trip(started_at_us, now_us),
{
    let ms: u64 = elapsed(started_at_us, now_us);
    if ms < 1 {
        1
    } else if ms > 0xffff_ffff {
        0xffff_ffff
    } else {
        ms as u32
    }
}

/// The nonce after `n`.
pub open spec fn nonce_after(n: u32) -> u32 {
    if n == u32::MAX {
        0
    } else {
        (n + 1) as u32
    }
}

impl Session {
    /// What holds of every connection: it is up only over an open socket, and once the socket is
    /// open and no greeting is due, either a ping waits or the connection is up.
    pub open spec fn wf(self) -> bool {
        &&& self.connected ==> self.transport_connected
        &&& self.initial_sync_due_us is Some ==> self.transport_connected && !self.connected
            && self.pending_ping is None
        &&& self.transport_connected && !self.connected && self.pending_ping is None
            ==> self.initial_sync_due_us is Some
        &&& !self.transport_connected ==> self.pending_ping is None
    }

    pub fn new(now_us: u64) -> (r: Self)
        ensures
            r.wf(),
            r == (Session {
                connected: false,
                transport_connected: false,
                connect_started_us: now_us,
                initial_sync_due_us: None,
                next_ping_us: now_us,
                last_nonce: 0,
                pending_ping: None,
            }),
    {
        Session {
            connected: false,
            transport_connected: false,
            connect_started_us: now_us,
            initial_sync_due_us: None,
            next_ping_us: now_us,
            last_nonce: 0,
            pending_ping: None,
        }
    }

    /// The connection once its socket is open: a greeting is due shortly after.
    pub open spec fn opened(self, now_us: u64) -> Session {
        if self.transport_connected {
            self
        } else {
            Session {
                transport_connected: true,
                initial_sync_due_us: Some((now_us + INITIAL_SYNC_DELAY_MS * 1000) as u64),
                ..self
            }
        }
    }

    /// The connection after a ping was sent.
    pub open spec fn pinged(self, now_us: u64) -> Session {
        let nonce = nonce_after(self.last_nonce);
        Session { last_nonce: nonce, pending_ping: Some(PendingPing { nonce, sent_us: now_us }), ..self }
    }

    /// The connection and what to do before waiting for the socket.
    pub open spec fn prepared(
        self,
        settings_changed: bool,
        socket_open: bool,
        now_us: u64,
    ) -> (Session, Prepared) {
        let s = if socket_open {
            self.opened(now_us)
        } else {
            self
        };
        if settings_changed {
            (self, Prepared::SettingsChanged { was_connected: self.connected })
        } else if s.transport_connected && !s.connected && s.pending_ping is None && (
        s.initial_sync_due_us matches Some(due) && now_us >= due) {
            let t = Session { initial_sync_due_us: None, ..s.pinged(now_us) };
            (t, Prepared::Ping { nonce: t.last_nonce })
        } else {
            (s, Prepared::Nothing)
        }
    }

    /// Decides what to do before waiting for the socket.
    pub fn prepare(&mut self, settings_changed: bool, socket_open: bool, now_us: u64) -> (r: Prepared)
        requires
            now_us + INITIAL_SYNC_DELAY_MS * 1000 <= u64::MAX,
        ensures
            (*final(self), r) == old(self).prepared(settings_changed, socket_open, now_us),
            old(self).wf() ==> final(self).wf(),
    {
        if settings_changed {
            return Prepared::SettingsChanged { was_connected: self.connected };
        }
        if !self.transport_connected && socket_open {
            self.transport_connected = true;
            self.initial_sync_due_us = Some(now_us + INITIAL_SYNC_DELAY_MS * 1000);
        }
        if self.transport_connected && !self.connected && self.pending_ping.is_none() {
            if let Some(due) = self.initial_sync_due_us {
                if now_us >= due {
                    self.last_nonce = self.last_nonce.wrapping_add(1);
                    self.pending_ping = Some(
                        PendingPing { nonce: self.last_nonce, sent_us: now_us },
                    );
                    self.initial_sync_due_us = None;
                    return Prepared::Ping { nonce: self.last_nonce };
                }
            }
        }
        Prepared::Nothing
    }

    /// Whether the ping that waits has waited too long.
    pub open spec fn ping_overdue(self, now_us: u64) -> bool {
        self.pending_ping matches Some(p) && since_ms(p.sent_us, now_us) >= REMOTE_PING_TIMEOUT_MS
    }

    /// Decides about pings once the connection is up.
    pub fn keep_alive(&mut self, now_us: u64) -> (r: KeepAlive)
        requires
            old(self).connected,
            now_us + REMOTE_PING_INTERVAL_MS * 1000 <= u64::MAX,
        ensures
            old(self).wf() ==> final(self).wf(),
            if old(self).pending_ping is Some {
                &&& *final(self) == *old(self)
                &&& if old(self).ping_overdue(now_us) {
                    r is TimedOut && r->error.deep_view() == RemoteControlErrorView::Disconnected(
                        "Ping timeout for nonce "@ + crate::text::decimal(
                            old(self).pending_ping->0.nonce as nat,
                        ),
                    )
                } else {
                    r is Nothing
                }
            } else if now_us >= old(self).next_ping_us {
                &&& *final(self) == (Session {
                    next_ping_us: (now_us + REMOTE_PING_INTERVAL_MS * 1000) as u64,
                    ..old(self).pinged(now_us)
                })
                &&& r is Ping
                &&& r->nonce == final(self).last_nonce
            } else {
                *final(self) == *old(self) && r is Nothing
            },
    {
        if let Some(PendingPing { nonce, sent_us }) = self.pending_ping {
            if elapsed(sent_us, now_us) >= REMOTE_PING_TIMEOUT_MS {
                let mut reason = "Ping timeout for nonce ".to_owned();
                push_decimal(&mut reason, nonce as u64);
                return KeepAlive::TimedOut { error: RemoteControlError::Disconnected(reason) };
            }
            return KeepAlive::Nothing;
        }
        if now_us >= self.next_ping_us {
            self.last_nonce = self.last_nonce.wrapping_add(1);
            self.pending_ping = Some(
                PendingPing { nonce: self.last_nonce, sent_us: now_us },
            );
            self.next_ping_us = now_us + REMOTE_PING_INTERVAL_MS * 1000;
            return KeepAlive::Ping { nonce: self.last_nonce };
        }
        KeepAlive::Nothing
    }

    /// The connection after a pong.
    pub open spec fn ponged(self, nonce: u32, now_us: u64) -> Session {
        if self.pending_ping is Some && self.pending_ping->0.nonce == nonce {
            Session {
                pending_ping: None,
                connected: true,
                next_ping_us: if self.connected {
                    self.next_ping_us
                } else {
                    (now_us + REMOTE_PING_INTERVAL_MS * 1000) as u64
                },
                ..self
            }
        } else {
            self
        }
    }

    /// Why a connection that stays quiet is given up: the socket does not open, or the first ping
    /// is not answered.
    pub open spec fn quiet_too_long(self, now_us: u64) -> Option<RemoteControlErrorView> {
        if !self.transport_connected && since_ms(self.connect_started_us, now_us)
            >= CONNECT_TIMEOUT_MS {
            Some(RemoteControlErrorView::ConnectTimeout { timeout_ms: CONNECT_TIMEOUT_MS })
        } else if !self.connected && self.ping_overdue(now_us) {
            Some(
                RemoteControlErrorView::PingTimeout {
                    nonce: self.pending_ping->0.nonce,
                    phase: "Handshake"@,
                },
            )
        } else {
            None
        }
    }

    /// Whether the connection is given up for this reason.
    pub open spec fn leaves(self, r: SessionAction, e: RemoteControlErrorView) -> bool {
        r matches SessionAction::Leave { was_connected, error } && was_connected == self.connected
            && error.deep_view() == e
    }

    /// Decides about what came from the socket.
    pub fn on_event(&mut self, event: SessionEvent, now_us: u64) -> (r: SessionAction)
        requires
            now_us + REMOTE_PING_INTERVAL_MS * 1000 <= u64::MAX,
        ensures
            old(self).wf() ==> final(self).wf(),
            match event {
                SessionEvent::Connected => *final(self) == old(self).opened(now_us) && r is Nothing,
                SessionEvent::Disconnected { reason } => *final(self) == *old(self) && old(
                    self,
                ).leaves(r, RemoteControlErrorView::Disconnected(reason@)),
                SessionEvent::Pong { nonce } => {
                    &&& *final(self) == old(self).ponged(nonce, now_us)
                    &&& if old(self).pending_ping is Some && old(self).pending_ping->0.nonce == nonce {
                        let rtt_ms = round_trip(old(self).pending_ping->0.sent_us, now_us);
                        if old(self).connected {
                            r is RoundTrip && r->RoundTrip_rtt_ms == rtt_ms
                        } else {
                            r is Established && r->Established_rtt_ms == rtt_ms
                        }
                    } else {
                        r is Nothing
                    }
                },
                SessionEvent::Handled => *final(self) == *old(self) && r is Nothing,
                SessionEvent::SendFailed { reason } => *final(self) == *old(self) && old(
                    self,
                ).leaves(r, RemoteControlErrorView::WebSocketSend(reason@)),
                SessionEvent::Failed { reason } => *final(self) == *old(self) && old(self).leaves(
                    r,
                    RemoteControlErrorView::Disconnected(reason@),
                ),
                SessionEvent::Quiet => {
                    &&& *final(self) == *old(self)
                    &&& match old(self).quiet_too_long(now_us) {
                        Some(e) => old(self).wf() ==> old(self).leaves(r, e),
                        None => r is Nothing,
                    }
                },
                SessionEvent::ChannelClosed => *final(self) == *old(self) && old(self).leaves(
                    r,
                    RemoteControlErrorView::EventChannelClosed,
                ),
            },
    {
        match event {
            SessionEvent::Connected => {
                if !self.transport_connected {
                    self.transport_connected = true;
                    self.initial_sync_due_us = Some(now_us + INITIAL_SYNC_DELAY_MS * 1000);
                }
                SessionAction::Nothing
            },
            SessionEvent::Disconnected { reason } => SessionAction::Leave {
                was_connected: self.connected,
                error: RemoteControlError::Disconnected(reason),
            },
            SessionEvent::Pong { nonce } => {
                if let Some(pending) = self.pending_ping {
                    if pending.nonce == nonce {
                        let rtt_ms: u32 = now_rtt_ms(pending.sent_us, now_us);
                        self.pending_ping = None;
                        if !self.connected {
                            self.connected = true;
                            self.next_ping_us = now_us + REMOTE_PING_INTERVAL_MS * 1000;
                            return SessionAction::Established { rtt_ms };
                        }
                        return SessionAction::RoundTrip { rtt_ms };
                    }
                }
                SessionAction::Nothing
            },
            SessionEvent::Handled => SessionAction::Nothing,
            SessionEvent::SendFailed { reason } => SessionAction::Leave {
                was_connected: self.connected,
                error: RemoteControlError::WebSocketSend(reason),
            },
            SessionEvent::Failed { reason } => SessionAction::Leave {
                was_connected: self.connected,
                error: RemoteControlError::Disconnected(reason),
            },
            SessionEvent::Quiet => {
                if !self.transport_connected && elapsed(self.connect_started_us, now_us)
                    >= CONNECT_TIMEOUT_MS {
                    return SessionAction::Leave {
                        was_connected: false,
                        error: RemoteControlError::ConnectTimeout {
                            timeout_ms: CONNECT_TIMEOUT_MS,
                        },
                    };
                }
                if !self.connected {
                    if let Some(PendingPing { nonce, sent_us }) = self.pending_ping {
                        if elapsed(sent_us, now_us) >= REMOTE_PING_TIMEOUT_MS {
                            return SessionAction::Leave {
                                was_connected: false,
                                error: RemoteControlError::PingTimeout {
                                    nonce,
                                    phase: "Handshake",
                                },
                            };
                        }
                    }
                }
                SessionAction::Nothing
            },
            SessionEvent::ChannelClosed => SessionAction::Leave {
                was_connected: self.connected,
                error: RemoteControlError::EventChannelClosed,
            },
        }
    }
}

/// A ping that stays unanswered for 15 seconds ends the connection at the next look, and one that
/// is answered before does not.
pub proof fn lemma_unanswered_ping_is_noticed(s: Session, sent_us: u64, now_us: u64)
    requires
        sent_us <= now_us,
    ensures
        s.pinged(sent_us).ping_overdue(now_us) <==> now_us - sent_us >= REMOTE_PING_TIMEOUT_MS * 1000,
        !s.pinged(sent_us).ponged(nonce_after(s.last_nonce), now_us).ping_overdue(now_us),
{
}

/// A pong that answers another ping, or none, changes nothing.
pub proof fn lemma_stray_pong_is_ignored(s: Session, nonce: u32, now_us: u64)
    requires
        s.pending_ping is None || s.pending_ping->0.nonce != nonce,
    ensures
        s.ponged(nonce, now_us) == s,
{
}

/// The text of a ping.
pub open spec fn ping_text(nonce: u32) -> Seq<char> {
    "{\"nonce\":"@ + crate::text::decimal(nonce as nat) + ",\"type\":\"ping\"}"@
}

pub fn ping_json(nonce: u32) -> (r: String)
    ensures
        r@ == ping_text(nonce),
{
    let mut s = "{\"nonce\":".to_owned();
    push_decimal(&mut s, nonce as u64);
    push_text(&mut s, ",\"type\":\"ping\"}");
    s
}

// ----- Messages -----

/// What a message says of itself.
#[derive(Debug)]
pub struct MessageHead {
    /// The member that names its type, if it is a string.
    pub message_type: Option<String>,
    /// The member that numbers a ping, if it is a whole number that 64 bits hold.
    pub nonce: Option<u64>,
}

pub struct MessageHeadView {
    pub message_type: Option<Seq<char>>,
    pub nonce: Option<u64>,
}

/// A result of the reader in mathematical terms.
pub open spec fn head_view(r: Result<MessageHead, String>) -> Result<MessageHeadView, Seq<char>> {
    match r {
        Ok(head) => Ok(
            MessageHeadView { message_type: head.message_type.deep_view(), nonce: head.nonce },
        ),
        Err(e) => Err(e@),
    }
}

/// What `serde_json::from_str` makes of a text: a member that is a string and one that is a
/// number, or its error in words.
pub uninterp spec fn json_head(
    text: Seq<char>,
    string_key: Seq<char>,
    number_key: Seq<char>,
) -> Result<MessageHeadView, Seq<char>>;

/// `serde_json::from_str` of the crate `serde_json`: reads a JSON value. Of the value, two members
/// are handed on, read with `get`, `as_str` and `as_u64`; an error is handed on in the words of its
/// `Display`. The result depends on the text and the two keys alone.
#[verifier::external_body]
fn read_head(text: &str, string_key: &str, number_key: &str) -> (r: Result<MessageHead, String>)
    ensures
        head_view(r) == json_head(text@, string_key@, number_key@),
{
    let value: serde_json::Value = match serde_json::from_str(text) {
        Ok(value) => value,
        Err(e) => return Err(e.to_string()),
    };
    Ok(
        MessageHead {
            message_type: value.get(string_key).and_then(|v| v.as_str()).map(|s| s.to_string()),
            nonce: value.get(number_key).and_then(|v| v.as_u64()),
        },
    )
}

/// What to do with a message.
#[derive(Debug)]
pub enum TextPlan {
    /// Answer with an error.
    Refuse { message: String },
    /// The server answers a ping.
    Pong { nonce: u32 },
    /// Answer a ping.
    AnswerPing { nonce: u32 },
    /// A command for the device.
    Command,
}

/// A nonce, if it fits 32 bits.
pub open spec fn nonce_of(nonce: Option<u64>) -> Option<u32> {
    match nonce {
        Some(n) => if n <= u32::MAX {
            Some(n as u32)
        } else {
            None
        },
        None => None,
    }
}

/// Whether a message is to be refused with these words.
pub open spec fn refuses(r: TextPlan, message: Seq<char>) -> bool {
    r is Refuse && r->message@ == message
}

/// Whether this is to be done with a message, given what it says of itself.
pub open spec fn plan_is(r: TextPlan, head: Result<MessageHeadView, Seq<char>>) -> bool {
    match head {
        Err(e) => refuses(r, "Invalid remote control message: "@ + e),
        Ok(h) => match h.message_type {
            None => refuses(r, "Invalid remote control message: missing type"@),
            Some(t) => if t == "pong"@ {
                match nonce_of(h.nonce) {
                    Some(n) => r == (TextPlan::Pong { nonce: n }),
                    None => refuses(r, "Invalid pong: missing or invalid nonce"@),
                }
            } else if t == "ping"@ {
                match nonce_of(h.nonce) {
                    Some(n) => r == (TextPlan::AnswerPing { nonce: n }),
                    None => refuses(r, "Invalid ping: missing or invalid nonce"@),
                }
            } else {
                r == TextPlan::Command
            },
        },
    }
}

fn extract_nonce(nonce: Option<u64>) -> (r: Option<u32>)
    ensures
        r == nonce_of(nonce),
{
    match nonce {
        Some(n) => if n <= 0xffff_ffff {
            Some(n as u32)
        } else {
            None
        },
        None => None,
    }
}

/// Decides on a message from what it says of itself.
pub fn plan_text(head: &Result<MessageHead, String>) -> (r: TextPlan)
    ensures
        plan_is(r, head_view(*head)),
{
    match head {
        Err(e) => {
            let mut message = "Invalid remote control message: ".to_owned();
            push_text(&mut message, e.as_str());
            TextPlan::Refuse { message }
        },
        Ok(head) => match &head.message_type {
            None => TextPlan::Refuse {
                message: "Invalid remote control message: missing type".to_owned(),
            },
            Some(message_type) => {
                if same_text(message_type.as_str(), "pong") {
                    match extract_nonce(head.nonce) {
                        Some(nonce) => TextPlan::Pong { nonce },
                        None => TextPlan::Refuse {
                            message: "Invalid pong: missing or invalid nonce".to_owned(),
                        },
                    }
                } else if same_text(message_type.as_str(), "ping") {
                    match extract_nonce(head.nonce) {
                        Some(nonce) => TextPlan::AnswerPing { nonce },
                        None => TextPlan::Refuse {
                            message: "Invalid ping: missing or invalid nonce".to_owned(),
                        },
                    }
                } else {
                    TextPlan::Command
                }
            },
        },
    }
}

/// Decides on a message.
pub fn handle_text(text: &str) -> (r: TextPlan)
    ensures
        plan_is(r, json_head(text@, "type"@, "nonce"@)),
{
    plan_text(&read_head(text, "type", "nonce"))
}

// ----- Connecting and trying again -----

/// What the worker does at the start of a round.
#[derive(Debug)]
pub enum Round {
    /// Remote control is off: look again after a while.
    Off,
    /// The address cannot be used: look again after a while.
    Unusable { message: String },
    /// Connect.
    Connect { kind: RemoteControlUrlKind, endpoint: String },
}

/// Whether this is what the worker does, given the address that the settings come to.
pub open spec fn round_is(
    r: Round,
    enabled: bool,
    endpoint: Result<(RemoteControlUrlKind, Seq<char>), Seq<char>>,
) -> bool {
    if !enabled {
        r is Off
    } else {
        match endpoint {
            Err(e) => r is Unusable && r->message@ == e,
            Ok((kind, text)) => r is Connect && r->kind == kind && r->endpoint@ == text,
        }
    }
}

/// Decides on a round from the address that the settings come to.
pub fn choose_round(
    enabled: bool,
    endpoint: Result<(RemoteControlUrlKind, String), String>,
) -> (r: Round)
    ensures
        forall|expected: Result<(RemoteControlUrlKind, Seq<char>), Seq<char>>|
            #[trigger] crate::remote_url::endpoint_is(endpoint, expected) ==> round_is(
                r,
                enabled,
                expected,
            ),
{
    if !enabled {
        return Round::Off;
    }
    match endpoint {
        Err(message) => Round::Unusable { message },
        Ok((kind, endpoint)) => Round::Connect { kind, endpoint },
    }
}

/// Decides on a round.
pub fn begin_round(settings: &DeviceSettings) -> (r: Round)
    requires
        crate::text::trimmed(settings.remote_control_url@).len() + settings.device_id@.len()
            <= MAX_URL_CHARS,
    ensures
        ({
            let trimmed = crate::text::trimmed(settings.remote_control_url@);
            round_is(
                r,
                settings.remote_control_enabled,
                crate::remote_url::endpoint(
                    trimmed,
                    settings.device_id@,
                    crate::remote_url::url_parsed(trimmed),
                    crate::remote_url::url_extended(trimmed, settings.device_id@),
                ),
            )
        }),
{
    if !settings.remote_control_enabled {
        return Round::Off;
    }
    choose_round(true, remote_control_endpoint_url(settings))
}

/// Why a connection ended.
#[derive(Debug)]
pub enum RunLoopExit {
    SettingsChanged { was_connected: bool },
    Disconnected { was_connected: bool, reason: String },
}

/// What to do after a connection ended.
#[derive(Debug)]
pub struct Aftermath {
    /// The reason to log, if the connection had been up.
    pub lost: Option<String>,
    /// What ends the actions that were held over the connection, if it had been up.
    pub ended: Option<TransmissionCommand>,
    /// How long to wait before the next round, and what to say of it.
    pub retry: Option<Retry>,
}

#[derive(Debug)]
pub struct Retry {
    pub delay_ms: u64,
    pub status_text: String,
}

/// The delay after one more failure.
pub open spec fn delay_after(delay_ms: u64) -> u64 {
    if delay_ms * 2 < RECONNECT_MAX_DELAY_MS {
        (delay_ms * 2) as u64
    } else {
        RECONNECT_MAX_DELAY_MS
    }
}

/// Whether a delay is one that the worker uses: a whole number of tenths of a second within the
/// limits.
pub open spec fn delay_ok(delay_ms: u64) -> bool {
    RECONNECT_BASE_DELAY_MS <= delay_ms <= RECONNECT_MAX_DELAY_MS && delay_ms % 100 == 0
}

/// What is said of a wait, in seconds with one decimal.
pub open spec fn retry_text(delay_ms: u64) -> Seq<char> {
    "Retrying in "@ + crate::text::decimal((delay_ms / 1000) as nat) + "."@ + crate::text::decimal(
        (delay_ms / 100 % 10) as nat,
    ) + "s"@
}

/// Says how long the worker waits.
pub fn retry_status(delay_ms: u64) -> (r: String)
    requires
        delay_ms % 100 == 0,
    ensures
        r@ == retry_text(delay_ms),
{
    let mut s = "Retrying in ".to_owned();
    push_decimal(&mut s, delay_ms / 1000);
    push_text(&mut s, ".");
    push_decimal(&mut s, delay_ms / 100 % 10);
    push_text(&mut s, "s");
    s
}

/// What ends the actions that were held over a connection, if it had been up.
pub open spec fn ends_held_actions(was_connected: bool) -> Option<TransmissionCommand> {
    if was_connected {
        Some(TransmissionCommand::CancelOwnedActions { owner: ActionOwner::RemoteControl })
    } else {
        None
    }
}

fn end_held_actions(was_connected: bool) -> (r: Option<TransmissionCommand>)
    ensures
        r == ends_held_actions(was_connected),
{
    if was_connected {
        Some(TransmissionCommand::CancelOwnedActions { owner: ActionOwner::RemoteControl })
    } else {
        None
    }
}

/// Decides what to do after a connection ended, and how long the next wait will be.
pub fn after_exit(exit: RunLoopExit, reconnect_delay_ms: &mut u64) -> (r: Aftermath)
    requires
        delay_ok(*old(reconnect_delay_ms)),
    ensures
        delay_ok(*final(reconnect_delay_ms)),
        match exit {
            RunLoopExit::SettingsChanged { was_connected } => {
                &&& *final(reconnect_delay_ms) == RECONNECT_BASE_DELAY_MS
                &&& r.retry is None
                &&& r.lost.deep_view() == if was_connected {
                    Some("Settings changed"@)
                } else {
                    None
                }
                &&& r.ended == ends_held_actions(was_connected)
            },
            RunLoopExit::Disconnected { was_connected, reason } => {
                &&& *final(reconnect_delay_ms) == delay_after(*old(reconnect_delay_ms))
                &&& r.retry is Some
                &&& r.retry->0.delay_ms == *old(reconnect_delay_ms)
                &&& r.retry->0.status_text@ == retry_text(*old(reconnect_delay_ms))
                &&& r.lost.deep_view() == if was_connected {
                    Some(reason@)
                } else {
                    None
                }
                &&& r.ended == ends_held_actions(was_connected)
            },
        },
{
    match exit {
        RunLoopExit::SettingsChanged { was_connected } => {
            *reconnect_delay_ms = RECONNECT_BASE_DELAY_MS;
            let lost = if was_connected {
                Some("Settings changed".to_owned())
            } else {
                None
            };
            Aftermath { lost, ended: end_held_actions(was_connected), retry: None }
        },
        RunLoopExit::Disconnected { was_connected, reason } => {
            let delay_ms: u64 = *reconnect_delay_ms;
            let doubled: u64 = delay_ms * 2;
            *reconnect_delay_ms = if doubled < RECONNECT_MAX_DELAY_MS {
                doubled
            } else {
                RECONNECT_MAX_DELAY_MS
            };
            let lost = if was_connected {
                Some(reason)
            } else {
                None
            };
            Aftermath {
                lost,
                ended: end_held_actions(was_connected),
                retry: Some(Retry { delay_ms, status_text: retry_status(delay_ms) }),
            }
        },
    }
}

/// The delay after `n` failures in a row.
pub open spec fn delay_after_failures(n: nat) -> u64
    decreases n,
{
    if n == 0 {
        RECONNECT_BASE_DELAY_MS
    } else {
        delay_after(delay_after_failures((n - 1) as nat))
    }
}

/// The first wait takes a second, every failure doubles it, and from the fifth on it takes thirty
/// seconds.
pub proof fn lemma_backoff(n: nat)
    ensures
        delay_ok(delay_after_failures(n)),
        delay_after_failures(0) == 1_000,
        delay_after_failures(1) == 2_000,
        delay_after_failures(2) == 4_000,
        delay_after_failures(3) == 8_000,
        delay_after_failures(4) == 16_000,
        n >= 5 ==> delay_after_failures(n) == 30_000,
    decreases n,
{
    reveal_with_fuel(delay_after_failures, 6);
    if n > 0 {
        lemma_backoff((n - 1) as nat);
    }
}

/// How the socket is secured.
#[derive(Debug, Clone, Copy, PartialEq, Eq, Structural)]
pub struct SocketSecurity {
    pub encrypted: bool,
    pub skip_common_name_check: bool,
    pub check_certificates: bool,
}

/// How the socket of a connection is secured: certificates are checked on encrypted links, unless
/// the settings switch that off.
pub fn socket_security(kind: RemoteControlUrlKind, validate_cert: bool) -> (r: SocketSecurity)
    ensures
        r.encrypted == (kind == RemoteControlUrlKind::Wss),
        r.skip_common_name_check == !validate_cert,
        r.check_certificates == (kind == RemoteControlUrlKind::Wss && validate_cert),
{
    let encrypted = match kind {
        RemoteControlUrlKind::Wss => true,
        RemoteControlUrlKind::Ws => false,
    };
    SocketSecurity {
        encrypted,
        skip_common_name_check: !validate_cert,
        check_certificates: encrypted && validate_cert,
    }
}

// ----- What holds of it -----

/// Once the socket is open, the server is greeted with a ping half a second later: at the first
/// look from then on, and at no look before.
pub proof fn lemma_server_is_greeted(s: Session, opened_us: u64, now_us: u64)
    requires
        s.wf(),
        !s.transport_connected,
        opened_us + 500_000 <= u64::MAX,
    ensures
        ({
            let open = s.opened(opened_us);
            let r = open.prepared(false, true, now_us);
            &&& open.transport_connected
            &&& !open.connected
            &&& now_us < opened_us + 500_000 ==> r == (open, Prepared::Nothing)
            &&& now_us >= opened_us + 500_000 ==> {
                &&& r.1 == (Prepared::Ping { nonce: r.0.last_nonce })
                &&& r.0.last_nonce == nonce_after(s.last_nonce)
                &&& r.0.pending_ping == Some(
                    PendingPing { nonce: r.0.last_nonce, sent_us: now_us },
                )
                &&& r.0.initial_sync_due_us is None
                &&& r.0.transport_connected
                &&& !r.0.connected
                &&& r.0.connect_started_us == s.connect_started_us
                &&& r.0.next_ping_us == s.next_ping_us
            }
        }),
{
}

/// Pings are numbered one after the other; after the largest number they start over.
pub proof fn lemma_pings_are_numbered(n: u32)
    ensures
        n < 4_294_967_295 ==> nonce_after(n) == n + 1,
        nonce_after(4_294_967_295) == 0,
        nonce_after(n) != n,
{
}

/// New settings end the connection at the next look, whatever state it is in.
pub proof fn lemma_new_settings_end_the_connection(s: Session, socket_open: bool, now_us: u64)
    ensures
        s.prepared(true, socket_open, now_us) == (
            s,
            Prepared::SettingsChanged { was_connected: s.connected },
        ),
{
}

/// A look finds an open socket even if no event told of it. Nothing is sent over a socket that is
/// not open, nor a second ping while one waits, nor a greeting once the connection is up.
pub proof fn lemma_when_nothing_is_sent(s: Session, socket_open: bool, now_us: u64)
    requires
        s.wf(),
    ensures
        ({
            let r = s.prepared(false, socket_open, now_us);
            &&& r.0.transport_connected == (s.transport_connected || socket_open)
            &&& r.0.connected == s.connected
            &&& r.0.connect_started_us == s.connect_started_us
            &&& r.0.next_ping_us == s.next_ping_us
            &&& !r.0.transport_connected ==> r == (s, Prepared::Nothing)
            &&& s.pending_ping is Some || s.connected ==> r == (s, Prepared::Nothing)
        }),
{
}

/// The pong to the ping that waits establishes the connection, or keeps it up. The next ping comes
/// five seconds after the connection was established.
pub proof fn lemma_pong_keeps_the_connection(s: Session, sent_us: u64, now_us: u64)
    requires
        now_us + 5_000_000 <= u64::MAX,
    ensures
        ({
            let waiting = s.pinged(sent_us);
            let r = waiting.ponged(waiting.last_nonce, now_us);
            &&& r.connected
            &&& r.pending_ping is None
            &&& r.transport_connected == s.transport_connected
            &&& r.last_nonce == nonce_after(s.last_nonce)
            &&& s.connected ==> r.next_ping_us == s.next_ping_us
            &&& !s.connected ==> r.next_ping_us == now_us + 5_000_000
        }),
{
}

/// A ping takes whole milliseconds, at least one, and as many as have passed.
pub proof fn lemma_round_trip(sent_us: u64, now_us: u64)
    ensures
        round_trip(sent_us, now_us) >= 1,
        now_us < sent_us + 1_000 ==> round_trip(sent_us, now_us) == 1,
        sent_us + 1_000 <= now_us <= sent_us + 4_294_967_295_000 ==> {
            let rtt = round_trip(sent_us, now_us);
            rtt * 1_000 <= now_us - sent_us < (rtt + 1) * 1_000
        },
        now_us > sent_us + 4_294_967_295_000 ==> round_trip(sent_us, now_us) == 4_294_967_295,
{
}

/// A connection that stays quiet is given up exactly if its socket has not opened for three
/// seconds, or its first ping has not been answered for fifteen.
pub proof fn lemma_quiet_connection_is_given_up(s: Session, now_us: u64)
    requires
        s.wf(),
        s.connect_started_us <= now_us,
        s.pending_ping is Some ==> s.pending_ping->0.sent_us <= now_us,
    ensures
        ({
            let r = s.quiet_too_long(now_us);
            let not_opened = !s.transport_connected && now_us - s.connect_started_us >= 3_000_000;
            let not_answered = !s.connected && s.pending_ping is Some && now_us
                - s.pending_ping->0.sent_us >= 15_000_000;
            &&& r is Some <==> not_opened || not_answered
            &&& not_opened ==> r == Some(
                RemoteControlErrorView::ConnectTimeout { timeout_ms: 3_000 },
            )
            &&& not_answered ==> r == Some(
                RemoteControlErrorView::PingTimeout {
                    nonce: s.pending_ping->0.nonce,
                    phase: "Handshake"@,
                },
            )
        }),
{
}

/// A ping that the device sends is a message of the type `ping` that carries its number.
pub proof fn lemma_ping_carries_its_number(nonce: u32)
    ensures
        ping_text(nonce) == "{\"nonce\":"@ + crate::text::decimal(nonce as nat)
            + ",\"type\":\"ping\"}"@,
{
}

/// A ping is answered under its own number, a pong is taken under its own number, and every other
/// message that names a type is a command. A message that names none is refused, and so is a ping
/// or a pong whose number is missing or does not fit 32 bits.
pub proof fn lemma_what_a_message_asks(r: TextPlan, head: MessageHeadView)
    requires
        plan_is(r, Ok(head)),
    ensures
        ({
            let numbered = head.nonce is Some && head.nonce->0 <= 4_294_967_295;
            &&& head.message_type is None ==> r is Refuse && r->message@
                == "Invalid remote control message: missing type"@
            &&& head.message_type == Some("ping"@) && numbered ==> r is AnswerPing
                && r->AnswerPing_nonce == head.nonce->0
            &&& head.message_type == Some("ping"@) && !numbered ==> r is Refuse && r->message@
                == "Invalid ping: missing or invalid nonce"@
            &&& head.message_type == Some("pong"@) && numbered ==> r is Pong && r->Pong_nonce
                == head.nonce->0
            &&& head.message_type == Some("pong"@) && !numbered ==> r is Refuse && r->message@
                == "Invalid pong: missing or invalid nonce"@
            &&& head.message_type is Some && head.message_type != Some("ping"@)
                && head.message_type != Some("pong"@) ==> r is Command
        }),
{
    reveal_strlit("ping");
    reveal_strlit("pong");
    assert("ping"@[1] != "pong"@[1]);
}

/// A text that is no message is refused with the reason.
pub proof fn lemma_no_message_is_refused(r: TextPlan, e: Seq<char>)
    requires
        plan_is(r, Err(e)),
    ensures
        r is Refuse,
        r->message@ == "Invalid remote control message: "@ + e,
{
}

/// The device connects exactly if remote control is on and its address can be used.
pub proof fn lemma_when_the_device_connects(
    r: Round,
    enabled: bool,
    endpoint: Result<(RemoteControlUrlKind, Seq<char>), Seq<char>>,
)
    requires
        round_is(r, enabled, endpoint),
    ensures
        r is Off <==> !enabled,
        r is Connect <==> enabled && endpoint is Ok,
        r is Connect ==> r->kind == endpoint->Ok_0.0 && r->endpoint@ == endpoint->Ok_0.1,
        r is Unusable <==> enabled && endpoint is Err,
        r is Unusable ==> r->message@ == endpoint->Err_0,
{
}

/// What is said of a wait gives its length, in seconds with one decimal.
pub proof fn lemma_wait_is_told(delay_ms: u64)
    requires
        delay_ms % 100 == 0,
    ensures
        exists|seconds: nat, tenths: nat|
            #![trigger crate::text::decimal(seconds), crate::text::decimal(tenths)]
            tenths < 10 && seconds * 1_000 + tenths * 100 == delay_ms && retry_text(delay_ms)
                == "Retrying in "@ + crate::text::decimal(seconds) + "."@ + crate::text::decimal(
                tenths,
            ) + "s"@,
{
    let seconds = (delay_ms / 1000) as nat;
    let tenths = (delay_ms / 100 % 10) as nat;
    assert(tenths < 10 && seconds * 1_000 + tenths * 100 == delay_ms && retry_text(delay_ms)
        == "Retrying in "@ + crate::text::decimal(seconds) + "."@ + crate::text::decimal(tenths)
        + "s"@);
}

/// When a connection that was up ends, the actions that were held over it end with it; one that
/// never was up held none.
pub proof fn lemma_held_actions_end_with_the_connection()
    ensures
        ends_held_actions(true) == Some(
            TransmissionCommand::CancelOwnedActions { owner: ActionOwner::RemoteControl },
        ),
        ends_held_actions(false) is None,
{
}

} // verus!
