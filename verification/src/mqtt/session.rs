//! Connections to the broker: when to try, what to say and when to give up.

use vstd::prelude::*;

use crate::events::{AppEvent, AppEventView};
use crate::mqtt::incoming::{handle_incoming_message, Incoming, IncomingView};
use crate::mqtt::state::{
    keep, mode_str, MqttState, MqttStateView, Publication, PublicationView, Qos,
};
use crate::mqtt::texts::{
    availability_topic, broker_url, event_payload, event_topic, preset_running_topic,
    subscribe_topic,
};
use crate::protocol::model::{MqttStatus, MqttStatusView};
use crate::protocol::settings::{DeviceSettings, DeviceSettingsView};
use crate::session::{ActionOwner, TransmissionCommand};
use crate::text::{blank, decimal_text, push_decimal, push_text, trim};

verus! {

pub const DISABLED_POLL_INTERVAL_MS: u64 = 500;

pub const EVENT_LOOP_TICK_MS: u64 = 100;

pub const RECONNECT_BASE_DELAY_MS: u64 = 2_000;

pub const RECONNECT_MAX_DELAY_MS: u64 = 30_000;

pub const KEEP_ALIVE_S: u64 = 30;

pub const BUFFER_BYTES: usize = 2_048;

// ----- Rounds -----

/// How the link stands.
pub open spec fn link_status(
    s: DeviceSettingsView,
    connected: bool,
    text: Seq<char>,
) -> MqttStatusView {
    MqttStatusView {
        enabled: s.mqtt_enabled,
        connected,
        server: crate::text::trimmed(s.mqtt_server),
        status_text: text,
    }
}

pub fn mqtt_status(settings: &DeviceSettings, connected: bool, status_text: &str) -> (r: MqttStatus)
    ensures
        r.deep_view() == link_status(settings.deep_view(), connected, status_text@),
{
    MqttStatus {
        enabled: settings.mqtt_enabled,
        connected,
        server: trim(settings.mqtt_server.as_str()),
        status_text: status_text.to_owned(),
    }
}

/// Whether a connection is to be tried: the link is on and has a server.
pub open spec fn wants_link(s: DeviceSettingsView) -> bool {
    s.mqtt_enabled && crate::text::trimmed(s.mqtt_server).len() > 0
}

/// What to do in a round.
#[derive(Debug)]
pub enum Round {
    /// Wait, and look again.
    Off { status: MqttStatus, wait_ms: u64 },
    Connect { status: MqttStatus },
}

/// Decides on a round. One in which nothing is tried starts the delays over.
pub fn begin_round(settings: &DeviceSettings, reconnect_delay_ms: &mut u64) -> (r: Round)
    ensures
        match r {
            Round::Off { status, wait_ms } => {
                &&& !wants_link(settings.deep_view())
                &&& status.deep_view() == link_status(settings.deep_view(), false, "Off"@)
                &&& wait_ms == DISABLED_POLL_INTERVAL_MS
                &&& *final(reconnect_delay_ms) == RECONNECT_BASE_DELAY_MS
            },
            Round::Connect { status } => {
                &&& wants_link(settings.deep_view())
                &&& status.deep_view() == link_status(
                    settings.deep_view(),
                    false,
                    "Connecting..."@,
                )
                &&& *final(reconnect_delay_ms) == *old(reconnect_delay_ms)
            },
        },
{
    proof {
        crate::text::lemma_blank_is_trimmed_empty(settings.mqtt_server@);
    }
    if !settings.mqtt_enabled || blank(settings.mqtt_server.as_str()) {
        *reconnect_delay_ms = RECONNECT_BASE_DELAY_MS;
        Round::Off {
            status: mqtt_status(settings, false, "Off"),
            wait_ms: DISABLED_POLL_INTERVAL_MS,
        }
    } else {
        Round::Connect { status: mqtt_status(settings, false, "Connecting...") }
    }
}

/// How to reach the broker.
#[derive(Debug)]
pub struct ConnectPlan {
    pub url: String,
    pub client_id: String,
    pub username: Option<String>,
    pub password: Option<String>,
    /// What the broker says when the device is lost.
    pub will: Publication,
}

/// The text without the space around it, if anything is left.
pub open spec fn given(s: Seq<char>) -> Option<Seq<char>> {
    if crate::text::trimmed(s).len() == 0 {
        None
    } else {
        Some(crate::text::trimmed(s))
    }
}

fn if_given(s: &str) -> (r: Option<String>)
    ensures
        r.deep_view() == given(s@),
{
    proof {
        crate::text::lemma_blank_is_trimmed_empty(s@);
    }
    if blank(s) {
        None
    } else {
        Some(trim(s))
    }
}

/// Plans a connection.
pub fn plan_connection(settings: &DeviceSettings) -> (r: ConnectPlan)
    ensures
        r.url@ == crate::mqtt::texts::broker_url_text(
            crate::text::trimmed(settings.mqtt_server@),
            crate::text::decimal(settings.mqtt_port as nat),
        ),
        r.client_id@ == settings.device_id@,
        r.username.deep_view() == given(settings.mqtt_username@),
        r.password.deep_view() == given(settings.mqtt_password@),
        r.will.deep_view() == crate::mqtt::state::kept(
            crate::mqtt::texts::availability_topic_text(settings.device_id@),
            "offline"@,
        ),
{
    let server = trim(settings.mqtt_server.as_str());
    let port = decimal_text(settings.mqtt_port as u64);
    ConnectPlan {
        url: broker_url(server.as_str(), port.as_str()),
        client_id: settings.device_id.clone(),
        username: if_given(settings.mqtt_username.as_str()),
        password: if_given(settings.mqtt_password.as_str()),
        will: keep(availability_topic(settings.device_id.as_str()), "offline".to_owned()),
    }
}

// ----- Sessions -----

/// Why a session ended.
#[derive(Debug)]
pub enum SessionExit {
    SettingsChanged,
    Disconnected { reason: String },
}

pub enum SessionExitView {
    SettingsChanged,
    Disconnected { reason: Seq<char> },
}

impl DeepView for SessionExit {
    type V = SessionExitView;

    open spec fn deep_view(&self) -> SessionExitView {
        match self {
            SessionExit::SettingsChanged => SessionExitView::SettingsChanged,
            SessionExit::Disconnected { reason } => SessionExitView::Disconnected {
                reason: reason@,
            },
        }
    }
}

/// What the connection reports within a tick.
#[derive(Debug)]
pub enum LinkEvent {
    Connected,
    Disconnected,
    Message { topic: String, payload: Vec<u8> },
    /// Nothing within the tick.
    Quiet,
    /// The connection reports nothing any more.
    Closed,
}

/// Ends a session whose settings are no longer those in force.
pub fn check_revision(revision_now: u32, revision_at_start: u32) -> (r: Option<SessionExit>)
    ensures
        r.deep_view() == if revision_now != revision_at_start {
            Some(SessionExitView::SettingsChanged)
        } else {
            None
        },
{
    if revision_now != revision_at_start {
        Some(SessionExit::SettingsChanged)
    } else {
        None
    }
}

/// How waiting for the connection goes on.
#[derive(Debug)]
pub enum Wait {
    Connected,
    GoOn,
    Exit(SessionExit),
}

/// Takes an event while the connection is not up yet.
pub fn wait_for_connect(event: &LinkEvent) -> (r: Wait)
    ensures
        match event {
            LinkEvent::Connected => r is Connected,
            LinkEvent::Disconnected => r is Exit && r->Exit_0.deep_view()
                == (SessionExitView::Disconnected { reason: "Disconnected while connecting"@ }),
            LinkEvent::Message { .. } => r is GoOn,
            LinkEvent::Quiet => r is GoOn,
            LinkEvent::Closed => r is Exit && r->Exit_0.deep_view()
                == (SessionExitView::Disconnected { reason: "Event channel closed"@ }),
        },
{
    match event {
        LinkEvent::Connected => Wait::Connected,
        LinkEvent::Disconnected => Wait::Exit(
            SessionExit::Disconnected { reason: "Disconnected while connecting".to_owned() },
        ),
        LinkEvent::Message { .. } => Wait::GoOn,
        LinkEvent::Quiet => Wait::GoOn,
        LinkEvent::Closed => Wait::Exit(
            SessionExit::Disconnected { reason: "Event channel closed".to_owned() },
        ),
    }
}

/// How a session goes on.
#[derive(Debug)]
pub enum Turn {
    Exit(SessionExit),
    GoOn(Incoming),
}

pub enum TurnView {
    Exit(SessionExitView),
    GoOn(IncomingView),
}

impl DeepView for Turn {
    type V = TurnView;

    open spec fn deep_view(&self) -> TurnView {
        match self {
            Turn::Exit(exit) => TurnView::Exit(exit.deep_view()),
            Turn::GoOn(incoming) => TurnView::GoOn(incoming.deep_view()),
        }
    }
}

/// What follows from an event while the connection is up.
pub open spec fn turn(s: MqttStateView, d: Seq<char>, event: LinkEvent) -> (MqttStateView, TurnView) {
    match event {
        LinkEvent::Disconnected => (
            s,
            TurnView::Exit(SessionExitView::Disconnected { reason: "Broker disconnected"@ }),
        ),
        LinkEvent::Closed => (
            s,
            TurnView::Exit(SessionExitView::Disconnected { reason: "Event channel closed"@ }),
        ),
        LinkEvent::Message { topic, payload } => {
            let (after, incoming) = crate::mqtt::incoming::received(s, d, topic@, payload@);
            (after, TurnView::GoOn(incoming))
        },
        LinkEvent::Connected => (s, TurnView::GoOn(IncomingView::Nothing)),
        LinkEvent::Quiet => (s, TurnView::GoOn(IncomingView::Nothing)),
    }
}

/// Takes an event while the connection is up.
pub fn on_event(state: &mut MqttState, device_id: &str, event: &LinkEvent) -> (r: Turn)
    ensures
        (final(state).deep_view(), r.deep_view()) == turn(
            old(state).deep_view(),
            device_id@,
            *event,
        ),
{
    match event {
        LinkEvent::Disconnected => Turn::Exit(
            SessionExit::Disconnected { reason: "Broker disconnected".to_owned() },
        ),
        LinkEvent::Closed => Turn::Exit(
            SessionExit::Disconnected { reason: "Event channel closed".to_owned() },
        ),
        LinkEvent::Message { topic, payload } => Turn::GoOn(
            handle_incoming_message(state, device_id, topic.as_str(), payload),
        ),
        LinkEvent::Connected => Turn::GoOn(Incoming::Nothing),
        LinkEvent::Quiet => Turn::GoOn(Incoming::Nothing),
    }
}

// ----- Opening -----

/// Why opening a session failed.
#[derive(Debug, Clone, Copy, PartialEq, Eq, Structural)]
pub enum Failure {
    Connect,
    Availability,
    Discovery,
    Subscribe,
    State,
}

/// What is said of a failure, before its cause.
pub open spec fn failure_text(failure: Failure) -> Seq<char> {
    match failure {
        Failure::Connect => "Connect failed: "@,
        Failure::Availability => "Publish availability failed: "@,
        Failure::Discovery => "Discovery publish failed: "@,
        Failure::Subscribe => "Subscribe failed: "@,
        Failure::State => "State publish failed: "@,
    }
}

/// Ends a session that could not be opened.
pub fn opening_failed(failure: Failure, cause: &str) -> (r: SessionExit)
    ensures
        r.deep_view() == (SessionExitView::Disconnected { reason: failure_text(failure) + cause@ }),
{
    let mut reason = match failure {
        Failure::Connect => "Connect failed: ".to_owned(),
        Failure::Availability => "Publish availability failed: ".to_owned(),
        Failure::Discovery => "Discovery publish failed: ".to_owned(),
        Failure::Subscribe => "Subscribe failed: ".to_owned(),
        Failure::State => "State publish failed: ".to_owned(),
    };
    push_text(&mut reason, cause);
    SessionExit::Disconnected { reason }
}

/// What opens a session, in this order: the device says that it is there, announces what it has,
/// listens, and tells how things stand.
#[derive(Debug)]
pub struct Opening {
    pub availability: Publication,
    pub discovery: Vec<Publication>,
    pub subscription: String,
    pub states: Vec<Publication>,
}

/// Plans the opening of a session.
pub fn plan_opening(state: &MqttState, device_id: &str) -> (r: Opening)
    ensures
        r.availability.deep_view() == crate::mqtt::state::kept(
            crate::mqtt::texts::availability_topic_text(device_id@),
            "online"@,
        ),
        r.discovery.deep_view() == crate::mqtt::state::discovery(state.deep_view(), device_id@),
        r.subscription@ == crate::mqtt::texts::subscribe_topic_text(device_id@),
        r.states.deep_view() == crate::mqtt::state::states(state.deep_view(), device_id@),
{
    Opening {
        availability: keep(availability_topic(device_id), "online".to_owned()),
        discovery: state.all_discovery(device_id),
        subscription: subscribe_topic(device_id),
        states: state.all_states(device_id),
    }
}

// ----- What clients are told -----

/// What the broker is told of an event.
#[derive(Debug)]
pub struct Telling {
    /// Announcements; the first that fails ends them.
    pub discovery: Vec<Publication>,
    /// What is published after them, whether or not they failed.
    pub state: Option<Publication>,
}

pub struct TellingView {
    pub discovery: Seq<PublicationView>,
    pub state: Option<PublicationView>,
}

impl DeepView for Telling {
    type V = TellingView;

    open spec fn deep_view(&self) -> TellingView {
        TellingView {
            discovery: self.discovery.deep_view(),
            state: self.state.deep_view(),
        }
    }
}

/// What the broker is told of an event, and what the link knows after it. The link reads other
/// collars or presets before it announces them.
pub open spec fn telling(
    s: MqttStateView,
    d: Seq<char>,
    event: AppEventView,
) -> (MqttStateView, TellingView) {
    match event {
        AppEventView::State { collars, presets, preset_running, .. } => {
            let collar_names = crate::protocol::model::collar_names(collars);
            let preset_names = crate::protocol::model::preset_names(presets);
            let changed = collar_names != s.collar_names || preset_names != s.preset_names;
            let after = if changed {
                crate::mqtt::state::entities_updated(s, collars, presets)
            } else {
                s
            };
            (
                after,
                TellingView {
                    discovery: if changed {
                        crate::mqtt::state::rediscovery(after, d, collar_names, preset_names)
                    } else {
                        Seq::empty()
                    },
                    state: Some(
                        PublicationView {
                            topic: crate::mqtt::texts::preset_running_topic_text(d),
                            payload: if preset_running is Some {
                                "ON"@
                            } else {
                                "OFF"@
                            },
                            qos: Qos::AtMostOnce,
                            retain: true,
                        },
                    ),
                },
            )
        },
        AppEventView::ActionFired { collar_name, mode, intensity } => (
            s,
            TellingView {
                discovery: Seq::empty(),
                state: if s.collar_names.contains(collar_name) {
                    Some(
                        PublicationView {
                            topic: crate::mqtt::texts::event_topic_text(
                                d,
                                crate::mqtt::slug::slug(collar_name),
                            ),
                            payload: crate::mqtt::texts::event_payload_text(
                                crate::mqtt::state::mode_word(mode),
                                crate::text::decimal(intensity as nat),
                            ),
                            qos: Qos::AtMostOnce,
                            retain: false,
                        },
                    )
                } else {
                    None
                },
            },
        ),
        _ => (s, TellingView { discovery: Seq::empty(), state: None }),
    }
}

/// Tells the broker of an event.
pub fn on_broadcast(state: &mut MqttState, device_id: &str, event: &AppEvent) -> (r: Telling)
    ensures
        (final(state).deep_view(), r.deep_view()) == telling(
            old(state).deep_view(),
            device_id@,
            event.deep_view(),
        ),
{
    let mut discovery: Vec<Publication> = Vec::new();
    assert(discovery.deep_view() =~= Seq::empty());
    match event {
        AppEvent::State { collars, presets, preset_running, .. } => {
            if state.collars_changed(collars) || state.presets_changed(presets) {
                state.update_entities(collars, presets);
                discovery = state.republish_discovery(device_id, collars, presets);
            }
            let running = if preset_running.is_some() {
                "ON".to_owned()
            } else {
                "OFF".to_owned()
            };
            Telling {
                discovery,
                state: Some(
                    Publication {
                        topic: preset_running_topic(device_id),
                        payload: running,
                        qos: Qos::AtMostOnce,
                        retain: true,
                    },
                ),
            }
        },
        AppEvent::ActionFired { collar_name, mode, intensity } => {
            let told = match state.collar_slug(collar_name.as_str()) {
                Some(slug) => {
                    let strength = decimal_text(*intensity as u64);
                    Some(
                        Publication {
                            topic: event_topic(device_id, slug.as_str()),
                            payload: event_payload(mode_str(*mode), strength.as_str()),
                            qos: Qos::AtMostOnce,
                            retain: false,
                        },
                    )
                },
                None => None,
            };
            Telling { discovery, state: told }
        },
        _ => Telling { discovery, state: None },
    }
}

// ----- After a session -----

/// The delay after one that ended in another failure.
pub open spec fn delay_after(delay_ms: u64) -> u64 {
    if delay_ms * 2 < RECONNECT_MAX_DELAY_MS {
        (delay_ms * 2) as u64
    } else {
        RECONNECT_MAX_DELAY_MS
    }
}

/// Whether a delay is one that the link uses.
pub open spec fn delay_ok(delay_ms: u64) -> bool {
    RECONNECT_BASE_DELAY_MS <= delay_ms <= RECONNECT_MAX_DELAY_MS
}

/// A wait before the next try.
#[derive(Debug)]
pub struct Retry {
    pub status: MqttStatus,
    pub delay_ms: u64,
}

/// What to do after a session.
#[derive(Debug)]
pub struct Aftermath {
    /// What ends the actions that were held over the link.
    pub ended: TransmissionCommand,
    /// How long to wait before the next try; none, if it follows at once.
    pub retry: Option<Retry>,
}

/// Decides how to go on after a session.
pub fn after_exit(
    exit: &SessionExit,
    settings: &DeviceSettings,
    reconnect_delay_ms: &mut u64,
) -> (r: Aftermath)
    requires
        delay_ok(*old(reconnect_delay_ms)),
    ensures
        delay_ok(*final(reconnect_delay_ms)),
        r.ended == (TransmissionCommand::CancelOwnedActions { owner: ActionOwner::Mqtt }),
        match exit {
            SessionExit::SettingsChanged => {
                &&& r.retry is None
                &&& *final(reconnect_delay_ms) == RECONNECT_BASE_DELAY_MS
            },
            SessionExit::Disconnected { .. } => {
                &&& r.retry is Some
                &&& r.retry->0.delay_ms == *old(reconnect_delay_ms)
                &&& r.retry->0.status.deep_view() == link_status(
                    settings.deep_view(),
                    false,
                    "Reconnecting in "@ + crate::text::decimal(*old(reconnect_delay_ms) as nat)
                        + "ms..."@,
                )
                &&& *final(reconnect_delay_ms) == delay_after(*old(reconnect_delay_ms))
            },
        },
{
    let ended = TransmissionCommand::CancelOwnedActions { owner: ActionOwner::Mqtt };
    match exit {
        SessionExit::SettingsChanged => {
            *reconnect_delay_ms = RECONNECT_BASE_DELAY_MS;
            Aftermath { ended, retry: None }
        },
        SessionExit::Disconnected { .. } => {
            let delay_ms: u64 = *reconnect_delay_ms;
            let mut text = "Reconnecting in ".to_owned();
            push_decimal(&mut text, delay_ms);
            push_text(&mut text, "ms...");
            *reconnect_delay_ms = if delay_ms * 2 < RECONNECT_MAX_DELAY_MS {
                delay_ms * 2
            } else {
                RECONNECT_MAX_DELAY_MS
            };
            Aftermath {
                ended,
                retry: Some(
                    Retry { status: mqtt_status(settings, false, text.as_str()), delay_ms },
                ),
            }
        },
    }
}

/// The wait after so many failures in a row.
pub open spec fn delay_after_failures(n: nat) -> u64
    decreases n,
{
    if n == 0 {
        RECONNECT_BASE_DELAY_MS
    } else {
        delay_after(delay_after_failures((n - 1) as nat))
    }
}

/// The first wait takes two seconds, every failure doubles it, and from the fifth on it takes
/// thirty seconds.
pub proof fn lemma_mqtt_backoff(n: nat)
    ensures
        delay_ok(delay_after_failures(n)),
        delay_after_failures(0) == 2_000,
        delay_after_failures(1) == 4_000,
        delay_after_failures(2) == 8_000,
        delay_after_failures(3) == 16_000,
        n >= 4 ==> delay_after_failures(n) == RECONNECT_MAX_DELAY_MS,
    decreases n,
{
    reveal_with_fuel(delay_after_failures, 5);
    if n > 0 {
        lemma_mqtt_backoff((n - 1) as nat);
    }
}

/// After a state is told, the link knows exactly its collars and presets, and telling the same
/// state again announces nothing.
pub proof fn lemma_state_is_announced_once(s: MqttStateView, d: Seq<char>, event: AppEventView)
    requires
        event is State,
    ensures
        ({
            let (after, told) = telling(s, d, event);
            let (again, told_again) = telling(after, d, event);
            &&& after.collar_names == crate::protocol::model::collar_names(event->State_collars)
            &&& after.preset_names == crate::protocol::model::preset_names(event->State_presets)
            &&& after.action_duration_ms == s.action_duration_ms
            &&& again == after
            &&& told_again.discovery == Seq::<PublicationView>::empty()
            &&& told_again.state == told.state
        }),
{
}

/// When a state is told, what was chosen is kept. Where the names of collars or presets are others
/// than the link knew, every collar and preset is announced and the intensity of every collar is
/// told as it was chosen; otherwise nothing is announced. Whether a preset runs is told in any
/// case.
pub proof fn lemma_state_is_told(
    s: MqttStateView,
    d: Seq<char>,
    event: AppEventView,
    name: Seq<char>,
    x: PublicationView,
)
    requires
        event is State,
    ensures
        ({
            let collars = event->State_collars;
            let presets = event->State_presets;
            let (after, told) = telling(s, d, event);
            let names = crate::protocol::model::collar_names(collars);
            let others = crate::protocol::model::preset_names(presets);
            let same = names == s.collar_names && others == s.preset_names;
            &&& crate::mqtt::state::intensity_of(after.intensities, name)
                == crate::mqtt::state::intensity_of(s.intensities, name)
            &&& after.action_duration_ms == s.action_duration_ms
            &&& same ==> told.discovery.len() == 0
            &&& !same ==> (told.discovery.contains(x) <==> crate::mqtt::state::announces_collar(
                d,
                names,
                x,
            ) || crate::mqtt::state::announces_preset(d, others, x)
                || crate::mqtt::state::tells_intensity(after.intensities, d, names, x))
            &&& told.state matches Some(p) && p.topic
                == crate::mqtt::texts::preset_running_topic_text(d) && p.retain && p.payload
                == if event->State_preset_running is Some {
                "ON"@
            } else {
                "OFF"@
            }
        }),
{
    let collars = event->State_collars;
    let presets = event->State_presets;
    let names = crate::protocol::model::collar_names(collars);
    let others = crate::protocol::model::preset_names(presets);
    let after = telling(s, d, event).0;
    crate::mqtt::state::lemma_reading_anew_keeps_choices(s, collars, presets, name);
    crate::mqtt::state::lemma_rediscovery_announces_everything(after, d, names, others, x);
    crate::mqtt::state::lemma_known_names_are_not_withdrawn(d, names);
    crate::mqtt::state::lemma_known_names_are_not_withdrawn(d, others);
    crate::mqtt::state::lemma_stale_names_are_withdrawn(d, names, names, x);
    crate::mqtt::state::lemma_stale_names_are_withdrawn(d, others, others, x);
    assert(!Seq::<PublicationView>::empty().contains(x));
}

/// An action is told on the topic of its collar, with its mode and strength, if the link knows the
/// collar; nothing that the link knows changes.
pub proof fn lemma_action_is_told(s: MqttStateView, d: Seq<char>, event: AppEventView)
    requires
        event is ActionFired,
    ensures
        ({
            let name = event->ActionFired_collar_name;
            let (after, told) = telling(s, d, event);
            &&& after == s
            &&& told.discovery.len() == 0
            &&& told.state is Some <==> s.collar_names.contains(name)
            &&& told.state matches Some(p) ==> p.topic == "rusty_collars/"@ + d + "/collar/"@
                + crate::mqtt::slug::slug(name) + "/event"@ && p.payload == "{\"event_type\":\""@ + (
            match event->ActionFired_mode {
                crate::protocol::model::CommandMode::Shock => "shock"@,
                crate::protocol::model::CommandMode::Vibrate => "vibrate"@,
                crate::protocol::model::CommandMode::Beep => "beep"@,
            }) + "\",\"intensity\":"@ + crate::text::decimal(event->ActionFired_intensity as nat)
                + "}"@ && !p.retain
        }),
{
}

/// A connection is tried exactly if the link is on and a server is named.
pub proof fn lemma_when_a_broker_is_tried(s: DeviceSettingsView)
    ensures
        wants_link(s) <==> s.mqtt_enabled && !crate::text::is_blank(s.mqtt_server),
{
    crate::text::lemma_blank_is_trimmed_empty(s.mqtt_server);
}

/// A report on the link repeats what it was given, and the settings.
pub proof fn lemma_link_report_repeats(s: DeviceSettingsView, connected: bool, text: Seq<char>)
    ensures
        ({
            let r = link_status(s, connected, text);
            &&& r.enabled == s.mqtt_enabled
            &&& r.connected == connected
            &&& r.server == crate::text::trimmed(s.mqtt_server)
            &&& r.status_text == text
        }),
{
}

/// A name or a password is given exactly if it is not blank, and then without the blanks around
/// it.
pub proof fn lemma_what_is_given(s: Seq<char>)
    ensures
        given(s) is None <==> crate::text::is_blank(s),
        given(s) is Some ==> given(s)->0 == crate::text::trimmed(s),
{
    crate::text::lemma_blank_is_trimmed_empty(s);
}

/// A session ends exactly when the broker or the connection is gone, and then nothing that the link
/// knows changes. A message is handled as any, and nothing follows from silence.
pub proof fn lemma_when_a_session_ends(s: MqttStateView, d: Seq<char>, event: LinkEvent)
    ensures
        ({
            let (after, r) = turn(s, d, event);
            &&& r is Exit <==> event is Disconnected || event is Closed
            &&& event is Disconnected ==> r->Exit_0 == (SessionExitView::Disconnected {
                reason: "Broker disconnected"@,
            })
            &&& event is Closed ==> r->Exit_0 == (SessionExitView::Disconnected {
                reason: "Event channel closed"@,
            })
            &&& !(event is Message) ==> after == s
            &&& event is Connected || event is Quiet ==> r == TurnView::GoOn(
                IncomingView::Nothing,
            )
            &&& event matches LinkEvent::Message { topic, payload } ==> r is GoOn && (
                after,
                r->GoOn_0,
            ) == crate::mqtt::incoming::received(s, d, topic@, payload@)
        }),
{
}

/// A failure is told by the step that failed.
pub proof fn lemma_failures_are_named()
    ensures
        failure_text(Failure::Connect) == "Connect failed: "@,
        failure_text(Failure::Availability) == "Publish availability failed: "@,
        failure_text(Failure::Discovery) == "Discovery publish failed: "@,
        failure_text(Failure::Subscribe) == "Subscribe failed: "@,
        failure_text(Failure::State) == "State publish failed: "@,
{
}

/// The broker is told of nothing but states and actions, and nothing that the link knows changes
/// with other events.
pub proof fn lemma_what_a_broker_is_not_told(s: MqttStateView, d: Seq<char>, event: AppEventView)
    requires
        !(event is State),
        !(event is ActionFired),
    ensures
        telling(s, d, event).0 == s,
        telling(s, d, event).1.discovery.len() == 0,
        telling(s, d, event).1.state is None,
{
}

/// Every failure doubles the wait, up to thirty seconds.
pub proof fn lemma_waits_grow(delay_ms: u64)
    requires
        delay_ok(delay_ms),
    ensures
        2_000 <= delay_ms <= 30_000,
        delay_after(delay_ms) == if delay_ms <= 15_000 {
            delay_ms * 2
        } else {
            30_000
        },
{
}

} // verus!
