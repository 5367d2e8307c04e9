//! What clients are told.

use vstd::prelude::*;

use crate::control::rf_lockout_remaining_ms;
use crate::protocol::event_log::{EventLogEntry, EventLogEntryView};
use crate::protocol::model::{
    clone_collars, clone_presets, Collar, CollarView, CommandMode, MqttStatus, MqttStatusView,
    Preset, PresetView, RemoteControlStatus, RemoteControlStatusView, RfDebugFrame,
    RfDebugFrameView,
};
use crate::state::{DomainState, DomainView};

verus! {

/// Something that clients are told.
#[derive(Debug)]
pub enum AppEvent {
    State {
        device_id: String,
        server_uptime_s: u64,
        collars: Vec<Collar>,
        presets: Vec<Preset>,
        preset_running: Option<String>,
        rf_lockout_remaining_ms: u64,
    },
    RfDebugState { listening: bool, events: Vec<RfDebugFrame> },
    RfDebugEvent { event: RfDebugFrame },
    RemoteControlStatus { status: RemoteControlStatus },
    MqttStatus { status: MqttStatus },
    EventLogState { enabled: bool, events: Vec<EventLogEntry> },
    EventLogEvent { event: EventLogEntry },
    ActionFired { collar_name: String, mode: CommandMode, intensity: u8 },
}

#[allow(inconsistent_fields)]
pub enum AppEventView {
    State {
        device_id: Seq<char>,
        server_uptime_s: u64,
        collars: Seq<CollarView>,
        presets: Seq<PresetView>,
        preset_running: Option<Seq<char>>,
        rf_lockout_remaining_ms: u64,
    },
    RfDebugState { listening: bool, events: Seq<RfDebugFrameView> },
    RfDebugEvent { event: RfDebugFrameView },
    RemoteControlStatus { status: RemoteControlStatusView },
    MqttStatus { status: MqttStatusView },
    EventLogState { enabled: bool, events: Seq<EventLogEntryView> },
    EventLogEvent { event: EventLogEntryView },
    ActionFired { collar_name: Seq<char>, mode: CommandMode, intensity: u8 },
}

impl DeepView for AppEvent {
    type V = AppEventView;

    open spec fn deep_view(&self) -> AppEventView {
        match self {
            AppEvent::State {
                device_id,
                server_uptime_s,
                collars,
                presets,
                preset_running,
                rf_lockout_remaining_ms,
            } => AppEventView::State {
                device_id: device_id@,
                server_uptime_s: *server_uptime_s,
                collars: collars.deep_view(),
                presets: presets.deep_view(),
                preset_running: preset_running.deep_view(),
                rf_lockout_remaining_ms: *rf_lockout_remaining_ms,
            },
            AppEvent::RfDebugState { listening, events } => AppEventView::RfDebugState {
                listening: *listening,
                events: events.deep_view(),
            },
            AppEvent::RfDebugEvent { event } => AppEventView::RfDebugEvent {
                event: event.deep_view(),
            },
            AppEvent::RemoteControlStatus { status } => AppEventView::RemoteControlStatus {
                status: status.deep_view(),
            },
            AppEvent::MqttStatus { status } => AppEventView::MqttStatus {
                status: status.deep_view(),
            },
            AppEvent::EventLogState { enabled, events } => AppEventView::EventLogState {
                enabled: *enabled,
                events: events.deep_view(),
            },
            AppEvent::EventLogEvent { event } => AppEventView::EventLogEvent {
                event: event.deep_view(),
            },
            AppEvent::ActionFired { collar_name, mode, intensity } => AppEventView::ActionFired {
                collar_name: collar_name@,
                mode: *mode,
                intensity: *intensity,
            },
        }
    }
}

// ----- Where things stand -----

/// How collars, presets, the running preset and the lockout stand.
pub open spec fn state_of(d: DomainView, uptime_s: u64, now_ms: u64) -> AppEventView {
    AppEventView::State {
        device_id: d.device_settings.device_id,
        server_uptime_s: uptime_s,
        collars: d.collars,
        presets: d.presets,
        preset_running: d.preset_name,
        rf_lockout_remaining_ms: crate::control::lockout_remaining(d.rf_lockout_until_ms, now_ms),
    }
}

/// What the event log holds.
pub open spec fn event_log_of(d: DomainView) -> AppEventView {
    AppEventView::EventLogState {
        enabled: d.device_settings.record_event_log,
        events: d.event_log_events,
    }
}

/// The frames that were heard.
pub open spec fn rf_debug_of(d: DomainView, listening: bool) -> AppEventView {
    AppEventView::RfDebugState { listening, events: d.rf_debug_events }
}

pub fn state_event(domain: &DomainState, uptime_s: u64, now_ms: u64) -> (r: AppEvent)
    ensures
        r.deep_view() == state_of(domain.deep_view(), uptime_s, now_ms),
{
    let preset_running = match &domain.preset_name {
        Some(name) => Some(name.clone()),
        None => None,
    };
    AppEvent::State {
        device_id: domain.device_settings.device_id.clone(),
        server_uptime_s: uptime_s,
        collars: clone_collars(&domain.collars),
        presets: clone_presets(&domain.presets),
        preset_running,
        rf_lockout_remaining_ms: rf_lockout_remaining_ms(domain, now_ms),
    }
}

pub fn rf_debug_state_event(domain: &DomainState, listening: bool) -> (r: AppEvent)
    ensures
        r.deep_view() == rf_debug_of(domain.deep_view(), listening),
{
    let ghost all = domain.deep_view().rf_debug_events;
    let mut events: Vec<RfDebugFrame> = Vec::new();
    let mut i: usize = 0;
    assert(events.deep_view() =~= all.take(0));
    while i < domain.rf_debug_events.len()
        invariant
            i <= domain.rf_debug_events@.len(),
            all == domain.deep_view().rf_debug_events,
            events.deep_view() == all.take(i as int),
        decreases domain.rf_debug_events@.len() - i,
    {
        let ghost before = events.deep_view();
        let frame = domain.rf_debug_events[i].clone();
        assert(frame.deep_view() == all[i as int]);
        events.push(frame);
        assert(events.deep_view() =~= before.push(frame.deep_view()));
        assert(all.take(i + 1) =~= all.take(i as int).push(all[i as int]));
        i = i + 1;
    }
    assert(all.take(i as int) =~= all);
    AppEvent::RfDebugState { listening, events }
}

pub fn remote_control_status_event(domain: &DomainState) -> (r: AppEvent)
    ensures
        r.deep_view() == (AppEventView::RemoteControlStatus {
            status: domain.deep_view().remote_control_status,
        }),
{
    AppEvent::RemoteControlStatus { status: domain.remote_control_status.clone() }
}

pub fn mqtt_status_event(domain: &DomainState) -> (r: AppEvent)
    ensures
        r.deep_view() == (AppEventView::MqttStatus { status: domain.deep_view().mqtt_status }),
{
    AppEvent::MqttStatus { status: domain.mqtt_status.clone() }
}

pub fn event_log_state_event(domain: &DomainState) -> (r: AppEvent)
    ensures
        r.deep_view() == event_log_of(domain.deep_view()),
{
    let events = domain.event_log_events.clone();
    assert(events.deep_view() =~= domain.deep_view().event_log_events);
    AppEvent::EventLogState { enabled: domain.device_settings.record_event_log, events }
}

/// What the remote control server is sent when a connection comes up.
pub fn remote_sync_events(domain: &DomainState, uptime_s: u64, now_ms: u64) -> (r: Vec<AppEvent>)
    ensures
        r.deep_view() == seq![
            state_of(domain.deep_view(), uptime_s, now_ms),
            event_log_of(domain.deep_view()),
        ],
{
    let mut r: Vec<AppEvent> = Vec::new();
    r.push(state_event(domain, uptime_s, now_ms));
    r.push(event_log_state_event(domain));
    assert(r.deep_view() =~= seq![
        state_of(domain.deep_view(), uptime_s, now_ms),
        event_log_of(domain.deep_view()),
    ]);
    r
}

/// What a browser is sent when it connects.
pub fn local_ui_sync_events(
    domain: &DomainState,
    uptime_s: u64,
    now_ms: u64,
    listening_rf_debug: bool,
) -> (r: Vec<AppEvent>)
    ensures
        r.deep_view() == seq![
            state_of(domain.deep_view(), uptime_s, now_ms),
            AppEventView::RemoteControlStatus { status: domain.deep_view().remote_control_status },
            AppEventView::MqttStatus { status: domain.deep_view().mqtt_status },
            event_log_of(domain.deep_view()),
            rf_debug_of(domain.deep_view(), listening_rf_debug),
        ],
{
    let mut r: Vec<AppEvent> = Vec::new();
    r.push(state_event(domain, uptime_s, now_ms));
    r.push(remote_control_status_event(domain));
    r.push(mqtt_status_event(domain));
    r.push(event_log_state_event(domain));
    r.push(rf_debug_state_event(domain, listening_rf_debug));
    assert(r.deep_view() =~= seq![
        state_of(domain.deep_view(), uptime_s, now_ms),
        AppEventView::RemoteControlStatus { status: domain.deep_view().remote_control_status },
        AppEventView::MqttStatus { status: domain.deep_view().mqtt_status },
        event_log_of(domain.deep_view()),
        rf_debug_of(domain.deep_view(), listening_rf_debug),
    ]);
    r
}

// ----- Who is told what -----

impl AppEvent {
    /// Whether an event is about frames that were heard.
    pub open spec fn about_rf_debug(self) -> bool {
        self is RfDebugState || self is RfDebugEvent
    }

    /// Whether a browser is told: of frames only if it listens to them, and never of every single
    /// command of an action.
    pub open spec fn for_local_ui(self, listening_rf_debug: bool) -> bool {
        (self.about_rf_debug() ==> listening_rf_debug) && !(self is ActionFired)
    }

    /// Whether the remote control server is told: of the state and of the event log.
    pub open spec fn for_remote_control(self) -> bool {
        self is State || self is EventLogState || self is EventLogEvent
    }

    pub fn is_rf_debug(&self) -> (r: bool)
        ensures
            r == self.about_rf_debug(),
    {
        match self {
            AppEvent::RfDebugState { listening: _, events: _ } => true,
            AppEvent::RfDebugEvent { event: _ } => true,
            _ => false,
        }
    }

    pub fn is_action_fired(&self) -> (r: bool)
        ensures
            r == (self is ActionFired),
    {
        match self {
            AppEvent::ActionFired { collar_name: _, mode: _, intensity: _ } => true,
            _ => false,
        }
    }

    pub fn goes_to_local_ui(&self, listening_rf_debug: bool) -> (r: bool)
        ensures
            r == self.for_local_ui(listening_rf_debug),
    {
        (!self.is_rf_debug() || listening_rf_debug) && !self.is_action_fired()
    }

    pub fn goes_to_remote_control(&self) -> (r: bool)
        ensures
            r == self.for_remote_control(),
    {
        match self {
            AppEvent::State {
                device_id: _,
                server_uptime_s: _,
                collars: _,
                presets: _,
                preset_running: _,
                rf_lockout_remaining_ms: _,
            } => true,
            AppEvent::EventLogState { enabled: _, events: _ } => true,
            AppEvent::EventLogEvent { event: _ } => true,
            _ => false,
        }
    }
}

/// What is told of the state is the state: every collar and every preset as it stands, the preset
/// that runs, and how much of a lockout is left at this moment.
pub proof fn lemma_state_is_told_as_it_is(d: DomainView, uptime_s: u64, now_ms: u64)
    ensures
        state_of(d, uptime_s, now_ms) matches AppEventView::State {
            device_id,
            server_uptime_s,
            collars,
            presets,
            preset_running,
            rf_lockout_remaining_ms,
        } && device_id == d.device_settings.device_id && server_uptime_s == uptime_s && collars
            == d.collars && presets == d.presets && preset_running == d.preset_name && (
        d.rf_lockout_until_ms <= now_ms ==> rf_lockout_remaining_ms == 0) && (
        d.rf_lockout_until_ms >= now_ms ==> now_ms + rf_lockout_remaining_ms
            == d.rf_lockout_until_ms),
{
}

/// What is told of the event log and of the frames is all that they hold.
pub proof fn lemma_logs_are_told_as_they_are(d: DomainView, listening: bool)
    ensures
        event_log_of(d) == (AppEventView::EventLogState {
            enabled: d.device_settings.record_event_log,
            events: d.event_log_events,
        }),
        rf_debug_of(d, listening) == (AppEventView::RfDebugState {
            listening,
            events: d.rf_debug_events,
        }),
{
}

/// A browser is told of everything but the single commands of actions; of frames that were heard
/// only while it listens to them.
pub proof fn lemma_who_is_told_locally(e: AppEvent, listening_rf_debug: bool)
    ensures
        e.for_local_ui(listening_rf_debug) == match e {
            AppEvent::State { .. } => true,
            AppEvent::RemoteControlStatus { .. } => true,
            AppEvent::MqttStatus { .. } => true,
            AppEvent::EventLogState { .. } => true,
            AppEvent::EventLogEvent { .. } => true,
            AppEvent::RfDebugState { .. } => listening_rf_debug,
            AppEvent::RfDebugEvent { .. } => listening_rf_debug,
            AppEvent::ActionFired { .. } => false,
        },
        e.about_rf_debug() == match e {
            AppEvent::RfDebugState { .. } => true,
            AppEvent::RfDebugEvent { .. } => true,
            _ => false,
        },
{
}

/// The remote control server is told of the state and of the event log, and of nothing else: not
/// of frames, of the links or of single commands.
pub proof fn lemma_who_is_told_remotely(e: AppEvent)
    ensures
        e.for_remote_control() == match e {
            AppEvent::State { .. } => true,
            AppEvent::EventLogState { .. } => true,
            AppEvent::EventLogEvent { .. } => true,
            AppEvent::RemoteControlStatus { .. } => false,
            AppEvent::MqttStatus { .. } => false,
            AppEvent::RfDebugState { .. } => false,
            AppEvent::RfDebugEvent { .. } => false,
            AppEvent::ActionFired { .. } => false,
        },
{
}

} // verus!
