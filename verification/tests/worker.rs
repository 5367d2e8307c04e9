use rusty_collars::clients::{Admission, Clients, RfDebugListeners};
use rusty_collars::error::ControlError;
use rusty_collars::events::{
    event_log_state_event, local_ui_sync_events, mqtt_status_event, remote_control_status_event,
    remote_sync_events, rf_debug_state_event, state_event, AppEvent,
};
use rusty_collars::local_session::end_session;
use rusty_collars::protocol::{
    Chip, ClientInfo, Collar, CommandMode, DeviceSettings, EventLogEntryKind, EventSource,
    ExportData, MqttStatus, Preset, PresetStep, PresetStepMode, PresetTrack, RemoteControlStatus,
    RfDebugFrame,
};
use rusty_collars::repository::{
    CallRecord, CollarRepository, PresetRepository, RepositoryError, RepositoryServices,
    SettingsRepository,
};
use rusty_collars::scheduling::PresetEvent;
use rusty_collars::session::{ActionOwner, AppCommand, Reply, TransmissionCommand};
use rusty_collars::startup::start_domain;
use rusty_collars::state::DomainState;
use rusty_collars::worker::{current_unix_ms, handle_app_command, Clock, Effect, Handled};

struct Memory {
    fails: bool,
    saves: usize,
    collars: Vec<Collar>,
    presets: Vec<Preset>,
}

impl Memory {
    fn save(&mut self) -> Result<(), RepositoryError> {
        if self.fails {
            Err(RepositoryError {
                message: "full".to_string(),
            })
        } else {
            self.saves += 1;
            Ok(())
        }
    }
}

impl CallRecord for Memory {}

impl SettingsRepository for Memory {
    fn ensure_device_id(&mut self, _settings: &mut DeviceSettings) -> Result<(), RepositoryError> {
        self.save()
    }

    fn load_settings(&mut self) -> Result<DeviceSettings, RepositoryError> {
        Ok(DeviceSettings::default(Chip::Esp32))
    }

    fn save_settings(&mut self, _settings: &DeviceSettings) -> Result<(), RepositoryError> {
        self.save()
    }
}

impl CollarRepository for Memory {
    fn load_collars(&mut self) -> Result<Vec<Collar>, RepositoryError> {
        Ok(Vec::new())
    }

    fn save_collars(&mut self, collars: &[Collar]) -> Result<(), RepositoryError> {
        self.save()?;
        self.collars = collars.to_vec();
        Ok(())
    }
}

impl PresetRepository for Memory {
    fn load_presets(&mut self) -> Result<Vec<Preset>, RepositoryError> {
        Ok(Vec::new())
    }

    fn save_presets(&mut self, presets: &[Preset]) -> Result<(), RepositoryError> {
        self.save()?;
        self.presets = presets.to_vec();
        Ok(())
    }
}

fn collar(name: &str) -> Collar {
    Collar {
        name: name.to_string(),
        collar_id: 1,
        channel: 0,
    }
}

fn preset(name: &str) -> Preset {
    Preset {
        name: name.to_string(),
        tracks: vec![PresetTrack {
            collar_name: "a".to_string(),
            steps: vec![PresetStep {
                mode: PresetStepMode::Shock,
                intensity: 1,
                duration_ms: 500,
                intensity_max: None,
                duration_max_ms: None,
                intensity_distribution: None,
                duration_distribution: None,
            }],
        }],
    }
}

struct World {
    domain: DomainState,
    repository: RepositoryServices<Memory>,
    sequence: u32,
}

impl World {
    fn new() -> Self {
        World {
            domain: start_domain(
                DeviceSettings::default(Chip::Esp32),
                vec![collar("a"), collar("b")],
                vec![preset("p"), preset("q")],
            ),
            repository: RepositoryServices::new(Memory {
                fails: false,
                saves: 0,
                collars: Vec::new(),
                presets: Vec::new(),
            }),
            sequence: 0,
        }
    }

    fn tell(&mut self, command: AppCommand) -> Handled {
        let clock = Clock {
            now_ms: 1_000,
            unix_ms: Some(946_684_800_000),
        };
        handle_app_command(
            &mut self.domain,
            &mut self.repository,
            &mut self.sequence,
            clock,
            command,
        )
    }
}

fn state_told(handled: &Handled) -> bool {
    handled
        .effects
        .iter()
        .any(|e| matches!(e, Effect::BroadcastState))
}

#[test]
fn changes_are_saved_and_told() {
    let mut w = World::new();
    let added = w.tell(AppCommand::AddCollar { collar: collar("c") });
    assert!(matches!(added.reply, Ok(None)));
    assert!(state_told(&added));
    assert_eq!(w.domain.collars.len(), 3);
    assert_eq!(w.repository.repository.saves, 1);
    let deleted = w.tell(AppCommand::DeleteCollar {
        name: "c".to_string(),
    });
    assert!(state_told(&deleted));
    assert_eq!(w.domain.collars.len(), 2);
    let saved = w.tell(AppCommand::SavePreset {
        original_name: None,
        preset: preset("r"),
    });
    assert!(state_told(&saved));
    let gone = w.tell(AppCommand::DeletePreset {
        name: "q".to_string(),
    });
    assert!(state_told(&gone));
    let ordered = w.tell(AppCommand::ReorderPresets {
        names: vec!["r".to_string(), "p".to_string()],
    });
    assert!(state_told(&ordered));
    let names: Vec<&str> = w.domain.presets.iter().map(|p| p.name.as_str()).collect();
    assert_eq!(names, vec!["r", "p"]);
}

#[test]
fn renaming_a_collar_stops_what_runs_on_it() {
    let mut w = World::new();
    w.domain.preset_name = Some("p".to_string());
    let handled = w.tell(AppCommand::UpdateCollar {
        original_name: "a".to_string(),
        updated: collar("z"),
    });
    assert!(matches!(handled.reply, Ok(None)));
    assert!(handled
        .effects
        .iter()
        .any(|e| matches!(e, Effect::Transmit(TransmissionCommand::StopPreset))));
    assert!(handled
        .effects
        .iter()
        .any(|e| matches!(e, Effect::Transmit(TransmissionCommand::CancelAllActions))));
    assert_eq!(w.domain.preset_name, None);
    assert_eq!(w.domain.presets[0].tracks[0].collar_name, "z");
}

#[test]
fn refused_changes_have_no_effect() {
    let mut w = World::new();
    for command in [
        AppCommand::AddCollar { collar: collar("a") },
        AppCommand::AddCollar { collar: collar(" ") },
        AppCommand::DeleteCollar { name: "x".to_string() },
        AppCommand::DeleteCollar { name: "a".to_string() },
        AppCommand::UpdateCollar { original_name: "x".to_string(), updated: collar("y") },
        AppCommand::DeletePreset { name: "x".to_string() },
        AppCommand::SavePreset { original_name: Some("x".to_string()), preset: preset("y") },
    ] {
        let handled = w.tell(command);
        assert!(handled.reply.is_err());
        assert!(handled.effects.is_empty());
    }
    assert_eq!(w.domain.collars.len(), 2);
    assert_eq!(w.domain.presets.len(), 2);
    assert_eq!(w.repository.repository.saves, 0);
}

#[test]
fn a_failed_save_is_reported() {
    let mut w = World::new();
    w.repository.repository.fails = true;
    let handled = w.tell(AppCommand::AddCollar { collar: collar("c") });
    match handled.reply {
        Err(ControlError::Persistence { operation, source }) => {
            assert_eq!(operation, "save collars");
            assert_eq!(source.message, "full");
        }
        other => panic!("{other:?}"),
    }
}

#[test]
fn stopping_everything_bars_transmissions() {
    let mut w = World::new();
    w.domain.preset_name = Some("p".to_string());
    let handled = w.tell(AppCommand::StopAll);
    assert!(handled
        .effects
        .iter()
        .any(|e| matches!(e, Effect::Transmit(TransmissionCommand::StopAll))));
    assert!(state_told(&handled));
    assert_eq!(w.domain.preset_name, None);
    assert_eq!(w.domain.rf_lockout_until_ms, 11_000);
}

#[test]
fn a_preset_runs_from_start_to_end() {
    let mut w = World::new();
    w.domain.device_settings.record_event_log = true;
    let events = vec![PresetEvent {
        time_ms: 0,
        collar_id: 1,
        channel: 0,
        mode_byte: 1,
        intensity: 1,
    }];
    let started = w.tell(AppCommand::StartPresetExecution {
        preset_name: "p".to_string(),
        source: EventSource::LocalUi,
        resolved_preset: None,
        events,
    });
    assert!(started.effects.iter().any(|e| matches!(
        e,
        Effect::Transmit(TransmissionCommand::StartPreset { preset_name, events })
            if preset_name == "p" && events.len() == 1
    )));
    assert_eq!(w.domain.preset_name.as_deref(), Some("p"));
    assert_eq!(w.domain.event_log_events.len(), 1);
    assert_eq!(w.domain.event_log_events[0].sequence, 1);
    assert_eq!(w.domain.event_log_events[0].monotonic_ms, 1_000);
    let other = w.tell(AppCommand::CompletePreset {
        preset_name: "q".to_string(),
    });
    assert!(other.effects.is_empty());
    let done = w.tell(AppCommand::CompletePreset {
        preset_name: "p".to_string(),
    });
    assert!(state_told(&done));
    assert_eq!(w.domain.preset_name, None);
    assert!(w.tell(AppCommand::StopPreset).reply.is_ok());
}

#[test]
fn imports_replace_everything() {
    let mut w = World::new();
    let handled = w.tell(AppCommand::ImportData {
        data: ExportData {
            collars: vec![collar("a")],
            presets: vec![preset("only")],
        },
    });
    assert!(handled.reply.is_ok());
    assert!(state_told(&handled));
    assert_eq!(w.domain.collars.len(), 1);
    assert_eq!(w.domain.presets[0].name, "only");
    assert_eq!(w.repository.repository.saves, 2);
}

#[test]
fn settings_set_links_up_anew() {
    let mut w = World::new();
    let settings = DeviceSettings {
        remote_control_enabled: true,
        remote_control_url: "wss://x.example/".to_string(),
        mqtt_enabled: true,
        mqtt_server: "broker".to_string(),
        record_event_log: true,
        ..DeviceSettings::default(Chip::Esp32)
    };
    let handled = w.tell(AppCommand::SaveDeviceSettings { settings });
    assert!(matches!(
        handled.reply,
        Ok(Some(Reply::DeviceSettings { reboot_required: false, .. }))
    ));
    let has = |f: fn(&Effect) -> bool| handled.effects.iter().any(f);
    assert!(has(|e| matches!(e, Effect::ReconnectRemoteControl)));
    assert!(has(|e| matches!(e, Effect::ReconnectMqtt)));
    assert!(has(|e| matches!(e, Effect::BroadcastEventLog)));
    assert_eq!(w.domain.mqtt_status.status_text, "Connecting...");
}

#[test]
fn reports_are_passed_on_when_they_change() {
    let mut w = World::new();
    let status = || RemoteControlStatus {
        enabled: true,
        connected: true,
        url: "u".to_string(),
        validate_cert: true,
        rtt_ms: Some(1),
        status_text: "Connected".to_string(),
    };
    let first = w.tell(AppCommand::SetRemoteControlStatus { status: status() });
    assert!(matches!(first.effects[..], [Effect::BroadcastRemoteControlStatus]));
    let second = w.tell(AppCommand::SetRemoteControlStatus { status: status() });
    assert!(second.effects.is_empty());
    let mqtt = w.tell(AppCommand::SetMqttStatus {
        status: MqttStatus {
            enabled: true,
            connected: false,
            server: "s".to_string(),
            status_text: "x".to_string(),
        },
    });
    assert!(matches!(mqtt.effects[..], [Effect::BroadcastMqttStatus]));
}

#[test]
fn events_are_recorded_only_if_they_are_to_be() {
    let mut w = World::new();
    let sync = || AppCommand::RecordEvent {
        source: EventSource::System,
        kind: EventLogEntryKind::NtpSync {
            server: "s".to_string(),
        },
    };
    assert!(w.tell(sync()).effects.is_empty());
    assert_eq!(w.sequence, 0);
    w.domain.device_settings.record_event_log = true;
    assert!(matches!(
        w.tell(sync()).effects[..],
        [Effect::BroadcastEventLogEntry(ref entry)] if entry.sequence == 1
    ));
    assert_eq!(w.sequence, 1);
    assert_eq!(current_unix_ms(946_684_799_999), None);
    assert_eq!(current_unix_ms(946_684_800_000), Some(946_684_800_000));
}

#[test]
fn heard_frames_are_kept_and_told() {
    let mut w = World::new();
    let event = RfDebugFrame {
        received_at_ms: 5,
        raw_hex: "00".to_string(),
        collar_id: 1,
        channel: 0,
        mode_raw: 1,
        mode: Some(CommandMode::Shock),
        intensity: 1,
        checksum_ok: true,
    };
    let pushed = w.tell(AppCommand::PushRfDebugEvent { event });
    assert!(matches!(pushed.effects[..], [Effect::BroadcastRfDebugEvent(_)]));
    assert_eq!(w.domain.rf_debug_events.len(), 1);
    let cleared = w.tell(AppCommand::ClearRfDebugEvents { listening: true });
    assert!(matches!(cleared.reply, Ok(Some(Reply::RfDebugState { listening: true }))));
    assert!(w.domain.rf_debug_events.is_empty());
}

#[test]
fn clients_are_told_how_things_stand() {
    let mut w = World::new();
    w.domain.rf_lockout_until_ms = 1_500;
    w.domain.preset_name = Some("p".to_string());
    match state_event(&w.domain, 7, 1_000) {
        AppEvent::State {
            server_uptime_s,
            collars,
            preset_running,
            rf_lockout_remaining_ms,
            ..
        } => {
            assert_eq!(server_uptime_s, 7);
            assert_eq!(collars, w.domain.collars);
            assert_eq!(preset_running.as_deref(), Some("p"));
            assert_eq!(rf_lockout_remaining_ms, 500);
        }
        other => panic!("{other:?}"),
    }
    assert!(matches!(
        remote_sync_events(&w.domain, 7, 1_000)[..],
        [AppEvent::State { .. }, AppEvent::EventLogState { .. }]
    ));
    assert!(matches!(
        local_ui_sync_events(&w.domain, 7, 1_000, false)[..],
        [
            AppEvent::State { .. },
            AppEvent::RemoteControlStatus { .. },
            AppEvent::MqttStatus { .. },
            AppEvent::EventLogState { .. },
            AppEvent::RfDebugState { listening: false, .. }
        ]
    ));
}

#[test]
fn clients_are_told_only_what_is_theirs() {
    let w = World::new();
    let state = state_event(&w.domain, 0, 0);
    assert!(state.goes_to_local_ui(false) && state.goes_to_remote_control());
    let heard = rf_debug_state_event(&w.domain, true);
    assert!(heard.is_rf_debug());
    assert!(heard.goes_to_local_ui(true) && !heard.goes_to_local_ui(false));
    assert!(!heard.goes_to_remote_control());
    let fired = AppEvent::ActionFired {
        collar_name: "a".to_string(),
        mode: CommandMode::Beep,
        intensity: 0,
    };
    assert!(fired.is_action_fired());
    assert!(!fired.goes_to_local_ui(true) && !fired.goes_to_remote_control());
    assert!(event_log_state_event(&w.domain).goes_to_remote_control());
    assert!(!remote_control_status_event(&w.domain).goes_to_remote_control());
    assert!(mqtt_status_event(&w.domain).goes_to_local_ui(false));
}

fn info(ip: &str) -> ClientInfo {
    ClientInfo {
        ip: ip.to_string(),
        forwarded_for: None,
        user_agent: None,
    }
}

#[test]
fn leaving_clients_are_forgotten() {
    let mut clients = Clients::new();
    clients.register(1, info("10.0.0.1"));
    clients.register(2, info("10.0.0.2"));
    clients.register(3, info("10.0.0.1"));
    clients.unregister(2);
    clients.unregister(9);
    assert_eq!(clients.client_ips(), vec!["10.0.0.1", "10.0.0.1"]);
}

#[test]
fn connections_are_let_in_up_to_the_limit() {
    let mut admission = Admission::new();
    assert_eq!(admission.let_in(2), Some(1));
    assert_eq!(admission.let_in(2), Some(2));
    assert_eq!(admission.let_in(2), None);
    admission.release();
    assert_eq!(admission.let_in(2), Some(3));
}

#[test]
fn the_receiver_runs_while_somebody_listens() {
    let mut listeners = RfDebugListeners::new();
    assert!(listeners.start(false));
    assert!(!listeners.start(true));
    assert!(listeners.start(false));
    listeners.release(true);
    assert!(listeners.enabled);
    listeners.release(false);
    listeners.release(true);
    assert!(!listeners.enabled);
}

#[test]
fn a_browser_that_leaves_is_forgotten() {
    let mut clients = Clients::new();
    clients.register(1, info("10.0.0.1"));
    clients.register(2, info("10.0.0.2"));
    let mut listeners = RfDebugListeners::new();
    assert!(listeners.start(false));
    let command = end_session(2, true, &mut clients, &mut listeners);
    assert!(matches!(
        command,
        TransmissionCommand::CancelOwnedActions {
            owner: ActionOwner::LocalWs(2)
        }
    ));
    assert_eq!(clients.client_ips(), vec!["10.0.0.1"]);
    assert!(!listeners.enabled);
    assert_eq!(listeners.count, 0);
}

#[test]
fn changes_are_kept() {
    let mut w = World::new();
    let handled = w.tell(AppCommand::UpdateCollar {
        original_name: "a".to_string(),
        updated: collar("c"),
    });
    assert!(handled.reply.is_ok());
    let kept = &w.repository.repository;
    assert_eq!(kept.collars, vec![collar("c"), collar("b")]);
    assert_eq!(kept.presets.len(), 2);
    assert_eq!(kept.presets[0].tracks[0].collar_name, "c");
    assert_eq!(kept.presets, w.domain.presets);

    w.repository.repository.fails = true;
    let handled = w.tell(AppCommand::DeletePreset {
        name: "p".to_string(),
    });
    assert!(matches!(
        handled.reply,
        Err(ControlError::Persistence { operation: "save presets", .. })
    ));
    assert_eq!(w.repository.repository.presets.len(), 2);
    assert_eq!(w.domain.presets.len(), 1);
}
