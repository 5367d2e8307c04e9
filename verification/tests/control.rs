use rand::rngs::SmallRng;
use rand::SeedableRng;
use rusty_collars::clients::{Clients, RfDebugListeners};
use rusty_collars::control::{
    check_settings, command_intensity, ensure_local_ui, local_ui_dispatcher, mqtt_dispatcher,
    remote_control_dispatcher, resolve_collar_command, rf_lockout_remaining_ms, ControlDispatcher,
    ControlOutcome,
};
use rusty_collars::error::ControlError;
use rusty_collars::local_session::end_session;
use rusty_collars::preview::RandomResolver;
use rusty_collars::protocol::{
    ButtonAction, Chip, ClientMessage, Collar, CommandMode, DeviceSettings, EventSource, ExportData,
    Preset, PresetStep, PresetStepMode, PresetTrack,
};
use rusty_collars::random::GaussianSource;
use rusty_collars::repository::RepositoryError;
use rusty_collars::session::{
    event_source, ActionOwner, AppCommand, MessageOrigin, Reply, TransmissionCommand,
};
use rusty_collars::startup::start_domain;
use rusty_collars::state::DomainState;
use rusty_collars::transmission::Transmitter;

struct Fixed(i64);

impl GaussianSource for Fixed {
    fn sample(&mut self, _rng: &mut SmallRng, _low: u32, _high: u32) -> i64 {
        self.0
    }
}

fn preset(name: &str, steps: Vec<PresetStep>) -> Preset {
    Preset {
        name: name.to_string(),
        tracks: vec![PresetTrack {
            collar_name: "Rex".to_string(),
            steps,
        }],
    }
}

fn step(mode: PresetStepMode, intensity: u8, duration_ms: u32) -> PresetStep {
    PresetStep {
        mode,
        intensity,
        duration_ms,
        intensity_max: None,
        duration_max_ms: None,
        intensity_distribution: None,
        duration_distribution: None,
    }
}

fn domain() -> DomainState {
    start_domain(
        DeviceSettings::default(Chip::Esp32),
        vec![Collar {
            name: "Rex".to_string(),
            collar_id: 0x1234,
            channel: 2,
        }],
        vec![
            preset("fine", vec![step(PresetStepMode::Shock, 5, 150)]),
            preset("broken", vec![step(PresetStepMode::Shock, 100, 150)]),
            preset("short", vec![step(PresetStepMode::Shock, 5, 100)]),
        ],
    )
}

fn handle(
    dispatcher: &ControlDispatcher,
    domain: &DomainState,
    now_ms: u64,
    msg: ClientMessage,
) -> Result<ControlOutcome, ControlError> {
    let mut random = RandomResolver {
        rng: SmallRng::seed_from_u64(3),
        gaussian: Fixed(0),
    };
    dispatcher.handle(domain, now_ms, now_ms * 1_000, &mut random, msg)
}

fn local(domain: &DomainState, msg: ClientMessage) -> Result<ControlOutcome, ControlError> {
    handle(&local_ui_dispatcher(ActionOwner::LocalWs(4)), domain, 10, msg)
}

fn command(collar_name: &str, mode: CommandMode, intensity: u8) -> ClientMessage {
    ClientMessage::Command {
        collar_name: collar_name.to_string(),
        mode,
        intensity,
    }
}

fn run_action(intensity: u8, duration_ms: u32, intensity_max: Option<u8>) -> ClientMessage {
    ClientMessage::RunAction {
        collar_name: "Rex".to_string(),
        mode: CommandMode::Vibrate,
        intensity,
        duration_ms,
        intensity_max,
        duration_max_ms: None,
        intensity_distribution: None,
        duration_distribution: None,
    }
}

fn run_preset(name: &str) -> ClientMessage {
    ClientMessage::RunPreset {
        name: name.to_string(),
    }
}

#[test]
fn a_command_is_sent_to_its_collar() {
    let d = domain();
    assert!(matches!(
        local(&d, command("Rex", CommandMode::Shock, 99)),
        Ok(ControlOutcome::SendNow { collar_id: 0x1234, channel: 2, mode_byte: 1, intensity: 99 })
    ));
    assert!(matches!(
        local(&d, command("Rex", CommandMode::Beep, 200)),
        Ok(ControlOutcome::SendNow { mode_byte: 3, intensity: 0, .. })
    ));
    assert_eq!(command_intensity(CommandMode::Beep, 40), 0);
}

#[test]
fn commands_that_cannot_be_sent_are_refused() {
    let d = domain();
    assert!(matches!(
        local(&d, command("Rex", CommandMode::Shock, 100)),
        Err(ControlError::InvalidIntensity { intensity: 100, max: 99 })
    ));
    let unknown = local(&d, command("Tom", CommandMode::Shock, 1)).unwrap_err();
    assert_eq!(unknown.message(), "Unknown collar: Tom");
    assert!(resolve_collar_command(&d, 10, "Rex", CommandMode::Shock, 1).is_ok());
}

#[test]
fn after_a_stop_nothing_is_sent() {
    let mut d = domain();
    d.rf_lockout_until_ms = 500;
    let messages = || {
        vec![
            command("Rex", CommandMode::Shock, 1),
            run_action(1, 500, None),
            run_preset("fine"),
            ClientMessage::StartAction {
                collar_name: "Rex".to_string(),
                mode: CommandMode::Beep,
                intensity: 0,
                intensity_max: None,
                intensity_distribution: None,
            },
        ]
    };
    let dispatcher = local_ui_dispatcher(ActionOwner::LocalWs(1));
    for msg in messages() {
        assert!(matches!(
            handle(&dispatcher, &d, 499, msg),
            Err(ControlError::TransmissionLockout)
        ));
    }
    for msg in messages() {
        assert!(handle(&dispatcher, &d, 500, msg).is_ok());
    }
    assert_eq!(rf_lockout_remaining_ms(&d, 100), 400);
    assert_eq!(rf_lockout_remaining_ms(&d, 501), 0);
}

#[test]
fn a_timed_action_is_started() {
    let d = domain();
    match local(&d, run_action(20, 1_500, None)) {
        Ok(ControlOutcome::Transmit(TransmissionCommand::UpsertAction { key, handle })) => {
            assert_eq!(key.collar_name, "Rex");
            assert_eq!(key.mode, CommandMode::Vibrate);
            assert_eq!(handle.owner, Some(ActionOwner::LocalWs(4)));
            assert!(!handle.cancel_on_disconnect);
            assert_eq!((handle.collar_id, handle.channel), (0x1234, 2));
            assert_eq!((handle.mode_byte, handle.intensity), (2, 20));
            assert_eq!(handle.started_at_us, 10_000);
            assert_eq!(handle.deadline_us, Some(1_510_000));
            assert_eq!(handle.source, EventSource::LocalUi);
        }
        other => panic!("{other:?}"),
    }
    assert!(matches!(
        local(&d, run_action(20, 0, None)),
        Err(ControlError::ActionDurationZero)
    ));
    match local(&d, run_action(20, 500, Some(40))) {
        Ok(ControlOutcome::Transmit(TransmissionCommand::UpsertAction { handle, .. })) => {
            assert!((20..=40).contains(&handle.intensity))
        }
        other => panic!("{other:?}"),
    }
}

#[test]
fn a_held_action_ends_with_its_connection() {
    let d = domain();
    let dispatcher = local_ui_dispatcher(ActionOwner::LocalWs(4));
    let hold = ClientMessage::StartAction {
        collar_name: "Rex".to_string(),
        mode: CommandMode::Beep,
        intensity: 0,
        intensity_max: None,
        intensity_distribution: None,
    };
    let mut transmitter = Transmitter::new();
    match handle(&dispatcher, &d, 10, hold) {
        Ok(ControlOutcome::Transmit(command)) => {
            transmitter.apply_command(command, 10_000);
        }
        other => panic!("{other:?}"),
    }
    assert_eq!(transmitter.actions.len(), 1);
    let mut clients = Clients::new();
    let mut listeners = RfDebugListeners::new();
    let others = end_session(5, false, &mut clients, &mut listeners);
    transmitter.apply_command(others, 20_000);
    assert_eq!(transmitter.actions.len(), 1);
    let own = end_session(4, false, &mut clients, &mut listeners);
    let done = transmitter.apply_command(own, 30_000);
    assert_eq!(done.len(), 1);
    assert_eq!(done[0].collar_name, "Rex");
    assert!(transmitter.actions.is_empty());
}

#[test]
fn a_held_action_needs_a_connection() {
    let d = domain();
    let hold = || ClientMessage::StartAction {
        collar_name: "Rex".to_string(),
        mode: CommandMode::Shock,
        intensity: 3,
        intensity_max: None,
        intensity_distribution: None,
    };
    match handle(&remote_control_dispatcher(), &d, 10, hold()) {
        Ok(ControlOutcome::Transmit(TransmissionCommand::UpsertAction { handle, .. })) => {
            assert!(handle.cancel_on_disconnect);
            assert_eq!(handle.deadline_us, None);
            assert_eq!(handle.owner, Some(ActionOwner::RemoteControl));
            assert_eq!(handle.source, EventSource::RemoteControl);
        }
        other => panic!("{other:?}"),
    }
    let nobody = ControlDispatcher::new(MessageOrigin::LocalUi, None);
    assert!(matches!(
        handle(&nobody, &d, 10, hold()),
        Err(ControlError::HeldActionRequiresOwner)
    ));
    assert!(matches!(
        handle(&mqtt_dispatcher(), &d, 10, ClientMessage::StopAction {
            collar_name: "Rex".to_string(),
            mode: CommandMode::Shock,
        }),
        Ok(ControlOutcome::Transmit(TransmissionCommand::CancelAction { key }))
            if key.collar_name == "Rex" && key.mode == CommandMode::Shock
    ));
}

#[test]
fn presets_are_run_or_refused() {
    let d = domain();
    match local(&d, run_preset("fine")) {
        Ok(ControlOutcome::Ask(AppCommand::StartPresetExecution {
            preset_name,
            source,
            resolved_preset,
            events,
        })) => {
            assert_eq!(preset_name, "fine");
            assert_eq!(source, EventSource::LocalUi);
            assert!(resolved_preset.is_none());
            assert_eq!(events.len(), 1);
            assert_eq!(events[0].intensity, 5);
        }
        other => panic!("{other:?}"),
    }
    assert!(matches!(
        local(&d, run_preset("none")),
        Err(ControlError::UnknownPreset(name)) if name == "none"
    ));
    assert!(matches!(local(&d, run_preset("broken")), Err(ControlError::Validation(_))));
    assert!(matches!(local(&d, run_preset("short")), Err(ControlError::Validation(_))));
}

#[test]
fn previews_answer_with_their_nonce() {
    let d = domain();
    let ask = |preset: Preset| local(&d, ClientMessage::PreviewPreset { nonce: 9, preset });
    assert!(matches!(
        ask(preset("p", vec![step(PresetStepMode::Shock, 5, 150)])),
        Ok(ControlOutcome::Reply(Reply::PresetPreview { nonce: 9, preview: Some(_), error: None }))
    ));
    assert!(matches!(
        ask(preset("", vec![step(PresetStepMode::Shock, 5, 150)])),
        Ok(ControlOutcome::Reply(Reply::PresetPreview { nonce: 9, preview: None, error: Some(_) }))
    ));
}

#[test]
fn what_is_local_stays_local() {
    let d = domain();
    let messages = || {
        vec![
            ClientMessage::StartRfDebug,
            ClientMessage::StopRfDebug,
            ClientMessage::ClearRfDebug,
            ClientMessage::Reboot,
            ClientMessage::GetDeviceSettings,
            ClientMessage::GetNetworkStatus,
            ClientMessage::SaveDeviceSettings {
                settings: DeviceSettings::default(Chip::Esp32),
            },
            ClientMessage::PreviewPreset {
                nonce: 1,
                preset: preset("p", vec![]),
            },
            ClientMessage::Export,
            ClientMessage::Import {
                data: ExportData {
                    collars: vec![],
                    presets: vec![],
                },
            },
        ]
    };
    for dispatcher in [remote_control_dispatcher(), mqtt_dispatcher()] {
        for msg in messages() {
            assert!(matches!(
                handle(&dispatcher, &d, 10, msg),
                Err(ControlError::LocalUiOnly { .. })
            ));
        }
    }
    assert!(ensure_local_ui(MessageOrigin::LocalUi, "x").is_ok());
    let refused = ensure_local_ui(MessageOrigin::Mqtt, "export").unwrap_err();
    assert_eq!(refused.message(), "export is only available from the local UI");
}

#[test]
fn an_export_can_be_imported() {
    let mut d = domain();
    d.presets.truncate(1);
    let data = match local(&d, ClientMessage::Export) {
        Ok(ControlOutcome::Reply(Reply::ExportData { data })) => data,
        other => panic!("{other:?}"),
    };
    assert_eq!(data.collars, d.collars);
    assert_eq!(data.presets, d.presets);
    match local(&d, ClientMessage::Import { data }) {
        Ok(ControlOutcome::Ask(AppCommand::ImportData { data })) => {
            assert_eq!(data.presets, d.presets)
        }
        other => panic!("{other:?}"),
    }
    let bad = ExportData {
        collars: vec![],
        presets: vec![preset("p", vec![step(PresetStepMode::Shock, 1, 500)])],
    };
    assert!(matches!(
        local(&d, ClientMessage::Import { data: bad }),
        Err(ControlError::Validation(_))
    ));
}

#[test]
fn messages_become_commands_of_the_worker() {
    let d = domain();
    assert!(matches!(
        local(&d, ClientMessage::Ping { nonce: 77 }),
        Ok(ControlOutcome::Reply(Reply::Pong { nonce: 77 }))
    ));
    assert!(matches!(
        local(&d, ClientMessage::StopAll),
        Ok(ControlOutcome::Ask(AppCommand::StopAll))
    ));
    assert!(matches!(
        local(&d, ClientMessage::StopPreset),
        Ok(ControlOutcome::Ask(AppCommand::StopPreset))
    ));
    assert!(matches!(
        local(&d, ClientMessage::AddCollar { name: "A".to_string(), collar_id: 7, channel: 1 }),
        Ok(ControlOutcome::Ask(AppCommand::AddCollar { collar }))
            if collar.name == "A" && collar.collar_id == 7 && collar.channel == 1
    ));
    assert!(matches!(
        local(&d, ClientMessage::ReorderPresets { names: vec!["b".to_string()] }),
        Ok(ControlOutcome::Ask(AppCommand::ReorderPresets { names })) if names == ["b"]
    ));
    assert!(matches!(
        local(&d, ClientMessage::ButtonEvent {
            collar_name: "Rex".to_string(),
            mode: CommandMode::Beep,
            intensity: 1,
            action: ButtonAction::Press,
        }),
        Ok(ControlOutcome::Done)
    ));
    match local(&d, ClientMessage::SavePreset {
        original_name: None,
        preset: preset("p", vec![step(PresetStepMode::Beep, 9, 500)]),
    }) {
        Ok(ControlOutcome::Ask(AppCommand::SavePreset { preset, .. })) => {
            assert_eq!(preset.tracks[0].steps[0].intensity, 0)
        }
        other => panic!("{other:?}"),
    }
}

#[test]
fn settings_are_checked_before_they_are_saved() {
    let d = domain();
    let save = |settings: DeviceSettings| local(&d, ClientMessage::SaveDeviceSettings { settings });
    let no_server = DeviceSettings {
        ntp_enabled: true,
        ntp_server: "  ".to_string(),
        ..DeviceSettings::default(Chip::Esp32)
    };
    assert!(matches!(save(no_server), Err(ControlError::EmptyNtpServer)));
    let bad_url = DeviceSettings {
        remote_control_enabled: true,
        remote_control_url: "http://x/".to_string(),
        ..DeviceSettings::default(Chip::Esp32)
    };
    assert_eq!(
        save(bad_url).unwrap_err().message(),
        "Remote control URL must start with ws:// or wss://"
    );
    let good = DeviceSettings {
        remote_control_enabled: true,
        remote_control_url: "  wss://x.example/ ".to_string(),
        device_id: "other".to_string(),
        ..DeviceSettings::default(Chip::Esp32)
    };
    match save(good) {
        Ok(ControlOutcome::Ask(AppCommand::SaveDeviceSettings { settings })) => {
            assert_eq!(settings.remote_control_url, "wss://x.example/");
            assert_eq!(settings.device_id, "other");
        }
        other => panic!("{other:?}"),
    }
    let mut named = domain();
    named.device_settings.device_id = "mine".to_string();
    match local(&named, ClientMessage::SaveDeviceSettings {
        settings: DeviceSettings::default(Chip::Esp32),
    }) {
        Ok(ControlOutcome::Ask(AppCommand::SaveDeviceSettings { settings })) => {
            assert_eq!(settings.device_id, "mine")
        }
        other => panic!("{other:?}"),
    }
    assert!(check_settings(&DeviceSettings::default(Chip::Esp32), Err("unused".to_string())).is_ok());
}

#[test]
fn errors_are_put_in_words() {
    let said = |e: ControlError| e.message();
    assert_eq!(said(ControlError::Validation("v".to_string())), "v");
    assert_eq!(said(ControlError::DuplicateCollar("a".to_string())), "Duplicate collar: a");
    assert_eq!(
        said(ControlError::CollarReferencedByPreset("a".to_string())),
        "Collar is used by a preset: a"
    );
    assert_eq!(said(ControlError::UnknownPreset("p".to_string())), "Unknown preset: p");
    assert_eq!(said(ControlError::DuplicatePreset("p".to_string())), "Duplicate preset: p");
    assert_eq!(
        said(ControlError::Persistence {
            operation: "save collars",
            source: RepositoryError {
                message: "full".to_string()
            },
        }),
        "Failed to save collars: full"
    );
    assert_eq!(
        said(ControlError::InvalidIntensity {
            intensity: 120,
            max: 99
        }),
        "Invalid intensity 120 (maximum 99)"
    );
    assert_eq!(
        said(ControlError::TransmissionLockout),
        "RF transmissions are locked out after STOP"
    );
    assert_eq!(
        said(ControlError::ActionDurationZero),
        "Action duration must be greater than zero"
    );
    assert_eq!(said(ControlError::HeldActionRequiresOwner), "Held actions require a connection");
    assert_eq!(said(ControlError::EmptyNtpServer), "NTP server cannot be empty");
    assert_eq!(said(ControlError::RemoteControlUrl("u".to_string())), "u");
}

#[test]
fn origins_are_logged_as_sources() {
    assert_eq!(event_source(MessageOrigin::LocalUi), EventSource::LocalUi);
    assert_eq!(event_source(MessageOrigin::RemoteControl), EventSource::RemoteControl);
    assert_eq!(event_source(MessageOrigin::Mqtt), EventSource::Mqtt);
}
