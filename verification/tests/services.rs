use std::collections::VecDeque;
use std::sync::{Arc, Mutex};

use rusty_collars::error::ControlError;
use rusty_collars::protocol::{
    Chip, Collar, CommandMode, DeviceSettings, Distribution, EventLogEntryKind, EventSource,
    ExportData, MqttStatus, Preset, PresetStep, PresetStepMode, PresetTrack, RemoteControlStatus,
    RfDebugFrame,
};
use rusty_collars::remote_url::remote_control_status_from_settings;
use rusty_collars::repository::{
    CallRecord, CollarRepository, PresetRepository, RepositoryError, RepositoryServices,
    SettingsRepository,
};
use rusty_collars::services::{
    CollarService, DataService, EventLogService, ExecutionService, PresetService,
    RemoteControlService, RfDebugService, SettingsService, MAX_RF_DEBUG_EVENTS,
};
use rusty_collars::state::DomainState;

struct FakeRepoState {
    settings: DeviceSettings,
    collars: Vec<Collar>,
    presets: Vec<Preset>,
    fail_operation: Option<&'static str>,
}

impl Default for FakeRepoState {
    fn default() -> Self {
        Self {
            settings: DeviceSettings::default(Chip::Esp32),
            collars: Vec::new(),
            presets: Vec::new(),
            fail_operation: None,
        }
    }
}

struct FakeRepository {
    state: Arc<Mutex<FakeRepoState>>,
}

impl FakeRepository {
    fn new(state: Arc<Mutex<FakeRepoState>>) -> Self {
        Self { state }
    }

    fn maybe_fail(&self, operation: &'static str) -> Result<(), RepositoryError> {
        if self.state.lock().unwrap().fail_operation == Some(operation) {
            Err(RepositoryError {
                message: "boom".to_string(),
            })
        } else {
            Ok(())
        }
    }
}

impl CallRecord for FakeRepository {}

impl SettingsRepository for FakeRepository {
    fn ensure_device_id(&mut self, settings: &mut DeviceSettings) -> Result<(), RepositoryError> {
        self.maybe_fail("ensure device id")?;
        if settings.device_id.is_empty() {
            settings.device_id = "generated-id".to_string();
        }
        self.state.lock().unwrap().settings = settings.clone();
        Ok(())
    }

    fn load_settings(&mut self) -> Result<DeviceSettings, RepositoryError> {
        self.maybe_fail("load settings")?;
        Ok(self.state.lock().unwrap().settings.clone())
    }

    fn save_settings(&mut self, settings: &DeviceSettings) -> Result<(), RepositoryError> {
        self.maybe_fail("save settings")?;
        self.state.lock().unwrap().settings = settings.clone();
        Ok(())
    }
}

impl CollarRepository for FakeRepository {
    fn load_collars(&mut self) -> Result<Vec<Collar>, RepositoryError> {
        self.maybe_fail("load collars")?;
        Ok(self.state.lock().unwrap().collars.clone())
    }

    fn save_collars(&mut self, collars: &[Collar]) -> Result<(), RepositoryError> {
        self.maybe_fail("save collars")?;
        self.state.lock().unwrap().collars = collars.to_vec();
        Ok(())
    }
}

impl PresetRepository for FakeRepository {
    fn load_presets(&mut self) -> Result<Vec<Preset>, RepositoryError> {
        self.maybe_fail("load presets")?;
        Ok(self.state.lock().unwrap().presets.clone())
    }

    fn save_presets(&mut self, presets: &[Preset]) -> Result<(), RepositoryError> {
        self.maybe_fail("save presets")?;
        self.state.lock().unwrap().presets = presets.to_vec();
        Ok(())
    }
}

fn sample_collar(name: &str) -> Collar {
    Collar {
        name: name.to_string(),
        collar_id: 42,
        channel: 1,
    }
}

fn sample_preset(name: &str, collar_name: &str) -> Preset {
    Preset {
        name: name.to_string(),
        tracks: vec![PresetTrack {
            collar_name: collar_name.to_string(),
            steps: vec![PresetStep {
                mode: PresetStepMode::Shock,
                intensity: 5,
                duration_ms: 500,
                intensity_max: None,
                duration_max_ms: None,
                intensity_distribution: Some(Distribution::Uniform),
                duration_distribution: None,
            }],
        }],
    }
}

fn domain_state() -> DomainState {
    DomainState {
        device_settings: DeviceSettings::default(Chip::Esp32),
        collars: vec![sample_collar("alpha")],
        presets: vec![sample_preset("preset", "alpha")],
        preset_name: Some("preset".to_string()),
        rf_lockout_until_ms: 0,
        rf_debug_events: VecDeque::new(),
        event_log_events: Vec::new(),
        remote_control_status: RemoteControlStatus::default(),
        mqtt_status: MqttStatus::default(),
    }
}

#[test]
fn repository_services_round_trip() {
    let state = Arc::new(Mutex::new(FakeRepoState {
        settings: DeviceSettings::default(Chip::Esp32),
        collars: vec![sample_collar("alpha")],
        presets: vec![sample_preset("preset", "alpha")],
        fail_operation: None,
    }));
    let mut services = RepositoryServices::new(FakeRepository::new(state.clone()));

    let mut settings = services.load_settings().unwrap();
    services.ensure_device_id(&mut settings).unwrap();
    services.save_settings(&settings).unwrap();
    services.save_collars(&[sample_collar("beta")]).unwrap();
    services
        .save_presets(&[sample_preset("new-preset", "beta")])
        .unwrap();

    let state = state.lock().unwrap();
    assert_eq!(state.settings.device_id, "generated-id");
    assert_eq!(state.collars[0].name, "beta");
    assert_eq!(state.presets[0].name, "new-preset");
}

#[test]
fn repository_services_map_errors() {
    let state = Arc::new(Mutex::new(FakeRepoState {
        fail_operation: Some("save collars"),
        ..FakeRepoState::default()
    }));
    let mut services = RepositoryServices::new(FakeRepository::new(state));
    let error = services
        .save_collars(&[sample_collar("alpha")])
        .unwrap_err();

    match error {
        ControlError::Persistence { operation, .. } => {
            assert_eq!(operation, "save collars");
        }
        other => panic!("unexpected error: {other:?}"),
    }
}

#[test]
fn collar_service_rename_updates_presets_and_stops_active_run() {
    let mut domain = domain_state();
    let updated = Collar {
        name: "beta".to_string(),
        ..sample_collar("alpha")
    };

    let change = CollarService::update(&mut domain, "alpha".to_string(), updated).unwrap();

    assert_eq!(change.collars[0].name, "beta");
    assert_eq!(
        change.presets.as_ref().unwrap()[0].tracks[0].collar_name,
        "beta"
    );
    assert!(change.preset_stopped);
    assert!(change.cancel_manual_actions);
    assert!(domain.preset_name.is_none());
}

#[test]
fn settings_service_updates_remote_state_and_clears_event_log() {
    let mut domain = domain_state();
    domain.device_settings.record_event_log = true;
    EventLogService::append(
        &mut domain,
        || 1,
        10,
        Some(20),
        EventSource::System,
        EventLogEntryKind::NtpSync {
            server: "pool.ntp.org".to_string(),
        },
    )
    .unwrap();

    let mut settings = domain.device_settings.clone();
    settings.remote_control_enabled = true;
    settings.remote_control_url = "wss://example.com/ws".to_string();
    settings.record_event_log = false;

    let change = SettingsService::apply(&mut domain, settings.clone());

    assert!(change.remote_settings_changed);
    assert!(change.event_log_changed);
    assert!(domain.event_log_events.is_empty());
    assert_eq!(domain.remote_control_status.status_text, "Connecting...");
    assert_eq!(change.settings, settings);
}

#[test]
fn event_log_service_skips_when_disabled_and_caps_entries() {
    let mut domain = domain_state();
    domain.device_settings.record_event_log = false;
    assert!(EventLogService::append(
        &mut domain,
        || 1,
        10,
        None,
        EventSource::LocalUi,
        EventLogEntryKind::Action {
            collar_name: "alpha".to_string(),
            mode: CommandMode::Beep,
            intensity: None,
            duration_ms: 100,
        },
    )
    .is_none());

    domain.device_settings.record_event_log = true;
    for sequence in 1..=105 {
        EventLogService::append(
            &mut domain,
            || sequence,
            sequence,
            None,
            EventSource::LocalUi,
            EventLogEntryKind::Action {
                collar_name: "alpha".to_string(),
                mode: CommandMode::Beep,
                intensity: None,
                duration_ms: 100,
            },
        )
        .unwrap();
    }

    assert_eq!(domain.event_log_events.len(), 100);
    assert_eq!(domain.event_log_events[0].sequence, 6);
}

#[test]
fn execution_and_rf_debug_services_update_domain_state() {
    let mut domain = domain_state();
    ExecutionService::start_preset(&mut domain, "manual".to_string());
    assert_eq!(domain.preset_name.as_deref(), Some("manual"));
    assert!(ExecutionService::complete_preset(&mut domain, "manual"));
    assert!(domain.preset_name.is_none());

    ExecutionService::stop_all(&mut domain, 1_000);
    assert_eq!(domain.rf_lockout_until_ms, 11_000);

    let frame = RfDebugFrame {
        received_at_ms: 1,
        raw_hex: "010203".to_string(),
        collar_id: 42,
        channel: 1,
        mode_raw: 3,
        mode: Some(CommandMode::Beep),
        intensity: 0,
        checksum_ok: true,
    };
    RfDebugService::push_event(&mut domain, frame.clone());
    assert_eq!(domain.rf_debug_events.len(), 1);
    RfDebugService::clear_events(&mut domain);
    assert!(domain.rf_debug_events.is_empty());

    assert!(RemoteControlService::set_status(
        &mut domain,
        RemoteControlStatus {
            enabled: true,
            connected: false,
            url: "ws://example.com".to_string(),
            validate_cert: true,
            rtt_ms: None,
            status_text: "Connecting...".to_string(),
        },
    ));
    let unchanged_status = domain.remote_control_status.clone();
    assert!(!RemoteControlService::set_status(
        &mut domain,
        unchanged_status,
    ));
}

#[test]
fn preset_and_data_services_preserve_expected_side_effects() {
    let mut domain = domain_state();
    let preset = sample_preset("second", "alpha");
    let change = PresetService::save(&mut domain, None, preset).unwrap();
    assert!(change.preset_stopped);
    assert_eq!(change.presets.len(), 2);

    let import = DataService::import(
        &mut domain,
        ExportData {
            collars: vec![sample_collar("gamma")],
            presets: vec![sample_preset("imported", "gamma")],
        },
    );
    assert!(import.preset_stopped || import.cancel_manual_actions);
    assert_eq!(import.collars[0].name, "gamma");
    assert_eq!(import.presets[0].name, "imported");
}

// --- CollarService edge cases ---

#[test]
fn collar_service_add_duplicate_rejected() {
    let mut domain = domain_state();
    let err = CollarService::add(&mut domain, sample_collar("alpha")).unwrap_err();
    assert!(matches!(err, ControlError::DuplicateCollar(name) if name == "alpha"));
}

#[test]
fn collar_service_add_validation_failure() {
    let mut domain = domain_state();
    let bad_collar = Collar {
        name: "".to_string(),
        collar_id: 1,
        channel: 0,
    };
    let err = CollarService::add(&mut domain, bad_collar).unwrap_err();
    assert!(matches!(err, ControlError::Validation(_)));
}

#[test]
fn collar_service_add_success() {
    let mut domain = domain_state();
    let change = CollarService::add(&mut domain, sample_collar("beta")).unwrap();
    assert_eq!(change.collars.len(), 2);
    assert!(!change.preset_stopped);
    assert!(!change.cancel_manual_actions);
    assert!(change.presets.is_none());
}

#[test]
fn collar_service_delete_unknown_rejected() {
    let mut domain = domain_state();
    let err = CollarService::delete(&mut domain, "nonexistent".to_string()).unwrap_err();
    assert!(matches!(err, ControlError::UnknownCollar(name) if name == "nonexistent"));
}

#[test]
fn collar_service_delete_referenced_by_preset_rejected() {
    let mut domain = domain_state();
    let err = CollarService::delete(&mut domain, "alpha".to_string()).unwrap_err();
    assert!(matches!(err, ControlError::CollarReferencedByPreset(name) if name == "alpha"));
}

#[test]
fn collar_service_delete_unreferenced_succeeds() {
    let mut domain = domain_state();
    domain.presets.clear();
    domain.preset_name = None;
    let change = CollarService::delete(&mut domain, "alpha".to_string()).unwrap();
    assert!(change.collars.is_empty());
}

#[test]
fn collar_service_update_unknown_rejected() {
    let mut domain = domain_state();
    let err =
        CollarService::update(&mut domain, "nonexistent".to_string(), sample_collar("beta"))
            .unwrap_err();
    assert!(matches!(err, ControlError::UnknownCollar(name) if name == "nonexistent"));
}

#[test]
fn collar_service_update_duplicate_name_rejected() {
    let mut domain = domain_state();
    domain.collars.push(Collar {
        name: "beta".to_string(),
        collar_id: 99,
        channel: 0,
    });
    let err =
        CollarService::update(&mut domain, "alpha".to_string(), sample_collar("beta"))
            .unwrap_err();
    assert!(matches!(err, ControlError::DuplicateCollar(name) if name == "beta"));
}

#[test]
fn collar_service_update_same_name_no_preset_change() {
    let mut domain = domain_state();
    domain.preset_name = None;
    let updated = Collar {
        name: "alpha".to_string(),
        collar_id: 999,
        channel: 0,
    };
    let change = CollarService::update(&mut domain, "alpha".to_string(), updated).unwrap();
    assert!(change.presets.is_none());
    assert!(!change.preset_stopped);
    assert_eq!(change.collars[0].collar_id, 999);
}

// --- PresetService edge cases ---

#[test]
fn preset_service_save_update_by_original_name() {
    let mut domain = domain_state();
    domain.preset_name = None;
    let updated = sample_preset("renamed", "alpha");
    let change =
        PresetService::save(&mut domain, Some("preset".to_string()), updated).unwrap();
    assert_eq!(change.presets.len(), 1);
    assert_eq!(change.presets[0].name, "renamed");
}

#[test]
fn preset_service_save_unknown_original_rejected() {
    let mut domain = domain_state();
    let err = PresetService::save(
        &mut domain,
        Some("nonexistent".to_string()),
        sample_preset("new", "alpha"),
    )
    .unwrap_err();
    assert!(matches!(err, ControlError::UnknownPreset(name) if name == "nonexistent"));
}

#[test]
fn preset_service_save_duplicate_name_on_rename_rejected() {
    let mut domain = domain_state();
    domain.presets.push(sample_preset("second", "alpha"));
    let err = PresetService::save(
        &mut domain,
        Some("preset".to_string()),
        sample_preset("second", "alpha"),
    )
    .unwrap_err();
    assert!(matches!(err, ControlError::DuplicatePreset(name) if name == "second"));
}

#[test]
fn preset_service_save_upsert_existing_by_name() {
    let mut domain = domain_state();
    domain.preset_name = None;
    let updated = sample_preset("preset", "alpha");
    let change = PresetService::save(&mut domain, None, updated).unwrap();
    assert_eq!(change.presets.len(), 1);
    assert_eq!(change.presets[0].name, "preset");
}

#[test]
fn preset_service_save_new_appended() {
    let mut domain = domain_state();
    domain.preset_name = None;
    let new = sample_preset("new-preset", "alpha");
    let change = PresetService::save(&mut domain, None, new).unwrap();
    assert_eq!(change.presets.len(), 2);
    assert_eq!(change.presets[1].name, "new-preset");
}

#[test]
fn preset_service_delete_unknown_rejected() {
    let mut domain = domain_state();
    let err = PresetService::delete(&mut domain, "nonexistent".to_string()).unwrap_err();
    assert!(matches!(err, ControlError::UnknownPreset(name) if name == "nonexistent"));
}

#[test]
fn preset_service_delete_success() {
    let mut domain = domain_state();
    let change = PresetService::delete(&mut domain, "preset".to_string()).unwrap();
    assert!(change.presets.is_empty());
    assert!(change.preset_stopped);
}

#[test]
fn preset_service_reorder_preserves_all() {
    let mut domain = domain_state();
    domain.preset_name = None;
    domain.presets.push(sample_preset("b", "alpha"));
    domain.presets.push(sample_preset("c", "alpha"));
    let change =
        PresetService::reorder(&mut domain, vec!["c".to_string(), "preset".to_string()]);
    assert_eq!(change.presets[0].name, "c");
    assert_eq!(change.presets[1].name, "preset");
    assert_eq!(change.presets[2].name, "b");
}

#[test]
fn preset_service_reorder_with_unknown_names() {
    let mut domain = domain_state();
    domain.preset_name = None;
    let change = PresetService::reorder(
        &mut domain,
        vec!["unknown".to_string(), "preset".to_string()],
    );
    assert_eq!(change.presets.len(), 1);
    assert_eq!(change.presets[0].name, "preset");
}

// --- SettingsService: reboot detection ---

#[test]
fn settings_service_hardware_change_requires_reboot() {
    let mut domain = domain_state();
    let mut settings = domain.device_settings.clone();
    settings.rf_tx_pin = 99;
    let change = SettingsService::apply(&mut domain, settings);
    assert!(change.reboot_required);
}

#[test]
fn settings_service_wifi_change_requires_reboot() {
    let mut domain = domain_state();
    let mut settings = domain.device_settings.clone();
    settings.wifi_ssid = "new-ssid".to_string();
    let change = SettingsService::apply(&mut domain, settings);
    assert!(change.reboot_required);
}

#[test]
fn settings_service_ntp_change_requires_reboot() {
    let mut domain = domain_state();
    let mut settings = domain.device_settings.clone();
    settings.ntp_server = "time.google.com".to_string();
    let change = SettingsService::apply(&mut domain, settings);
    assert!(change.reboot_required);
}

#[test]
fn settings_service_non_hardware_change_no_reboot() {
    let mut domain = domain_state();
    let mut settings = domain.device_settings.clone();
    settings.remote_control_enabled = !settings.remote_control_enabled;
    settings.record_event_log = !settings.record_event_log;
    settings.remote_control_url = "wss://new.example.com/ws".to_string();
    let change = SettingsService::apply(&mut domain, settings);
    assert!(!change.reboot_required);
}

#[test]
fn settings_service_identical_settings_no_reboot() {
    let mut domain = domain_state();
    let settings = domain.device_settings.clone();
    let change = SettingsService::apply(&mut domain, settings);
    assert!(!change.reboot_required);
    assert!(!change.remote_settings_changed);
    assert!(!change.event_log_changed);
}

// --- remote_control_status_from_settings ---

#[test]
fn remote_control_status_disabled() {
    let settings = DeviceSettings {
        remote_control_enabled: false,
        ..DeviceSettings::default(Chip::Esp32)
    };
    let status = remote_control_status_from_settings(&settings);
    assert_eq!(status.status_text, "Off");
    assert!(!status.connected);
}

#[test]
fn remote_control_status_empty_url() {
    let settings = DeviceSettings {
        remote_control_enabled: true,
        remote_control_url: "".to_string(),
        ..DeviceSettings::default(Chip::Esp32)
    };
    let status = remote_control_status_from_settings(&settings);
    assert_eq!(status.status_text, "Missing URL");
}

#[test]
fn remote_control_status_invalid_url() {
    let settings = DeviceSettings {
        remote_control_enabled: true,
        remote_control_url: "not-a-url".to_string(),
        ..DeviceSettings::default(Chip::Esp32)
    };
    let status = remote_control_status_from_settings(&settings);
    assert_eq!(status.status_text, "Invalid URL");
}

#[test]
fn remote_control_status_valid_url() {
    let settings = DeviceSettings {
        remote_control_enabled: true,
        remote_control_url: "wss://example.com/ws".to_string(),
        ..DeviceSettings::default(Chip::Esp32)
    };
    let status = remote_control_status_from_settings(&settings);
    assert_eq!(status.status_text, "Connecting...");
}

#[test]
fn remote_control_status_http_url_invalid() {
    let settings = DeviceSettings {
        remote_control_enabled: true,
        remote_control_url: "https://example.com/ws".to_string(),
        ..DeviceSettings::default(Chip::Esp32)
    };
    let status = remote_control_status_from_settings(&settings);
    assert_eq!(status.status_text, "Invalid URL");
}

// --- ExecutionService edge cases ---

#[test]
fn execution_service_complete_wrong_preset_ignored() {
    let mut domain = domain_state();
    assert!(!ExecutionService::complete_preset(&mut domain, "wrong"));
    assert!(domain.preset_name.is_some());
}

#[test]
fn execution_service_stop_preset_when_none_running() {
    let mut domain = domain_state();
    domain.preset_name = None;
    assert!(!ExecutionService::stop_preset(&mut domain));
}

// --- RfDebugService cap ---

#[test]
fn rf_debug_service_caps_at_max() {
    let mut domain = domain_state();
    for i in 0..150 {
        RfDebugService::push_event(
            &mut domain,
            RfDebugFrame {
                received_at_ms: i,
                raw_hex: format!("{i:04X}"),
                collar_id: 1,
                channel: 0,
                mode_raw: 1,
                mode: Some(CommandMode::Shock),
                intensity: 10,
                checksum_ok: true,
            },
        );
    }
    assert_eq!(domain.rf_debug_events.len(), MAX_RF_DEBUG_EVENTS);
    assert_eq!(domain.rf_debug_events.front().unwrap().received_at_ms, 50);
}
