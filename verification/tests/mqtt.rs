use rusty_collars::events::AppEvent;
use rusty_collars::mqtt::incoming::{handle_incoming_message, Incoming};
use rusty_collars::mqtt::session::{
    after_exit, begin_round, check_revision, mqtt_status, on_broadcast, on_event, opening_failed,
    plan_connection, plan_opening, wait_for_connect, Failure, LinkEvent, Round, SessionExit, Turn,
    Wait,
};
use rusty_collars::mqtt::slug::slugify;
use rusty_collars::mqtt::state::{
    collar_discovery, preset_discovery, MqttState, Publication, Qos, DEFAULT_ACTION_DURATION_MS,
};
use rusty_collars::protocol::{
    Chip, ClientMessage, Collar, CommandMode, DeviceSettings, Preset, PresetTrack,
};
use rusty_collars::session::{ActionOwner, TransmissionCommand};

fn collar(name: &str) -> Collar {
    Collar {
        name: name.to_string(),
        collar_id: 1,
        channel: 0,
    }
}

fn preset(name: &str) -> Preset {
    let tracks: Vec<PresetTrack> = Vec::new();
    Preset {
        name: name.to_string(),
        tracks,
    }
}

fn state() -> MqttState {
    MqttState::new(&vec![collar("Big Rex"), collar("Max")], &vec![preset("Good Dog!")])
}

fn take(s: &mut MqttState, topic: &str, payload: &str) -> Incoming {
    handle_incoming_message(s, "dev", topic, &payload.as_bytes().to_vec())
}

fn published(incoming: Incoming) -> (String, String) {
    match incoming {
        Incoming::Publish(p) => {
            assert_eq!(p.qos, Qos::AtLeastOnce);
            assert!(p.retain);
            (p.topic, p.payload)
        }
        other => panic!("{other:?}"),
    }
}

fn topics(ps: &[Publication]) -> Vec<&str> {
    ps.iter().map(|p| p.topic.as_str()).collect()
}

#[test]
fn slugs_are_levels_of_topics() {
    assert_eq!(slugify("Big Rex"), "big_rex");
    assert_eq!(slugify("  Big -- Rex!!  "), "big_rex");
    assert_eq!(slugify("R2/D2"), "r2_d2");
    assert_eq!(slugify("\u{e9}\u{e9}"), "unnamed");
    assert_eq!(slugify(""), "unnamed");
    assert_eq!(slugify(&slugify("A b C")), slugify("A b C"));
}

#[test]
fn a_collar_is_announced() {
    let ps = collar_discovery("dev", "Big Rex");
    assert_eq!(
        topics(&ps),
        vec![
            "homeassistant/number/dev/big_rex_intensity/config",
            "homeassistant/button/dev/big_rex_shock/config",
            "homeassistant/button/dev/big_rex_vibrate/config",
            "homeassistant/button/dev/big_rex_beep/config",
            "homeassistant/event/dev/big_rex_activity/config",
        ]
    );
    assert_eq!(
        ps[1].payload,
        r#"{"device":{"identifiers":["dev"],"name":"Rusty Collars","model":"ESP32","manufacturer":"rusty-collars"},"availability":[{"topic":"rusty_collars/dev/availability","payload_available":"online","payload_not_available":"offline"}],"name":"Big Rex Shock","unique_id":"dev_big_rex_shock","command_topic":"rusty_collars/dev/collar/big_rex/shock/set","payload_press":"PRESS"}"#
    );
    assert!(ps[0].payload.ends_with(
        r#""name":"Big Rex Intensity","unique_id":"dev_big_rex_intensity","state_topic":"rusty_collars/dev/collar/big_rex/intensity/state","command_topic":"rusty_collars/dev/collar/big_rex/intensity/set","min":0,"max":99,"step":1,"mode":"slider"}"#
    ));
    assert!(ps[4].payload.ends_with(
        r#""name":"Big Rex Activity","unique_id":"dev_big_rex_activity","state_topic":"rusty_collars/dev/collar/big_rex/event","event_types":["shock","vibrate","beep"]}"#
    ));
    assert!(ps.iter().all(|p| p.retain && p.qos == Qos::AtLeastOnce));
}

#[test]
fn announced_texts_are_json() {
    let s = state();
    for p in s.all_discovery("dev") {
        let value: serde_json::Value = serde_json::from_str(&p.payload).unwrap();
        assert!(value.get("unique_id").is_some());
    }
}

#[test]
fn everything_is_announced_once() {
    let s = MqttState::new(&vec![collar("Rex"), collar("Rex")], &vec![preset("p")]);
    let ps = s.all_discovery("dev");
    assert_eq!(
        topics(&ps)[5..],
        [
            "homeassistant/button/dev/preset_p/config",
            "homeassistant/binary_sensor/dev/preset_running/config",
            "homeassistant/number/dev/action_duration/config",
        ]
    );
    assert!(ps[6].payload.ends_with(
        r#""name":"Preset Running","unique_id":"dev_preset_running","state_topic":"rusty_collars/dev/preset_running/state","payload_on":"ON","payload_off":"OFF"}"#
    ));
    assert!(ps[7].payload.ends_with(
        r#""command_topic":"rusty_collars/dev/action_duration/set","min":100,"max":10000,"step":100,"unit_of_measurement":"ms","mode":"slider","icon":"mdi:timer-outline"}"#
    ));
    assert!(preset_discovery("dev", "p").payload.ends_with(
        r#""name":"Preset: p","unique_id":"dev_preset_p","command_topic":"rusty_collars/dev/preset/p/set","payload_press":"PRESS"}"#
    ));
}

#[test]
fn states_are_told_when_the_link_comes_up() {
    let told: Vec<(String, String)> = state()
        .all_states("dev")
        .into_iter()
        .map(|p| (p.topic, p.payload))
        .collect();
    let said = |topic: &str, payload: &str| (topic.to_string(), payload.to_string());
    assert_eq!(
        told,
        vec![
            said("rusty_collars/dev/collar/big_rex/intensity/state", "1"),
            said("rusty_collars/dev/collar/max/intensity/state", "1"),
            said("rusty_collars/dev/preset_running/state", "OFF"),
            said("rusty_collars/dev/action_duration/state", "500"),
        ]
    );
}

#[test]
fn a_button_runs_an_action_with_what_was_chosen() {
    let mut s = state();
    assert_eq!(
        published(take(&mut s, "rusty_collars/dev/collar/big_rex/intensity/set", " 42 ")),
        (
            "rusty_collars/dev/collar/big_rex/intensity/state".to_string(),
            "42".to_string()
        )
    );
    assert_eq!(
        published(take(&mut s, "rusty_collars/dev/action_duration/set", "1500")),
        (
            "rusty_collars/dev/action_duration/state".to_string(),
            "1500".to_string()
        )
    );
    match take(&mut s, "rusty_collars/dev/collar/big_rex/vibrate/set", "PRESS") {
        Incoming::Dispatch(ClientMessage::RunAction {
            collar_name,
            mode,
            intensity,
            duration_ms,
            intensity_max,
            duration_max_ms,
            intensity_distribution,
            duration_distribution,
        }) => {
            assert_eq!(collar_name, "Big Rex");
            assert_eq!(mode, CommandMode::Vibrate);
            assert_eq!((intensity, duration_ms), (42, 1_500));
            assert_eq!((intensity_max, duration_max_ms), (None, None));
            assert_eq!((intensity_distribution, duration_distribution), (None, None));
        }
        other => panic!("{other:?}"),
    }
    match take(&mut s, "rusty_collars/dev/collar/max/beep/set", "") {
        Incoming::Dispatch(ClientMessage::RunAction { intensity, .. }) => assert_eq!(intensity, 1),
        other => panic!("{other:?}"),
    }
    match take(&mut s, "rusty_collars/dev/preset/good_dog/set", "PRESS") {
        Incoming::Dispatch(ClientMessage::RunPreset { name }) => assert_eq!(name, "Good Dog!"),
        other => panic!("{other:?}"),
    }
}

#[test]
fn choices_are_moved_into_their_limits() {
    let mut s = state();
    let intensity = "rusty_collars/dev/collar/max/intensity/set";
    assert_eq!(published(take(&mut s, intensity, "255")).1, "99");
    assert_eq!(published(take(&mut s, intensity, "0")).1, "0");
    let duration = "rusty_collars/dev/action_duration/set";
    assert_eq!(published(take(&mut s, duration, "1")).1, "100");
    assert_eq!(published(take(&mut s, duration, "99999")).1, "10000");
    assert_eq!(s.action_duration_ms, 10_000);
}

#[test]
fn other_messages_are_ignored() {
    let mut s = state();
    for (topic, payload) in [
        ("rusty_collars/dev/collar/max/intensity/set", "256"),
        ("rusty_collars/dev/collar/max/intensity/set", "x"),
        ("rusty_collars/dev/collar/tom/intensity/set", "5"),
        ("rusty_collars/dev/collar/max/intensity/state", "5"),
        ("rusty_collars/dev/collar/max/bark/set", ""),
        ("rusty_collars/dev/collar/tom/shock/set", ""),
        ("rusty_collars/dev/preset/nope/set", ""),
        ("rusty_collars/dev/collar/max/shock/more/set", ""),
        ("rusty_collars/dev/availability", "online"),
        ("rusty_collars/other/collar/max/shock/set", ""),
        ("rusty_collars/dev/action_duration/set", "-5"),
        ("rusty_collars/dev/set", ""),
        ("/set", ""),
    ] {
        assert!(matches!(take(&mut s, topic, payload), Incoming::Nothing), "{topic}");
    }
    let not_utf8 = vec![0xff, 0xfe];
    assert!(matches!(
        handle_incoming_message(&mut s, "dev", "rusty_collars/dev/action_duration/set", &not_utf8),
        Incoming::Nothing
    ));
    assert_eq!(s.action_duration_ms, DEFAULT_ACTION_DURATION_MS);
}

#[test]
fn the_last_of_two_names_with_one_slug_is_meant() {
    let mut s = MqttState::new(&vec![collar("Rex!"), collar("rex")], &vec![]);
    match take(&mut s, "rusty_collars/dev/collar/rex/shock/set", "") {
        Incoming::Dispatch(ClientMessage::RunAction { collar_name, .. }) => {
            assert_eq!(collar_name, "rex")
        }
        other => panic!("{other:?}"),
    }
}

#[test]
fn stale_announcements_are_withdrawn() {
    let s = MqttState::new(&vec![collar("Old"), collar("Same")], &vec![preset("Old")]);
    let ps = s.republish_discovery("dev", &vec![collar("Same"), collar("New")], &vec![]);
    let withdrawn: Vec<&str> = ps
        .iter()
        .filter(|p| p.payload.is_empty())
        .map(|p| p.topic.as_str())
        .collect();
    assert_eq!(
        withdrawn,
        vec![
            "homeassistant/number/dev/old_intensity/config",
            "homeassistant/button/dev/old_shock/config",
            "homeassistant/button/dev/old_vibrate/config",
            "homeassistant/button/dev/old_beep/config",
            "homeassistant/event/dev/old_activity/config",
            "homeassistant/button/dev/preset_old/config",
        ]
    );
    assert_eq!(ps.len(), 6 + 10 + 2);
    assert_eq!(ps[17].topic, "rusty_collars/dev/collar/new/intensity/state");
    assert_eq!(ps[17].payload, "1");
}

fn told_state(collars: Vec<Collar>, presets: Vec<Preset>, running: bool) -> AppEvent {
    AppEvent::State {
        device_id: "dev".to_string(),
        server_uptime_s: 1,
        collars,
        presets,
        preset_running: if running { Some("p".to_string()) } else { None },
        rf_lockout_remaining_ms: 0,
    }
}

#[test]
fn new_collars_are_announced_once() {
    let mut s = state();
    take(&mut s, "rusty_collars/dev/collar/max/intensity/set", "42");
    let event = || told_state(vec![collar("Max"), collar("Tom")], vec![], true);
    let first = on_broadcast(&mut s, "dev", &event());
    assert_eq!(first.discovery.len(), 10 + 2);
    assert_eq!(first.discovery[10].payload, "42");
    let running = first.state.unwrap();
    assert_eq!(running.topic, "rusty_collars/dev/preset_running/state");
    assert_eq!(running.payload, "ON");
    assert!(running.retain && running.qos == Qos::AtMostOnce);
    let again = on_broadcast(&mut s, "dev", &event());
    assert!(again.discovery.is_empty());
    let idle = on_broadcast(&mut s, "dev", &told_state(vec![collar("Max"), collar("Tom")], vec![], false));
    assert_eq!(idle.state.unwrap().payload, "OFF");
}

#[test]
fn fired_actions_are_told() {
    let mut s = state();
    let fired = |name: &str| AppEvent::ActionFired {
        collar_name: name.to_string(),
        mode: CommandMode::Shock,
        intensity: 7,
    };
    let told = on_broadcast(&mut s, "dev", &fired("Big Rex")).state.unwrap();
    assert_eq!(told.topic, "rusty_collars/dev/collar/big_rex/event");
    assert_eq!(told.payload, r#"{"event_type":"shock","intensity":7}"#);
    assert!(!told.retain && told.qos == Qos::AtMostOnce);
    assert!(on_broadcast(&mut s, "dev", &fired("Tom")).state.is_none());
}

fn settings() -> DeviceSettings {
    DeviceSettings {
        device_id: "dev".to_string(),
        mqtt_enabled: true,
        mqtt_server: " broker.example ".to_string(),
        mqtt_port: 1883,
        mqtt_username: "  ".to_string(),
        mqtt_password: " secret ".to_string(),
        ..DeviceSettings::default(Chip::Esp32)
    }
}

#[test]
fn a_connection_is_planned() {
    let plan = plan_connection(&settings());
    assert_eq!(plan.url, "mqtt://broker.example:1883");
    assert_eq!(plan.client_id, "dev");
    assert_eq!(plan.username, None);
    assert_eq!(plan.password.as_deref(), Some("secret"));
    assert_eq!(plan.will.topic, "rusty_collars/dev/availability");
    assert_eq!(plan.will.payload, "offline");
    assert!(plan.will.retain);
}

#[test]
fn nothing_is_tried_without_a_server() {
    let mut delay = 8_000u64;
    assert!(matches!(begin_round(&settings(), &mut delay), Round::Connect { status }
        if status.status_text == "Connecting..." && status.server == "broker.example"));
    assert_eq!(delay, 8_000);
    let mut off = settings();
    off.mqtt_server = " ".to_string();
    assert!(matches!(begin_round(&off, &mut delay), Round::Off { status, wait_ms: 500 }
        if status.status_text == "Off"));
    assert_eq!(delay, 2_000);
    off = settings();
    off.mqtt_enabled = false;
    assert!(matches!(begin_round(&off, &mut delay), Round::Off { .. }));
}

fn ends_mqtt_actions(command: &TransmissionCommand) -> bool {
    matches!(command, TransmissionCommand::CancelOwnedActions { owner: ActionOwner::Mqtt })
}

#[test]
fn waits_double_up_to_thirty_seconds() {
    let mut delay = 2_000u64;
    let mut waits = Vec::new();
    for _ in 0..6 {
        let exit = SessionExit::Disconnected {
            reason: "x".to_string(),
        };
        let after = after_exit(&exit, &settings(), &mut delay);
        assert!(ends_mqtt_actions(&after.ended));
        let retry = after.retry.unwrap();
        assert_eq!(
            retry.status.status_text,
            format!("Reconnecting in {}ms...", retry.delay_ms)
        );
        waits.push(retry.delay_ms);
    }
    assert_eq!(waits, vec![2_000, 4_000, 8_000, 16_000, 30_000, 30_000]);
    let after = after_exit(&SessionExit::SettingsChanged, &settings(), &mut delay);
    assert!(ends_mqtt_actions(&after.ended));
    assert!(after.retry.is_none());
    assert_eq!(delay, 2_000);
}

fn reason(exit: SessionExit) -> String {
    match exit {
        SessionExit::Disconnected { reason } => reason,
        other => panic!("{other:?}"),
    }
}

#[test]
fn waiting_for_a_connection_ends() {
    assert!(matches!(wait_for_connect(&LinkEvent::Connected), Wait::Connected));
    assert!(matches!(wait_for_connect(&LinkEvent::Quiet), Wait::GoOn));
    for (event, why) in [
        (LinkEvent::Disconnected, "Disconnected while connecting"),
        (LinkEvent::Closed, "Event channel closed"),
    ] {
        match wait_for_connect(&event) {
            Wait::Exit(exit) => assert_eq!(reason(exit), why),
            other => panic!("{other:?}"),
        }
    }
    assert!(check_revision(3, 3).is_none());
    assert!(matches!(check_revision(4, 3), Some(SessionExit::SettingsChanged)));
}

#[test]
fn a_session_goes_on_until_the_broker_leaves() {
    let mut s = state();
    assert!(matches!(
        on_event(&mut s, "dev", &LinkEvent::Quiet),
        Turn::GoOn(Incoming::Nothing)
    ));
    let press = LinkEvent::Message {
        topic: "rusty_collars/dev/collar/max/shock/set".to_string(),
        payload: vec![],
    };
    assert!(matches!(on_event(&mut s, "dev", &press), Turn::GoOn(Incoming::Dispatch(_))));
    match on_event(&mut s, "dev", &LinkEvent::Disconnected) {
        Turn::Exit(exit) => assert_eq!(reason(exit), "Broker disconnected"),
        other => panic!("{other:?}"),
    }
}

#[test]
fn a_session_is_opened_in_order() {
    let opening = plan_opening(&state(), "dev");
    assert_eq!(opening.availability.topic, "rusty_collars/dev/availability");
    assert_eq!(opening.availability.payload, "online");
    assert_eq!(opening.discovery.len(), 13);
    assert_eq!(opening.subscription, "rusty_collars/dev/#");
    assert_eq!(opening.states.len(), 4);
    for (failure, said) in [
        (Failure::Connect, "Connect failed: e"),
        (Failure::Availability, "Publish availability failed: e"),
        (Failure::Discovery, "Discovery publish failed: e"),
        (Failure::Subscribe, "Subscribe failed: e"),
        (Failure::State, "State publish failed: e"),
    ] {
        assert_eq!(reason(opening_failed(failure, "e")), said);
    }
    let status = mqtt_status(&settings(), true, "Connected");
    assert!(status.enabled && status.connected);
    assert_eq!(status.server, "broker.example");
}
