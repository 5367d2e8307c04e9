use rusty_collars::protocol::{Collar, Preset, PresetStep, PresetStepMode, PresetTrack};
use rusty_collars::scheduling::{schedule_preset_events, schedule_step_events, PresetEvent};

fn times(events: &[PresetEvent]) -> Vec<u64> {
    events.iter().map(|e| e.time_ms).collect()
}

#[test]
fn very_short_step_single_event() {
    let mut events = Vec::new();
    let err = schedule_step_events(&mut events, 0, 100, 0x1234, 0, 2, 50).unwrap_err();
    assert!(err.message.contains("shorter than RF transmit time"));
    assert!(events.is_empty());
}

#[test]
fn step_130ms_single_event() {
    let mut events = Vec::new();
    schedule_step_events(&mut events, 0, 130, 0x1234, 0, 2, 50).unwrap();
    assert_eq!(times(&events), vec![0]);
}

#[test]
fn step_201ms_unschedulable() {
    let mut events = Vec::new();
    let err = schedule_step_events(&mut events, 0, 201, 0x1234, 0, 2, 50).unwrap_err();
    assert!(err
        .message
        .contains("cannot be sustained without overlapping transmissions"));
}

#[test]
fn step_329ms_two_events() {
    let mut events = Vec::new();
    schedule_step_events(&mut events, 0, 329, 0x1234, 0, 2, 50).unwrap();
    assert_eq!(times(&events), vec![0, 199]);
}

#[test]
fn step_500ms_three_events() {
    let mut events = Vec::new();
    schedule_step_events(&mut events, 0, 500, 0x1234, 0, 2, 50).unwrap();
    assert_eq!(times(&events), vec![0, 200, 370]);
}

#[test]
fn one_second_step() {
    let mut events = Vec::new();
    schedule_step_events(&mut events, 0, 1000, 0x1234, 0, 2, 50).unwrap();
    assert_eq!(times(&events), vec![0, 200, 400, 600, 800]);
}

#[test]
fn two_second_step() {
    let mut events = Vec::new();
    schedule_step_events(&mut events, 0, 2000, 0x1234, 0, 2, 50).unwrap();
    let t = times(&events);
    assert_eq!(t.len(), 10);
    assert_eq!(t[0], 0);
    assert_eq!(t[9], 1800);
}

#[test]
fn step_with_offset_start() {
    let mut events = Vec::new();
    schedule_step_events(&mut events, 500, 1500, 0x1234, 0, 1, 30).unwrap();
    assert_eq!(times(&events), vec![500, 700, 900, 1100, 1300]);
}

#[test]
fn inverted_range_produces_nothing() {
    let mut events = Vec::new();
    schedule_step_events(&mut events, 1000, 500, 0x1234, 0, 2, 50).unwrap();
    assert!(events.is_empty());
}

#[test]
fn zero_duration_produces_nothing() {
    let mut events = Vec::new();
    schedule_step_events(&mut events, 1000, 1000, 0x1234, 0, 2, 50).unwrap();
    assert!(events.is_empty());
}

#[test]
fn event_fields_correct() {
    let mut events = Vec::new();
    schedule_step_events(&mut events, 100, 250, 0xABCD, 2, 3, 77).unwrap();
    assert_eq!(events.len(), 1);
    assert_eq!(events[0].time_ms, 100);
    assert_eq!(events[0].collar_id, 0xABCD);
    assert_eq!(events[0].channel, 2);
    assert_eq!(events[0].mode_byte, 3);
    assert_eq!(events[0].intensity, 77);
}

#[test]
fn no_event_past_end() {
    let mut events = Vec::new();
    schedule_step_events(&mut events, 0, 400, 0x1234, 0, 2, 50).unwrap();
    assert_eq!(times(&events), vec![0, 200]);
}

#[test]
fn preset_schedule_rejects_overlapping_tracks() {
    let collars = vec![
        Collar {
            name: "Rex".to_string(),
            collar_id: 0x1234,
            channel: 0,
        },
        Collar {
            name: "Max".to_string(),
            collar_id: 0x5678,
            channel: 1,
        },
    ];
    let preset = Preset {
        name: "test".to_string(),
        tracks: vec![
            PresetTrack {
                collar_name: "Rex".to_string(),
                steps: vec![PresetStep {
                    mode: PresetStepMode::Vibrate,
                    intensity: 50,
                    duration_ms: 500,
                    intensity_max: None,
                    duration_max_ms: None,
                    intensity_distribution: None,
                    duration_distribution: None,
                }],
            },
            PresetTrack {
                collar_name: "Max".to_string(),
                steps: vec![PresetStep {
                    mode: PresetStepMode::Vibrate,
                    intensity: 50,
                    duration_ms: 500,
                    intensity_max: None,
                    duration_max_ms: None,
                    intensity_distribution: None,
                    duration_distribution: None,
                }],
            },
        ],
    };

    let err = schedule_preset_events(&preset, &collars).unwrap_err();
    assert!(err.message.contains("cannot overlap RF transmissions"));
}
