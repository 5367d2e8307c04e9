use rand::rngs::SmallRng;
use rand::SeedableRng;
use rusty_collars::preview::{
    draw_preset, plan_preset, preset_has_random, preview_preset, resolve_preset, MidpointResolver,
    RandomResolver,
};
use rusty_collars::protocol::{
    Collar, CommandMode, Distribution, ExportData, Preset, PresetStep, PresetStepMode, PresetTrack,
};
use rusty_collars::random::{
    clamp_sample, duration_of, resolve_random_duration, resolve_random_u8, Draw, GaussianSource,
};
use rusty_collars::scheduling::{
    preset_fits, schedule_preset_events, schedule_step_events, schedule_steps, steps_duration_ms,
    PresetEvent, RETRANSMIT_INTERVAL_MS, RF_COMMAND_TRANSMIT_DURATION_MS,
};
use rusty_collars::validation::{
    validate_collar, validate_collars, validate_export_data, validate_preset, validate_presets,
};

struct Fixed(i64);

impl GaussianSource for Fixed {
    fn sample(&mut self, _rng: &mut SmallRng, _low: u32, _high: u32) -> i64 {
        self.0
    }
}

fn collar(name: &str, collar_id: u16) -> Collar {
    Collar {
        name: name.to_string(),
        collar_id,
        channel: 1,
    }
}

fn step(mode: PresetStepMode, intensity: u8, duration_ms: u32) -> PresetStep {
    PresetStep {
        mode,
        intensity,
        duration_ms,
        intensity_max: None,
        duration_max_ms: None,
        intensity_distribution: None,
        duration_distribution: None,
    }
}

fn preset(tracks: Vec<(&str, Vec<PresetStep>)>) -> Preset {
    Preset {
        name: "test".to_string(),
        tracks: tracks
            .into_iter()
            .map(|(name, steps)| PresetTrack {
                collar_name: name.to_string(),
                steps,
            })
            .collect(),
    }
}

#[test]
fn a_step_is_sustained_to_its_end() {
    for end in [130u64, 200, 330, 400, 499, 500, 999, 5_000] {
        let mut events = Vec::new();
        schedule_step_events(&mut events, 0, end, 1, 0, 1, 9).unwrap();
        assert_eq!(events[0].time_ms, 0);
        for pair in events.windows(2) {
            let gap = pair[1].time_ms - pair[0].time_ms;
            assert!(gap >= RF_COMMAND_TRANSMIT_DURATION_MS && gap <= RETRANSMIT_INTERVAL_MS);
        }
        let last = events[events.len() - 1].time_ms;
        assert!(last + RF_COMMAND_TRANSMIT_DURATION_MS <= end);
        assert!(end - last <= RETRANSMIT_INTERVAL_MS);
    }
}

#[test]
fn tracks_are_merged_by_time() {
    let p = preset(vec![
        (
            "Rex",
            vec![
                step(PresetStepMode::Vibrate, 50, 150),
                step(PresetStepMode::Pause, 0, 150),
                step(PresetStepMode::Beep, 0, 150),
            ],
        ),
        (
            "Max",
            vec![
                step(PresetStepMode::Pause, 0, 150),
                step(PresetStepMode::Shock, 7, 150),
            ],
        ),
    ]);
    let collars = [collar("Rex", 1), collar("Max", 2)];
    let events = schedule_preset_events(&p, &collars).unwrap();
    let seen: Vec<(u64, u16, u8, u8)> = events
        .iter()
        .map(|e| (e.time_ms, e.collar_id, e.mode_byte, e.intensity))
        .collect();
    assert_eq!(seen, vec![(0, 1, 2, 50), (150, 2, 1, 7), (300, 1, 3, 0)]);
    let steps = schedule_steps(&p, &collars).unwrap();
    assert_eq!((steps[1].track_index, steps[1].step_index), (1, 1));
    assert_eq!(steps_duration_ms(&p.tracks[0].steps), 450);
    assert!(preset_fits(&p, 450));
    assert!(!preset_fits(&p, 449));
}

#[test]
fn a_schedule_holds_every_step() {
    let p = preset(vec![
        (
            "Rex",
            vec![
                step(PresetStepMode::Vibrate, 50, 500),
                step(PresetStepMode::Pause, 0, 600),
                step(PresetStepMode::Beep, 0, 150),
            ],
        ),
        (
            "Max",
            vec![
                step(PresetStepMode::Pause, 0, 550),
                step(PresetStepMode::Shock, 99, 500),
            ],
        ),
    ]);
    let collars = [collar("Rex", 1), collar("Max", 2)];
    assert!(validate_preset(&p, &collars).is_ok());
    let mut expected = Vec::new();
    schedule_step_events(&mut expected, 0, 500, 1, 1, 2, 50).unwrap();
    schedule_step_events(&mut expected, 1_100, 1_250, 1, 1, 3, 0).unwrap();
    schedule_step_events(&mut expected, 550, 1_050, 2, 1, 1, 99).unwrap();
    let scheduled = schedule_preset_events(&p, &collars).unwrap();
    let sorted = |events: &[PresetEvent]| {
        let mut all: Vec<(u64, u16, u8, u8, u8)> = events
            .iter()
            .map(|e| (e.time_ms, e.collar_id, e.channel, e.mode_byte, e.intensity))
            .collect();
        all.sort();
        all
    };
    assert!(!scheduled.is_empty());
    assert_eq!(sorted(&scheduled), sorted(&expected));
    for event in &scheduled {
        assert!(event.intensity <= 99);
        assert!((1..=3).contains(&event.mode_byte));
        assert!(collars
            .iter()
            .any(|c| c.collar_id == event.collar_id && c.channel == event.channel));
    }
}

#[test]
fn schedules_say_why_they_fail() {
    let collars = [collar("Rex", 1), collar("Max", 2)];
    let short = preset(vec![("Rex", vec![step(PresetStepMode::Shock, 1, 100)])]);
    assert_eq!(
        schedule_preset_events(&short, &collars).unwrap_err().message,
        "Preset 'test' track 0 step 0 is unschedulable: step duration 100ms is shorter than RF transmit time 130ms"
    );
    let unknown = preset(vec![("Tom", vec![step(PresetStepMode::Shock, 1, 500)])]);
    assert_eq!(
        schedule_preset_events(&unknown, &collars).unwrap_err().message,
        "Preset 'test' track 0 references unknown collar 'Tom'"
    );
    let both = preset(vec![
        ("Rex", vec![step(PresetStepMode::Shock, 1, 150)]),
        ("Max", vec![step(PresetStepMode::Pause, 0, 100), step(PresetStepMode::Shock, 1, 150)]),
    ]);
    assert_eq!(
        schedule_preset_events(&both, &collars).unwrap_err().message,
        "Preset 'test' cannot overlap RF transmissions on a single transmitter: track 1 step 1 starts at 100ms before track 0 step 0 ends at 130ms"
    );
    assert_eq!(
        plan_preset(&both, &collars).unwrap_err().message,
        schedule_preset_events(&both, &collars).unwrap_err().message
    );
}

#[test]
fn validation_says_what_is_wrong() {
    let collars = [collar("Rex", 1)];
    let problem = |p: &Preset| validate_preset(p, &collars).unwrap_err().message;
    assert_eq!(
        problem(&preset(vec![("Rex", vec![step(PresetStepMode::Shock, 100, 500)])])),
        "Preset 'test' track 0 step 0 has invalid intensity 100"
    );
    assert_eq!(
        problem(&preset(vec![("Rex", vec![step(PresetStepMode::Shock, 1, 0)])])),
        "Preset 'test' track 0 step 0 has zero duration"
    );
    assert!(problem(&preset(vec![])).contains("test"));
    let mut bad = collar("Rex", 1);
    bad.channel = 3;
    assert!(validate_collar(&bad).unwrap_err().message.contains("3"));
    assert!(validate_collars(&[collar("a", 1), collar("a", 2)])
        .unwrap_err()
        .message
        .contains("a"));
}

#[test]
fn exported_data_is_valid_if_its_parts_are() {
    let good = preset(vec![("Rex", vec![step(PresetStepMode::Shock, 1, 500)])]);
    let data = ExportData {
        collars: vec![collar("Rex", 1)],
        presets: vec![good.clone()],
    };
    assert!(validate_export_data(&data).is_ok());
    assert!(validate_presets(&data.presets, &data.collars).is_ok());
    assert!(validate_presets(&[good.clone(), good], &data.collars).is_err());
}

#[test]
fn normalizing_twice_changes_nothing_more() {
    let mut once = preset(vec![(
        "Rex",
        vec![
            PresetStep {
                intensity_max: Some(9),
                ..step(PresetStepMode::Beep, 5, 500)
            },
            step(PresetStepMode::Shock, 5, 500),
        ],
    )]);
    once.normalize();
    let mut twice = once.clone();
    twice.normalize();
    assert_eq!(once, twice);
    assert_eq!(once.tracks[0].steps[0].intensity, 0);
    assert_eq!(once.tracks[0].steps[0].intensity_max, None);
}

#[test]
fn draws_stay_in_range() {
    let mut rng = SmallRng::seed_from_u64(7);
    let mut seen = std::collections::BTreeSet::new();
    for _ in 0..200 {
        let d = resolve_random_duration(&mut rng, &mut Fixed(0), 700, 2_600, Distribution::Uniform);
        assert!(d % 500 == 0 && (500..=2_500).contains(&d));
        seen.insert(d);
        let i = resolve_random_u8(&mut rng, &mut Fixed(0), 10, 12, Distribution::Uniform);
        assert!((10..=12).contains(&i));
    }
    assert_eq!(seen.len(), 5);
}

#[test]
fn bell_curve_draws_are_moved_into_range() {
    let mut rng = SmallRng::seed_from_u64(7);
    let g = Distribution::Gaussian;
    assert_eq!(resolve_random_u8(&mut rng, &mut Fixed(-5), 10, 20, g), 10);
    assert_eq!(resolve_random_u8(&mut rng, &mut Fixed(13), 10, 20, g), 13);
    assert_eq!(resolve_random_u8(&mut rng, &mut Fixed(99), 10, 20, g), 20);
    assert_eq!(resolve_random_duration(&mut rng, &mut Fixed(4), 1_000, 5_000, g), 2_000);
    assert_eq!(resolve_random_duration(&mut rng, &mut Fixed(40), 1_000, 5_000, g), 5_000);
    assert_eq!(clamp_sample(i64::MIN, 3, 9), 3);
    assert_eq!(Draw::Gaussian(12).place(3, 9), 9);
    assert_eq!(Draw::Uniform(4).place(3, 9), 4);
    assert_eq!(duration_of(Draw::Uniform(3), 700, 2_600), 1_500);
    assert_eq!(duration_of(Draw::Gaussian(-1), 700, 2_600), 500);
}

#[test]
fn fixed_presets_are_kept() {
    let p = preset(vec![("Rex", vec![step(PresetStepMode::Shock, 5, 500)])]);
    assert!(!preset_has_random(&p));
    let mut random = RandomResolver {
        rng: SmallRng::seed_from_u64(1),
        gaussian: Fixed(0),
    };
    assert_eq!(draw_preset(&p, &mut random), p);
    assert_eq!(resolve_preset(&p, &mut MidpointResolver), p);
}

#[test]
fn ranges_are_drawn() {
    let p = preset(vec![(
        "Rex",
        vec![PresetStep {
            intensity_max: Some(30),
            duration_max_ms: Some(3_000),
            ..step(PresetStepMode::Vibrate, 10, 1_000)
        }],
    )]);
    assert!(preset_has_random(&p));
    let mut random = RandomResolver {
        rng: SmallRng::seed_from_u64(1),
        gaussian: Fixed(0),
    };
    for _ in 0..50 {
        let drawn = draw_preset(&p, &mut random);
        let s = drawn.tracks[0].steps[0];
        assert!((10..=30).contains(&s.intensity));
        assert!((1_000..=3_000).contains(&s.duration_ms) && s.duration_ms % 500 == 0);
        assert_eq!((s.intensity_max, s.duration_max_ms), (None, None));
    }
    let middle = resolve_preset(&p, &mut MidpointResolver);
    assert_eq!(middle.tracks[0].steps[0].intensity, 20);
    assert_eq!(middle.tracks[0].steps[0].duration_ms, 2_000);
}

#[test]
fn previews_show_every_transmission() {
    let p = preset(vec![(
        "Rex",
        vec![step(PresetStepMode::Pause, 0, 500), step(PresetStepMode::Vibrate, 50, 329)],
    )]);
    let preview = preview_preset(&p, &[collar("Rex", 0x1234)]).unwrap();
    assert_eq!(preview.total_duration_us, 829_000);
    assert_eq!(preview.events.len(), 2);
    let e = &preview.events[1];
    assert_eq!((e.requested_time_us, e.actual_time_us), (699_000, 699_000));
    assert_eq!((e.track_index, e.step_index), (0, 1));
    assert_eq!(e.transmit_duration_us, 132_450);
    assert_eq!(e.collar_name, "Rex");
    assert_eq!((e.collar_id, e.channel), (0x1234, 1));
    assert_eq!((e.mode, e.mode_byte, e.intensity), (CommandMode::Vibrate, 2, 50));
    assert_eq!(e.raw_hex.replace(' ', ""), "123412328A");
}

#[test]
fn previews_fail_where_a_preset_would() {
    let collars = [collar("Rex", 1)];
    let short = preset(vec![("Rex", vec![step(PresetStepMode::Shock, 1, 100)])]);
    assert!(preview_preset(&short, &collars).is_err());
    let strong = preset(vec![("Rex", vec![step(PresetStepMode::Shock, 120, 500)])]);
    assert_eq!(
        preview_preset(&strong, &collars).unwrap_err().message,
        "Preset 'test' track 0 step 0 has invalid intensity 120"
    );
}

struct Asked {
    ranges: Vec<(u32, u32)>,
}

impl GaussianSource for Asked {
    fn sample(&mut self, _rng: &mut SmallRng, low: u32, high: u32) -> i64 {
        self.ranges.push((low, high));
        high as i64 - 1
    }
}

#[test]
fn bell_curves_are_asked_in_order() {
    let ranged = |distribution| PresetStep {
        intensity_max: Some(20),
        duration_max_ms: Some(5_000),
        intensity_distribution: Some(distribution),
        duration_distribution: Some(distribution),
        ..step(PresetStepMode::Shock, 10, 1_000)
    };
    let p = preset(vec![
        ("Rex", vec![ranged(Distribution::Uniform), ranged(Distribution::Gaussian)]),
        ("Fido", vec![ranged(Distribution::Gaussian)]),
    ]);
    let mut random = RandomResolver {
        rng: SmallRng::seed_from_u64(1),
        gaussian: Asked { ranges: Vec::new() },
    };
    let drawn = draw_preset(&p, &mut random);
    assert_eq!(
        random.gaussian.ranges,
        vec![(2, 10), (10, 20), (2, 10), (10, 20)]
    );
    for at in [&drawn.tracks[0].steps[1], &drawn.tracks[1].steps[0]] {
        assert_eq!(at.duration_ms, 4_500);
        assert_eq!(at.intensity, 19);
    }

    let even = preset(vec![("Rex", vec![ranged(Distribution::Uniform)])]);
    random.gaussian.ranges.clear();
    draw_preset(&even, &mut random);
    assert!(random.gaussian.ranges.is_empty());
}
