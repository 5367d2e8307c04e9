use rusty_collars::protocol::{decode_rf_frame, encode_rf_frame, CommandMode};
use rusty_collars::rf::{
    frame_pulses, hex_text, Listened, Listener, Pulse, RfReceiver, REPEAT_PULSES,
};
use rusty_collars::rf_timing::{RF_COMMAND_TRANSMIT_DURATION_US, RF_REPEAT_DURATION_US};

fn repeat_of(id: u16, channel: u8, mode: u8, intensity: u8) -> Vec<Pulse> {
    let mut pulses = frame_pulses(&encode_rf_frame(id, channel, mode, intensity));
    pulses.truncate(REPEAT_PULSES);
    pulses
}

fn duration(pulses: &[Pulse]) -> u64 {
    pulses.iter().map(|p| p.duration_us as u64).sum()
}

#[test]
fn every_frame_is_decoded_as_it_was_encoded() {
    for (id, channel, mode, intensity) in
        [(0u16, 0u8, 1u8, 0u8), (0xffff, 2, 3, 99), (0x1234, 1, 2, 50), (1, 15, 15, 1)]
    {
        let frame = encode_rf_frame(id, channel, mode, intensity);
        assert_eq!(decode_rf_frame(&frame), (id, channel, mode, intensity, true));
    }
}

#[test]
fn one_wrong_byte_fails_the_checksum() {
    let frame = encode_rf_frame(0x9b7a, 1, 2, 75);
    for i in 0..5 {
        for change in [1u8, 0x80, 0xff] {
            let mut wrong = frame;
            wrong[i] = wrong[i].wrapping_add(change);
            assert!(!decode_rf_frame(&wrong).4);
        }
    }
}

#[test]
fn a_command_takes_as_long_as_its_pulses() {
    let repeat = repeat_of(0x1234, 0, 1, 50);
    assert_eq!(duration(&repeat), RF_REPEAT_DURATION_US);
    let command = frame_pulses(&encode_rf_frame(0x1234, 0, 1, 50));
    assert_eq!(duration(&command), RF_COMMAND_TRANSMIT_DURATION_US);
    assert_eq!(command.len(), 3 * repeat.len());
    assert!(command[0].level);
    assert_eq!(command[0].duration_us, 1400);
    assert_eq!(command[1].duration_us, 750);
}

#[test]
fn a_command_is_heard_once() {
    let mut receiver = RfReceiver::new();
    let mut now = 1_000_000u64;
    let mut heard = Vec::new();
    for p in frame_pulses(&encode_rf_frame(0xabcd, 2, 3, 99)) {
        now += p.duration_us as u64;
        if let Some(frame) = receiver.process_pulse(p.level, p.duration_us, now) {
            heard.push(frame);
        }
    }
    assert_eq!(heard.len(), 1);
    let frame = &heard[0];
    assert_eq!(frame.collar_id, 0xabcd);
    assert_eq!(frame.channel, 2);
    assert_eq!(frame.mode, Some(CommandMode::Beep));
    assert_eq!(frame.mode_raw, 3);
    assert_eq!(frame.intensity, 99);
    assert!(frame.checksum_ok);
    assert_eq!(frame.raw_hex, hex_text(&encode_rf_frame(0xabcd, 2, 3, 99)));
    assert!(!receiver.is_receiving());
}

#[test]
fn a_command_is_heard_through_jitter() {
    let mut receiver = RfReceiver::new();
    let mut now = 0u64;
    let mut heard = 0;
    for (i, p) in repeat_of(7, 0, 1, 9).iter().enumerate() {
        let jittered = if i % 2 == 0 { p.duration_us + 170 } else { p.duration_us - 170 };
        now += jittered as u64;
        if receiver.process_pulse(p.level, jittered, now).is_some() {
            heard += 1;
        }
    }
    assert_eq!(heard, 1);
}

#[test]
fn the_same_frame_is_heard_again_after_the_window() {
    let mut receiver = RfReceiver::new();
    let pulses = repeat_of(7, 0, 1, 9);
    let mut heard = Vec::new();
    for start in [0u64, 50_000, 200_000] {
        let mut now = start;
        for p in &pulses {
            now += p.duration_us as u64;
            if receiver.process_pulse(p.level, p.duration_us, now).is_some() {
                heard.push(start);
            }
        }
    }
    assert_eq!(heard, vec![0, 200_000]);
}

#[test]
fn noise_starts_over() {
    let mut receiver = RfReceiver::new();
    assert!(receiver.process_pulse(true, 1400, 1400).is_none());
    assert!(receiver.is_receiving());
    assert!(receiver.process_pulse(false, 9000, 10_400).is_none());
    assert!(!receiver.is_receiving());
    receiver.process_pulse(true, 1400, 20_000);
    receiver.reset();
    assert!(!receiver.is_receiving());
}

#[test]
fn levels_are_watched() {
    let mut receiver = RfReceiver::new();
    let mut listener = Listener { last_level: false, last_edge_us: 0 };
    assert!(matches!(listener.observe(&mut receiver, true, 100), Listened::Edge));
    let mut now = 100u64;
    let mut frames = 0;
    for p in repeat_of(0x1234, 1, 2, 10) {
        now += p.duration_us as u64;
        if let Listened::Frame(frame) = listener.observe(&mut receiver, !p.level, now) {
            assert_eq!(frame.collar_id, 0x1234);
            frames += 1;
        }
    }
    assert_eq!(frames, 1);
    assert!(matches!(
        listener.observe(&mut receiver, true, now + 10_000),
        Listened::Rest | Listened::Watch
    ));
}
