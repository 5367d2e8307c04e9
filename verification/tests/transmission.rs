use rusty_collars::protocol::{CommandMode, EventSource};
use rusty_collars::scheduling::PresetEvent;
use rusty_collars::session::{ActionKey, ActionOwner, ActiveActionHandle, TransmissionCommand};
use rusty_collars::transmission::{Next, Transmitter, WORKER_IDLE_TIMEOUT_US};

fn key(name: &str) -> ActionKey {
    ActionKey {
        collar_name: name.to_string(),
        mode: CommandMode::Vibrate,
    }
}

fn upsert(
    name: &str,
    owner: Option<ActionOwner>,
    cancel_on_disconnect: bool,
    deadline_us: Option<u64>,
) -> TransmissionCommand {
    TransmissionCommand::UpsertAction {
        key: key(name),
        handle: ActiveActionHandle {
            owner,
            cancel_on_disconnect,
            collar_id: 1,
            channel: 0,
            mode_byte: 2,
            intensity: 30,
            deadline_us,
            started_at_us: 1_000,
            source: EventSource::LocalUi,
        },
    }
}

fn event(time_ms: u64) -> PresetEvent {
    PresetEvent {
        time_ms,
        collar_id: 9,
        channel: 0,
        mode_byte: 1,
        intensity: 4,
    }
}

fn start_preset(times: &[u64]) -> TransmissionCommand {
    TransmissionCommand::StartPreset {
        preset_name: "p".to_string(),
        events: times.iter().map(|t| event(*t)).collect(),
    }
}

fn sent_to(t: &mut Transmitter, now_us: u64) -> Option<String> {
    match t.next(now_us).1 {
        Next::Action { key, .. } => Some(key.collar_name),
        Next::Preset { .. } => Some("preset".to_string()),
        Next::Wait { .. } => None,
    }
}

#[test]
fn an_idle_transmitter_waits() {
    let mut t = Transmitter::new();
    match t.next(5).1 {
        Next::Wait { timeout_us } => assert_eq!(timeout_us, WORKER_IDLE_TIMEOUT_US),
        other => panic!("{other:?}"),
    }
}

#[test]
fn actions_take_turns() {
    let mut t = Transmitter::new();
    for name in ["b", "a", "c"] {
        assert!(t.apply_command(upsert(name, None, false, None), 2_000).is_empty());
    }
    let sent: Vec<_> = (0..6).map(|_| sent_to(&mut t, 3_000).unwrap()).collect();
    let mut first: Vec<_> = sent[..3].to_vec();
    assert_eq!(first, sent[3..]);
    first.sort();
    assert_eq!(first, vec!["a", "b", "c"]);
}

#[test]
fn an_action_ends_when_its_time_is_up() {
    let mut t = Transmitter::new();
    t.apply_command(upsert("a", None, false, Some(501_000)), 1_000);
    assert!(t.drain_expired_actions(500_999).is_empty());
    let done = t.drain_expired_actions(501_000);
    assert_eq!(done.len(), 1);
    assert_eq!(done[0].collar_name, "a");
    assert_eq!(done[0].mode, CommandMode::Vibrate);
    assert_eq!(done[0].intensity, Some(30));
    assert_eq!(done[0].duration_ms, 500);
    assert_eq!(sent_to(&mut t, 600_000), None);
}

#[test]
fn the_same_action_is_replaced() {
    let mut t = Transmitter::new();
    t.apply_command(upsert("a", None, false, Some(10_000)), 1_000);
    t.apply_command(upsert("a", None, false, Some(90_000)), 1_500);
    assert!(t.drain_expired_actions(10_000).is_empty());
    assert_eq!(t.actions.len(), 1);
}

#[test]
fn a_disconnect_ends_what_was_held() {
    let mut t = Transmitter::new();
    let me = Some(ActionOwner::LocalWs(1));
    t.apply_command(upsert("held", me, true, None), 1_000);
    t.apply_command(upsert("timed", me, false, Some(9_000_000)), 1_000);
    t.apply_command(upsert("other", Some(ActionOwner::LocalWs(2)), true, None), 1_000);
    let done = t.apply_command(
        TransmissionCommand::CancelOwnedActions {
            owner: ActionOwner::LocalWs(1),
        },
        2_001_000,
    );
    assert_eq!(done.len(), 1);
    assert_eq!(done[0].collar_name, "held");
    assert_eq!(done[0].duration_ms, 2_000);
    assert_eq!(t.actions.len(), 2);
    let one = t.apply_command(TransmissionCommand::CancelAction { key: key("timed") }, 3_000);
    assert_eq!(one.len(), 1);
    let rest = t.apply_command(TransmissionCommand::CancelAllActions, 3_000);
    assert_eq!(rest.len(), 1);
    assert!(t.actions.is_empty());
}

#[test]
fn a_preset_is_sent_on_time() {
    let mut t = Transmitter::new();
    t.apply_command(start_preset(&[0, 200]), 1_000_000);
    match t.next(1_000_000).1 {
        Next::Preset { event, completed } => {
            assert_eq!(event.time_ms, 0);
            assert!(completed.is_none());
        }
        other => panic!("{other:?}"),
    }
    match t.next(1_195_000).1 {
        Next::Wait { timeout_us } => assert_eq!(timeout_us, 5_000),
        other => panic!("{other:?}"),
    }
    match t.next(1_200_000).1 {
        Next::Preset { event, completed } => {
            assert_eq!(event.time_ms, 200);
            assert_eq!(completed.as_deref(), Some("p"));
        }
        other => panic!("{other:?}"),
    }
    assert!(t.preset.is_none());
}

#[test]
fn an_action_does_not_delay_a_preset() {
    let mut t = Transmitter::new();
    t.apply_command(upsert("a", None, false, None), 0);
    t.apply_command(start_preset(&[0, 500]), 0);
    assert_eq!(sent_to(&mut t, 0).as_deref(), Some("preset"));
    assert_eq!(sent_to(&mut t, 300_000).as_deref(), Some("a"));
    assert_eq!(sent_to(&mut t, 400_000), None);
    assert_eq!(sent_to(&mut t, 500_000).as_deref(), Some("preset"));
}

#[test]
fn an_empty_preset_is_over_at_once() {
    let mut t = Transmitter::new();
    t.apply_command(start_preset(&[]), 0);
    assert_eq!(t.next(0).0.as_deref(), Some("p"));
    assert!(t.preset.is_none());
}

#[test]
fn stopping_stops_everything() {
    let mut t = Transmitter::new();
    t.apply_command(upsert("a", None, false, None), 0);
    t.apply_command(start_preset(&[0, 500]), 0);
    t.apply_command(TransmissionCommand::StopPreset, 0);
    assert!(t.preset.is_none());
    assert_eq!(t.actions.len(), 1);
    t.apply_command(start_preset(&[0, 500]), 0);
    let done = t.apply_command(TransmissionCommand::StopAll, 4_000);
    assert_eq!(done.len(), 1);
    assert!(t.preset.is_none() && t.actions.is_empty());
}

#[test]
fn a_round_serves_every_action_once() {
    let mut t = Transmitter::new();
    assert!(matches!(t.next_manual_action(7), Next::Wait { timeout_us: 7 }));
    assert_eq!(t.round_robin, 0);
    for name in ["b", "a", "c"] {
        t.apply_command(upsert(name, None, false, None), 2_000);
    }
    t.round_robin = 8;
    let mut round = Vec::new();
    for _ in 0..3 {
        match t.next_manual_action(7) {
            Next::Action { key, handle } => {
                assert_eq!((handle.collar_id, handle.channel), (1, 0));
                assert_eq!((handle.mode_byte, handle.intensity), (2, 30));
                round.push(key.collar_name);
            }
            other => panic!("{other:?}"),
        }
    }
    assert_eq!(round, vec!["c", "a", "b"]);
    assert_eq!(t.round_robin, 2);
    assert_eq!(t.actions.len(), 3);
}
