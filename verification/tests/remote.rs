use rusty_collars::error::RemoteControlError;
use rusty_collars::protocol::{Chip, DeviceSettings};
use rusty_collars::remote_session::{
    after_exit, begin_round, choose_round, handle_text, now_rtt_ms, ping_json, plan_text,
    retry_status, socket_security, KeepAlive, MessageHead, Prepared, Round, RunLoopExit, Session,
    SessionAction, SessionEvent, TextPlan,
};
use rusty_collars::remote_url::{
    check_url, choose_endpoint, parse_remote_control_url, remote_control_endpoint_url,
    remote_control_status, RemoteControlUrlKind, UrlParts,
};
use rusty_collars::session::{ActionOwner, TransmissionCommand};

fn settings(url: &str, device_id: &str) -> DeviceSettings {
    DeviceSettings {
        remote_control_enabled: true,
        remote_control_url: url.to_string(),
        device_id: device_id.to_string(),
        ..DeviceSettings::default(Chip::Esp32)
    }
}

#[test]
fn urls_are_told_apart() {
    assert_eq!(parse_remote_control_url("ws://a.example/x"), Ok(RemoteControlUrlKind::Ws));
    assert_eq!(parse_remote_control_url("  wss://a.example/x "), Ok(RemoteControlUrlKind::Wss));
    assert_eq!(
        parse_remote_control_url("http://a.example/"),
        Err("Remote control URL must start with ws:// or wss://".to_string())
    );
    assert_eq!(
        parse_remote_control_url("   "),
        Err("Remote control URL host cannot be empty".to_string())
    );
    assert_eq!(
        parse_remote_control_url("a.example"),
        Err("Invalid remote control URL: relative URL without a base".to_string())
    );
    assert!(parse_remote_control_url("ws://").is_err());
}

#[test]
fn parsed_urls_are_checked() {
    let parts = |scheme: &str, host: Option<&str>| {
        Ok(UrlParts {
            scheme: scheme.to_string(),
            host: host.map(|h| h.to_string()),
            text: "t".to_string(),
        })
    };
    assert_eq!(check_url("x", &parts("ws", Some("h"))), Ok(RemoteControlUrlKind::Ws));
    assert_eq!(check_url("x", &parts("wss", Some("h"))), Ok(RemoteControlUrlKind::Wss));
    assert_eq!(
        check_url("x", &parts("ws", None)),
        Err("Remote control URL host cannot be empty".to_string())
    );
    assert_eq!(
        check_url("x", &parts("ftp", None)),
        Err("Remote control URL must start with ws:// or wss://".to_string())
    );
    assert_eq!(
        check_url("", &parts("ws", Some("h"))),
        Err("Remote control URL host cannot be empty".to_string())
    );
    assert_eq!(
        check_url("x", &Err("bad".to_string())),
        Err("Invalid remote control URL: bad".to_string())
    );
}

#[test]
fn the_device_id_ends_the_endpoint() {
    assert_eq!(
        remote_control_endpoint_url(&settings(" wss://a.example/ws/ ", "id 1")),
        Ok((RemoteControlUrlKind::Wss, "wss://a.example/ws/id%201".to_string()))
    );
    assert_eq!(
        remote_control_endpoint_url(&settings("ws://a.example", "dev")),
        Ok((RemoteControlUrlKind::Ws, "ws://a.example/dev".to_string()))
    );
    assert_eq!(
        remote_control_endpoint_url(&settings("ws://A.example/x", "")),
        Ok((RemoteControlUrlKind::Ws, "ws://a.example/x".to_string()))
    );
    assert!(remote_control_endpoint_url(&settings("mailto:x", "dev")).is_err());
}

#[test]
fn the_endpoint_is_chosen_from_what_was_parsed() {
    let parsed = || {
        Ok(UrlParts {
            scheme: "ws".to_string(),
            host: Some("h".to_string()),
            text: "ws://h/".to_string(),
        })
    };
    assert_eq!(
        choose_endpoint("ws://h", "d", parsed(), Some("ws://h/d".to_string())),
        Ok((RemoteControlUrlKind::Ws, "ws://h/d".to_string()))
    );
    assert_eq!(
        choose_endpoint("ws://h", "", parsed(), None),
        Ok((RemoteControlUrlKind::Ws, "ws://h/".to_string()))
    );
    assert_eq!(
        choose_endpoint("ws://h", "d", parsed(), None),
        Err("Remote control URL cannot accept path segments".to_string())
    );
}

#[test]
fn the_link_is_reported() {
    let status =
        remote_control_status(&settings(" ws://a/ ", ""), true, Some(12), "Connected".to_string());
    assert!(status.enabled && status.connected && status.validate_cert);
    assert_eq!(status.url, "ws://a/");
    assert_eq!(status.rtt_ms, Some(12));
    assert_eq!(status.status_text, "Connected");
}

#[test]
fn rounds_are_chosen() {
    let mut off = settings("wss://a.example/", "d");
    off.remote_control_enabled = false;
    assert!(matches!(begin_round(&off), Round::Off));
    assert!(matches!(
        begin_round(&settings("wss://a.example/", "d")),
        Round::Connect { kind: RemoteControlUrlKind::Wss, endpoint } if endpoint == "wss://a.example/d"
    ));
    assert!(matches!(
        begin_round(&settings("", "d")),
        Round::Unusable { message } if message == "Remote control URL host cannot be empty"
    ));
    assert!(matches!(
        choose_round(true, Err("no".to_string())),
        Round::Unusable { message } if message == "no"
    ));
}

fn ends_remote_actions(command: &Option<TransmissionCommand>) -> bool {
    matches!(
        command,
        Some(TransmissionCommand::CancelOwnedActions { owner: ActionOwner::RemoteControl })
    )
}

#[test]
fn delays_double_up_to_thirty_seconds() {
    let mut delay = 1_000u64;
    let mut waits = Vec::new();
    for _ in 0..7 {
        let exit = RunLoopExit::Disconnected {
            was_connected: true,
            reason: "gone".to_string(),
        };
        let after = after_exit(exit, &mut delay);
        assert_eq!(after.lost.as_deref(), Some("gone"));
        assert!(ends_remote_actions(&after.ended));
        waits.push(after.retry.unwrap().delay_ms);
    }
    assert_eq!(waits, vec![1_000, 2_000, 4_000, 8_000, 16_000, 30_000, 30_000]);
    let after = after_exit(RunLoopExit::SettingsChanged { was_connected: true }, &mut delay);
    assert_eq!(after.lost.as_deref(), Some("Settings changed"));
    assert!(ends_remote_actions(&after.ended));
    assert!(after.retry.is_none());
    assert_eq!(delay, 1_000);
    let after = after_exit(
        RunLoopExit::Disconnected {
            was_connected: false,
            reason: "refused".to_string(),
        },
        &mut delay,
    );
    assert!(after.lost.is_none() && after.ended.is_none());
    assert_eq!(after.retry.unwrap().delay_ms, 1_000);
    assert_eq!(retry_status(30_000), "Retrying in 30.0s");
    assert_eq!(retry_status(1_500), "Retrying in 1.5s");
}

#[test]
fn certificates_are_checked_unless_told_otherwise() {
    let strict = socket_security(RemoteControlUrlKind::Wss, true);
    assert!(strict.encrypted && strict.check_certificates && !strict.skip_common_name_check);
    let lax = socket_security(RemoteControlUrlKind::Wss, false);
    assert!(lax.encrypted && !lax.check_certificates && lax.skip_common_name_check);
    assert!(!socket_security(RemoteControlUrlKind::Ws, true).encrypted);
}

fn open_session() -> Session {
    let mut s = Session::new(1_000_000);
    assert!(matches!(s.on_event(SessionEvent::Connected, 1_100_000), SessionAction::Nothing));
    assert!(matches!(s.prepare(false, true, 1_200_000), Prepared::Nothing));
    assert!(matches!(s.prepare(false, true, 1_600_000), Prepared::Ping { .. }));
    let nonce = s.pending_ping.unwrap().nonce;
    assert!(matches!(
        s.on_event(SessionEvent::Pong { nonce }, 1_625_000),
        SessionAction::Established { rtt_ms: 25 }
    ));
    s
}

#[test]
fn a_session_is_established_by_its_first_pong() {
    let s = open_session();
    assert!(s.connected);
    assert!(s.pending_ping.is_none());
}

#[test]
fn an_unanswered_ping_ends_the_session() {
    let mut s = open_session();
    assert!(matches!(s.keep_alive(2_000_000), KeepAlive::Nothing));
    let sent = s.next_ping_us;
    let nonce = match s.keep_alive(sent) {
        KeepAlive::Ping { nonce } => nonce,
        other => panic!("{other:?}"),
    };
    assert!(matches!(s.keep_alive(sent + 14_999_999), KeepAlive::Nothing));
    match s.keep_alive(sent + 15_000_000) {
        KeepAlive::TimedOut { error } => {
            assert_eq!(error.message(), format!("Ping timeout for nonce {nonce}"))
        }
        other => panic!("{other:?}"),
    }
    assert!(matches!(
        s.on_event(SessionEvent::Pong { nonce: nonce.wrapping_add(1) }, sent + 10_000),
        SessionAction::Nothing
    ));
    assert!(matches!(
        s.on_event(SessionEvent::Pong { nonce }, sent + 40_000),
        SessionAction::RoundTrip { rtt_ms: 40 }
    ));
}

#[test]
fn a_session_that_does_not_open_is_given_up() {
    let mut s = Session::new(1_000_000);
    assert!(matches!(s.on_event(SessionEvent::Quiet, 3_999_999), SessionAction::Nothing));
    match s.on_event(SessionEvent::Quiet, 4_000_000) {
        SessionAction::Leave { was_connected, error } => {
            assert!(!was_connected);
            assert_eq!(error.message(), "Connect timeout after 3000ms");
        }
        other => panic!("{other:?}"),
    }
    s.on_event(SessionEvent::Connected, 1_100_000);
    s.prepare(false, true, 2_000_000);
    match s.on_event(SessionEvent::Quiet, 17_000_000) {
        SessionAction::Leave { error, .. } => {
            assert!(error.message().starts_with("Handshake ping timeout for nonce "))
        }
        other => panic!("{other:?}"),
    }
}

#[test]
fn sessions_end_for_a_reason() {
    let ends = |event: SessionEvent| match open_session().on_event(event, 2_000_000) {
        SessionAction::Leave { was_connected, error } => {
            assert!(was_connected);
            error.message()
        }
        other => panic!("{other:?}"),
    };
    assert_eq!(ends(SessionEvent::Disconnected { reason: "bye".to_string() }), "bye");
    assert_eq!(ends(SessionEvent::Failed { reason: "broken".to_string() }), "broken");
    assert_eq!(
        ends(SessionEvent::SendFailed { reason: "full".to_string() }),
        "WebSocket send failed: full"
    );
    assert_eq!(ends(SessionEvent::ChannelClosed), "Remote control event channel closed");
    assert!(matches!(
        open_session().on_event(SessionEvent::Handled, 2_000_000),
        SessionAction::Nothing
    ));
    assert!(matches!(
        open_session().prepare(true, true, 2_000_000),
        Prepared::SettingsChanged { was_connected: true }
    ));
    assert_eq!(RemoteControlError::Connect("x".to_string()).message(), "Connect failed: x");
}

#[test]
fn texts_from_the_server_are_sorted_out() {
    let refused = |text: &str| match handle_text(text) {
        TextPlan::Refuse { message } => message,
        other => panic!("{other:?}"),
    };
    assert!(matches!(handle_text(r#"{"type":"pong","nonce":7}"#), TextPlan::Pong { nonce: 7 }));
    assert!(matches!(
        handle_text(r#"{"nonce":4294967295,"type":"ping"}"#),
        TextPlan::AnswerPing { nonce: 4294967295 }
    ));
    assert!(matches!(handle_text(r#"{"type":"command"}"#), TextPlan::Command));
    assert_eq!(
        refused(r#"{"type":"ping","nonce":4294967296}"#),
        "Invalid ping: missing or invalid nonce"
    );
    assert_eq!(refused(r#"{"type":"pong"}"#), "Invalid pong: missing or invalid nonce");
    assert_eq!(refused(r#"{"nonce":1}"#), "Invalid remote control message: missing type");
    assert!(refused("{").starts_with("Invalid remote control message: EOF while parsing"));
}

#[test]
fn heads_decide_on_messages() {
    let plan = |message_type: Option<&str>, nonce: Option<u64>| {
        plan_text(&Ok(MessageHead {
            message_type: message_type.map(|t| t.to_string()),
            nonce,
        }))
    };
    assert!(matches!(plan(Some("pong"), Some(3)), TextPlan::Pong { nonce: 3 }));
    assert!(matches!(plan(Some("stop_all"), None), TextPlan::Command));
    assert!(matches!(plan(None, Some(3)), TextPlan::Refuse { .. }));
    assert!(matches!(
        plan_text(&Err("e".to_string())),
        TextPlan::Refuse { message } if message == "Invalid remote control message: e"
    ));
}

#[test]
fn pings_are_written() {
    assert_eq!(ping_json(42), r#"{"nonce":42,"type":"ping"}"#);
    assert_eq!(now_rtt_ms(10_000, 35_000), 25);
    assert_eq!(now_rtt_ms(35_000, 10_000), 1);
    assert_eq!(now_rtt_ms(10_900, 12_100), 1);
    assert_eq!(now_rtt_ms(0, u64::MAX), u32::MAX);
}
