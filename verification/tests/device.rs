use rusty_collars::device_id::{fill_device_id, generate_uuid_v4};
use rusty_collars::events::AppEvent;
use rusty_collars::local_session::{
    on_socket_event, plan_local_message, LocalPlan, SocketEvent, SocketStep, REBOOTING_JSON,
};
use rusty_collars::net::{
    is_qemu, needs_emergency_ap, plan_network, wait_netif_ip, AddressWait, Board, NetworkHandle,
    NetworkPlan,
};
use rusty_collars::ota::{answer_upload, check_upload, Chunk, Status, Transfer};
use rusty_collars::protocol::{
    Chip, ClientMessage, CommandMode, DeviceSettings, ServerMessage,
};
use rusty_collars::startup::{avoid_sdio_pins, start_domain};
use rusty_collars::status::{
    disabled_interface_status, format_ip, format_mac, gather_network_status, interface_status,
    MemRegion, MemoryReading, Netif, NetworkReading,
};
use rusty_collars::time_sync::plan_time_sync;
use rusty_collars::wifi::{
    make_ap_config, next_reconnect_delay, plan_modes, sta_will_connect, ApProtection, PollAction,
    WifiConfig, WifiController,
};

#[test]
fn device_ids_are_random_uuids() {
    let id = generate_uuid_v4([
        0xa1, 0xa2, 0xa3, 0xa4, 0xb1, 0xb2, 0xff, 0xc2, 0xff, 0xd2, 0xd3, 0xd4, 0xd5, 0xd6, 0xd7,
        0x08,
    ]);
    assert_eq!(id, "a1a2a3a4-b1b2-4fc2-bfd2-d3d4d5d6d708");
    assert_eq!(generate_uuid_v4([0; 16]), "00000000-0000-4000-8000-000000000000");
    for byte in 0..=255u8 {
        let id = generate_uuid_v4([byte; 16]);
        let parsed = uuid::Uuid::parse_str(&id).unwrap();
        assert_eq!(parsed.get_version_num(), 4);
        assert_eq!(parsed.get_variant(), uuid::Variant::RFC4122);
    }
}

#[test]
fn a_device_id_stays() {
    let mut settings = DeviceSettings::default(Chip::Esp32);
    assert!(fill_device_id(&mut settings, [1; 16]));
    let id = settings.device_id.clone();
    assert_eq!(id.len(), 36);
    assert!(!fill_device_id(&mut settings, [2; 16]));
    assert_eq!(settings.device_id, id);
}

#[test]
fn addresses_are_written() {
    assert_eq!(format_mac(&[0, 0x1a, 0xff, 9, 0x10, 0xab]), "00:1A:FF:09:10:AB");
    assert_eq!(format_ip(0x0100_a8c0), "192.168.0.1");
    assert_eq!(format_ip(u32::MAX), "255.255.255.255");
    assert_eq!(format_ip(0), "0.0.0.0");
}

fn region(total: u32, free: u32) -> MemRegion {
    MemRegion { total, free }
}

fn reading() -> NetworkReading {
    NetworkReading {
        board_mac: [1, 2, 3, 4, 5, 6],
        ethernet: Netif {
            mac: Some([1; 6]),
            addr: Some(0),
        },
        wifi_sta: Netif {
            mac: Some([2; 6]),
            addr: Some(0x0100_a8c0),
        },
        wifi_ap: Netif {
            mac: Some([3; 6]),
            addr: Some(0x0104_a8c0),
        },
        ap_client_macs: vec![[4; 6]],
        memory: MemoryReading {
            internal: region(100, 50),
            psram: region(0, 0),
            dma: region(80, 8),
            rtcram: region(0, 0),
            tcm: region(1, 1),
        },
        min_free_heap_bytes: 7,
    }
}

#[test]
fn the_network_is_reported() {
    let settings = DeviceSettings {
        wifi_client_enabled: true,
        wifi_ssid: "home".to_string(),
        ap_enabled: true,
        ..DeviceSettings::default(Chip::Esp32)
    };
    match gather_network_status(&settings, true, &reading()) {
        ServerMessage::NetworkStatus {
            board_mac,
            memory,
            min_free_heap_bytes,
            ethernet,
            wifi_sta,
            wifi_ap,
        } => {
            assert_eq!(board_mac, "01:02:03:04:05:06");
            let names: Vec<&str> = memory.iter().map(|m| m.name.as_str()).collect();
            assert_eq!(names, vec!["Internal", "DMA", "TCM"]);
            assert_eq!((memory[1].total_bytes, memory[1].free_bytes), (80, 8));
            assert_eq!(min_free_heap_bytes, 7);
            assert!(ethernet.available && ethernet.enabled && !ethernet.connected);
            assert_eq!(ethernet.ip, "");
            assert!(wifi_sta.available && wifi_sta.enabled && wifi_sta.connected);
            assert_eq!(wifi_sta.ip, "192.168.0.1");
            assert!(wifi_ap.available && wifi_ap.enabled);
            assert_eq!(wifi_ap.ip, "192.168.4.1");
            assert_eq!(wifi_ap.clients.len(), 1);
            assert_eq!(wifi_ap.clients[0].mac, "04:04:04:04:04:04");
            assert_eq!(wifi_ap.clients[0].ip, "");
        }
        other => panic!("{other:?}"),
    }
    match gather_network_status(&settings, false, &reading()) {
        ServerMessage::NetworkStatus { wifi_sta, wifi_ap, .. } => {
            assert_eq!(wifi_sta, disabled_interface_status());
            assert!(!wifi_ap.available && !wifi_ap.enabled && wifi_ap.clients.is_empty());
        }
        other => panic!("{other:?}"),
    }
    let absent = interface_status(
        &Netif {
            mac: None,
            addr: None,
        },
        true,
    );
    assert!(!absent.available && absent.enabled && !absent.connected);
    assert_eq!(absent.mac, "");
}

fn joining() -> DeviceSettings {
    DeviceSettings {
        wifi_client_enabled: true,
        wifi_ssid: "home".to_string(),
        wifi_password: "pass".to_string(),
        ap_enabled: false,
        ap_password: "".to_string(),
        ..DeviceSettings::default(Chip::Esp32)
    }
}

#[test]
fn wifi_modes_follow_the_settings() {
    let s = joining();
    assert!(sta_will_connect(&s));
    assert!(matches!(plan_modes(&s, false), Ok(WifiConfig::Client { sta })
        if sta.ssid == "home" && sta.password == "pass"));
    assert!(matches!(plan_modes(&s, true), Ok(WifiConfig::Mixed { ap, .. })
        if ap.protection == ApProtection::Open && ap.max_connections == 4));
    let mut ap_only = joining();
    ap_only.wifi_ssid = "".to_string();
    ap_only.ap_enabled = true;
    ap_only.ap_password = "12345678".to_string();
    assert!(!sta_will_connect(&ap_only));
    assert!(matches!(plan_modes(&ap_only, false), Ok(WifiConfig::AccessPoint { ap })
        if ap.protection == ApProtection::Wpa2 && ap.password == "12345678"));
}

#[test]
fn wifi_texts_that_are_too_long_are_refused() {
    let mut s = joining();
    s.wifi_ssid = "x".repeat(33);
    assert_eq!(plan_modes(&s, false).unwrap_err(), "SSID too long (max 32 bytes)");
    assert_eq!(
        WifiController::new(&s).force_enable_ap(&s).unwrap_err(),
        "SSID too long"
    );
    s.wifi_ssid = "\u{e9}".repeat(16);
    assert!(plan_modes(&s, false).is_ok());
    s.wifi_password = "x".repeat(65);
    assert_eq!(plan_modes(&s, false).unwrap_err(), "Password too long (max 64 bytes)");
    assert_eq!(
        WifiController::new(&s).force_enable_ap(&s).unwrap_err(),
        "Password too long"
    );
    s.wifi_password = "x".repeat(64);
    s.ap_password = "x".repeat(65);
    assert!(plan_modes(&s, false).is_ok());
    assert_eq!(plan_modes(&s, true).unwrap_err(), "AP password too long");
    assert_eq!(make_ap_config(&s).unwrap_err(), "AP password too long");
}

#[test]
fn a_lost_network_is_tried_again() {
    let mut wifi = WifiController::new(&joining());
    assert_eq!(wifi.poll(1_000_000, Some(true)), PollAction::Rest);
    assert_eq!(wifi.poll(2_000_000, Some(false)), PollAction::Rest);
    assert_eq!(wifi.reconnect_at_us, Some(2_500_000));
    assert_eq!(wifi.poll(2_499_999, None), PollAction::Rest);
    assert_eq!(wifi.poll(2_500_000, None), PollAction::Connect);
    wifi.connect_started(2_500_000, true);
    assert_eq!(wifi.poll(17_499_999, Some(false)), PollAction::Rest);
    assert_eq!(wifi.poll(17_500_000, Some(false)), PollAction::Disconnect);
    assert_eq!(wifi.reconnect_delay_ms, 1_000);
    assert_eq!(wifi.poll(18_500_000, Some(false)), PollAction::Connect);
    wifi.connect_started(18_500_000, false);
    assert_eq!(wifi.reconnect_delay_ms, 2_000);
    assert_eq!(wifi.reconnect_at_us, Some(20_500_000));
    assert_eq!(wifi.poll(20_500_000, Some(false)), PollAction::Connect);
    wifi.connect_started(20_500_000, true);
    assert_eq!(wifi.poll(21_000_000, Some(true)), PollAction::Rest);
    assert!(!wifi.connecting);
    assert_eq!(wifi.reconnect_delay_ms, 500);
}

#[test]
fn wifi_delays_double_up_to_five_seconds() {
    let mut delay = 500u64;
    let mut delays = Vec::new();
    for _ in 0..6 {
        delays.push(delay);
        delay = next_reconnect_delay(delay);
    }
    assert_eq!(delays, vec![500, 1_000, 2_000, 4_000, 5_000, 5_000]);
    assert_eq!(next_reconnect_delay(u64::MAX), 5_000);
}

#[test]
fn without_a_network_to_join_nothing_is_tried() {
    let mut s = joining();
    s.wifi_client_enabled = false;
    let mut wifi = WifiController::new(&s);
    assert_eq!(wifi.poll(99_999_000, Some(false)), PollAction::Rest);
    assert!(!wifi.sta_has_ip(Some(5)));
    wifi.ap_forced(0);
    assert!(!wifi.connecting);
    let mut joined = WifiController::new(&joining());
    assert!(joined.sta_has_ip(Some(5)) && !joined.sta_has_ip(Some(0)) && !joined.sta_has_ip(None));
    joined.ap_forced(1_000_000);
    assert_eq!(joined.connect_deadline_us, Some(16_000_000));
    assert!(matches!(joined.force_enable_ap(&joining()), Ok(WifiConfig::Mixed { .. })));
}

#[test]
fn boards_start_what_they_have() {
    let s = joining();
    let real = Some([1, 0, 0, 0, 0, 0]);
    let qemu = Some([0, 0, 0, 9, 9, 9]);
    assert!(is_qemu(qemu) && !is_qemu(real) && !is_qemu(None));
    assert_eq!(plan_network(Board::Esp32, qemu, &s), NetworkPlan::QemuEthernet);
    assert_eq!(plan_network(Board::WifiOnly, qemu, &s), NetworkPlan::Offline);
    assert_eq!(plan_network(Board::P4Ethernet, real, &s), NetworkPlan::Ethernet);
    assert_eq!(plan_network(Board::Esp32, real, &s), NetworkPlan::Wifi { force_ap: false });
    let mut off = joining();
    off.wifi_ssid = "".to_string();
    assert_eq!(plan_network(Board::WifiOnly, None, &off), NetworkPlan::Wifi { force_ap: true });
    assert_eq!(
        plan_network(Board::P4Wifi, qemu, &off),
        NetworkPlan::EthernetAndWifi { force_ap: true }
    );
}

#[test]
fn an_unreachable_board_opens_its_access_point() {
    let s = joining();
    assert!(needs_emergency_ap(&s, false, false, false));
    assert!(!needs_emergency_ap(&s, false, true, false));
    assert!(!needs_emergency_ap(&s, false, false, true));
    assert!(!needs_emergency_ap(&s, true, false, false));
    assert_eq!(wait_netif_ip(Some(1), 99, 10), AddressWait::Obtained);
    assert_eq!(wait_netif_ip(Some(0), 10, 10), AddressWait::LookAgain);
    assert_eq!(wait_netif_ip(None, 11, 10), AddressWait::TimedOut);
}

#[test]
fn networks_keep_the_clock_right() {
    let mut wifi = NetworkHandle::Wifi(WifiController::new(&joining()));
    assert!(wifi.supports_time_sync());
    assert_eq!(wifi.poll(0, Some(false)), PollAction::Rest);
    assert_eq!(wifi.poll(500_000, Some(false)), PollAction::Connect);
    assert!(NetworkHandle::Eth.supports_time_sync());
    assert!(!NetworkHandle::Offline.supports_time_sync());
    assert_eq!(NetworkHandle::Eth.poll(0, None), PollAction::Rest);
    let mut s = DeviceSettings {
        ntp_enabled: true,
        ntp_server: " time.example ".to_string(),
        ..DeviceSettings::default(Chip::Esp32)
    };
    assert_eq!(plan_time_sync(&s), Ok(Some("time.example".to_string())));
    s.ntp_server = " ".to_string();
    assert_eq!(
        plan_time_sync(&s),
        Err("NTP server cannot be empty when time sync is enabled".to_string())
    );
    s.ntp_enabled = false;
    assert_eq!(plan_time_sync(&s), Ok(None));
}

#[test]
fn uploads_are_answered() {
    let refused = check_upload(0).unwrap();
    assert_eq!(refused.status, Status::BadRequest);
    assert_eq!(refused.text, "Content-Length required");
    assert!(check_upload(1).is_none());
    let done = answer_upload(Ok(4096));
    assert_eq!(done.status, Status::Success);
    assert_eq!(done.text, "OTA OK: 4096 bytes written, rebooting...");
    assert!(done.reboot);
    let failed = answer_upload(Err("flash".to_string()));
    assert_eq!(failed.status, Status::InternalServerError);
    assert_eq!(failed.text, "OTA failed: flash");
    assert!(!failed.reboot);
}

#[test]
fn an_upload_is_counted() {
    let mut t = Transfer::new(10);
    assert_eq!(t.after_read(6), Chunk::Write);
    t.wrote(6);
    assert!(!t.is_complete());
    assert_eq!(t.write_failed("bad"), "OTA write failed at 6: bad");
    t.wrote(4);
    assert_eq!(t.after_read(0), Chunk::End);
    assert!(t.is_complete());
}

#[test]
fn pins_keep_off_the_bus() {
    let mut s = DeviceSettings {
        tx_led_pin: 14,
        rx_led_pin: 19,
        rf_tx_pin: 13,
        rf_rx_pin: 16,
        ..DeviceSettings::default(Chip::Esp32)
    };
    avoid_sdio_pins(&mut s);
    assert_eq!((s.tx_led_pin, s.rx_led_pin, s.rf_tx_pin, s.rf_rx_pin), (7, 8, 13, 6));
}

#[test]
fn the_device_starts_with_nothing_running() {
    let settings = DeviceSettings {
        remote_control_enabled: true,
        remote_control_url: "ws://h/".to_string(),
        mqtt_enabled: true,
        ..DeviceSettings::default(Chip::Esp32P4)
    };
    let d = start_domain(settings, vec![], vec![]);
    assert!(d.preset_name.is_none() && d.event_log_events.is_empty());
    assert!(d.rf_debug_events.is_empty());
    assert_eq!(d.rf_lockout_until_ms, 0);
    assert_eq!(d.remote_control_status.status_text, "Connecting...");
    assert_eq!(d.mqtt_status.status_text, "Missing server");
}

#[test]
fn browsers_are_served() {
    assert_eq!(on_socket_event(&SocketEvent::Text, false), SocketStep::Handle);
    assert_eq!(on_socket_event(&SocketEvent::Ping, false), SocketStep::Pong);
    assert_eq!(on_socket_event(&SocketEvent::Binary, false), SocketStep::Ignore);
    for event in [
        SocketEvent::Close,
        SocketEvent::ReadError,
        SocketEvent::ToldNoMore,
        SocketEvent::Gone,
    ] {
        assert_eq!(on_socket_event(&event, true), SocketStep::End);
    }
    let heard = AppEvent::RfDebugState {
        listening: true,
        events: vec![],
    };
    let told = SocketEvent::Told(&heard);
    assert_eq!(on_socket_event(&told, false), SocketStep::Ignore);
    assert_eq!(on_socket_event(&told, true), SocketStep::Send);
    let fired = AppEvent::ActionFired {
        collar_name: "a".to_string(),
        mode: CommandMode::Beep,
        intensity: 0,
    };
    assert_eq!(
        on_socket_event(&SocketEvent::Told(&fired), true),
        SocketStep::Ignore
    );
}

#[test]
fn texts_of_browsers_are_planned() {
    let mut listening = false;
    assert!(matches!(
        plan_local_message(Ok(ClientMessage::StartRfDebug), &mut listening),
        LocalPlan::StartRfDebug { was_listening: false }
    ));
    assert!(listening);
    assert!(matches!(
        plan_local_message(Ok(ClientMessage::ClearRfDebug), &mut listening),
        LocalPlan::ClearRfDebug { listening: true }
    ));
    assert!(matches!(
        plan_local_message(Ok(ClientMessage::StopRfDebug), &mut listening),
        LocalPlan::StopRfDebug { was_listening: true }
    ));
    assert!(!listening);
    assert!(matches!(
        plan_local_message(Ok(ClientMessage::Reboot), &mut listening),
        LocalPlan::Reboot
    ));
    assert!(matches!(
        plan_local_message(Ok(ClientMessage::StopAll), &mut listening),
        LocalPlan::Dispatch { message: ClientMessage::StopAll }
    ));
    assert!(matches!(
        plan_local_message(Err("eof".to_string()), &mut listening),
        LocalPlan::Refuse { message } if message == "Invalid message: eof"
    ));
    assert_eq!(REBOOTING_JSON, r#"{"type":"state","rebooting":true}"#);
}
