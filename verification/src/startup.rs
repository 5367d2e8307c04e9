//! What the device starts with.

use std::collections::VecDeque;

use vstd::prelude::*;

use crate::protocol::event_log::EventLogEntryView;
use crate::protocol::model::{Collar, CollarView, Preset, PresetView, RfDebugFrame, RfDebugFrameView};
use crate::protocol::settings::{DeviceSettings, DeviceSettingsView};
use crate::remote_url::remote_control_status_from_settings;
use crate::services::mqtt_status_from_settings;
use crate::state::{DomainState, DomainView};

verus! {

/// How many events wait for a client that does not read; older ones are dropped.
pub const BROADCAST_CAPACITY: usize = 16;

/// Whether a pin belongs to the bus of the second chip.
pub open spec fn on_sdio_bus(pin: u8) -> bool {
    14 <= pin <= 19
}

/// A pin that is free of the bus: the one that was chosen, or else a safe one.
pub open spec fn off_sdio_bus(pin: u8, safe: u8) -> u8 {
    if on_sdio_bus(pin) {
        safe
    } else {
        pin
    }
}

/// The settings with every pin free of the bus of the second chip.
pub open spec fn pins_off_sdio_bus(s: DeviceSettingsView) -> DeviceSettingsView {
    DeviceSettingsView {
        tx_led_pin: off_sdio_bus(s.tx_led_pin, 7),
        rx_led_pin: off_sdio_bus(s.rx_led_pin, 8),
        rf_tx_pin: off_sdio_bus(s.rf_tx_pin, 5),
        rf_rx_pin: off_sdio_bus(s.rf_rx_pin, 6),
        ..s
    }
}

fn move_pin(pin: u8, safe: u8) -> (r: u8)
    ensures
        r == off_sdio_bus(pin, safe),
{
    if 14 <= pin && pin <= 19 {
        safe
    } else {
        pin
    }
}

/// Moves pins off the bus of the second chip, on boards that reach WiFi through it.
pub fn avoid_sdio_pins(settings: &mut DeviceSettings)
    ensures
        final(settings).deep_view() == pins_off_sdio_bus(old(settings).deep_view()),
{
    settings.tx_led_pin = move_pin(settings.tx_led_pin, 7);
    settings.rx_led_pin = move_pin(settings.rx_led_pin, 8);
    settings.rf_tx_pin = move_pin(settings.rf_tx_pin, 5);
    settings.rf_rx_pin = move_pin(settings.rf_rx_pin, 6);
}

/// No pin is left on the bus, and pins that were free of it stay as they were.
pub proof fn lemma_pins_are_off_sdio_bus(s: DeviceSettingsView)
    ensures
        ({
            let r = pins_off_sdio_bus(s);
            &&& !on_sdio_bus(r.tx_led_pin)
            &&& !on_sdio_bus(r.rx_led_pin)
            &&& !on_sdio_bus(r.rf_tx_pin)
            &&& !on_sdio_bus(r.rf_rx_pin)
            &&& pins_off_sdio_bus(r) == r
        }),
        !on_sdio_bus(s.tx_led_pin) && !on_sdio_bus(s.rx_led_pin) && !on_sdio_bus(s.rf_tx_pin)
            && !on_sdio_bus(s.rf_rx_pin) ==> pins_off_sdio_bus(s) == s,
{
}

/// What the device knows when it starts: nothing runs and nothing was recorded.
pub open spec fn initial_domain(
    s: DeviceSettingsView,
    collars: Seq<CollarView>,
    presets: Seq<PresetView>,
) -> DomainView {
    DomainView {
        device_settings: s,
        collars,
        presets,
        preset_name: None,
        rf_lockout_until_ms: 0,
        rf_debug_events: Seq::empty(),
        event_log_events: Seq::empty(),
        remote_control_status: crate::remote_url::initial_status(s),
        mqtt_status: crate::services::initial_mqtt_status(s),
    }
}

/// Sets up what the device knows.
pub fn start_domain(
    device_settings: DeviceSettings,
    collars: Vec<Collar>,
    presets: Vec<Preset>,
) -> (r: DomainState)
    ensures
        r.deep_view() == initial_domain(
            device_settings.deep_view(),
            collars.deep_view(),
            presets.deep_view(),
        ),
{
    let remote_control_status = remote_control_status_from_settings(&device_settings);
    let mqtt_status = mqtt_status_from_settings(&device_settings);
    let rf_debug_events: VecDeque<RfDebugFrame> = VecDeque::new();
    let r = DomainState {
        device_settings,
        collars,
        presets,
        preset_name: None,
        rf_lockout_until_ms: 0,
        rf_debug_events,
        event_log_events: Vec::new(),
        remote_control_status,
        mqtt_status,
    };
    assert(r.rf_debug_events.deep_view() =~= Seq::<RfDebugFrameView>::empty());
    assert(r.event_log_events.deep_view() =~= Seq::<EventLogEntryView>::empty());
    r
}

/// A pin on the bus of the second chip, one of 14 to 19, gives way to a safe one of its own; a pin
/// off the bus stays. No other setting changes.
pub proof fn lemma_where_pins_move(s: DeviceSettingsView)
    ensures
        ({
            let r = pins_off_sdio_bus(s);
            &&& r.tx_led_pin == if 14 <= s.tx_led_pin <= 19 {
                7
            } else {
                s.tx_led_pin
            }
            &&& r.rx_led_pin == if 14 <= s.rx_led_pin <= 19 {
                8
            } else {
                s.rx_led_pin
            }
            &&& r.rf_tx_pin == if 14 <= s.rf_tx_pin <= 19 {
                5
            } else {
                s.rf_tx_pin
            }
            &&& r.rf_rx_pin == if 14 <= s.rf_rx_pin <= 19 {
                6
            } else {
                s.rf_rx_pin
            }
            &&& s == (DeviceSettingsView {
                tx_led_pin: s.tx_led_pin,
                rx_led_pin: s.rx_led_pin,
                rf_tx_pin: s.rf_tx_pin,
                rf_rx_pin: s.rf_rx_pin,
                ..r
            })
        }),
{
}

/// The device starts with what was stored, and with nothing running, nothing barred, nothing
/// recorded and no link up.
pub proof fn lemma_device_starts_at_rest(
    s: DeviceSettingsView,
    collars: Seq<CollarView>,
    presets: Seq<PresetView>,
)
    ensures
        ({
            let d = initial_domain(s, collars, presets);
            &&& d.device_settings == s
            &&& d.collars == collars
            &&& d.presets == presets
            &&& d.preset_name is None
            &&& d.rf_lockout_until_ms == 0
            &&& d.rf_debug_events.len() == 0
            &&& d.event_log_events.len() == 0
            &&& !d.remote_control_status.connected
            &&& d.remote_control_status.enabled == s.remote_control_enabled
            &&& d.remote_control_status.url == crate::text::trimmed(s.remote_control_url)
            &&& !d.mqtt_status.connected
            &&& d.mqtt_status.enabled == s.mqtt_enabled
            &&& d.mqtt_status.server == crate::text::trimmed(s.mqtt_server)
        }),
{
}

} // verus!
