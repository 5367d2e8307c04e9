//! What the device knows.

use std::collections::VecDeque;

use vstd::prelude::*;

use crate::protocol::event_log::{EventLogEntry, EventLogEntryView};
use crate::protocol::model::{
    Collar, CollarView, MqttStatus, MqttStatusView, Preset, PresetView, RemoteControlStatus,
    RemoteControlStatusView, RfDebugFrame, RfDebugFrameView,
};
use crate::protocol::settings::{DeviceSettings, DeviceSettingsView};

verus! {

#[derive(Debug)]
pub struct DomainState {
    pub device_settings: DeviceSettings,
    pub collars: Vec<Collar>,
    pub presets: Vec<Preset>,
    pub preset_name: Option<String>,
    pub rf_lockout_until_ms: u64,
    pub rf_debug_events: VecDeque<RfDebugFrame>,
    pub event_log_events: Vec<EventLogEntry>,
    pub remote_control_status: RemoteControlStatus,
    pub mqtt_status: MqttStatus,
}

#[verifier::ext_equal]
pub struct DomainView {
    pub device_settings: DeviceSettingsView,
    pub collars: Seq<CollarView>,
    pub presets: Seq<PresetView>,
    pub preset_name: Option<Seq<char>>,
    pub rf_lockout_until_ms: u64,
    pub rf_debug_events: Seq<RfDebugFrameView>,
    pub event_log_events: Seq<EventLogEntryView>,
    pub remote_control_status: RemoteControlStatusView,
    pub mqtt_status: MqttStatusView,
}

impl DeepView for DomainState {
    type V = DomainView;

    open spec fn deep_view(&self) -> DomainView {
        DomainView {
            device_settings: self.device_settings.deep_view(),
            collars: self.collars.deep_view(),
            presets: self.presets.deep_view(),
            preset_name: self.preset_name.deep_view(),
            rf_lockout_until_ms: self.rf_lockout_until_ms,
            rf_debug_events: self.rf_debug_events.deep_view(),
            event_log_events: self.event_log_events.deep_view(),
            remote_control_status: self.remote_control_status.deep_view(),
            mqtt_status: self.mqtt_status.deep_view(),
        }
    }
}

} // verus!
