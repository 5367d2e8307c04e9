//! What the device keeps, sends and receives.

pub mod event_log;
pub mod messages;
pub mod model;
pub mod rf_codec;
pub mod settings;

pub use crate::protocol::event_log::{EventLogEntry, EventLogEntryKind, EventSource};
pub use crate::protocol::messages::{ClientMessage, ServerMessage};
pub use crate::protocol::model::{
    ApClientInfo, ApStatus, ButtonAction, ClientInfo, Collar, CommandMode, Distribution,
    ExportData, InterfaceStatus, MemoryRegion, MqttStatus, Preset, PresetPreview,
    PresetPreviewEvent, PresetStep, PresetStepMode, PresetTrack, RemoteControlStatus, RfDebugFrame,
};
pub use crate::protocol::rf_codec::{decode_rf_frame, encode_rf_frame, MAX_CHANNEL, MAX_INTENSITY};
pub use crate::protocol::settings::{Chip, DeviceSettings, AP_SSID};
