//! Who asks, what is under way, and what the parts of the device tell each other.

use vstd::prelude::*;

use crate::protocol::event_log::{EventLogEntryKind, EventSource};
use crate::protocol::model::{
    Collar, CommandMode, ExportData, MqttStatus, Preset, PresetPreview, RemoteControlStatus,
    RfDebugFrame,
};
use crate::protocol::settings::DeviceSettings;
use crate::scheduling::PresetEvent;
use crate::text::{same_text, text_before};

verus! {

/// Where a message comes from.
#[derive(Debug, Clone, Copy, PartialEq, Eq, Structural)]
pub enum MessageOrigin {
    LocalUi,
    RemoteControl,
    Mqtt,
}

/// Who started an action, so that it ends with the connection.
#[derive(Debug, Clone, Copy, PartialEq, Eq, Structural)]
pub enum ActionOwner {
    LocalWs(u32),
    RemoteControl,
    Mqtt,
}

/// Who a message from that origin is attributed to in the log.
pub open spec fn source_of(origin: MessageOrigin) -> EventSource {
    match origin {
        MessageOrigin::LocalUi => EventSource::LocalUi,
        MessageOrigin::RemoteControl => EventSource::RemoteControl,
        MessageOrigin::Mqtt => EventSource::Mqtt,
    }
}

/// Who a message from that origin is attributed to in the log.
pub fn event_source(origin: MessageOrigin) -> (r: EventSource)
    ensures
        r == source_of(origin),
{
    match origin {
        MessageOrigin::LocalUi => EventSource::LocalUi,
        MessageOrigin::RemoteControl => EventSource::RemoteControl,
        MessageOrigin::Mqtt => EventSource::Mqtt,
    }
}

/// What an action does, and to whom: one action of a kind runs on a collar at a time.
#[derive(Debug)]
pub struct ActionKey {
    pub collar_name: String,
    pub mode: CommandMode,
}

pub struct KeyView {
    pub collar_name: Seq<char>,
    pub mode: CommandMode,
}

impl View for ActionKey {
    type V = KeyView;

    open spec fn view(&self) -> KeyView {
        KeyView { collar_name: self.collar_name@, mode: self.mode }
    }
}

impl Clone for ActionKey {
    fn clone(&self) -> (r: Self)
        ensures
            r == *self,
    {
        ActionKey { collar_name: self.collar_name.clone(), mode: self.mode }
    }
}

impl ActionKey {
    pub fn same_as(&self, other: &Self) -> (r: bool)
        ensures
            r == (self@ == other@),
    {
        same_text(self.collar_name.as_str(), other.collar_name.as_str()) && self.mode == other.mode
    }
}

/// Whether a key comes before another: by the name of the collar, then by the number of the mode.
pub open spec fn key_less(a: KeyView, b: KeyView) -> bool {
    crate::text::text_less(a.collar_name, b.collar_name) || (a.collar_name == b.collar_name
        && a.mode.rf_byte() < b.mode.rf_byte())
}

/// Of two different keys exactly one comes first.
pub proof fn lemma_key_less_total(a: KeyView, b: KeyView)
    ensures
        key_less(a, b) ==> a != b && !key_less(b, a),
        a != b ==> key_less(a, b) || key_less(b, a),
{
    crate::text::lemma_text_less_total(a.collar_name, b.collar_name);
    crate::text::lemma_text_less_total(b.collar_name, a.collar_name);
}

/// The order of keys is transitive.
pub proof fn lemma_key_less_transitive(a: KeyView, b: KeyView, c: KeyView)
    requires
        key_less(a, b),
        key_less(b, c),
    ensures
        key_less(a, c),
{
    if crate::text::text_less(a.collar_name, b.collar_name) && crate::text::text_less(
        b.collar_name,
        c.collar_name,
    ) {
        crate::text::lemma_text_less_transitive(a.collar_name, b.collar_name, c.collar_name);
    }
}

/// Whether a key comes before another.
pub fn key_before(a: &ActionKey, b: &ActionKey) -> (r: bool)
    ensures
        r == key_less(a@, b@),
{
    text_before(a.collar_name.as_str(), b.collar_name.as_str()) || (same_text(
        a.collar_name.as_str(),
        b.collar_name.as_str(),
    ) && a.mode.to_rf_byte() < b.mode.to_rf_byte())
}

/// An action that is under way. Times are microseconds of the clock that counts from the start of
/// the device.
#[derive(Debug, Clone, Copy, PartialEq, Eq, Structural)]
pub struct ActiveActionHandle {
    pub owner: Option<ActionOwner>,
    pub cancel_on_disconnect: bool,
    pub collar_id: u16,
    pub channel: u8,
    pub mode_byte: u8,
    pub intensity: u8,
    pub deadline_us: Option<u64>,
    pub started_at_us: u64,
    pub source: EventSource,
}

/// What the worker that owns the transmitter is told.
#[derive(Debug)]
pub enum TransmissionCommand {
    UpsertAction { key: ActionKey, handle: ActiveActionHandle },
    CancelAction { key: ActionKey },
    CancelOwnedActions { owner: ActionOwner },
    CancelAllActions,
    StartPreset { preset_name: String, events: Vec<PresetEvent> },
    StopPreset,
    StopAll,
}

/// What the worker that owns the state of the device is told.
#[derive(Debug)]
pub enum AppCommand {
    AddCollar { collar: Collar },
    UpdateCollar { original_name: String, updated: Collar },
    DeleteCollar { name: String },
    SavePreset { original_name: Option<String>, preset: Preset },
    DeletePreset { name: String },
    ReorderPresets { names: Vec<String> },
    ImportData { data: ExportData },
    SaveDeviceSettings { settings: DeviceSettings },
    StartPresetExecution {
        preset_name: String,
        source: EventSource,
        resolved_preset: Option<Preset>,
        events: Vec<PresetEvent>,
    },
    StopPreset,
    StopAll,
    SetRemoteControlStatus { status: RemoteControlStatus },
    SetMqttStatus { status: MqttStatus },
    RecordEvent { source: EventSource, kind: EventLogEntryKind },
    PushRfDebugEvent { event: RfDebugFrame },
    ClearRfDebugEvents { listening: bool },
    CompletePreset { preset_name: String },
}

/// What a client is answered, beside errors.
#[derive(Debug)]
pub enum Reply {
    Pong { nonce: u32 },
    DeviceSettings { settings: DeviceSettings, reboot_required: bool },
    NetworkStatus { settings: DeviceSettings },
    PresetPreview { nonce: u32, preview: Option<PresetPreview>, error: Option<String> },
    ExportData { data: ExportData },
    RfDebugState { listening: bool },
}

/// A message is logged under the way on which it came.
pub proof fn lemma_messages_are_attributed(origin: MessageOrigin)
    ensures
        source_of(origin) == EventSource::LocalUi <==> origin == MessageOrigin::LocalUi,
        source_of(origin) == EventSource::RemoteControl <==> origin == MessageOrigin::RemoteControl,
        source_of(origin) == EventSource::Mqtt <==> origin == MessageOrigin::Mqtt,
{
}

} // verus!
