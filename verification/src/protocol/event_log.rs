//! The log of what the device did.

use vstd::prelude::*;

use crate::protocol::model::{CommandMode, Preset, PresetView};

verus! {

/// Who asked for what happened.
#[derive(Debug, Clone, Copy, PartialEq, Eq, Structural)]
pub enum EventSource {
    LocalUi,
    RemoteControl,
    Mqtt,
    System,
}

#[derive(Debug, PartialEq, Eq)]
pub struct EventLogEntry {
    pub sequence: u64,
    pub monotonic_ms: u64,
    pub unix_ms: Option<u64>,
    pub source: EventSource,
    pub kind: EventLogEntryKind,
}

pub struct EventLogEntryView {
    pub sequence: u64,
    pub monotonic_ms: u64,
    pub unix_ms: Option<u64>,
    pub source: EventSource,
    pub kind: EventLogEntryKindView,
}

impl DeepView for EventLogEntry {
    type V = EventLogEntryView;

    open spec fn deep_view(&self) -> EventLogEntryView {
        EventLogEntryView {
            sequence: self.sequence,
            monotonic_ms: self.monotonic_ms,
            unix_ms: self.unix_ms,
            source: self.source,
            kind: self.kind.deep_view(),
        }
    }
}

impl Clone for EventLogEntry {
    fn clone(&self) -> (r: Self)
        ensures
            r.deep_view() == self.deep_view(),
    {
        EventLogEntry {
            sequence: self.sequence,
            monotonic_ms: self.monotonic_ms,
            unix_ms: self.unix_ms,
            source: self.source,
            kind: self.kind.clone(),
        }
    }
}

#[derive(Debug, PartialEq, Eq)]
pub enum EventLogEntryKind {
    Action { collar_name: String, mode: CommandMode, intensity: Option<u8>, duration_ms: u32 },
    PresetRun { preset_name: String, resolved_preset: Option<Preset> },
    NtpSync { server: String },
    RemoteControlConnection { connected: bool, url: String, reason: Option<String> },
}

pub enum EventLogEntryKindView {
    Action { collar_name: Seq<char>, mode: CommandMode, intensity: Option<u8>, duration_ms: u32 },
    PresetRun { preset_name: Seq<char>, resolved_preset: Option<PresetView> },
    NtpSync { server: Seq<char> },
    RemoteControlConnection { connected: bool, url: Seq<char>, reason: Option<Seq<char>> },
}

impl DeepView for EventLogEntryKind {
    type V = EventLogEntryKindView;

    open spec fn deep_view(&self) -> EventLogEntryKindView {
        match self {
            EventLogEntryKind::Action { collar_name, mode, intensity, duration_ms } => {
                EventLogEntryKindView::Action {
                    collar_name: collar_name@,
                    mode: *mode,
                    intensity: *intensity,
                    duration_ms: *duration_ms,
                }
            },
            EventLogEntryKind::PresetRun { preset_name, resolved_preset } => {
                EventLogEntryKindView::PresetRun {
                    preset_name: preset_name@,
                    resolved_preset: resolved_preset.deep_view(),
                }
            },
            EventLogEntryKind::NtpSync { server } => {
                EventLogEntryKindView::NtpSync { server: server@ }
            },
            EventLogEntryKind::RemoteControlConnection { connected, url, reason } => {
                EventLogEntryKindView::RemoteControlConnection {
                    connected: *connected,
                    url: url@,
                    reason: reason.deep_view(),
                }
            },
        }
    }
}

impl Clone for EventLogEntryKind {
    fn clone(&self) -> (r: Self)
        ensures
            r.deep_view() == self.deep_view(),
    {
        match self {
            EventLogEntryKind::Action { collar_name, mode, intensity, duration_ms } => {
                EventLogEntryKind::Action {
                    collar_name: collar_name.clone(),
                    mode: *mode,
                    intensity: *intensity,
                    duration_ms: *duration_ms,
                }
            },
            EventLogEntryKind::PresetRun { preset_name, resolved_preset } => {
                let resolved_preset = match resolved_preset {
                    Some(preset) => Some(preset.clone()),
                    None => None,
                };
                EventLogEntryKind::PresetRun { preset_name: preset_name.clone(), resolved_preset }
            },
            EventLogEntryKind::NtpSync { server } => {
                EventLogEntryKind::NtpSync { server: server.clone() }
            },
            EventLogEntryKind::RemoteControlConnection { connected, url, reason } => {
                let reason = match reason {
                    Some(text) => Some(text.clone()),
                    None => None,
                };
                EventLogEntryKind::RemoteControlConnection {
                    connected: *connected,
                    url: url.clone(),
                    reason,
                }
            },
        }
    }
}

} // verus!
