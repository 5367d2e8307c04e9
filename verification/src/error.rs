//! What can go wrong, and how it is told.

use vstd::prelude::*;

use crate::repository::RepositoryError;
use crate::text::{push_decimal, push_text};

verus! {

/// Why a command of a client was not carried out.
#[derive(Debug)]
pub enum ControlError {
    Validation(String),
    DuplicateCollar(String),
    UnknownCollar(String),
    CollarReferencedByPreset(String),
    UnknownPreset(String),
    DuplicatePreset(String),
    Persistence { operation: &'static str, source: RepositoryError },
    LocalUiOnly { operation: &'static str },
    TransmissionLockout,
    InvalidIntensity { intensity: u8, max: u8 },
    ActionDurationZero,
    HeldActionRequiresOwner,
    EmptyNtpServer,
    RemoteControlUrl(String),
}

pub enum ControlErrorView {
    Validation(Seq<char>),
    DuplicateCollar(Seq<char>),
    UnknownCollar(Seq<char>),
    CollarReferencedByPreset(Seq<char>),
    UnknownPreset(Seq<char>),
    DuplicatePreset(Seq<char>),
    Persistence { operation: Seq<char>, source: Seq<char> },
    LocalUiOnly { operation: Seq<char> },
    TransmissionLockout,
    InvalidIntensity { intensity: u8, max: u8 },
    ActionDurationZero,
    HeldActionRequiresOwner,
    EmptyNtpServer,
    RemoteControlUrl(Seq<char>),
}

impl DeepView for ControlError {
    type V = ControlErrorView;

    open spec fn deep_view(&self) -> ControlErrorView {
        match self {
            ControlError::Validation(s) => ControlErrorView::Validation(s@),
            ControlError::DuplicateCollar(s) => ControlErrorView::DuplicateCollar(s@),
            ControlError::UnknownCollar(s) => ControlErrorView::UnknownCollar(s@),
            ControlError::CollarReferencedByPreset(s) => ControlErrorView::CollarReferencedByPreset(s@),
            ControlError::UnknownPreset(s) => ControlErrorView::UnknownPreset(s@),
            ControlError::DuplicatePreset(s) => ControlErrorView::DuplicatePreset(s@),
            ControlError::Persistence { operation, source } => ControlErrorView::Persistence {
                operation: operation@,
                source: source.message@,
            },
            ControlError::LocalUiOnly { operation } => ControlErrorView::LocalUiOnly {
                operation: operation@,
            },
            ControlError::TransmissionLockout => ControlErrorView::TransmissionLockout,
            ControlError::InvalidIntensity { intensity, max } => {
                ControlErrorView::InvalidIntensity { intensity: *intensity, max: *max }
            },
            ControlError::ActionDurationZero => ControlErrorView::ActionDurationZero,
            ControlError::HeldActionRequiresOwner => ControlErrorView::HeldActionRequiresOwner,
            ControlError::EmptyNtpServer => ControlErrorView::EmptyNtpServer,
            ControlError::RemoteControlUrl(s) => ControlErrorView::RemoteControlUrl(s@),
        }
    }
}

impl ControlErrorView {
    /// The error in words.
    pub open spec fn message(self) -> Seq<char> {
        match self {
            ControlErrorView::Validation(s) => s,
            ControlErrorView::DuplicateCollar(s) => "Duplicate collar: "@ + s,
            ControlErrorView::UnknownCollar(s) => "Unknown collar: "@ + s,
            ControlErrorView::CollarReferencedByPreset(s) => "Collar is used by a preset: "@ + s,
            ControlErrorView::UnknownPreset(s) => "Unknown preset: "@ + s,
            ControlErrorView::DuplicatePreset(s) => "Duplicate preset: "@ + s,
            ControlErrorView::Persistence { operation, source } => "Failed to "@ + operation + ": "@
                + source,
            ControlErrorView::LocalUiOnly { operation } => operation
                + " is only available from the local UI"@,
            ControlErrorView::TransmissionLockout => "RF transmissions are locked out after STOP"@,
            ControlErrorView::InvalidIntensity { intensity, max } => "Invalid intensity "@
                + crate::text::decimal(intensity as nat) + " (maximum "@ + crate::text::decimal(
                max as nat,
            ) + ")"@,
            ControlErrorView::ActionDurationZero => "Action duration must be greater than zero"@,
            ControlErrorView::HeldActionRequiresOwner => "Held actions require a connection"@,
            ControlErrorView::EmptyNtpServer => "NTP server cannot be empty"@,
            ControlErrorView::RemoteControlUrl(s) => s,
        }
    }
}

/// `prefix` and `rest` in one text.
fn labelled(prefix: &str, rest: &str) -> (r: String)
    ensures
        r@ == prefix@ + rest@,
{
    let mut s = prefix.to_owned();
    push_text(&mut s, rest);
    s
}

impl ControlError {
    /// The error in words.
    pub fn message(&self) -> (r: String)
        ensures
            r@ == self.deep_view().message(),
    {
        match self {
            ControlError::Validation(s) => s.clone(),
            ControlError::DuplicateCollar(s) => labelled("Duplicate collar: ", s.as_str()),
            ControlError::UnknownCollar(s) => labelled("Unknown collar: ", s.as_str()),
            ControlError::CollarReferencedByPreset(s) => labelled(
                "Collar is used by a preset: ",
                s.as_str(),
            ),
            ControlError::UnknownPreset(s) => labelled("Unknown preset: ", s.as_str()),
            ControlError::DuplicatePreset(s) => labelled("Duplicate preset: ", s.as_str()),
            ControlError::Persistence { operation, source } => {
                let mut s = labelled("Failed to ", operation);
                push_text(&mut s, ": ");
                push_text(&mut s, source.message.as_str());
                s
            },
            ControlError::LocalUiOnly { operation } => labelled(
                operation,
                " is only available from the local UI",
            ),
            ControlError::TransmissionLockout => {
                "RF transmissions are locked out after STOP".to_owned()
            },
            ControlError::InvalidIntensity { intensity, max } => {
                let mut s = "Invalid intensity ".to_owned();
                push_decimal(&mut s, *intensity as u64);
                push_text(&mut s, " (maximum ");
                push_decimal(&mut s, *max as u64);
                push_text(&mut s, ")");
                s
            },
            ControlError::ActionDurationZero => {
                "Action duration must be greater than zero".to_owned()
            },
            ControlError::HeldActionRequiresOwner => "Held actions require a connection".to_owned(),
            ControlError::EmptyNtpServer => "NTP server cannot be empty".to_owned(),
            ControlError::RemoteControlUrl(s) => s.clone(),
        }
    }
}

/// Why a connection to the remote control server ended.
#[derive(Debug)]
pub enum RemoteControlError {
    Connect(String),
    Disconnected(String),
    WebSocketSend(String),
    ConnectTimeout { timeout_ms: u64 },
    PingTimeout { nonce: u32, phase: &'static str },
    EventChannelClosed,
}

pub enum RemoteControlErrorView {
    Connect(Seq<char>),
    Disconnected(Seq<char>),
    WebSocketSend(Seq<char>),
    ConnectTimeout { timeout_ms: u64 },
    PingTimeout { nonce: u32, phase: Seq<char> },
    EventChannelClosed,
}

impl DeepView for RemoteControlError {
    type V = RemoteControlErrorView;

    open spec fn deep_view(&self) -> RemoteControlErrorView {
        match self {
            RemoteControlError::Connect(s) => RemoteControlErrorView::Connect(s@),
            RemoteControlError::Disconnected(s) => RemoteControlErrorView::Disconnected(s@),
            RemoteControlError::WebSocketSend(s) => RemoteControlErrorView::WebSocketSend(s@),
            RemoteControlError::ConnectTimeout { timeout_ms } => {
                RemoteControlErrorView::ConnectTimeout { timeout_ms: *timeout_ms }
            },
            RemoteControlError::PingTimeout { nonce, phase } => {
                RemoteControlErrorView::PingTimeout { nonce: *nonce, phase: phase@ }
            },
            RemoteControlError::EventChannelClosed => RemoteControlErrorView::EventChannelClosed,
        }
    }
}

impl RemoteControlErrorView {
    /// The error in words.
    pub open spec fn message(self) -> Seq<char> {
        match self {
            RemoteControlErrorView::Connect(s) => "Connect failed: "@ + s,
            RemoteControlErrorView::Disconnected(s) => s,
            RemoteControlErrorView::WebSocketSend(s) => "WebSocket send failed: "@ + s,
            RemoteControlErrorView::ConnectTimeout { timeout_ms } => "Connect timeout after "@
                + crate::text::decimal(timeout_ms as nat) + "ms"@,
            RemoteControlErrorView::PingTimeout { nonce, phase } => phase
                + " ping timeout for nonce "@ + crate::text::decimal(nonce as nat),
            RemoteControlErrorView::EventChannelClosed => "Remote control event channel closed"@,
        }
    }
}

impl RemoteControlError {
    /// The error in words.
    pub fn message(&self) -> (r: String)
        ensures
            r@ == self.deep_view().message(),
    {
        match self {
            RemoteControlError::Connect(s) => labelled("Connect failed: ", s.as_str()),
            RemoteControlError::Disconnected(s) => s.clone(),
            RemoteControlError::WebSocketSend(s) => labelled("WebSocket send failed: ", s.as_str()),
            RemoteControlError::ConnectTimeout { timeout_ms } => {
                let mut s = "Connect timeout after ".to_owned();
                push_decimal(&mut s, *timeout_ms);
                push_text(&mut s, "ms");
                s
            },
            RemoteControlError::PingTimeout { nonce, phase } => {
                let mut s = labelled(phase, " ping timeout for nonce ");
                push_decimal(&mut s, *nonce as u64);
                s
            },
            RemoteControlError::EventChannelClosed => {
                "Remote control event channel closed".to_owned()
            },
        }
    }
}

/// An error says what is wrong and names what it is about: the collar or preset by its name, a
/// failure by its cause.
pub proof fn lemma_errors_name_their_cause(s: Seq<char>, operation: Seq<char>, a: u8, b: u8)
    ensures
        ControlErrorView::Validation(s).message() == s,
        ControlErrorView::RemoteControlUrl(s).message() == s,
        ControlErrorView::DuplicateCollar(s).message() == "Duplicate collar: "@ + s,
        ControlErrorView::UnknownCollar(s).message() == "Unknown collar: "@ + s,
        ControlErrorView::CollarReferencedByPreset(s).message() == "Collar is used by a preset: "@
            + s,
        ControlErrorView::UnknownPreset(s).message() == "Unknown preset: "@ + s,
        ControlErrorView::DuplicatePreset(s).message() == "Duplicate preset: "@ + s,
        (ControlErrorView::Persistence { operation, source: s }).message() == "Failed to "@
            + operation + ": "@ + s,
        (ControlErrorView::LocalUiOnly { operation }).message() == operation
            + " is only available from the local UI"@,
        ControlErrorView::TransmissionLockout.message()
            == "RF transmissions are locked out after STOP"@,
        (ControlErrorView::InvalidIntensity { intensity: a, max: b }).message()
            == "Invalid intensity "@ + crate::text::decimal(a as nat) + " (maximum "@
            + crate::text::decimal(b as nat) + ")"@,
        ControlErrorView::ActionDurationZero.message()
            == "Action duration must be greater than zero"@,
        ControlErrorView::HeldActionRequiresOwner.message() == "Held actions require a connection"@,
        ControlErrorView::EmptyNtpServer.message() == "NTP server cannot be empty"@,
{
}

/// An error on the link to the remote control server says what failed and why.
pub proof fn lemma_link_errors_name_their_cause(s: Seq<char>, timeout_ms: u64, nonce: u32)
    ensures
        RemoteControlErrorView::Connect(s).message() == "Connect failed: "@ + s,
        RemoteControlErrorView::Disconnected(s).message() == s,
        RemoteControlErrorView::WebSocketSend(s).message() == "WebSocket send failed: "@ + s,
        (RemoteControlErrorView::ConnectTimeout { timeout_ms }).message()
            == "Connect timeout after "@ + crate::text::decimal(timeout_ms as nat) + "ms"@,
        (RemoteControlErrorView::PingTimeout { nonce, phase: s }).message() == s
            + " ping timeout for nonce "@ + crate::text::decimal(nonce as nat),
        RemoteControlErrorView::EventChannelClosed.message()
            == "Remote control event channel closed"@,
{
}

} // verus!
