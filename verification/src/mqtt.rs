//! The link to an MQTT broker, for Home Assistant.

pub mod incoming;
pub mod session;
pub mod slug;
pub mod state;
pub mod texts;
