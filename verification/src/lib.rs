//! Logic of a controller for 433 MHz training collars.

pub mod clients;
pub mod control;
pub mod device_id;
pub mod error;
pub mod events;
pub mod http;
pub mod local_session;
pub mod mqtt;
pub mod net;
pub mod ota;
pub mod preview;
pub mod protocol;
pub mod quality;
pub mod random;
pub mod remote_session;
pub mod remote_url;
pub mod repository;
pub mod rf;
pub mod rf_timing;
pub mod scheduling;
pub mod services;
pub mod session;
pub mod startup;
pub mod state;
pub mod status;
pub mod text;
pub mod time_sync;
pub mod transmission;
pub mod validation;
pub mod wifi;
pub mod worker;
