//! The settings of the device.

use vstd::prelude::*;

verus! {

/// The name of the access point that the device opens.
pub const AP_SSID: &'static str = "rfcollars";

/// The chips that the firmware runs on, as far as their pins differ: the plain ESP32 stands for
/// every chip that has no pins of its own.
#[derive(Debug, Clone, Copy, PartialEq, Eq, Structural)]
pub enum Chip {
    Esp32,
    Esp32C6,
    Esp32P4,
}

#[derive(Debug, PartialEq)]
pub struct DeviceSettings {
    pub device_id: String,
    pub tx_led_pin: u8,
    pub rx_led_pin: u8,
    pub rf_tx_pin: u8,
    pub rf_rx_pin: u8,
    pub wifi_client_enabled: bool,
    pub wifi_ssid: String,
    pub wifi_password: String,
    pub ap_enabled: bool,
    pub ap_password: String,
    pub max_clients: u8,
    pub ntp_enabled: bool,
    pub ntp_server: String,
    pub remote_control_enabled: bool,
    pub remote_control_url: String,
    pub remote_control_validate_cert: bool,
    pub record_event_log: bool,
    pub mqtt_enabled: bool,
    pub mqtt_server: String,
    pub mqtt_port: u16,
    pub mqtt_username: String,
    pub mqtt_password: String,
}

pub struct DeviceSettingsView {
    pub device_id: Seq<char>,
    pub tx_led_pin: u8,
    pub rx_led_pin: u8,
    pub rf_tx_pin: u8,
    pub rf_rx_pin: u8,
    pub wifi_client_enabled: bool,
    pub wifi_ssid: Seq<char>,
    pub wifi_password: Seq<char>,
    pub ap_enabled: bool,
    pub ap_password: Seq<char>,
    pub max_clients: u8,
    pub ntp_enabled: bool,
    pub ntp_server: Seq<char>,
    pub remote_control_enabled: bool,
    pub remote_control_url: Seq<char>,
    pub remote_control_validate_cert: bool,
    pub record_event_log: bool,
    pub mqtt_enabled: bool,
    pub mqtt_server: Seq<char>,
    pub mqtt_port: u16,
    pub mqtt_username: Seq<char>,
    pub mqtt_password: Seq<char>,
}

impl DeepView for DeviceSettings {
    type V = DeviceSettingsView;

    open spec fn deep_view(&self) -> DeviceSettingsView {
        DeviceSettingsView {
            device_id: self.device_id@,
            tx_led_pin: self.tx_led_pin,
            rx_led_pin: self.rx_led_pin,
            rf_tx_pin: self.rf_tx_pin,
            rf_rx_pin: self.rf_rx_pin,
            wifi_client_enabled: self.wifi_client_enabled,
            wifi_ssid: self.wifi_ssid@,
            wifi_password: self.wifi_password@,
            ap_enabled: self.ap_enabled,
            ap_password: self.ap_password@,
            max_clients: self.max_clients,
            ntp_enabled: self.ntp_enabled,
            ntp_server: self.ntp_server@,
            remote_control_enabled: self.remote_control_enabled,
            remote_control_url: self.remote_control_url@,
            remote_control_validate_cert: self.remote_control_validate_cert,
            record_event_log: self.record_event_log,
            mqtt_enabled: self.mqtt_enabled,
            mqtt_server: self.mqtt_server@,
            mqtt_port: self.mqtt_port,
            mqtt_username: self.mqtt_username@,
            mqtt_password: self.mqtt_password@,
        }
    }
}

impl Clone for DeviceSettings {
    fn clone(&self) -> (r: Self)
        ensures
            r == *self,
    {
        DeviceSettings {
            device_id: self.device_id.clone(),
            tx_led_pin: self.tx_led_pin,
            rx_led_pin: self.rx_led_pin,
            rf_tx_pin: self.rf_tx_pin,
            rf_rx_pin: self.rf_rx_pin,
            wifi_client_enabled: self.wifi_client_enabled,
            wifi_ssid: self.wifi_ssid.clone(),
            wifi_password: self.wifi_password.clone(),
            ap_enabled: self.ap_enabled,
            ap_password: self.ap_password.clone(),
            max_clients: self.max_clients,
            ntp_enabled: self.ntp_enabled,
            ntp_server: self.ntp_server.clone(),
            remote_control_enabled: self.remote_control_enabled,
            remote_control_url: self.remote_control_url.clone(),
            remote_control_validate_cert: self.remote_control_validate_cert,
            record_event_log: self.record_event_log,
            mqtt_enabled: self.mqtt_enabled,
            mqtt_server: self.mqtt_server.clone(),
            mqtt_port: self.mqtt_port,
            mqtt_username: self.mqtt_username.clone(),
            mqtt_password: self.mqtt_password.clone(),
        }
    }
}

/// The pins that a chip is wired to: transmit LED, receive LED, transmitter, receiver.
pub open spec fn chip_pins(chip: Chip) -> (u8, u8, u8, u8) {
    match chip {
        Chip::Esp32C6 => (8, 8, 10, 11),
        Chip::Esp32P4 => (33, 8, 23, 5),
        Chip::Esp32 => (2, 2, 16, 15),
    }
}

/// The settings that a device on the given chip starts with.
pub open spec fn factory_settings(chip: Chip) -> DeviceSettingsView {
    let pins = chip_pins(chip);
    DeviceSettingsView {
        device_id: Seq::empty(),
        tx_led_pin: pins.0,
        rx_led_pin: pins.1,
        rf_tx_pin: pins.2,
        rf_rx_pin: pins.3,
        wifi_client_enabled: true,
        wifi_ssid: Seq::empty(),
        wifi_password: Seq::empty(),
        ap_enabled: true,
        ap_password: "rfcollars"@,
        max_clients: 8,
        ntp_enabled: true,
        ntp_server: "pool.ntp.org"@,
        remote_control_enabled: false,
        remote_control_url: Seq::empty(),
        remote_control_validate_cert: true,
        record_event_log: false,
        mqtt_enabled: false,
        mqtt_server: Seq::empty(),
        mqtt_port: 1883,
        mqtt_username: Seq::empty(),
        mqtt_password: Seq::empty(),
    }
}

pub fn default_true() -> (r: bool)
    ensures
        r,
{
    true
}

pub fn default_ap_password() -> (r: String)
    ensures
        r@ == "rfcollars"@,
{
    "rfcollars".to_owned()
}

pub fn default_max_clients() -> (r: u8)
    ensures
        r == 8,
{
    8
}

pub fn default_ntp_server() -> (r: String)
    ensures
        r@ == "pool.ntp.org"@,
{
    "pool.ntp.org".to_owned()
}

/// The port that MQTT brokers listen on.
pub fn default_mqtt_port() -> (r: u16)
    ensures
        r == 1883,
{
    1883
}

/// The pin of the receiver's light on a chip.
pub fn default_rx_led_pin(chip: Chip) -> (r: u8)
    ensures
        r == chip_pins(chip).1,
{
    DeviceSettings::default_pins(chip).1
}

impl DeviceSettings {
    /// The pins that a chip is wired to.
    pub fn default_pins(chip: Chip) -> (r: (u8, u8, u8, u8))
        ensures
            r == chip_pins(chip),
    {
        match chip {
            Chip::Esp32C6 => (8, 8, 10, 11),
            Chip::Esp32P4 => (33, 8, 23, 5),
            Chip::Esp32 => (2, 2, 16, 15),
        }
    }

    /// The settings that a device on the given chip starts with.
    pub fn default(chip: Chip) -> (r: Self)
        ensures
            r.deep_view() == factory_settings(chip),
    {
        let pins = DeviceSettings::default_pins(chip);
        DeviceSettings {
            device_id: String::new(),
            tx_led_pin: pins.0,
            rx_led_pin: pins.1,
            rf_tx_pin: pins.2,
            rf_rx_pin: pins.3,
            wifi_client_enabled: true,
            wifi_ssid: String::new(),
            wifi_password: String::new(),
            ap_enabled: true,
            ap_password: default_ap_password(),
            max_clients: default_max_clients(),
            ntp_enabled: true,
            ntp_server: default_ntp_server(),
            remote_control_enabled: false,
            remote_control_url: String::new(),
            remote_control_validate_cert: true,
            record_event_log: false,
            mqtt_enabled: false,
            mqtt_server: String::new(),
            mqtt_port: default_mqtt_port(),
            mqtt_username: String::new(),
            mqtt_password: String::new(),
        }
    }
}

/// A new device opens a network of its own and joins none, is reached by no server, records
/// nothing, and uses the pins that its chip is wired to.
pub proof fn lemma_new_device(chip: Chip)
    ensures
        ({
            let s = factory_settings(chip);
            &&& s.device_id.len() == 0
            &&& s.ap_enabled
            &&& s.ap_password == "rfcollars"@
            &&& s.wifi_client_enabled
            &&& s.wifi_ssid.len() == 0
            &&& s.wifi_password.len() == 0
            &&& s.max_clients == 8
            &&& s.ntp_enabled
            &&& s.ntp_server == "pool.ntp.org"@
            &&& !s.remote_control_enabled
            &&& s.remote_control_url.len() == 0
            &&& s.remote_control_validate_cert
            &&& !s.record_event_log
            &&& !s.mqtt_enabled
            &&& s.mqtt_server.len() == 0
            &&& s.mqtt_port == 1883
            &&& s.mqtt_username.len() == 0
            &&& s.mqtt_password.len() == 0
            &&& chip == Chip::Esp32C6 ==> s.tx_led_pin == 8 && s.rx_led_pin == 8 && s.rf_tx_pin
                == 10 && s.rf_rx_pin == 11
            &&& chip == Chip::Esp32P4 ==> s.tx_led_pin == 33 && s.rx_led_pin == 8 && s.rf_tx_pin
                == 23 && s.rf_rx_pin == 5
            &&& chip == Chip::Esp32 ==> s.tx_led_pin == 2 && s.rx_led_pin == 2 && s.rf_tx_pin
                == 16 && s.rf_rx_pin == 15
        }),
{
}

} // verus!
