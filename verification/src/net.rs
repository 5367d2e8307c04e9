//! Which network a board comes up with.

use vstd::prelude::*;

use crate::protocol::settings::{DeviceSettings, DeviceSettingsView};
use crate::wifi::{sta_will_connect, PollAction, WifiController};

verus! {

/// How long a board that has only Ethernet waits for an address.
pub const ETHERNET_TIMEOUT_US: u64 = 30_000_000;

/// How long it sleeps between two looks.
pub const ADDRESS_POLL_MS: u64 = 250;

/// The boards, by what they can connect with.
#[derive(Debug, Clone, Copy, PartialEq, Eq, Structural)]
pub enum Board {
    /// WiFi, and in an emulator a virtual Ethernet.
    Esp32,
    /// Ethernet only.
    P4Ethernet,
    /// Ethernet, and WiFi through a second chip.
    P4Wifi,
    /// WiFi only.
    WifiOnly,
}

/// Whether a hardware address is that of an emulator: its first three bytes are zero.
pub open spec fn emulated(mac: Option<[u8; 6]>) -> bool {
    match mac {
        Some(mac) => mac@[0] == 0 && mac@[1] == 0 && mac@[2] == 0,
        None => false,
    }
}

/// Returns true if running in QEMU. A hardware address that cannot be read is none of QEMU's.
pub fn is_qemu(mac: Option<[u8; 6]>) -> (r: bool)
    ensures
        r == emulated(mac),
{
    match mac {
        Some(mac) => mac[0] == 0 && mac[1] == 0 && mac[2] == 0,
        None => false,
    }
}

/// Whether the access point has to be forced on: the device joins no network and the settings
/// leave the access point off.
pub open spec fn must_force_ap(s: DeviceSettingsView) -> bool {
    !crate::wifi::will_connect(s) && !s.ap_enabled
}

/// What a board starts.
#[derive(Debug, Clone, Copy, PartialEq, Eq, Structural)]
#[allow(inconsistent_fields)]
pub enum NetworkPlan {
    /// The virtual Ethernet of the emulator.
    QemuEthernet,
    /// Nothing.
    Offline,
    /// Ethernet, and then wait for an address.
    Ethernet,
    Wifi { force_ap: bool },
    EthernetAndWifi { force_ap: bool },
}

/// What a board starts with these settings.
pub open spec fn network_planned(
    board: Board,
    emulated: bool,
    s: DeviceSettingsView,
) -> NetworkPlan {
    match board {
        Board::Esp32 => if emulated {
            NetworkPlan::QemuEthernet
        } else {
            NetworkPlan::Wifi { force_ap: must_force_ap(s) }
        },
        Board::P4Ethernet => NetworkPlan::Ethernet,
        Board::P4Wifi => NetworkPlan::EthernetAndWifi { force_ap: must_force_ap(s) },
        Board::WifiOnly => if emulated {
            NetworkPlan::Offline
        } else {
            NetworkPlan::Wifi { force_ap: must_force_ap(s) }
        },
    }
}

/// Plans what a board starts.
pub fn plan_network(
    board: Board,
    mac: Option<[u8; 6]>,
    settings: &DeviceSettings,
) -> (r: NetworkPlan)
    ensures
        r == network_planned(board, emulated(mac), settings.deep_view()),
{
    let force_ap = !sta_will_connect(settings) && !settings.ap_enabled;
    match board {
        Board::Esp32 => if is_qemu(mac) {
            NetworkPlan::QemuEthernet
        } else {
            NetworkPlan::Wifi { force_ap }
        },
        Board::P4Ethernet => NetworkPlan::Ethernet,
        Board::P4Wifi => NetworkPlan::EthernetAndWifi { force_ap },
        Board::WifiOnly => if is_qemu(mac) {
            NetworkPlan::Offline
        } else {
            NetworkPlan::Wifi { force_ap }
        },
    }
}

/// How waiting for an address goes on.
#[derive(Debug, Clone, Copy, PartialEq, Eq, Structural)]
pub enum AddressWait {
    Obtained,
    TimedOut,
    LookAgain,
}

/// Looks for an address.
pub fn wait_netif_ip(addr: Option<u32>, elapsed_us: u64, timeout_us: u64) -> (r: AddressWait)
    ensures
        r == if addr is Some && addr->0 != 0 {
            AddressWait::Obtained
        } else if elapsed_us > timeout_us {
            AddressWait::TimedOut
        } else {
            AddressWait::LookAgain
        },
{
    match addr {
        Some(a) => if a != 0 {
            return AddressWait::Obtained;
        },
        None => {},
    }
    if elapsed_us > timeout_us {
        AddressWait::TimedOut
    } else {
        AddressWait::LookAgain
    }
}

/// Whether a board with Ethernet and WiFi needs its access point after all: neither gave it an
/// address, and no access point runs.
pub open spec fn unreachable_so_far(
    s: DeviceSettingsView,
    force_ap: bool,
    ethernet_has_ip: bool,
    wifi_has_ip: bool,
) -> bool {
    !ethernet_has_ip && !wifi_has_ip && !(s.ap_enabled || force_ap)
}

/// Decides whether the access point is forced on after the first tries.
pub fn needs_emergency_ap(
    settings: &DeviceSettings,
    force_ap: bool,
    ethernet_has_ip: bool,
    wifi_has_ip: bool,
) -> (r: bool)
    ensures
        r == unreachable_so_far(settings.deep_view(), force_ap, ethernet_has_ip, wifi_has_ip),
{
    let ap_running = settings.ap_enabled || force_ap;
    !ethernet_has_ip && !wifi_has_ip && !ap_running
}

/// The network that a board came up with.
#[derive(Debug)]
pub enum NetworkHandle {
    Wifi(WifiController),
    Eth,
    Offline,
}

/// What a poll of the network asks for, and how it stands after it.
pub open spec fn network_polled(
    h: NetworkHandle,
    after: NetworkHandle,
    now_us: u64,
    connected: Option<bool>,
    action: PollAction,
) -> bool {
    match (h, after) {
        (NetworkHandle::Wifi(wifi), NetworkHandle::Wifi(wifi_after)) => {
            (wifi_after.deep_view(), action) == crate::wifi::polled(
                wifi.deep_view(),
                now_us,
                connected,
            )
        },
        (NetworkHandle::Eth, NetworkHandle::Eth) => action == PollAction::Rest,
        (NetworkHandle::Offline, NetworkHandle::Offline) => action == PollAction::Rest,
        _ => false,
    }
}

impl NetworkHandle {
    /// A WiFi connection is in a state that its methods leave it in.
    pub open spec fn wf(self) -> bool {
        match self {
            NetworkHandle::Wifi(wifi) => wifi.deep_view().wf(),
            _ => true,
        }
    }

    pub fn poll(&mut self, now_us: u64, connected: Option<bool>) -> (r: PollAction)
        requires
            old(self).wf(),
            now_us + crate::wifi::WIFI_RECONNECT_MAX_DELAY_MS * 1000 <= u64::MAX,
        ensures
            final(self).wf(),
            network_polled(*old(self), *final(self), now_us, connected, r),
    {
        match self {
            NetworkHandle::Wifi(wifi) => wifi.poll(now_us, connected),
            _ => PollAction::Rest,
        }
    }

    pub fn supports_time_sync(&self) -> (r: bool)
        ensures
            r == !(self is Offline),
    {
        match self {
            NetworkHandle::Wifi(_) => true,
            NetworkHandle::Eth => true,
            NetworkHandle::Offline => false,
        }
    }
}

/// The device can be reached: wherever WiFi is started, it joins a network or runs an access
/// point; and where Ethernet and WiFi both gave no address, an access point runs.
pub proof fn lemma_device_can_be_reached(
    board: Board,
    emulated: bool,
    s: DeviceSettingsView,
    ethernet_has_ip: bool,
    wifi_has_ip: bool,
)
    ensures
        ({
            let plan = network_planned(board, emulated, s);
            &&& plan is Wifi ==> crate::wifi::will_connect(s) || s.ap_enabled
                || plan->Wifi_force_ap
            &&& plan is EthernetAndWifi ==> {
                ||| ethernet_has_ip
                ||| wifi_has_ip
                ||| s.ap_enabled
                ||| plan->EthernetAndWifi_force_ap
                ||| unreachable_so_far(
                    s,
                    plan->EthernetAndWifi_force_ap,
                    ethernet_has_ip,
                    wifi_has_ip,
                )
            }
        }),
{
}

/// The access point is never forced on where the settings already give a way to the device.
pub proof fn lemma_ap_is_forced_only_in_need(board: Board, emulated: bool, s: DeviceSettingsView)
    requires
        s.ap_enabled || crate::wifi::will_connect(s),
    ensures
        ({
            let plan = network_planned(board, emulated, s);
            &&& plan is Wifi ==> !plan->Wifi_force_ap
            &&& plan is EthernetAndWifi ==> !plan->EthernetAndWifi_force_ap
        }),
{
}

/// What each board starts: Ethernet wherever it has it, WiFi wherever it has it and does not run
/// in an emulator, which gives the plain board an Ethernet of its own and the others none.
pub proof fn lemma_what_a_board_starts(board: Board, emulated: bool, s: DeviceSettingsView)
    ensures
        ({
            let plan = network_planned(board, emulated, s);
            let joins = s.wifi_client_enabled && s.wifi_ssid.len() > 0;
            let forced = !joins && !s.ap_enabled;
            &&& board == Board::Esp32 && emulated ==> plan == NetworkPlan::QemuEthernet
            &&& board == Board::WifiOnly && emulated ==> plan == NetworkPlan::Offline
            &&& (board == Board::Esp32 || board == Board::WifiOnly) && !emulated ==> plan == (
            NetworkPlan::Wifi { force_ap: forced })
            &&& board == Board::P4Ethernet ==> plan == NetworkPlan::Ethernet
            &&& board == Board::P4Wifi ==> plan == (NetworkPlan::EthernetAndWifi {
                force_ap: forced,
            })
        }),
{
}

/// An emulator is known by three leading zero bytes; an address that cannot be read is none of
/// its.
pub proof fn lemma_emulator(mac: Option<[u8; 6]>)
    ensures
        emulated(mac) <==> mac is Some && forall|i: int| 0 <= i < 3 ==> #[trigger] mac->0@[i] == 0,
{
    if mac is Some && (forall|i: int| 0 <= i < 3 ==> #[trigger] mac->0@[i] == 0) {
        assert(mac->0@[0] == 0 && mac->0@[1] == 0 && mac->0@[2] == 0);
    }
}

/// The access point is forced on after the first tries exactly where nothing else leads to the
/// device: no address by cable, none by WiFi, and no access point yet.
pub proof fn lemma_emergency(
    s: DeviceSettingsView,
    force_ap: bool,
    ethernet_has_ip: bool,
    wifi_has_ip: bool,
)
    ensures
        !unreachable_so_far(s, force_ap, ethernet_has_ip, wifi_has_ip) <==> {
            ||| ethernet_has_ip
            ||| wifi_has_ip
            ||| s.ap_enabled
            ||| force_ap
        },
{
}

} // verus!
