//! How the device's network and memory stand.

use vstd::prelude::*;

use crate::protocol::messages::ServerMessage;
use crate::protocol::model::{ApClientInfo, ApStatus, InterfaceStatus, MemoryRegion};
use crate::protocol::settings::{DeviceSettings, DeviceSettingsView};
use crate::text::{push_decimal, push_hex, push_text};

verus! {

// ----- Addresses -----

/// The six bytes of a hardware address in hexadecimal, with colons between them.
pub open spec fn mac_text(mac: Seq<u8>) -> Seq<char> {
    crate::text::hex(mac[0]) + ":"@ + crate::text::hex(mac[1]) + ":"@ + crate::text::hex(mac[2])
        + ":"@ + crate::text::hex(mac[3]) + ":"@ + crate::text::hex(mac[4]) + ":"@
        + crate::text::hex(mac[5])
}

pub fn format_mac(mac: &[u8; 6]) -> (r: String)
    ensures
        r@ == mac_text(mac@),
{
    let mut s = String::new();
    push_hex(&mut s, mac[0]);
    assert(Seq::<char>::empty() + crate::text::hex(mac@[0]) =~= crate::text::hex(mac@[0]));
    push_text(&mut s, ":");
    push_hex(&mut s, mac[1]);
    push_text(&mut s, ":");
    push_hex(&mut s, mac[2]);
    push_text(&mut s, ":");
    push_hex(&mut s, mac[3]);
    push_text(&mut s, ":");
    push_hex(&mut s, mac[4]);
    push_text(&mut s, ":");
    push_hex(&mut s, mac[5]);
    s
}

/// The four bytes of a network address in decimal, the lowest first, with dots between them.
pub open spec fn ip_text(addr: u32) -> Seq<char> {
    crate::text::decimal((addr % 256) as nat) + "."@ + crate::text::decimal(
        (addr / 256 % 256) as nat,
    ) + "."@ + crate::text::decimal((addr / 65536 % 256) as nat) + "."@ + crate::text::decimal(
        (addr / 16777216) as nat,
    )
}

pub fn format_ip(addr: u32) -> (r: String)
    ensures
        r@ == ip_text(addr),
{
    let mut s = String::new();
    push_decimal(&mut s, (addr % 256) as u64);
    assert(Seq::<char>::empty() + crate::text::decimal((addr % 256) as nat)
        =~= crate::text::decimal((addr % 256) as nat));
    push_text(&mut s, ".");
    push_decimal(&mut s, (addr / 256 % 256) as u64);
    push_text(&mut s, ".");
    push_decimal(&mut s, (addr / 65536 % 256) as u64);
    push_text(&mut s, ".");
    push_decimal(&mut s, (addr / 16777216) as u64);
    s
}

// ----- Interfaces -----

/// What an interface reports: its hardware address, if it is there, and its network address, if
/// that can be read.
#[derive(Debug, Clone, Copy)]
pub struct Netif {
    pub mac: Option<[u8; 6]>,
    pub addr: Option<u32>,
}

/// The text of an interface's hardware address: nothing, if it is not there.
pub open spec fn netif_mac_text(netif: Netif) -> Seq<char> {
    match netif.mac {
        Some(mac) => mac_text(mac@),
        None => Seq::empty(),
    }
}

/// The text of an interface's network address: nothing, if it has none.
pub open spec fn netif_ip_text(netif: Netif) -> Seq<char> {
    match netif.addr {
        Some(addr) => if addr != 0 {
            ip_text(addr)
        } else {
            Seq::empty()
        },
        None => Seq::empty(),
    }
}

/// Whether an interface has a network address.
pub open spec fn has_addr(netif: Netif) -> bool {
    netif.addr is Some && netif.addr->0 != 0
}

pub fn netif_mac(netif: &Netif) -> (r: String)
    ensures
        r@ == netif_mac_text(*netif),
{
    match &netif.mac {
        Some(mac) => format_mac(mac),
        None => {
            let none = String::new();
            assert(none@ =~= Seq::empty());
            none
        },
    }
}

pub fn netif_ip(netif: &Netif) -> (r: String)
    ensures
        r@ == netif_ip_text(*netif),
{
    match netif.addr {
        Some(addr) => if addr != 0 {
            return format_ip(addr);
        },
        None => {},
    }
    let none = String::new();
    assert(none@ =~= Seq::empty());
    none
}

pub struct InterfaceStatusView {
    pub available: bool,
    pub enabled: bool,
    pub mac: Seq<char>,
    pub ip: Seq<char>,
    pub connected: bool,
}

impl DeepView for InterfaceStatus {
    type V = InterfaceStatusView;

    open spec fn deep_view(&self) -> InterfaceStatusView {
        InterfaceStatusView {
            available: self.available,
            enabled: self.enabled,
            mac: self.mac@,
            ip: self.ip@,
            connected: self.connected,
        }
    }
}

/// How an interface stands: it is available where it has a hardware address, and connected where
/// it has a network address.
pub open spec fn interface_of(netif: Netif, enabled: bool) -> InterfaceStatusView {
    InterfaceStatusView {
        available: netif.mac is Some,
        enabled,
        mac: netif_mac_text(netif),
        ip: netif_ip_text(netif),
        connected: has_addr(netif),
    }
}

/// How an interface stands that the board does not have.
pub open spec fn no_interface() -> InterfaceStatusView {
    InterfaceStatusView {
        available: false,
        enabled: false,
        mac: Seq::empty(),
        ip: Seq::empty(),
        connected: false,
    }
}

pub fn interface_status(netif: &Netif, enabled: bool) -> (r: InterfaceStatus)
    ensures
        r.deep_view() == interface_of(*netif, enabled),
{
    let connected = match netif.addr {
        Some(addr) => addr != 0,
        None => false,
    };
    InterfaceStatus {
        available: netif.mac.is_some(),
        enabled,
        mac: netif_mac(netif),
        ip: netif_ip(netif),
        connected,
    }
}

pub fn disabled_interface_status() -> (r: InterfaceStatus)
    ensures
        r.deep_view() == no_interface(),
{
    let r = InterfaceStatus {
        available: false,
        enabled: false,
        mac: String::new(),
        ip: String::new(),
        connected: false,
    };
    assert(r.mac@ =~= Seq::empty() && r.ip@ =~= Seq::empty());
    r
}

// ----- The access point -----

pub struct ApClientView {
    pub mac: Seq<char>,
    pub ip: Seq<char>,
}

impl DeepView for ApClientInfo {
    type V = ApClientView;

    open spec fn deep_view(&self) -> ApClientView {
        ApClientView { mac: self.mac@, ip: self.ip@ }
    }
}

pub struct ApStatusView {
    pub available: bool,
    pub enabled: bool,
    pub mac: Seq<char>,
    pub ip: Seq<char>,
    pub clients: Seq<ApClientView>,
}

impl DeepView for ApStatus {
    type V = ApStatusView;

    open spec fn deep_view(&self) -> ApStatusView {
        ApStatusView {
            available: self.available,
            enabled: self.enabled,
            mac: self.mac@,
            ip: self.ip@,
            clients: self.clients.deep_view(),
        }
    }
}

/// The clients of the access point, of which only the hardware address is known.
pub open spec fn ap_clients(macs: Seq<[u8; 6]>) -> Seq<ApClientView> {
    macs.map_values(|mac: [u8; 6]| ApClientView { mac: mac_text(mac@), ip: Seq::empty() })
}

/// How the access point stands.
pub open spec fn ap_of(netif: Netif, enabled: bool, macs: Seq<[u8; 6]>) -> ApStatusView {
    ApStatusView {
        available: netif.mac is Some,
        enabled,
        mac: netif_mac_text(netif),
        ip: netif_ip_text(netif),
        clients: if netif.mac is Some {
            ap_clients(macs)
        } else {
            Seq::empty()
        },
    }
}

/// How the access point stands of a board that has none.
pub open spec fn no_ap() -> ApStatusView {
    ApStatusView {
        available: false,
        enabled: false,
        mac: Seq::empty(),
        ip: Seq::empty(),
        clients: Seq::empty(),
    }
}

fn gather_ap_clients(macs: &Vec<[u8; 6]>) -> (r: Vec<ApClientInfo>)
    ensures
        r.deep_view() == ap_clients(macs@),
{
    let mut out: Vec<ApClientInfo> = Vec::new();
    let mut i: usize = 0;
    assert(out.deep_view() =~= ap_clients(macs@).take(0));
    while i < macs.len()
        invariant
            i <= macs@.len(),
            out.deep_view() == ap_clients(macs@).take(i as int),
        decreases macs@.len() - i,
    {
        let ghost before = out.deep_view();
        let client = ApClientInfo { mac: format_mac(&macs[i]), ip: String::new() };
        assert(client.ip@ =~= Seq::empty());
        out.push(client);
        assert(out.deep_view() =~= before.push(ap_clients(macs@)[i as int]));
        assert(ap_clients(macs@).take(i + 1) =~= ap_clients(macs@).take(i as int).push(
            ap_clients(macs@)[i as int],
        ));
        i = i + 1;
    }
    assert(ap_clients(macs@).take(i as int) =~= ap_clients(macs@));
    out
}

fn ap_status(netif: &Netif, enabled: bool, macs: &Vec<[u8; 6]>) -> (r: ApStatus)
    ensures
        r.deep_view() == ap_of(*netif, enabled, macs@),
{
    let available = netif.mac.is_some();
    let clients = if available {
        gather_ap_clients(macs)
    } else {
        let none: Vec<ApClientInfo> = Vec::new();
        assert(none.deep_view() =~= Seq::empty());
        none
    };
    ApStatus { available, enabled, mac: netif_mac(netif), ip: netif_ip(netif), clients }
}

fn disabled_ap_status() -> (r: ApStatus)
    ensures
        r.deep_view() == no_ap(),
{
    let r = ApStatus {
        available: false,
        enabled: false,
        mac: String::new(),
        ip: String::new(),
        clients: Vec::new(),
    };
    assert(r.mac@ =~= Seq::empty() && r.ip@ =~= Seq::empty());
    assert(r.clients.deep_view() =~= Seq::empty());
    r
}

// ----- Memory -----

/// How much a kind of memory has and how much of it is free, in bytes.
#[derive(Debug, Clone, Copy, PartialEq, Eq, Structural)]
pub struct MemRegion {
    pub total: u32,
    pub free: u32,
}

/// The kinds of memory that a board can have.
#[derive(Debug, Clone, Copy)]
pub struct MemoryReading {
    pub internal: MemRegion,
    pub psram: MemRegion,
    pub dma: MemRegion,
    pub rtcram: MemRegion,
    pub tcm: MemRegion,
}

pub struct MemoryRegionView {
    pub name: Seq<char>,
    pub total_bytes: u32,
    pub free_bytes: u32,
}

impl DeepView for MemoryRegion {
    type V = MemoryRegionView;

    open spec fn deep_view(&self) -> MemoryRegionView {
        MemoryRegionView {
            name: self.name@,
            total_bytes: self.total_bytes,
            free_bytes: self.free_bytes,
        }
    }
}

/// A kind of memory as clients see it: left out, where the board has none of it.
pub open spec fn region(name: Seq<char>, r: MemRegion) -> Seq<MemoryRegionView> {
    if r.total > 0 {
        seq![MemoryRegionView { name, total_bytes: r.total, free_bytes: r.free }]
    } else {
        Seq::empty()
    }
}

/// The memory of a board as clients see it.
pub open spec fn regions(m: MemoryReading) -> Seq<MemoryRegionView> {
    region("Internal"@, m.internal) + region("PSRAM"@, m.psram) + region("DMA"@, m.dma) + region(
        "RTCRAM"@,
        m.rtcram,
    ) + region("TCM"@, m.tcm)
}

fn push_region(out: &mut Vec<MemoryRegion>, name: &str, r: MemRegion)
    ensures
        final(out).deep_view() == old(out).deep_view() + region(name@, r),
{
    let ghost before = out.deep_view();
    if r.total > 0 {
        let entry = MemoryRegion {
            name: name.to_owned(),
            total_bytes: r.total,
            free_bytes: r.free,
        };
        out.push(entry);
        assert(out.deep_view() =~= before + seq![entry.deep_view()]);
    } else {
        assert(before + Seq::<MemoryRegionView>::empty() =~= before);
    }
}

fn memory_regions(m: &MemoryReading) -> (r: Vec<MemoryRegion>)
    ensures
        r.deep_view() == regions(*m),
{
    let mut out: Vec<MemoryRegion> = Vec::new();
    assert(out.deep_view() =~= Seq::empty());
    push_region(&mut out, "Internal", m.internal);
    assert(Seq::<MemoryRegionView>::empty() + region("Internal"@, m.internal) =~= region(
        "Internal"@,
        m.internal,
    ));
    push_region(&mut out, "PSRAM", m.psram);
    push_region(&mut out, "DMA", m.dma);
    push_region(&mut out, "RTCRAM", m.rtcram);
    push_region(&mut out, "TCM", m.tcm);
    out
}

// ----- All of it -----

/// What the board reports of its network and memory.
#[derive(Debug)]
pub struct NetworkReading {
    pub board_mac: [u8; 6],
    pub ethernet: Netif,
    pub wifi_sta: Netif,
    pub wifi_ap: Netif,
    pub ap_client_macs: Vec<[u8; 6]>,
    pub memory: MemoryReading,
    pub min_free_heap_bytes: u32,
}

/// The network and memory as clients see them. On a board without WiFi both of its interfaces
/// count as not there.
pub open spec fn network_told(
    r: ServerMessage<'static>,
    s: DeviceSettingsView,
    has_wifi: bool,
    reading: NetworkReading,
) -> bool {
    &&& r is NetworkStatus
    &&& r->NetworkStatus_board_mac@ == mac_text(reading.board_mac@)
    &&& r->memory.deep_view() == regions(reading.memory)
    &&& r->min_free_heap_bytes == reading.min_free_heap_bytes
    &&& r->ethernet.deep_view() == interface_of(reading.ethernet, true)
    &&& r->wifi_sta.deep_view() == if has_wifi {
        interface_of(reading.wifi_sta, crate::wifi::will_connect(s))
    } else {
        no_interface()
    }
    &&& r->wifi_ap.deep_view() == if has_wifi {
        ap_of(reading.wifi_ap, s.ap_enabled, reading.ap_client_macs@)
    } else {
        no_ap()
    }
}

/// Tells clients of the network and the memory.
pub fn gather_network_status(
    settings: &DeviceSettings,
    has_wifi: bool,
    reading: &NetworkReading,
) -> (r: ServerMessage<'static>)
    ensures
        network_told(r, settings.deep_view(), has_wifi, *reading),
{
    let wifi_sta = if has_wifi {
        interface_status(&reading.wifi_sta, crate::wifi::sta_will_connect(settings))
    } else {
        disabled_interface_status()
    };
    let wifi_ap = if has_wifi {
        ap_status(&reading.wifi_ap, settings.ap_enabled, &reading.ap_client_macs)
    } else {
        disabled_ap_status()
    };
    ServerMessage::NetworkStatus {
        board_mac: format_mac(&reading.board_mac),
        memory: memory_regions(&reading.memory),
        min_free_heap_bytes: reading.min_free_heap_bytes,
        ethernet: interface_status(&reading.ethernet, true),
        wifi_sta,
        wifi_ap,
    }
}

// ----- What holds of it -----

/// A hardware address is written in seventeen characters: two upper-case hexadecimal digits for
/// each byte, the first byte first, and colons between them.
pub proof fn lemma_hardware_address_is_written(mac: Seq<u8>, i: int)
    requires
        mac.len() == 6,
        0 <= i < 6,
    ensures
        mac_text(mac).len() == 17,
        mac_text(mac)[3 * i] == crate::text::digit((mac[i] / 16) as int),
        mac_text(mac)[3 * i + 1] == crate::text::digit((mac[i] % 16) as int),
        i < 5 ==> mac_text(mac)[3 * i + 2] == ':',
{
    reveal_strlit(":");
    assert(i == 0 || i == 1 || i == 2 || i == 3 || i == 4 || i == 5);
}

/// The bytes of a network address are written in decimal with dots between them, the byte at the
/// bottom of the number first.
pub proof fn lemma_network_address_is_written(a: u8, b: u8, c: u8, d: u8)
    ensures
        ip_text((a + 256 * b + 65_536 * c + 16_777_216 * d) as u32) == crate::text::decimal(
            a as nat,
        ) + "."@ + crate::text::decimal(b as nat) + "."@ + crate::text::decimal(c as nat) + "."@
            + crate::text::decimal(d as nat),
{
    let addr: u32 = (a + 256 * b + 65_536 * c + 16_777_216 * d) as u32;
    lemma_lowest_byte(addr as int, a as int, b + 256 * c + 65_536 * d);
    lemma_lowest_byte(b + 256 * c + 65_536 * d, b as int, c + 256 * d);
    lemma_lowest_byte(c + 256 * d, c as int, d as int);
    let high: u32 = addr / 65_536;
    assert(addr / 256 / 256 == high) by (nonlinear_arith)
        requires
            high == addr / 65_536,
    ;
    assert(high / 256 == addr / 16_777_216) by (nonlinear_arith)
        requires
            high == addr / 65_536,
    ;
}

proof fn lemma_lowest_byte(n: int, low: int, rest: int)
    requires
        n == low + 256 * rest,
        0 <= low < 256,
    ensures
        n % 256 == low,
        n / 256 == rest,
{
}

/// An interface counts as available exactly if it has a hardware address, and as connected exactly
/// if it has a network address other than zero; either address is told where there is one, and
/// nothing in its place where there is none.
pub proof fn lemma_how_an_interface_stands(netif: Netif, enabled: bool)
    ensures
        ({
            let r = interface_of(netif, enabled);
            let connected = netif.addr is Some && netif.addr->0 != 0;
            &&& r.enabled == enabled
            &&& r.available == (netif.mac is Some)
            &&& netif.mac is Some ==> r.mac == mac_text(netif.mac->0@)
            &&& netif.mac is None ==> r.mac.len() == 0
            &&& r.connected == connected
            &&& connected ==> r.ip == ip_text(netif.addr->0)
            &&& !connected ==> r.ip.len() == 0
        }),
        ({
            let r = no_interface();
            !r.available && !r.enabled && !r.connected && r.mac.len() == 0 && r.ip.len() == 0
        }),
{
}

/// The access point tells its addresses as any interface does, and each of its clients by the
/// client's hardware address.
pub proof fn lemma_how_the_access_point_stands(netif: Netif, enabled: bool, macs: Seq<[u8; 6]>)
    ensures
        ({
            let r = ap_of(netif, enabled, macs);
            let same = interface_of(netif, enabled);
            &&& r.available == (netif.mac is Some)
            &&& r.enabled == enabled
            &&& r.mac == same.mac
            &&& r.ip == same.ip
            &&& netif.mac is None ==> r.clients.len() == 0
            &&& netif.mac is Some ==> r.clients.len() == macs.len()
            &&& netif.mac is Some ==> forall|i: int|
                0 <= i < macs.len() ==> (#[trigger] r.clients[i]).mac == mac_text(macs[i]@)
                    && r.clients[i].ip.len() == 0
        }),
        ({
            let r = no_ap();
            !r.available && !r.enabled && r.clients.len() == 0 && r.mac.len() == 0 && r.ip.len()
                == 0
        }),
{
}

/// Every kind of memory that the board has is told once, by its name and with its sizes; a kind
/// that it does not have is left out.
pub proof fn lemma_memory_is_told(m: MemoryReading, x: MemoryRegionView)
    ensures
        regions(m).contains(x) <==> {
            ||| m.internal.total > 0 && x == (MemoryRegionView {
                name: "Internal"@,
                total_bytes: m.internal.total,
                free_bytes: m.internal.free,
            })
            ||| m.psram.total > 0 && x == (MemoryRegionView {
                name: "PSRAM"@,
                total_bytes: m.psram.total,
                free_bytes: m.psram.free,
            })
            ||| m.dma.total > 0 && x == (MemoryRegionView {
                name: "DMA"@,
                total_bytes: m.dma.total,
                free_bytes: m.dma.free,
            })
            ||| m.rtcram.total > 0 && x == (MemoryRegionView {
                name: "RTCRAM"@,
                total_bytes: m.rtcram.total,
                free_bytes: m.rtcram.free,
            })
            ||| m.tcm.total > 0 && x == (MemoryRegionView {
                name: "TCM"@,
                total_bytes: m.tcm.total,
                free_bytes: m.tcm.free,
            })
        },
        regions(m).len() == region(""@, m.internal).len() + region(""@, m.psram).len() + region(
            ""@,
            m.dma,
        ).len() + region(""@, m.rtcram).len() + region(""@, m.tcm).len(),
{
    let a = region("Internal"@, m.internal);
    let b = region("PSRAM"@, m.psram);
    let c = region("DMA"@, m.dma);
    let d = region("RTCRAM"@, m.rtcram);
    let e = region("TCM"@, m.tcm);
    lemma_in_joined(a, b, x);
    lemma_in_joined(a + b, c, x);
    lemma_in_joined(a + b + c, d, x);
    lemma_in_joined(a + b + c + d, e, x);
    lemma_in_region("Internal"@, m.internal, x);
    lemma_in_region("PSRAM"@, m.psram, x);
    lemma_in_region("DMA"@, m.dma, x);
    lemma_in_region("RTCRAM"@, m.rtcram, x);
    lemma_in_region("TCM"@, m.tcm, x);
}

proof fn lemma_in_joined(a: Seq<MemoryRegionView>, b: Seq<MemoryRegionView>, x: MemoryRegionView)
    ensures
        (a + b).contains(x) <==> a.contains(x) || b.contains(x),
{
    if a.contains(x) {
        let i = choose|i: int| 0 <= i < a.len() && a[i] == x;
        assert((a + b)[i] == x);
    }
    if b.contains(x) {
        let i = choose|i: int| 0 <= i < b.len() && b[i] == x;
        assert((a + b)[a.len() + i] == x);
    }
}

proof fn lemma_in_region(name: Seq<char>, r: MemRegion, x: MemoryRegionView)
    ensures
        region(name, r).contains(x) <==> r.total > 0 && x == (MemoryRegionView {
            name,
            total_bytes: r.total,
            free_bytes: r.free,
        }),
{
    if r.total > 0 {
        assert(region(name, r)[0] == (MemoryRegionView {
            name,
            total_bytes: r.total,
            free_bytes: r.free,
        }));
    }
}

/// Clients are told of each interface what that interface reports. WiFi counts as enabled where
/// the device will try to join a network, and the access point where the settings switch it on; on
/// a board without WiFi neither is there.
pub proof fn lemma_network_is_told(
    r: ServerMessage<'static>,
    s: DeviceSettingsView,
    has_wifi: bool,
    reading: NetworkReading,
)
    requires
        network_told(r, s, has_wifi, reading),
    ensures
        r is NetworkStatus,
        r->NetworkStatus_board_mac@ == mac_text(reading.board_mac@),
        r->memory.deep_view() == regions(reading.memory),
        r->min_free_heap_bytes == reading.min_free_heap_bytes,
        r->ethernet.deep_view() == interface_of(reading.ethernet, true),
        has_wifi ==> r->wifi_sta.deep_view() == interface_of(
            reading.wifi_sta,
            s.wifi_client_enabled && s.wifi_ssid.len() > 0,
        ),
        has_wifi ==> r->wifi_ap.deep_view() == ap_of(
            reading.wifi_ap,
            s.ap_enabled,
            reading.ap_client_macs@,
        ),
        !has_wifi ==> !r->wifi_sta.available && !r->wifi_sta.enabled && !r->wifi_sta.connected,
        !has_wifi ==> !r->wifi_ap.available && !r->wifi_ap.enabled
            && r->wifi_ap.deep_view().clients.len() == 0,
{
}

} // verus!
