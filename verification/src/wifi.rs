//! WiFi: which modes to run, and when to try the network again.

use vstd::prelude::*;

use crate::protocol::settings::{DeviceSettings, DeviceSettingsView, AP_SSID};

verus! {

pub const WIFI_RECONNECT_BASE_DELAY_MS: u64 = 500;

pub const WIFI_RECONNECT_MAX_DELAY_MS: u64 = 5_000;

pub const WIFI_CONNECT_ATTEMPT_TIMEOUT_MS: u64 = 15_000;

pub const MAX_SSID_BYTES: usize = 32;

pub const MAX_PASSWORD_BYTES: usize = 64;

pub const AP_MAX_CONNECTIONS: u16 = 4;

/// Whether the device will try to join a network: it is meant to, and it has the network's name.
pub open spec fn will_connect(s: DeviceSettingsView) -> bool {
    s.wifi_client_enabled && s.wifi_ssid.len() > 0
}

/// Returns true if the STA client will actually attempt connections,
/// considering both the enable flag and whether an SSID is available.
pub fn sta_will_connect(settings: &DeviceSettings) -> (r: bool)
    ensures
        r == will_connect(settings.deep_view()),
{
    settings.wifi_client_enabled && !settings.wifi_ssid.as_str().is_empty()
}

// ----- Modes -----

/// How the device joins a network; always with WPA2.
#[derive(Debug)]
pub struct StaConfig {
    pub ssid: String,
    pub password: String,
}

pub struct StaConfigView {
    pub ssid: Seq<char>,
    pub password: Seq<char>,
}

impl DeepView for StaConfig {
    type V = StaConfigView;

    open spec fn deep_view(&self) -> StaConfigView {
        StaConfigView { ssid: self.ssid@, password: self.password@ }
    }
}

/// How an access point is protected.
#[derive(Debug, Clone, Copy, PartialEq, Eq, Structural)]
pub enum ApProtection {
    Open,
    Wpa2,
}

/// The device's own access point.
#[derive(Debug)]
pub struct ApConfig {
    pub ssid: String,
    pub password: String,
    pub protection: ApProtection,
    pub max_connections: u16,
}

pub struct ApConfigView {
    pub ssid: Seq<char>,
    pub password: Seq<char>,
    pub protection: ApProtection,
    pub max_connections: u16,
}

impl DeepView for ApConfig {
    type V = ApConfigView;

    open spec fn deep_view(&self) -> ApConfigView {
        ApConfigView {
            ssid: self.ssid@,
            password: self.password@,
            protection: self.protection,
            max_connections: self.max_connections,
        }
    }
}

/// The modes that WiFi can run in.
#[derive(Debug)]
#[allow(inconsistent_fields)]
pub enum WifiConfig {
    Mixed { sta: StaConfig, ap: ApConfig },
    Client { sta: StaConfig },
    AccessPoint { ap: ApConfig },
}

#[allow(inconsistent_fields)]
pub enum WifiConfigView {
    Mixed { sta: StaConfigView, ap: ApConfigView },
    Client { sta: StaConfigView },
    AccessPoint { ap: ApConfigView },
}

impl DeepView for WifiConfig {
    type V = WifiConfigView;

    open spec fn deep_view(&self) -> WifiConfigView {
        match self {
            WifiConfig::Mixed { sta, ap } => WifiConfigView::Mixed {
                sta: sta.deep_view(),
                ap: ap.deep_view(),
            },
            WifiConfig::Client { sta } => WifiConfigView::Client { sta: sta.deep_view() },
            WifiConfig::AccessPoint { ap } => WifiConfigView::AccessPoint { ap: ap.deep_view() },
        }
    }
}

/// How many bytes a text takes in UTF-8.
pub open spec fn byte_len(s: Seq<char>) -> nat {
    vstd::utf8::encode_utf8(s).len()
}

fn byte_count(s: &str) -> (r: usize)
    ensures
        r == byte_len(s@),
{
    s.as_bytes().len()
}

/// The access point that the settings ask for: open, where it has no password.
pub open spec fn ap_planned(s: DeviceSettingsView) -> Result<ApConfigView, Seq<char>> {
    if byte_len(s.ap_password) > MAX_PASSWORD_BYTES {
        Err("AP password too long"@)
    } else {
        Ok(
            ApConfigView {
                ssid: AP_SSID@,
                password: s.ap_password,
                protection: if s.ap_password.len() == 0 {
                    ApProtection::Open
                } else {
                    ApProtection::Wpa2
                },
                max_connections: AP_MAX_CONNECTIONS,
            },
        )
    }
}

/// What a result is in terms of texts and views.
pub open spec fn plan_is<T: DeepView>(
    r: Result<T, String>,
    expected: Result<<T as DeepView>::V, Seq<char>>,
) -> bool {
    match (r, expected) {
        (Ok(got), Ok(value)) => got.deep_view() == value,
        (Err(got), Err(message)) => got@ == message,
        _ => false,
    }
}

pub fn make_ap_config(settings: &DeviceSettings) -> (r: Result<ApConfig, String>)
    ensures
        plan_is(r, ap_planned(settings.deep_view())),
{
    if byte_count(settings.ap_password.as_str()) > MAX_PASSWORD_BYTES {
        return Err("AP password too long".to_owned());
    }
    Ok(
        ApConfig {
            ssid: AP_SSID.to_owned(),
            password: settings.ap_password.clone(),
            protection: if settings.ap_password.as_str().is_empty() {
                ApProtection::Open
            } else {
                ApProtection::Wpa2
            },
            max_connections: AP_MAX_CONNECTIONS,
        },
    )
}

/// The modes for which the settings ask: joining a network, where the device will try to, and the
/// access point, where it is on or forced.
pub open spec fn modes_planned(
    s: DeviceSettingsView,
    force_ap: bool,
) -> Result<WifiConfigView, Seq<char>> {
    let sta = StaConfigView { ssid: s.wifi_ssid, password: s.wifi_password };
    if will_connect(s) && byte_len(s.wifi_ssid) > MAX_SSID_BYTES {
        Err("SSID too long (max 32 bytes)"@)
    } else if will_connect(s) && byte_len(s.wifi_password) > MAX_PASSWORD_BYTES {
        Err("Password too long (max 64 bytes)"@)
    } else if s.ap_enabled || force_ap {
        match ap_planned(s) {
            Ok(ap) => if will_connect(s) {
                Ok(WifiConfigView::Mixed { sta, ap })
            } else {
                Ok(WifiConfigView::AccessPoint { ap })
            },
            Err(message) => Err(message),
        }
    } else {
        Ok(WifiConfigView::Client { sta })
    }
}

/// Plans the modes to start with.
pub fn plan_modes(settings: &DeviceSettings, force_ap: bool) -> (r: Result<WifiConfig, String>)
    requires
        will_connect(settings.deep_view()) || settings.ap_enabled || force_ap,
    ensures
        plan_is(r, modes_planned(settings.deep_view(), force_ap)),
{
    let sta_enabled = sta_will_connect(settings);
    if sta_enabled && byte_count(settings.wifi_ssid.as_str()) > MAX_SSID_BYTES {
        return Err("SSID too long (max 32 bytes)".to_owned());
    }
    if sta_enabled && byte_count(settings.wifi_password.as_str()) > MAX_PASSWORD_BYTES {
        return Err("Password too long (max 64 bytes)".to_owned());
    }
    let sta = StaConfig {
        ssid: settings.wifi_ssid.clone(),
        password: settings.wifi_password.clone(),
    };
    if settings.ap_enabled || force_ap {
        match make_ap_config(settings) {
            Ok(ap) => if sta_enabled {
                Ok(WifiConfig::Mixed { sta, ap })
            } else {
                Ok(WifiConfig::AccessPoint { ap })
            },
            Err(message) => Err(message),
        }
    } else {
        Ok(WifiConfig::Client { sta })
    }
}

// ----- Keeping the connection -----

/// The connection to a network, and when it is to be tried again. Times are in microseconds.
#[derive(Debug)]
pub struct WifiController {
    pub sta_ssid: String,
    pub sta_enabled: bool,
    pub reconnect_delay_ms: u64,
    pub reconnect_at_us: Option<u64>,
    pub connect_deadline_us: Option<u64>,
    pub connecting: bool,
}

pub struct WifiView {
    pub sta_ssid: Seq<char>,
    pub sta_enabled: bool,
    pub reconnect_delay_ms: u64,
    pub reconnect_at_us: Option<u64>,
    pub connect_deadline_us: Option<u64>,
    pub connecting: bool,
}

impl DeepView for WifiController {
    type V = WifiView;

    open spec fn deep_view(&self) -> WifiView {
        WifiView {
            sta_ssid: self.sta_ssid@,
            sta_enabled: self.sta_enabled,
            reconnect_delay_ms: self.reconnect_delay_ms,
            reconnect_at_us: self.reconnect_at_us,
            connect_deadline_us: self.connect_deadline_us,
            connecting: self.connecting,
        }
    }
}

impl WifiView {
    /// A try that is under way has a deadline, and the delay stays within its bounds.
    pub open spec fn wf(self) -> bool {
        &&& self.connecting ==> self.connect_deadline_us is Some
        &&& WIFI_RECONNECT_BASE_DELAY_MS <= self.reconnect_delay_ms <= WIFI_RECONNECT_MAX_DELAY_MS
    }
}

/// The delay after one that ended in another failure.
pub open spec fn delay_after(delay_ms: u64) -> u64 {
    if delay_ms * 2 > WIFI_RECONNECT_MAX_DELAY_MS {
        WIFI_RECONNECT_MAX_DELAY_MS
    } else {
        (delay_ms * 2) as u64
    }
}

pub fn next_reconnect_delay(current_ms: u64) -> (r: u64)
    ensures
        r == delay_after(current_ms),
{
    match current_ms.checked_mul(2) {
        Some(doubled) => if doubled > WIFI_RECONNECT_MAX_DELAY_MS {
            WIFI_RECONNECT_MAX_DELAY_MS
        } else {
            doubled
        },
        None => WIFI_RECONNECT_MAX_DELAY_MS,
    }
}

/// What a poll asks for.
#[derive(Debug, Clone, Copy, PartialEq, Eq, Structural)]
pub enum PollAction {
    Rest,
    /// End a try that took too long.
    Disconnect,
    /// Begin a try.
    Connect,
}

/// How the connection stands once it is up.
pub open spec fn settled(v: WifiView) -> WifiView {
    WifiView {
        connecting: false,
        connect_deadline_us: None,
        reconnect_delay_ms: WIFI_RECONNECT_BASE_DELAY_MS,
        reconnect_at_us: None,
        ..v
    }
}

/// What a poll asks for, and how the connection stands after it. `connected` is what the radio
/// says, if it says anything.
pub open spec fn polled(
    v: WifiView,
    now_us: u64,
    connected: Option<bool>,
) -> (WifiView, PollAction) {
    if !v.sta_enabled {
        (v, PollAction::Rest)
    } else if v.connecting {
        if connected == Some(true) {
            (settled(v), PollAction::Rest)
        } else if now_us < v.connect_deadline_us->0 {
            (v, PollAction::Rest)
        } else {
            let delay = delay_after(v.reconnect_delay_ms);
            (
                WifiView {
                    connecting: false,
                    connect_deadline_us: None,
                    reconnect_delay_ms: delay,
                    reconnect_at_us: Some((now_us + delay * 1000) as u64),
                    ..v
                },
                PollAction::Disconnect,
            )
        }
    } else if connected == Some(true) {
        (
            WifiView {
                reconnect_delay_ms: WIFI_RECONNECT_BASE_DELAY_MS,
                reconnect_at_us: None,
                ..v
            },
            PollAction::Rest,
        )
    } else {
        match v.reconnect_at_us {
            None => (
                WifiView {
                    reconnect_at_us: Some((now_us + v.reconnect_delay_ms * 1000) as u64),
                    ..v
                },
                PollAction::Rest,
            ),
            Some(at) => if now_us < at {
                (v, PollAction::Rest)
            } else {
                (v, PollAction::Connect)
            },
        }
    }
}

/// How the connection stands after a try was begun, or could not be.
pub open spec fn tried(v: WifiView, now_us: u64, begun: bool) -> WifiView {
    if begun {
        WifiView {
            connecting: true,
            connect_deadline_us: Some((now_us + WIFI_CONNECT_ATTEMPT_TIMEOUT_MS * 1000) as u64),
            reconnect_at_us: None,
            ..v
        }
    } else {
        let delay = delay_after(v.reconnect_delay_ms);
        WifiView {
            reconnect_delay_ms: delay,
            reconnect_at_us: Some((now_us + delay * 1000) as u64),
            ..v
        }
    }
}

/// How the connection stands after the access point was forced on.
pub open spec fn forced(v: WifiView, now_us: u64) -> WifiView {
    if v.sta_enabled {
        WifiView {
            connecting: true,
            connect_deadline_us: Some((now_us + WIFI_CONNECT_ATTEMPT_TIMEOUT_MS * 1000) as u64),
            ..v
        }
    } else {
        v
    }
}

/// The modes with the access point forced on.
pub open spec fn forced_modes(
    v: WifiView,
    s: DeviceSettingsView,
) -> Result<WifiConfigView, Seq<char>> {
    match ap_planned(s) {
        Ok(ap) => if !v.sta_enabled {
            Ok(WifiConfigView::AccessPoint { ap })
        } else if byte_len(v.sta_ssid) > MAX_SSID_BYTES {
            Err("SSID too long"@)
        } else if byte_len(s.wifi_password) > MAX_PASSWORD_BYTES {
            Err("Password too long"@)
        } else {
            Ok(
                WifiConfigView::Mixed {
                    sta: StaConfigView { ssid: v.sta_ssid, password: s.wifi_password },
                    ap,
                },
            )
        },
        Err(message) => Err(message),
    }
}

impl WifiController {
    /// The connection once WiFi was started with these settings.
    pub fn new(settings: &DeviceSettings) -> (r: Self)
        ensures
            r.deep_view().wf(),
            r.deep_view() == (WifiView {
                sta_ssid: if will_connect(settings.deep_view()) {
                    settings.wifi_ssid@
                } else {
                    Seq::empty()
                },
                sta_enabled: will_connect(settings.deep_view()),
                reconnect_delay_ms: WIFI_RECONNECT_BASE_DELAY_MS,
                reconnect_at_us: None,
                connect_deadline_us: None,
                connecting: false,
            }),
    {
        let sta_enabled = sta_will_connect(settings);
        let sta_ssid = if sta_enabled {
            settings.wifi_ssid.clone()
        } else {
            let none = String::new();
            assert(none@ =~= Seq::empty());
            none
        };
        WifiController {
            sta_ssid,
            sta_enabled,
            reconnect_delay_ms: WIFI_RECONNECT_BASE_DELAY_MS,
            reconnect_at_us: None,
            connect_deadline_us: None,
            connecting: false,
        }
    }

    /// Decides what to do about the connection. Begins nothing itself.
    pub fn poll(&mut self, now_us: u64, connected: Option<bool>) -> (r: PollAction)
        requires
            old(self).deep_view().wf(),
            now_us + WIFI_RECONNECT_MAX_DELAY_MS * 1000 <= u64::MAX,
        ensures
            final(self).deep_view().wf(),
            (final(self).deep_view(), r) == polled(old(self).deep_view(), now_us, connected),
    {
        if !self.sta_enabled {
            return PollAction::Rest;
        }
        let is_connected = match connected {
            Some(c) => c,
            None => false,
        };
        if self.connecting {
            if is_connected {
                self.connecting = false;
                self.connect_deadline_us = None;
                self.reconnect_delay_ms = WIFI_RECONNECT_BASE_DELAY_MS;
                self.reconnect_at_us = None;
                return PollAction::Rest;
            }
            match self.connect_deadline_us {
                Some(deadline) => if now_us < deadline {
                    return PollAction::Rest;
                },
                None => {},
            }
            self.connecting = false;
            self.connect_deadline_us = None;
            let next_delay: u64 = next_reconnect_delay(self.reconnect_delay_ms);
            self.reconnect_delay_ms = next_delay;
            self.reconnect_at_us = Some(now_us + next_delay * 1000);
            return PollAction::Disconnect;
        }
        if is_connected {
            self.reconnect_delay_ms = WIFI_RECONNECT_BASE_DELAY_MS;
            self.reconnect_at_us = None;
            return PollAction::Rest;
        }
        match self.reconnect_at_us {
            None => {
                self.reconnect_at_us = Some(now_us + self.reconnect_delay_ms * 1000);
                PollAction::Rest
            },
            Some(at) => if now_us < at {
                PollAction::Rest
            } else {
                PollAction::Connect
            },
        }
    }

    /// Notes whether a try was begun. `now_us` is the time of the poll, or, where the try could
    /// not be begun, the time after that.
    pub fn connect_started(&mut self, now_us: u64, begun: bool)
        requires
            old(self).deep_view().wf(),
            now_us + WIFI_CONNECT_ATTEMPT_TIMEOUT_MS * 1000 <= u64::MAX,
        ensures
            final(self).deep_view().wf(),
            final(self).deep_view() == tried(old(self).deep_view(), now_us, begun),
    {
        if begun {
            self.connecting = true;
            self.connect_deadline_us = Some(now_us + WIFI_CONNECT_ATTEMPT_TIMEOUT_MS * 1000);
            self.reconnect_at_us = None;
        } else {
            let next_delay: u64 = next_reconnect_delay(self.reconnect_delay_ms);
            self.reconnect_delay_ms = next_delay;
            self.reconnect_at_us = Some(now_us + next_delay * 1000);
        }
    }

    /// Whether the device has an address in the network.
    pub fn sta_has_ip(&self, addr: Option<u32>) -> (r: bool)
        ensures
            r == (self.deep_view().sta_enabled && addr is Some && addr->0 != 0),
    {
        match addr {
            Some(a) => self.sta_enabled && a != 0,
            None => false,
        }
    }

    /// The modes with the access point forced on, so that the device can be reached.
    pub fn force_enable_ap(&self, settings: &DeviceSettings) -> (r: Result<WifiConfig, String>)
        ensures
            plan_is(r, forced_modes(self.deep_view(), settings.deep_view())),
    {
        let ap = match make_ap_config(settings) {
            Ok(ap) => ap,
            Err(message) => return Err(message),
        };
        if !self.sta_enabled {
            return Ok(WifiConfig::AccessPoint { ap });
        }
        if byte_count(self.sta_ssid.as_str()) > MAX_SSID_BYTES {
            return Err("SSID too long".to_owned());
        }
        if byte_count(settings.wifi_password.as_str()) > MAX_PASSWORD_BYTES {
            return Err("Password too long".to_owned());
        }
        Ok(
            WifiConfig::Mixed {
                sta: StaConfig {
                    ssid: self.sta_ssid.clone(),
                    password: settings.wifi_password.clone(),
                },
                ap,
            },
        )
    }

    /// Notes that WiFi runs with the access point forced on; a try to join the network was begun.
    pub fn ap_forced(&mut self, now_us: u64)
        requires
            old(self).deep_view().wf(),
            now_us + WIFI_CONNECT_ATTEMPT_TIMEOUT_MS * 1000 <= u64::MAX,
        ensures
            final(self).deep_view().wf(),
            final(self).deep_view() == forced(old(self).deep_view(), now_us),
    {
        if self.sta_enabled {
            self.connecting = true;
            self.connect_deadline_us = Some(now_us + WIFI_CONNECT_ATTEMPT_TIMEOUT_MS * 1000);
        }
    }
}

// ----- What holds of it -----

/// A connection that is up is left alone, and one that was lost is tried again only when its time
/// has come.
pub proof fn lemma_tries_only_when_due(v: WifiView, now_us: u64, connected: Option<bool>)
    requires
        polled(v, now_us, connected).1 == PollAction::Connect,
    ensures
        v.sta_enabled,
        !v.connecting,
        connected != Some(true),
        v.reconnect_at_us is Some,
        v.reconnect_at_us->0 <= now_us,
{
}

/// A try is given up only once its deadline has passed.
pub proof fn lemma_gives_up_only_at_deadline(v: WifiView, now_us: u64, connected: Option<bool>)
    requires
        v.wf(),
        polled(v, now_us, connected).1 == PollAction::Disconnect,
    ensures
        v.connecting,
        connected != Some(true),
        v.connect_deadline_us->0 <= now_us,
{
}

/// A lost connection is tried again: whatever state it is in, some later poll begins a try or ends
/// the one under way.
pub proof fn lemma_lost_connection_is_tried_again(
    v: WifiView,
    now_us: u64,
    later_us: u64,
    connected: Option<bool>,
)
    requires
        v.wf(),
        v.sta_enabled,
        connected != Some(true),
        now_us + WIFI_RECONNECT_MAX_DELAY_MS * 1000 <= later_us,
        v.connecting ==> v.connect_deadline_us->0 <= later_us,
        v.reconnect_at_us is Some ==> v.reconnect_at_us->0 <= later_us,
    ensures
        ({
            let (first, action) = polled(v, now_us, connected);
            action != PollAction::Rest || polled(first, later_us, connected).1 != PollAction::Rest
        }),
{
}

/// Once the network is joined, the delays start over.
pub proof fn lemma_joining_resets_delay(v: WifiView, now_us: u64)
    requires
        v.sta_enabled,
    ensures
        polled(v, now_us, Some(true)).0.reconnect_delay_ms == WIFI_RECONNECT_BASE_DELAY_MS,
        polled(v, now_us, Some(true)).0.reconnect_at_us is None,
        !polled(v, now_us, Some(true)).0.connecting,
        polled(v, now_us, Some(true)).1 == PollAction::Rest,
{
}

/// The delay after so many failures in a row.
pub open spec fn delay_after_failures(n: nat) -> u64
    decreases n,
{
    if n == 0 {
        WIFI_RECONNECT_BASE_DELAY_MS
    } else {
        delay_after(delay_after_failures((n - 1) as nat))
    }
}

/// The first delay takes half a second, every failure doubles it, and from the fifth on it takes
/// five seconds.
pub proof fn lemma_wifi_backoff(n: nat)
    ensures
        WIFI_RECONNECT_BASE_DELAY_MS <= delay_after_failures(n) <= WIFI_RECONNECT_MAX_DELAY_MS,
        delay_after_failures(n) <= delay_after_failures(n + 1),
        n >= 4 ==> delay_after_failures(n) == WIFI_RECONNECT_MAX_DELAY_MS,
        n < 4 ==> delay_after_failures(n) == WIFI_RECONNECT_BASE_DELAY_MS
            * vstd::arithmetic::power2::pow2(n),
    decreases n,
{
    reveal_with_fuel(delay_after_failures, 6);
    vstd::arithmetic::power2::lemma2_to64();
    if n > 0 {
        lemma_wifi_backoff((n - 1) as nat);
    }
}

/// The device tries to join a network exactly if it is meant to and knows the network's name.
pub proof fn lemma_who_joins(s: DeviceSettingsView)
    ensures
        will_connect(s) <==> s.wifi_client_enabled && s.wifi_ssid != Seq::<char>::empty(),
{
    if s.wifi_ssid.len() == 0 {
        assert(s.wifi_ssid =~= Seq::empty());
    }
}

/// The device's own network carries its name, takes four clients, and is open exactly if no
/// password is set. A password of more than 64 bytes cannot be used, and is the one reason why
/// there is no such network.
pub proof fn lemma_own_network(s: DeviceSettingsView)
    ensures
        ({
            let r = ap_planned(s);
            let long = vstd::utf8::encode_utf8(s.ap_password).len() > 64;
            &&& long ==> r is Err && r->Err_0 == "AP password too long"@
            &&& !long ==> {
                &&& r is Ok
                &&& r->Ok_0.ssid == "rfcollars"@
                &&& r->Ok_0.password == s.ap_password
                &&& r->Ok_0.max_connections == 4
                &&& (r->Ok_0.protection == ApProtection::Open <==> s.ap_password.len() == 0)
            }
        }),
{
}

/// WiFi joins the network of the settings exactly if the device will try to, and runs the device's
/// own network exactly if that is on or forced. Names and passwords that do not fit are refused.
pub proof fn lemma_modes_follow_settings(s: DeviceSettingsView, force_ap: bool)
    requires
        s.wifi_client_enabled && s.wifi_ssid.len() > 0 || s.ap_enabled || force_ap,
    ensures
        ({
            let r = modes_planned(s, force_ap);
            let joins = s.wifi_client_enabled && s.wifi_ssid.len() > 0;
            let runs_ap = s.ap_enabled || force_ap;
            let long_name = joins && vstd::utf8::encode_utf8(s.wifi_ssid).len() > 32;
            let long_password = joins && vstd::utf8::encode_utf8(s.wifi_password).len() > 64;
            let long_own = runs_ap && vstd::utf8::encode_utf8(s.ap_password).len() > 64;
            &&& r is Err <==> long_name || long_password || long_own
            &&& long_name ==> r->Err_0 == "SSID too long (max 32 bytes)"@
            &&& !long_name && long_password ==> r->Err_0 == "Password too long (max 64 bytes)"@
            &&& !long_name && !long_password && long_own ==> r->Err_0 == "AP password too long"@
            &&& r is Ok ==> match r->Ok_0 {
                WifiConfigView::Mixed { sta, ap } => joins && runs_ap && sta.ssid == s.wifi_ssid
                    && sta.password == s.wifi_password && ap_planned(s) == Ok::<
                    ApConfigView,
                    Seq<char>,
                >(ap),
                WifiConfigView::Client { sta } => joins && !runs_ap && sta.ssid == s.wifi_ssid
                    && sta.password == s.wifi_password,
                WifiConfigView::AccessPoint { ap } => !joins && runs_ap && ap_planned(s) == Ok::<
                    ApConfigView,
                    Seq<char>,
                >(ap),
            }
        }),
{
}

/// With the device's own network forced on, it runs in any case, and the network that was being
/// joined is still joined.
pub proof fn lemma_forced_modes(v: WifiView, s: DeviceSettingsView)
    ensures
        ({
            let r = forced_modes(v, s);
            let long_own = vstd::utf8::encode_utf8(s.ap_password).len() > 64;
            let long_name = v.sta_enabled && vstd::utf8::encode_utf8(v.sta_ssid).len() > 32;
            let long_password = v.sta_enabled && vstd::utf8::encode_utf8(s.wifi_password).len()
                > 64;
            &&& r is Err <==> long_own || long_name || long_password
            &&& long_own ==> r->Err_0 == "AP password too long"@
            &&& !long_own && long_name ==> r->Err_0 == "SSID too long"@
            &&& !long_own && !long_name && long_password ==> r->Err_0 == "Password too long"@
            &&& r is Ok ==> match r->Ok_0 {
                WifiConfigView::Mixed { sta, ap } => v.sta_enabled && sta.ssid == v.sta_ssid
                    && sta.password == s.wifi_password && ap_planned(s) == Ok::<
                    ApConfigView,
                    Seq<char>,
                >(ap),
                WifiConfigView::AccessPoint { ap } => !v.sta_enabled && ap_planned(s) == Ok::<
                    ApConfigView,
                    Seq<char>,
                >(ap),
                WifiConfigView::Client { .. } => false,
            }
        }),
{
}

/// A device that joins no network is left alone.
pub proof fn lemma_nothing_is_tried_without_a_network(
    v: WifiView,
    now_us: u64,
    connected: Option<bool>,
)
    requires
        !v.sta_enabled,
    ensures
        polled(v, now_us, connected) == (v, PollAction::Rest),
        forced(v, now_us) == v,
{
}

/// The first poll without a connection sets the time of the next try, one delay ahead; every poll
/// before that time waits, and every poll from then on asks for a try until one is begun.
pub proof fn lemma_when_a_try_begins(
    v: WifiView,
    now_us: u64,
    later_us: u64,
    connected: Option<bool>,
    later_connected: Option<bool>,
)
    requires
        v.wf(),
        v.sta_enabled,
        !v.connecting,
        v.reconnect_at_us is None,
        connected != Some(true),
        later_connected != Some(true),
        now_us + 5_000_000 <= u64::MAX,
    ensures
        ({
            let first = polled(v, now_us, connected);
            let second = polled(first.0, later_us, later_connected);
            &&& first.1 == PollAction::Rest
            &&& second.1 == if later_us < now_us + v.reconnect_delay_ms * 1000 {
                PollAction::Rest
            } else {
                PollAction::Connect
            }
            &&& second.0 == first.0
            &&& second.0.reconnect_delay_ms == v.reconnect_delay_ms
            &&& !second.0.connecting
            &&& second.0.sta_ssid == v.sta_ssid
            &&& second.0.sta_enabled
        }),
{
}

/// A try that was begun lasts until the network is joined, or fifteen seconds. Then it is ended,
/// and the next one comes after twice the delay, or after five seconds where that is sooner.
pub proof fn lemma_how_long_a_try_lasts(
    v: WifiView,
    begun_us: u64,
    now_us: u64,
    connected: Option<bool>,
)
    requires
        v.wf(),
        v.sta_enabled,
        begun_us + 15_000_000 <= u64::MAX,
        now_us + 5_000_000 <= u64::MAX,
    ensures
        ({
            let going = tried(v, begun_us, true);
            let next = polled(going, now_us, connected);
            let delay: int = if v.reconnect_delay_ms * 2 <= 5_000 {
                v.reconnect_delay_ms * 2
            } else {
                5_000
            };
            &&& going.connecting
            &&& going.sta_enabled
            &&& going.sta_ssid == v.sta_ssid
            &&& connected == Some(true) ==> {
                &&& next.1 == PollAction::Rest
                &&& !next.0.connecting
                &&& next.0.reconnect_delay_ms == 500
                &&& next.0.reconnect_at_us is None
                &&& next.0.connect_deadline_us is None
            }
            &&& connected != Some(true) && now_us < begun_us + 15_000_000 ==> next == (
                going,
                PollAction::Rest,
            )
            &&& connected != Some(true) && now_us >= begun_us + 15_000_000 ==> {
                &&& next.1 == PollAction::Disconnect
                &&& !next.0.connecting
                &&& next.0.reconnect_delay_ms == delay
                &&& next.0.reconnect_at_us is Some
                &&& next.0.reconnect_at_us->0 == now_us + delay * 1000
            }
            &&& next.0.sta_ssid == v.sta_ssid
            &&& next.0.sta_enabled
        }),
{
}

/// A try that could not be begun comes again after twice the delay, or after five seconds where
/// that is sooner.
pub proof fn lemma_a_try_that_fails_at_once(v: WifiView, now_us: u64)
    requires
        v.wf(),
        now_us + 5_000_000 <= u64::MAX,
    ensures
        ({
            let r = tried(v, now_us, false);
            let delay: int = if v.reconnect_delay_ms * 2 <= 5_000 {
                v.reconnect_delay_ms * 2
            } else {
                5_000
            };
            &&& r.reconnect_delay_ms == delay
            &&& r.reconnect_at_us is Some
            &&& r.reconnect_at_us->0 == now_us + delay * 1000
            &&& r.connecting == v.connecting
            &&& r.connect_deadline_us == v.connect_deadline_us
            &&& r.sta_enabled == v.sta_enabled
            &&& r.sta_ssid == v.sta_ssid
        }),
{
}

/// With the device's own network forced on, joining the other one is given fifteen seconds.
pub proof fn lemma_forcing_begins_a_try(v: WifiView, now_us: u64)
    requires
        v.sta_enabled,
        now_us + 15_000_000 <= u64::MAX,
    ensures
        ({
            let r = forced(v, now_us);
            &&& r.connecting
            &&& r.connect_deadline_us is Some
            &&& r.connect_deadline_us->0 == now_us + 15_000_000
            &&& r.reconnect_delay_ms == v.reconnect_delay_ms
            &&& r.reconnect_at_us == v.reconnect_at_us
            &&& r.sta_enabled
            &&& r.sta_ssid == v.sta_ssid
        }),
{
}

} // verus!
