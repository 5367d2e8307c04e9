//! The address of the remote control server.

use url::Url;
use vstd::prelude::*;

use crate::protocol::model::{RemoteControlStatus, RemoteControlStatusView};
use crate::protocol::settings::{DeviceSettings, DeviceSettingsView};
use crate::text::{push_text, same_text, trim};

verus! {

/// Whether the link to the server is encrypted.
#[derive(Debug, Clone, Copy, PartialEq, Eq, Structural)]
pub enum RemoteControlUrlKind {
    Ws,
    Wss,
}

// ----- The parser -----

/// What the parser reads out of the text of a URL.
#[derive(Debug)]
pub struct UrlParts {
    pub scheme: String,
    pub host: Option<String>,
    /// The URL, written out again.
    pub text: String,
}

pub struct UrlPartsView {
    pub scheme: Seq<char>,
    pub host: Option<Seq<char>>,
    pub text: Seq<char>,
}

impl DeepView for UrlParts {
    type V = UrlPartsView;

    open spec fn deep_view(&self) -> UrlPartsView {
        UrlPartsView { scheme: self.scheme@, host: self.host.deep_view(), text: self.text@ }
    }
}

/// A result of the parser in mathematical terms.
pub open spec fn parse_view(r: Result<UrlParts, String>) -> Result<UrlPartsView, Seq<char>> {
    match r {
        Ok(parts) => Ok(parts.deep_view()),
        Err(e) => Err(e@),
    }
}

/// What `Url::parse` makes of a text: the parts of the URL, or its error in words.
pub uninterp spec fn url_parsed(text: Seq<char>) -> Result<UrlPartsView, Seq<char>>;

/// `Url::parse` of the crate `url`: reads an absolute URL. Of the URL, `scheme`, `host_str` and
/// `as_str` are handed on; an error is handed on in the words of its `Display`. The result depends
/// on the text alone.
#[verifier::external_body]
fn parse_url(text: &str) -> (r: Result<UrlParts, String>)
    ensures
        parse_view(r) == url_parsed(text@),
{
    match Url::parse(text) {
        Ok(url) => Ok(
            UrlParts {
                scheme: url.scheme().to_string(),
                host: url.host_str().map(|host| host.to_string()),
                text: url.as_str().to_string(),
            },
        ),
        Err(e) => Err(e.to_string()),
    }
}

/// The URL with one more path segment behind an empty last one; nothing if the text is no URL or
/// its URL has no path segments.
pub uninterp spec fn url_extended(text: Seq<char>, segment: Seq<char>) -> Option<Seq<char>>;

/// `Url::path_segments_mut` of the crate `url`, with `pop_if_empty` and then `push`: drops an
/// empty last segment of the path and appends `segment`, percent-encoded. A URL that cannot be a
/// base has no segments to append to. The crate keeps positions in 32 bits and stops the program
/// where they overflow, so the texts are bounded.
#[verifier::external_body]
fn extend_url(text: &str, segment: &str) -> (r: Option<String>)
    requires
        text@.len() + segment@.len() <= MAX_URL_CHARS,
    ensures
        r.deep_view() == url_extended(text@, segment@),
{
    let mut url = Url::parse(text).ok()?;
    url.path_segments_mut().ok()?.pop_if_empty().push(segment);
    Some(url.to_string())
}

/// How long the text of a URL and a segment to append may be together. A character of a host can
/// stand for several that are each encoded, so the bound leaves room for many bytes a character.
pub const MAX_URL_CHARS: usize = 0x100_0000;

// ----- The rules -----

/// Which link a URL asks for, or what is wrong with it, given what the parser made of it.
pub open spec fn url_kind(trimmed: Seq<char>, parsed: Result<UrlPartsView, Seq<char>>) -> Result<
    RemoteControlUrlKind,
    Seq<char>,
> {
    if trimmed.len() == 0 {
        Err("Remote control URL host cannot be empty"@)
    } else {
        match parsed {
            Err(e) => Err("Invalid remote control URL: "@ + e),
            Ok(parts) => if parts.scheme != "ws"@ && parts.scheme != "wss"@ {
                Err("Remote control URL must start with ws:// or wss://"@)
            } else if parts.host is None {
                Err("Remote control URL host cannot be empty"@)
            } else if parts.scheme == "ws"@ {
                Ok(RemoteControlUrlKind::Ws)
            } else {
                Ok(RemoteControlUrlKind::Wss)
            },
        }
    }
}

/// Which link the text of a URL asks for, or what is wrong with it.
pub open spec fn remote_control_url_kind(url: Seq<char>) -> Result<
    RemoteControlUrlKind,
    Seq<char>,
> {
    let trimmed = crate::text::trimmed(url);
    url_kind(trimmed, url_parsed(trimmed))
}

/// Whether a result is as stated.
pub open spec fn kind_is(
    r: Result<RemoteControlUrlKind, String>,
    expected: Result<RemoteControlUrlKind, Seq<char>>,
) -> bool {
    match r {
        Ok(kind) => expected == Ok::<RemoteControlUrlKind, Seq<char>>(kind),
        Err(e) => expected == Err::<RemoteControlUrlKind, Seq<char>>(e@),
    }
}

/// Decides on a URL that the parser has read.
pub fn check_url(trimmed: &str, parsed: &Result<UrlParts, String>) -> (r: Result<
    RemoteControlUrlKind,
    String,
>)
    ensures
        kind_is(r, url_kind(trimmed@, parse_view(*parsed))),
{
    proof {
        reveal_strlit("");
        assert(""@ =~= Seq::empty());
        assert(trimmed@.len() == 0 ==> trimmed@ =~= ""@);
    }
    if same_text(trimmed, "") {
        return Err("Remote control URL host cannot be empty".to_owned());
    }
    match parsed {
        Err(e) => {
            let mut message = "Invalid remote control URL: ".to_owned();
            push_text(&mut message, e.as_str());
            Err(message)
        },
        Ok(parts) => {
            let ws = same_text(parts.scheme.as_str(), "ws");
            let wss = same_text(parts.scheme.as_str(), "wss");
            if !ws && !wss {
                return Err("Remote control URL must start with ws:// or wss://".to_owned());
            }
            if parts.host.is_none() {
                return Err("Remote control URL host cannot be empty".to_owned());
            }
            if ws {
                Ok(RemoteControlUrlKind::Ws)
            } else {
                Ok(RemoteControlUrlKind::Wss)
            }
        },
    }
}

/// Which link the text of a URL asks for, or what is wrong with it.
pub fn parse_remote_control_url(url: &str) -> (r: Result<RemoteControlUrlKind, String>)
    ensures
        kind_is(r, remote_control_url_kind(url@)),
{
    let trimmed = trim(url);
    check_url(trimmed.as_str(), &parse_url(trimmed.as_str()))
}

/// The address to connect to, given what the parser made of the URL and of the URL with the
/// identity of the device as its last path segment.
pub open spec fn endpoint(
    trimmed: Seq<char>,
    device_id: Seq<char>,
    parsed: Result<UrlPartsView, Seq<char>>,
    extended: Option<Seq<char>>,
) -> Result<(RemoteControlUrlKind, Seq<char>), Seq<char>> {
    match url_kind(trimmed, parsed) {
        Err(e) => Err(e),
        Ok(kind) => if device_id.len() == 0 {
            Ok((kind, parsed->Ok_0.text))
        } else {
            match extended {
                Some(text) => Ok((kind, text)),
                None => Err("Remote control URL cannot accept path segments"@),
            }
        },
    }
}

/// Whether a result is as stated.
pub open spec fn endpoint_is(
    r: Result<(RemoteControlUrlKind, String), String>,
    expected: Result<(RemoteControlUrlKind, Seq<char>), Seq<char>>,
) -> bool {
    match r {
        Ok((kind, text)) => expected == Ok::<(RemoteControlUrlKind, Seq<char>), Seq<char>>(
            (kind, text@),
        ),
        Err(e) => expected == Err::<(RemoteControlUrlKind, Seq<char>), Seq<char>>(e@),
    }
}

/// Decides on the address to connect to from what the parser has read.
pub fn choose_endpoint(
    trimmed: &str,
    device_id: &str,
    parsed: Result<UrlParts, String>,
    extended: Option<String>,
) -> (r: Result<(RemoteControlUrlKind, String), String>)
    ensures
        endpoint_is(
            r,
            endpoint(trimmed@, device_id@, parse_view(parsed), extended.deep_view()),
        ),
{
    let kind = match check_url(trimmed, &parsed) {
        Ok(kind) => kind,
        Err(e) => {
            return Err(e);
        },
    };
    proof {
        reveal_strlit("");
        assert(""@ =~= Seq::empty());
        assert(device_id@.len() == 0 ==> device_id@ =~= ""@);
    }
    if same_text(device_id, "") {
        return match parsed {
            Ok(parts) => Ok((kind, parts.text)),
            Err(e) => Err(e),
        };
    }
    match extended {
        Some(text) => Ok((kind, text)),
        None => Err("Remote control URL cannot accept path segments".to_owned()),
    }
}

/// The address that a device connects to: the URL of its settings, with the identity of the
/// device as the last path segment.
pub fn remote_control_endpoint_url(settings: &DeviceSettings) -> (r: Result<
    (RemoteControlUrlKind, String),
    String,
>)
    requires
        crate::text::trimmed(settings.remote_control_url@).len() + settings.device_id@.len()
            <= MAX_URL_CHARS,
    ensures
        ({
            let trimmed = crate::text::trimmed(settings.remote_control_url@);
            endpoint_is(
                r,
                endpoint(
                    trimmed,
                    settings.device_id@,
                    url_parsed(trimmed),
                    url_extended(trimmed, settings.device_id@),
                ),
            )
        }),
{
    let trimmed = trim(settings.remote_control_url.as_str());
    let parsed = parse_url(trimmed.as_str());
    proof {
        reveal_strlit("");
        assert(""@ =~= Seq::empty());
    }
    let extended = if same_text(settings.device_id.as_str(), "") {
        None
    } else {
        extend_url(trimmed.as_str(), settings.device_id.as_str())
    };
    choose_endpoint(trimmed.as_str(), settings.device_id.as_str(), parsed, extended)
}

// ----- The state of the link -----

/// The report on the link.
pub open spec fn status_report(
    settings: DeviceSettingsView,
    connected: bool,
    rtt_ms: Option<u32>,
    status_text: Seq<char>,
) -> RemoteControlStatusView {
    RemoteControlStatusView {
        enabled: settings.remote_control_enabled,
        connected,
        url: crate::text::trimmed(settings.remote_control_url),
        validate_cert: settings.remote_control_validate_cert,
        rtt_ms,
        status_text,
    }
}

/// What is said of a link that is not up, given what is known of its URL.
pub open spec fn initial_status_text(
    enabled: bool,
    trimmed: Seq<char>,
    kind: Result<RemoteControlUrlKind, Seq<char>>,
) -> Seq<char> {
    if !enabled {
        "Off"@
    } else if trimmed.len() == 0 {
        "Missing URL"@
    } else if kind is Err {
        "Invalid URL"@
    } else {
        "Connecting..."@
    }
}

/// The report on the link right after the settings changed.
pub open spec fn initial_status(settings: DeviceSettingsView) -> RemoteControlStatusView {
    status_report(
        settings,
        false,
        None,
        initial_status_text(
            settings.remote_control_enabled,
            crate::text::trimmed(settings.remote_control_url),
            remote_control_url_kind(settings.remote_control_url),
        ),
    )
}

pub fn remote_control_status(
    settings: &DeviceSettings,
    connected: bool,
    rtt_ms: Option<u32>,
    status_text: String,
) -> (r: RemoteControlStatus)
    ensures
        r.deep_view() == status_report(
            settings.deep_view(),
            connected,
            rtt_ms,
            status_text@,
        ),
{
    RemoteControlStatus {
        enabled: settings.remote_control_enabled,
        connected,
        url: trim(settings.remote_control_url.as_str()),
        validate_cert: settings.remote_control_validate_cert,
        rtt_ms,
        status_text,
    }
}

/// Says how a link that is not up stands, given what is known of its URL.
pub fn describe_url(
    enabled: bool,
    trimmed: &str,
    kind: &Result<RemoteControlUrlKind, String>,
) -> (r: String)
    ensures
        forall|expected: Result<RemoteControlUrlKind, Seq<char>>|
            #[trigger] kind_is(*kind, expected) ==> r@ == initial_status_text(
                enabled,
                trimmed@,
                expected,
            ),
{
    proof {
        reveal_strlit("");
        assert(""@ =~= Seq::empty());
        assert(trimmed@.len() == 0 ==> trimmed@ =~= ""@);
    }
    if !enabled {
        "Off".to_owned()
    } else if same_text(trimmed, "") {
        "Missing URL".to_owned()
    } else if kind.is_err() {
        "Invalid URL".to_owned()
    } else {
        "Connecting...".to_owned()
    }
}

/// The report on the link right after the settings changed.
pub fn remote_control_status_from_settings(settings: &DeviceSettings) -> (r: RemoteControlStatus)
    ensures
        r.deep_view() == initial_status(settings.deep_view()),
{
    let trimmed = trim(settings.remote_control_url.as_str());
    let kind = parse_remote_control_url(trimmed.as_str());
    proof {
        crate::text::lemma_trim_twice(settings.remote_control_url@);
    }
    let text = describe_url(settings.remote_control_enabled, trimmed.as_str(), &kind);
    assert(kind_is(kind, remote_control_url_kind(settings.remote_control_url@)));
    remote_control_status(settings, false, None, text)
}

// ----- What holds of it -----

/// A URL can be used exactly if it is not blank, can be parsed, asks for `ws` or `wss`, and names
/// a host. The link is encrypted exactly if it asks for `wss`.
pub proof fn lemma_what_a_url_needs(trimmed: Seq<char>, parsed: Result<UrlPartsView, Seq<char>>)
    ensures
        ({
            let r = url_kind(trimmed, parsed);
            let usable = trimmed.len() > 0 && parsed is Ok && (parsed->Ok_0.scheme == "ws"@
                || parsed->Ok_0.scheme == "wss"@) && parsed->Ok_0.host is Some;
            &&& r is Ok <==> usable
            &&& usable ==> (r->Ok_0 == RemoteControlUrlKind::Wss <==> parsed->Ok_0.scheme
                == "wss"@)
            &&& r is Err ==> r->Err_0 == if trimmed.len() == 0 {
                "Remote control URL host cannot be empty"@
            } else if parsed is Err {
                "Invalid remote control URL: "@ + parsed->Err_0
            } else if parsed->Ok_0.scheme == "ws"@ || parsed->Ok_0.scheme == "wss"@ {
                "Remote control URL host cannot be empty"@
            } else {
                "Remote control URL must start with ws:// or wss://"@
            }
        }),
{
    reveal_strlit("ws");
    reveal_strlit("wss");
    assert("ws"@.len() != "wss"@.len());
}

/// Blanks around a URL make no difference to it.
pub proof fn lemma_blanks_around_a_url(url: Seq<char>)
    ensures
        remote_control_url_kind(crate::text::trimmed(url)) == remote_control_url_kind(url),
        remote_control_url_kind(url) == url_kind(
            crate::text::trimmed(url),
            url_parsed(crate::text::trimmed(url)),
        ),
{
    crate::text::lemma_trim_twice(url);
}

/// A device connects to the URL with its identity as the last path segment; one without an
/// identity connects to the URL itself. There is no address where the URL cannot be used, nor
/// where it takes no path segments and the device has an identity.
pub proof fn lemma_address_of_a_device(
    trimmed: Seq<char>,
    device_id: Seq<char>,
    parsed: Result<UrlPartsView, Seq<char>>,
    extended: Option<Seq<char>>,
)
    ensures
        ({
            let r = endpoint(trimmed, device_id, parsed, extended);
            let kind = url_kind(trimmed, parsed);
            &&& kind is Err ==> r is Err && r->Err_0 == kind->Err_0
            &&& kind is Ok && device_id.len() == 0 ==> r is Ok && r->Ok_0.0 == kind->Ok_0
                && r->Ok_0.1 == parsed->Ok_0.text
            &&& kind is Ok && device_id.len() > 0 && extended is Some ==> r is Ok && r->Ok_0.0
                == kind->Ok_0 && r->Ok_0.1 == extended->0
            &&& kind is Ok && device_id.len() > 0 && extended is None ==> r is Err && r->Err_0
                == "Remote control URL cannot accept path segments"@
        }),
{
}

/// A link that was set up anew is not up; what is said of it follows from the settings alone.
pub proof fn lemma_link_begins_anew(s: DeviceSettingsView)
    ensures
        ({
            let r = initial_status(s);
            let kind = remote_control_url_kind(s.remote_control_url);
            &&& r.enabled == s.remote_control_enabled
            &&& !r.connected
            &&& r.rtt_ms is None
            &&& r.url == crate::text::trimmed(s.remote_control_url)
            &&& r.validate_cert == s.remote_control_validate_cert
            &&& r.status_text == if !s.remote_control_enabled {
                "Off"@
            } else if crate::text::is_blank(s.remote_control_url) {
                "Missing URL"@
            } else if kind is Err {
                "Invalid URL"@
            } else {
                "Connecting..."@
            }
        }),
{
    crate::text::lemma_blank_is_trimmed_empty(s.remote_control_url);
}

/// A report on the link repeats what it was given, and the settings.
pub proof fn lemma_report_repeats(
    s: DeviceSettingsView,
    connected: bool,
    rtt_ms: Option<u32>,
    status_text: Seq<char>,
)
    ensures
        ({
            let r = status_report(s, connected, rtt_ms, status_text);
            &&& r.enabled == s.remote_control_enabled
            &&& r.connected == connected
            &&& r.rtt_ms == rtt_ms
            &&& r.url == crate::text::trimmed(s.remote_control_url)
            &&& r.validate_cert == s.remote_control_validate_cert
            &&& r.status_text == status_text
        }),
{
}

} // verus!
