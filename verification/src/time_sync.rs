//! Keeping the clock right.

use vstd::prelude::*;

use crate::protocol::settings::{DeviceSettings, DeviceSettingsView};
use crate::text::{blank, trim};

verus! {

pub const DAILY_SYNC_INTERVAL_MS: u32 = 86_400_000;

/// The server to ask for the time: none, where the clock is not to be set.
pub open spec fn time_server(s: DeviceSettingsView) -> Result<Option<Seq<char>>, Seq<char>> {
    if !s.ntp_enabled {
        Ok(None)
    } else if crate::text::trimmed(s.ntp_server).len() == 0 {
        Err("NTP server cannot be empty when time sync is enabled"@)
    } else {
        Ok(Some(crate::text::trimmed(s.ntp_server)))
    }
}

/// Plans whom to ask for the time.
pub fn plan_time_sync(settings: &DeviceSettings) -> (r: Result<Option<String>, String>)
    ensures
        match (r, time_server(settings.deep_view())) {
            (Ok(got), Ok(server)) => got.deep_view() == server,
            (Err(got), Err(message)) => got@ == message,
            _ => false,
        },
{
    proof {
        crate::text::lemma_blank_is_trimmed_empty(settings.ntp_server@);
    }
    if !settings.ntp_enabled {
        return Ok(None);
    }
    if blank(settings.ntp_server.as_str()) {
        return Err("NTP server cannot be empty when time sync is enabled".to_owned());
    }
    Ok(Some(trim(settings.ntp_server.as_str())))
}

/// A server is asked for the time exactly if the clock is to be set and a server is named; where
/// it is to be set and none is named, that is an error.
pub proof fn lemma_who_is_asked_for_the_time(s: DeviceSettingsView)
    ensures
        ({
            let r = time_server(s);
            let named = !crate::text::is_blank(s.ntp_server);
            &&& !s.ntp_enabled ==> r == Ok::<Option<Seq<char>>, Seq<char>>(None)
            &&& s.ntp_enabled && named ==> r == Ok::<Option<Seq<char>>, Seq<char>>(
                Some(crate::text::trimmed(s.ntp_server)),
            )
            &&& s.ntp_enabled && !named ==> r == Err::<Option<Seq<char>>, Seq<char>>(
                "NTP server cannot be empty when time sync is enabled"@,
            )
        }),
{
    crate::text::lemma_blank_is_trimmed_empty(s.ntp_server);
}

} // verus!
