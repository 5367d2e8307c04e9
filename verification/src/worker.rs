//! The worker that owns the state of the device.

use vstd::prelude::*;

use crate::error::{ControlError, ControlErrorView};
use crate::protocol::event_log::{EventLogEntry, EventLogEntryKind, EventLogEntryView, EventSource};
use crate::protocol::model::{Collar, ExportData, Preset, RfDebugFrame};
use crate::protocol::settings::DeviceSettings;
use crate::repository::{AppRepository, Call, RepositoryServices, Write};
use crate::scheduling::PresetEvent;
use crate::services::{
    CollarService, DataService, EventLogService, ExecutionService, MqttService, PresetService,
    RemoteControlService, RfDebugService, SettingsService, RF_STOP_LOCKOUT_MS,
};
use crate::session::{AppCommand, Reply, TransmissionCommand};
use crate::state::{DomainState, DomainView};

verus! {

/// What follows from a command, for other parts of the device to do.
#[derive(Debug)]
pub enum Effect {
    /// Tell the worker that owns the transmitter.
    Transmit(TransmissionCommand),
    /// Tell all clients how collars, presets, the running preset and the lockout stand.
    BroadcastState,
    /// Tell all clients how the link to the remote control server stands.
    BroadcastRemoteControlStatus,
    /// Tell all clients how the link to the MQTT broker stands.
    BroadcastMqttStatus,
    /// Tell all clients what the event log holds.
    BroadcastEventLog,
    /// Tell all clients of a new entry in the event log.
    BroadcastEventLogEntry(EventLogEntry),
    /// Tell all clients that listen of a frame that was heard.
    BroadcastRfDebugEvent(RfDebugFrame),
    /// Set up the link to the remote control server anew.
    ReconnectRemoteControl,
    /// Set up the link to the MQTT broker anew.
    ReconnectMqtt,
}

/// What the clocks show.
#[derive(Debug, Clone, Copy, PartialEq, Eq, Structural)]
pub struct Clock {
    pub now_ms: u64,
    pub unix_ms: Option<u64>,
}

/// Before this the clock of the calendar has not been set.
pub const VALID_UNIX_TIME_THRESHOLD_MS: u64 = 946_684_800_000;

/// The time of the calendar, once it has been set.
pub fn current_unix_ms(since_epoch_ms: u64) -> (r: Option<u64>)
    ensures
        r == if since_epoch_ms >= VALID_UNIX_TIME_THRESHOLD_MS {
            Some(since_epoch_ms)
        } else {
            None
        },
{
    if since_epoch_ms >= VALID_UNIX_TIME_THRESHOLD_MS {
        Some(since_epoch_ms)
    } else {
        None
    }
}

/// The answer to a command and what follows from it.
#[derive(Debug)]
pub struct Handled {
    pub reply: Result<Option<Reply>, ControlError>,
    pub effects: Vec<Effect>,
}

impl Handled {
    /// Whether the command was carried out and nothing is to be answered.
    pub open spec fn done(self) -> bool {
        self.reply == Ok::<Option<Reply>, ControlError>(None)
    }

    /// Whether the command was refused and has no effect.
    pub open spec fn refused(self, e: ControlErrorView) -> bool {
        self.reply is Err && self.reply->Err_0.deep_view() == e && self.effects@.len() == 0
    }

    /// Whether the command was carried out but not all could be stored.
    pub open spec fn not_stored(self, operation: Seq<char>) -> bool {
        self.reply is Err && (self.reply->Err_0.deep_view() matches ControlErrorView::Persistence {
            operation: o,
            ..
        } && o == operation)
    }
}

/// The effects that stop what is being transmitted.
pub open spec fn stops(preset: bool, actions: bool) -> Seq<Effect> {
    let first = if preset {
        seq![Effect::Transmit(TransmissionCommand::StopPreset)]
    } else {
        Seq::empty()
    };
    if actions {
        first.push(Effect::Transmit(TransmissionCommand::CancelAllActions))
    } else {
        first
    }
}

/// The outcome of a change to the collars: what is being transmitted is stopped where it has to
/// be, collars and then presets are stored, and all clients are told.
pub open spec fn collars_changed(
    h: Handled,
    before: DomainView,
    after: DomainView,
    change: Result<DomainView, ControlErrorView>,
    stops_actions: bool,
    stores_presets: bool,
) -> bool {
    match change {
        Err(e) => h.refused(e) && after == before,
        Ok(changed) => {
            let stopping = stops(stops_actions && before.preset_name is Some, stops_actions);
            &&& after == changed
            &&& if h.reply is Ok {
                h.done() && h.effects@ == stopping.push(Effect::BroadcastState)
            } else {
                &&& h.not_stored("save collars"@) || (stores_presets && h.not_stored(
                    "save presets"@,
                ))
                &&& h.effects@ == stopping
            }
        },
    }
}

/// The outcome of a change to the presets.
pub open spec fn presets_changed(
    h: Handled,
    before: DomainView,
    after: DomainView,
    change: Result<DomainView, ControlErrorView>,
    stops_preset: bool,
) -> bool {
    match change {
        Err(e) => h.refused(e) && after == before,
        Ok(changed) => {
            let stopping = stops(stops_preset && before.preset_name is Some, false);
            &&& after == changed
            &&& if h.reply is Ok {
                h.done() && h.effects@ == stopping.push(Effect::BroadcastState)
            } else {
                h.not_stored("save presets"@) && h.effects@ == stopping
            }
        },
    }
}

/// What a change to the collars has to keep.
pub open spec fn collar_writes(
    change: Result<DomainView, ControlErrorView>,
    stores_presets: bool,
) -> Seq<Write> {
    match change {
        Err(_) => Seq::empty(),
        Ok(changed) => if stores_presets {
            seq![Write::Collars(changed.collars), Write::Presets(changed.presets)]
        } else {
            seq![Write::Collars(changed.collars)]
        },
    }
}

/// What a change to the presets has to keep.
pub open spec fn preset_writes(change: Result<DomainView, ControlErrorView>) -> Seq<Write> {
    match change {
        Err(_) => Seq::empty(),
        Ok(changed) => seq![Write::Presets(changed.presets)],
    }
}

/// Whether a repository was asked to keep all this in this order, up to the first thing that it
/// could not keep; the answer tells of that failure, and of no other.
pub open spec fn stores<R: AppRepository>(
    before: R,
    after: R,
    reply: Result<Option<Reply>, ControlError>,
    writes: Seq<Write>,
) -> bool {
    let failure = crate::repository::not_persisted(reply);
    let calls = after.calls().skip(before.calls().len() as int);
    before.keeps_record() ==> {
        &&& after.keeps_record()
        &&& after.calls() == before.calls() + calls
        &&& calls.len() <= writes.len()
        &&& forall|i: int|
            0 <= i < calls.len() ==> #[trigger] calls[i] == (Call::Save {
                write: writes[i],
                failure: if i + 1 == calls.len() {
                    failure
                } else {
                    None
                },
            })
        &&& calls.len() < writes.len() ==> failure is Some
        &&& failure is Some ==> calls.len() > 0 && crate::repository::ran(
            reply,
            writes[calls.len() - 1].operation(),
        )
    }
}

/// What one call keeps.
proof fn lemma_stores_one<R: AppRepository>(
    before: R,
    after: R,
    reply: Result<Option<Reply>, ControlError>,
    writes: Seq<Write>,
)
    requires
        writes.len() > 0,
        crate::repository::called(
            before,
            after,
            Call::Save {
                write: writes[0],
                failure: crate::repository::not_persisted(reply),
            },
        ),
        crate::repository::ran(reply, writes[0].operation()),
        reply is Ok ==> writes.len() == 1,
    ensures
        stores(before, after, reply, writes),
{
    if before.keeps_record() {
        let calls = after.calls().skip(before.calls().len() as int);
        assert(after.calls() =~= before.calls() + calls);
    }
}

/// What two calls keep.
proof fn lemma_stores_two<R: AppRepository>(
    before: R,
    between: R,
    after: R,
    reply: Result<Option<Reply>, ControlError>,
    writes: Seq<Write>,
)
    requires
        writes.len() == 2,
        crate::repository::called(
            before,
            between,
            Call::Save { write: writes[0], failure: None },
        ),
        crate::repository::called(
            between,
            after,
            Call::Save {
                write: writes[1],
                failure: crate::repository::not_persisted(reply),
            },
        ),
        crate::repository::ran(reply, writes[1].operation()),
    ensures
        stores(before, after, reply, writes),
{
    if before.keeps_record() {
        let calls = after.calls().skip(before.calls().len() as int);
        assert(after.calls() =~= before.calls() + calls);
    }
}

/// Where nothing is to be kept, nothing is called.
proof fn lemma_stores_none<R: AppRepository>(
    repository: R,
    reply: Result<Option<Reply>, ControlError>,
)
    requires
        crate::repository::not_persisted(reply) is None,
    ensures
        stores(repository, repository, reply, Seq::empty()),
{
    let calls = repository.calls().skip(repository.calls().len() as int);
    assert(repository.calls() =~= repository.calls() + calls);
}

fn keep_collars<R: AppRepository>(
    repository: &mut RepositoryServices<R>,
    collars: &Vec<Collar>,
) -> (r: Result<(), ControlError>)
    ensures
        crate::repository::ran(r, "save collars"@),
        crate::repository::called(
            old(repository).repository,
            final(repository).repository,
            Call::Save {
                write: Write::Collars(collars.deep_view()),
                failure: crate::repository::not_persisted(r),
            },
        ),
{
    let slice = collars.as_slice();
    assert(slice.deep_view() =~= collars.deep_view());
    repository.save_collars(slice)
}

fn keep_presets<R: AppRepository>(
    repository: &mut RepositoryServices<R>,
    presets: &Vec<Preset>,
) -> (r: Result<(), ControlError>)
    ensures
        crate::repository::ran(r, "save presets"@),
        crate::repository::called(
            old(repository).repository,
            final(repository).repository,
            Call::Save {
                write: Write::Presets(presets.deep_view()),
                failure: crate::repository::not_persisted(r),
            },
        ),
{
    let slice = presets.as_slice();
    assert(slice.deep_view() =~= presets.deep_view());
    repository.save_presets(slice)
}

fn push_stops(effects: &mut Vec<Effect>, preset: bool, actions: bool)
    requires
        old(effects)@.len() == 0,
    ensures
        final(effects)@ == stops(preset, actions),
{
    if preset {
        effects.push(Effect::Transmit(TransmissionCommand::StopPreset));
    }
    if actions {
        effects.push(Effect::Transmit(TransmissionCommand::CancelAllActions));
    }
    assert(effects@ =~= stops(preset, actions));
}

fn done(effects: Vec<Effect>) -> (r: Handled)
    ensures
        r.done(),
        r.effects == effects,
{
    Handled { reply: Ok(None), effects }
}

fn failed(e: ControlError, effects: Vec<Effect>) -> (r: Handled)
    ensures
        r.reply == Err::<Option<Reply>, ControlError>(e),
        r.effects == effects,
{
    Handled { reply: Err(e), effects }
}

pub fn handle_add_collar<R: AppRepository>(
    domain: &mut DomainState,
    repository: &mut RepositoryServices<R>,
    collar: Collar,
) -> (r: Handled)
    ensures
        collars_changed(
            r,
            old(domain).deep_view(),
            final(domain).deep_view(),
            crate::services::collar_added(old(domain).deep_view(), collar.deep_view()),
            false,
            false,
        ),
        stores(
            old(repository).repository,
            final(repository).repository,
            r.reply,
            collar_writes(
                crate::services::collar_added(old(domain).deep_view(), collar.deep_view()),
                false,
            ),
        ),
{
    let ghost writes = collar_writes(
        crate::services::collar_added(old(domain).deep_view(), collar.deep_view()),
        false,
    );
    let ghost first = repository.repository;
    let mut effects: Vec<Effect> = Vec::new();
    let change = match CollarService::add(domain, collar) {
        Ok(change) => change,
        Err(e) => {
            let r = failed(e, effects);
            proof {
                lemma_stores_none(first, r.reply);
            }
            return r;
        },
    };
    assert(effects@ =~= stops(false, false));
    if let Err(e) = keep_collars(repository, &change.collars) {
        let r = failed(e, effects);
        proof {
            lemma_stores_one(first, repository.repository, r.reply, writes);
        }
        return r;
    }
    effects.push(Effect::BroadcastState);
    let r = done(effects);
    proof {
        lemma_stores_one(first, repository.repository, r.reply, writes);
    }
    r
}

pub fn handle_update_collar<R: AppRepository>(
    domain: &mut DomainState,
    repository: &mut RepositoryServices<R>,
    original_name: String,
    updated: Collar,
) -> (r: Handled)
    ensures
        collars_changed(
            r,
            old(domain).deep_view(),
            final(domain).deep_view(),
            crate::services::collar_updated(
                old(domain).deep_view(),
                original_name@,
                updated.deep_view(),
            ),
            true,
            original_name@ != updated.name@,
        ),
        stores(
            old(repository).repository,
            final(repository).repository,
            r.reply,
            collar_writes(
                crate::services::collar_updated(
                    old(domain).deep_view(),
                    original_name@,
                    updated.deep_view(),
                ),
                original_name@ != updated.name@,
            ),
        ),
{
    let ghost writes = collar_writes(
        crate::services::collar_updated(
            old(domain).deep_view(),
            original_name@,
            updated.deep_view(),
        ),
        original_name@ != updated.name@,
    );
    let ghost first = repository.repository;
    let mut effects: Vec<Effect> = Vec::new();
    let change = match CollarService::update(domain, original_name, updated) {
        Ok(change) => change,
        Err(e) => {
            let r = failed(e, effects);
            proof {
                lemma_stores_none(first, r.reply);
            }
            return r;
        },
    };
    push_stops(&mut effects, change.preset_stopped, change.cancel_manual_actions);
    if let Err(e) = keep_collars(repository, &change.collars) {
        let r = failed(e, effects);
        proof {
            lemma_stores_one(first, repository.repository, r.reply, writes);
        }
        return r;
    }
    let ghost between = repository.repository;
    if let Some(presets) = change.presets {
        if let Err(e) = keep_presets(repository, &presets) {
            let r = failed(e, effects);
            proof {
                lemma_stores_two(first, between, repository.repository, r.reply, writes);
            }
            return r;
        }
    }
    effects.push(Effect::BroadcastState);
    let r = done(effects);
    proof {
        if writes.len() == 2 {
            lemma_stores_two(first, between, repository.repository, r.reply, writes);
        } else {
            lemma_stores_one(first, repository.repository, r.reply, writes);
        }
    }
    r
}

pub fn handle_delete_collar<R: AppRepository>(
    domain: &mut DomainState,
    repository: &mut RepositoryServices<R>,
    name: String,
) -> (r: Handled)
    ensures
        collars_changed(
            r,
            old(domain).deep_view(),
            final(domain).deep_view(),
            crate::services::collar_deleted(old(domain).deep_view(), name@),
            true,
            false,
        ),
        stores(
            old(repository).repository,
            final(repository).repository,
            r.reply,
            collar_writes(
                crate::services::collar_deleted(old(domain).deep_view(), name@),
                false,
            ),
        ),
{
    let ghost writes = collar_writes(
        crate::services::collar_deleted(old(domain).deep_view(), name@),
        false,
    );
    let ghost first = repository.repository;
    let mut effects: Vec<Effect> = Vec::new();
    let change = match CollarService::delete(domain, name) {
        Ok(change) => change,
        Err(e) => {
            let r = failed(e, effects);
            proof {
                lemma_stores_none(first, r.reply);
            }
            return r;
        },
    };
    push_stops(&mut effects, change.preset_stopped, change.cancel_manual_actions);
    if let Err(e) = keep_collars(repository, &change.collars) {
        let r = failed(e, effects);
        proof {
            lemma_stores_one(first, repository.repository, r.reply, writes);
        }
        return r;
    }
    effects.push(Effect::BroadcastState);
    let r = done(effects);
    proof {
        lemma_stores_one(first, repository.repository, r.reply, writes);
    }
    r
}

pub fn handle_save_preset<R: AppRepository>(
    domain: &mut DomainState,
    repository: &mut RepositoryServices<R>,
    original_name: Option<String>,
    preset: Preset,
) -> (r: Handled)
    ensures
        presets_changed(
            r,
            old(domain).deep_view(),
            final(domain).deep_view(),
            crate::services::preset_saved(
                old(domain).deep_view(),
                original_name.deep_view(),
                preset.deep_view(),
            ),
            true,
        ),
        stores(
            old(repository).repository,
            final(repository).repository,
            r.reply,
            preset_writes(
                crate::services::preset_saved(
                    old(domain).deep_view(),
                    original_name.deep_view(),
                    preset.deep_view(),
                ),
            ),
        ),
{
    let ghost writes = preset_writes(
        crate::services::preset_saved(
            old(domain).deep_view(),
            original_name.deep_view(),
            preset.deep_view(),
        ),
    );
    let ghost first = repository.repository;
    let mut effects: Vec<Effect> = Vec::new();
    let change = match PresetService::save(domain, original_name, preset) {
        Ok(change) => change,
        Err(e) => {
            let r = failed(e, effects);
            proof {
                lemma_stores_none(first, r.reply);
            }
            return r;
        },
    };
    push_stops(&mut effects, change.preset_stopped, false);
    if let Err(e) = keep_presets(repository, &change.presets) {
        let r = failed(e, effects);
        proof {
            lemma_stores_one(first, repository.repository, r.reply, writes);
        }
        return r;
    }
    effects.push(Effect::BroadcastState);
    let r = done(effects);
    proof {
        lemma_stores_one(first, repository.repository, r.reply, writes);
    }
    r
}

pub fn handle_delete_preset<R: AppRepository>(
    domain: &mut DomainState,
    repository: &mut RepositoryServices<R>,
    name: String,
) -> (r: Handled)
    ensures
        presets_changed(
            r,
            old(domain).deep_view(),
            final(domain).deep_view(),
            crate::services::preset_deleted(old(domain).deep_view(), name@),
            true,
        ),
        stores(
            old(repository).repository,
            final(repository).repository,
            r.reply,
            preset_writes(
                crate::services::preset_deleted(old(domain).deep_view(), name@),
            ),
        ),
{
    let ghost writes = preset_writes(
        crate::services::preset_deleted(old(domain).deep_view(), name@),
    );
    let ghost first = repository.repository;
    let mut effects: Vec<Effect> = Vec::new();
    let change = match PresetService::delete(domain, name) {
        Ok(change) => change,
        Err(e) => {
            let r = failed(e, effects);
            proof {
                lemma_stores_none(first, r.reply);
            }
            return r;
        },
    };
    push_stops(&mut effects, change.preset_stopped, false);
    if let Err(e) = keep_presets(repository, &change.presets) {
        let r = failed(e, effects);
        proof {
            lemma_stores_one(first, repository.repository, r.reply, writes);
        }
        return r;
    }
    effects.push(Effect::BroadcastState);
    let r = done(effects);
    proof {
        lemma_stores_one(first, repository.repository, r.reply, writes);
    }
    r
}

pub fn handle_reorder_presets<R: AppRepository>(
    domain: &mut DomainState,
    repository: &mut RepositoryServices<R>,
    names: Vec<String>,
) -> (r: Handled)
    ensures
        presets_changed(
            r,
            old(domain).deep_view(),
            final(domain).deep_view(),
            Ok(
                DomainView {
                    presets: crate::services::reordered(
                        old(domain).deep_view().presets,
                        names.deep_view(),
                    ),
                    ..old(domain).deep_view()
                },
            ),
            false,
        ),
        stores(
            old(repository).repository,
            final(repository).repository,
            r.reply,
            seq![
                Write::Presets(
                    crate::services::reordered(
                        old(domain).deep_view().presets,
                        names.deep_view(),
                    ),
                ),
            ],
        ),
{
    let ghost writes = seq![
        Write::Presets(
            crate::services::reordered(
                old(domain).deep_view().presets,
                names.deep_view(),
            ),
        ),
    ];
    let ghost first = repository.repository;
    let mut effects: Vec<Effect> = Vec::new();
    let change = PresetService::reorder(domain, names);
    assert(effects@ =~= stops(false, false));
    if let Err(e) = keep_presets(repository, &change.presets) {
        let r = failed(e, effects);
        proof {
            lemma_stores_one(first, repository.repository, r.reply, writes);
        }
        return r;
    }
    effects.push(Effect::BroadcastState);
    let r = done(effects);
    proof {
        lemma_stores_one(first, repository.repository, r.reply, writes);
    }
    r
}

pub fn handle_import_data<R: AppRepository>(
    domain: &mut DomainState,
    repository: &mut RepositoryServices<R>,
    data: ExportData,
) -> (r: Handled)
    ensures
        collars_changed(
            r,
            old(domain).deep_view(),
            final(domain).deep_view(),
            Ok(
                DomainView {
                    collars: data.deep_view().collars,
                    presets: data.deep_view().presets,
                    preset_name: None,
                    ..old(domain).deep_view()
                },
            ),
            true,
            true,
        ),
        stores(
            old(repository).repository,
            final(repository).repository,
            r.reply,
            seq![
                Write::Collars(data.deep_view().collars),
                Write::Presets(data.deep_view().presets),
            ],
        ),
{
    let ghost writes = seq![
        Write::Collars(data.deep_view().collars),
        Write::Presets(data.deep_view().presets),
    ];
    let ghost first = repository.repository;
    let mut effects: Vec<Effect> = Vec::new();
    let change = DataService::import(domain, data);
    push_stops(&mut effects, change.preset_stopped, change.cancel_manual_actions);
    if let Err(e) = keep_collars(repository, &change.collars) {
        let r = failed(e, effects);
        proof {
            lemma_stores_one(first, repository.repository, r.reply, writes);
        }
        return r;
    }
    let ghost between = repository.repository;
    if let Err(e) = keep_presets(repository, &change.presets) {
        let r = failed(e, effects);
        proof {
            lemma_stores_two(first, between, repository.repository, r.reply, writes);
        }
        return r;
    }
    effects.push(Effect::BroadcastState);
    let r = done(effects);
    proof {
        lemma_stores_two(first, between, repository.repository, r.reply, writes);
    }
    r
}

/// The effects of new settings before they are stored.
pub open spec fn reconnects(remote: bool, mqtt: bool) -> Seq<Effect> {
    let first = if remote {
        seq![Effect::ReconnectRemoteControl]
    } else {
        Seq::empty()
    };
    if mqtt {
        first.push(Effect::ReconnectMqtt)
    } else {
        first
    }
}

/// The effects of new settings after they were stored.
pub open spec fn announcements(remote: bool, mqtt: bool, log: bool) -> Seq<Effect> {
    let first = if remote {
        seq![Effect::BroadcastRemoteControlStatus]
    } else {
        Seq::empty()
    };
    let second = if mqtt {
        first.push(Effect::BroadcastMqttStatus)
    } else {
        first
    };
    if log {
        second.push(Effect::BroadcastEventLog)
    } else {
        second
    }
}

/// The outcome of new settings: links that they change are set up anew, the settings are stored,
/// the clients are told what changed, and the answer repeats the settings.
pub open spec fn settings_changed(
    h: Handled,
    before: DomainView,
    after: DomainView,
    settings: DeviceSettings,
) -> bool {
    let s = settings.deep_view();
    let remote = crate::services::remote_changed(before.device_settings, s);
    let mqtt = crate::services::mqtt_changed(before.device_settings, s);
    let log = before.device_settings.record_event_log != s.record_event_log;
    &&& after == crate::services::settings_applied(before, s)
    &&& match h.reply {
        Ok(reply) => {
            &&& reply == Some(
                Reply::DeviceSettings {
                    settings,
                    reboot_required: crate::services::reboot_needed(before.device_settings, s),
                },
            )
            &&& h.effects@ == reconnects(remote, mqtt) + announcements(remote, mqtt, log)
        },
        Err(_) => h.not_stored("save settings"@) && h.effects@ == reconnects(remote, mqtt),
    }
}

pub fn handle_save_device_settings<R: AppRepository>(
    domain: &mut DomainState,
    repository: &mut RepositoryServices<R>,
    settings: DeviceSettings,
) -> (r: Handled)
    ensures
        settings_changed(r, old(domain).deep_view(), final(domain).deep_view(), settings),
        stores(
            old(repository).repository,
            final(repository).repository,
            r.reply,
            seq![Write::Settings(settings.deep_view())],
        ),
{
    let ghost writes = seq![Write::Settings(settings.deep_view())];
    let ghost first = repository.repository;
    let change = SettingsService::apply(domain, settings);
    let mut effects: Vec<Effect> = Vec::new();
    if change.remote_settings_changed {
        effects.push(Effect::ReconnectRemoteControl);
    }
    if change.mqtt_settings_changed {
        effects.push(Effect::ReconnectMqtt);
    }
    assert(effects@ =~= reconnects(change.remote_settings_changed, change.mqtt_settings_changed));
    if let Err(e) = repository.save_settings(&change.settings) {
        let r = failed(e, effects);
        proof {
            lemma_stores_one(first, repository.repository, r.reply, writes);
        }
        return r;
    }
    let ghost early = effects@;
    if change.remote_settings_changed {
        effects.push(Effect::BroadcastRemoteControlStatus);
    }
    if change.mqtt_settings_changed {
        effects.push(Effect::BroadcastMqttStatus);
    }
    if change.event_log_changed {
        effects.push(Effect::BroadcastEventLog);
    }
    assert(effects@ =~= early + announcements(
        change.remote_settings_changed,
        change.mqtt_settings_changed,
        change.event_log_changed,
    ));
    let r = Handled {
        reply: Ok(
            Some(
                Reply::DeviceSettings {
                    settings: change.settings,
                    reboot_required: change.reboot_required,
                },
            ),
        ),
        effects,
    };
    proof {
        lemma_stores_one(first, repository.repository, r.reply, writes);
    }
    r
}

/// An event as it is logged.
pub open spec fn logged(
    sequence: u32,
    clock: Clock,
    source: EventSource,
    kind: EventLogEntryKind,
) -> EventLogEntryView {
    EventLogEntryView {
        sequence: (sequence + 1) as u64,
        monotonic_ms: clock.now_ms,
        unix_ms: clock.unix_ms,
        source,
        kind: kind.deep_view(),
    }
}

/// The state after an event was logged, if events are logged.
pub open spec fn with_logged(d: DomainView, entry: EventLogEntryView) -> DomainView {
    if d.device_settings.record_event_log {
        DomainView {
            event_log_events: crate::services::last_items(
                d.event_log_events.push(entry),
                crate::services::MAX_EVENT_LOG_ENTRIES as int,
            ),
            ..d
        }
    } else {
        d
    }
}

/// Logs an event under the next number, if events are logged.
fn log_event(
    domain: &mut DomainState,
    sequence: &mut u32,
    clock: Clock,
    source: EventSource,
    kind: EventLogEntryKind,
) -> (r: Option<EventLogEntry>)
    requires
        *old(sequence) < u32::MAX,
    ensures
        final(domain).deep_view() == with_logged(
            old(domain).deep_view(),
            logged(*old(sequence), clock, source, kind),
        ),
        r is Some <==> old(domain).device_settings.record_event_log,
        r matches Some(entry) ==> entry.deep_view() == logged(*old(sequence), clock, source, kind),
        *final(sequence) == if r is Some {
            (*old(sequence) + 1) as u32
        } else {
            *old(sequence)
        },
{
    let next: u64 = *sequence as u64 + 1;
    let next_sequence = || -> (n: u64)
        ensures
            n == next,
        { next };
    let entry = EventLogService::append(
        domain,
        next_sequence,
        clock.now_ms,
        clock.unix_ms,
        source,
        kind,
    );
    if entry.is_some() {
        *sequence = *sequence + 1;
    }
    entry
}

/// The outcome of starting a preset: the transmitter is told, the run is logged, and all clients
/// are told.
pub open spec fn preset_started(
    h: Handled,
    before: DomainView,
    after: DomainView,
    entry: EventLogEntryView,
    preset_name: String,
    events: Vec<PresetEvent>,
) -> bool {
    let running = DomainView { preset_name: Some(preset_name@), ..before };
    &&& after == with_logged(running, entry)
    &&& h.done()
    &&& h.effects@.len() == if before.device_settings.record_event_log {
        3int
    } else {
        2
    }
    &&& h.effects@[0] == Effect::Transmit(TransmissionCommand::StartPreset { preset_name, events })
    &&& before.device_settings.record_event_log ==> (
    h.effects@[1] matches Effect::BroadcastEventLogEntry(told) && told.deep_view() == entry)
    &&& h.effects@.last() == Effect::BroadcastState
}

pub fn handle_start_preset_execution(
    domain: &mut DomainState,
    sequence: &mut u32,
    clock: Clock,
    preset_name: String,
    source: EventSource,
    resolved_preset: Option<Preset>,
    events: Vec<PresetEvent>,
) -> (r: Handled)
    requires
        *old(sequence) < u32::MAX,
    ensures
        preset_started(
            r,
            old(domain).deep_view(),
            final(domain).deep_view(),
            logged(
                *old(sequence),
                clock,
                source,
                EventLogEntryKind::PresetRun { preset_name, resolved_preset },
            ),
            preset_name,
            events,
        ),
        *final(sequence) == if old(domain).device_settings.record_event_log {
            (*old(sequence) + 1) as u32
        } else {
            *old(sequence)
        },
{
    let mut effects: Vec<Effect> = Vec::new();
    ExecutionService::start_preset(domain, preset_name.clone());
    effects.push(
        Effect::Transmit(
            TransmissionCommand::StartPreset { preset_name: preset_name.clone(), events },
        ),
    );
    if let Some(entry) = log_event(
        domain,
        sequence,
        clock,
        source,
        EventLogEntryKind::PresetRun { preset_name, resolved_preset },
    ) {
        effects.push(Effect::BroadcastEventLogEntry(entry));
    }
    effects.push(Effect::BroadcastState);
    done(effects)
}

/// The outcome of stopping a preset.
pub open spec fn preset_stopped(h: Handled, before: DomainView, after: DomainView) -> bool {
    &&& after == before.stopped()
    &&& h.done()
    &&& h.effects@ == stops(before.preset_name is Some, false).push(Effect::BroadcastState)
}

pub fn handle_stop_preset(domain: &mut DomainState) -> (r: Handled)
    ensures
        preset_stopped(r, old(domain).deep_view(), final(domain).deep_view()),
{
    let mut effects: Vec<Effect> = Vec::new();
    let stopped = ExecutionService::stop_preset(domain);
    push_stops(&mut effects, stopped, false);
    effects.push(Effect::BroadcastState);
    done(effects)
}

/// The outcome of an emergency stop: nothing runs, transmissions are barred, and all clients are
/// told.
pub open spec fn all_stopped(
    h: Handled,
    before: DomainView,
    after: DomainView,
    now_ms: u64,
) -> bool {
    &&& after == (DomainView {
        preset_name: None,
        rf_lockout_until_ms: (now_ms + RF_STOP_LOCKOUT_MS) as u64,
        ..before
    })
    &&& h.done()
    &&& h.effects@ == seq![
        Effect::Transmit(TransmissionCommand::StopAll),
        Effect::BroadcastState,
    ]
}

pub fn handle_stop_all(domain: &mut DomainState, now_ms: u64) -> (r: Handled)
    requires
        now_ms + RF_STOP_LOCKOUT_MS <= u64::MAX,
    ensures
        all_stopped(r, old(domain).deep_view(), final(domain).deep_view(), now_ms),
{
    let mut effects: Vec<Effect> = Vec::new();
    ExecutionService::stop_all(domain, now_ms);
    effects.push(Effect::Transmit(TransmissionCommand::StopAll));
    effects.push(Effect::BroadcastState);
    assert(effects@ =~= seq![
        Effect::Transmit(TransmissionCommand::StopAll),
        Effect::BroadcastState,
    ]);
    done(effects)
}

/// The outcome of news that clients are told only if they are news.
pub open spec fn told_if(h: Handled, news: bool, effect: Effect) -> bool {
    &&& h.done()
    &&& h.effects@ == if news {
        seq![effect]
    } else {
        Seq::empty()
    }
}

fn tell_if(news: bool, effect: Effect) -> (r: Handled)
    ensures
        told_if(r, news, effect),
{
    let mut effects: Vec<Effect> = Vec::new();
    if news {
        effects.push(effect);
    }
    assert(effects@ =~= if news {
        seq![effect]
    } else {
        Seq::empty()
    });
    done(effects)
}

/// The outcome of logging an event.
pub open spec fn event_recorded(
    h: Handled,
    before: DomainView,
    after: DomainView,
    entry: EventLogEntryView,
) -> bool {
    &&& after == with_logged(before, entry)
    &&& h.done()
    &&& if before.device_settings.record_event_log {
        h.effects@.len() == 1 && (h.effects@[0] matches Effect::BroadcastEventLogEntry(told)
            && told.deep_view() == entry)
    } else {
        h.effects@.len() == 0
    }
}

pub fn handle_record_event(
    domain: &mut DomainState,
    sequence: &mut u32,
    clock: Clock,
    source: EventSource,
    kind: EventLogEntryKind,
) -> (r: Handled)
    requires
        *old(sequence) < u32::MAX,
    ensures
        event_recorded(
            r,
            old(domain).deep_view(),
            final(domain).deep_view(),
            logged(*old(sequence), clock, source, kind),
        ),
        *final(sequence) == if old(domain).device_settings.record_event_log {
            (*old(sequence) + 1) as u32
        } else {
            *old(sequence)
        },
{
    let mut effects: Vec<Effect> = Vec::new();
    if let Some(entry) = log_event(domain, sequence, clock, source, kind) {
        effects.push(Effect::BroadcastEventLogEntry(entry));
    }
    done(effects)
}

/// The outcome of a command.
pub open spec fn worked(
    h: Handled,
    before: DomainView,
    after: DomainView,
    sequence: u32,
    clock: Clock,
    command: AppCommand,
) -> bool {
    match command {
        AppCommand::AddCollar { collar } => collars_changed(
            h,
            before,
            after,
            crate::services::collar_added(before, collar.deep_view()),
            false,
            false,
        ),
        AppCommand::UpdateCollar { original_name, updated } => collars_changed(
            h,
            before,
            after,
            crate::services::collar_updated(before, original_name@, updated.deep_view()),
            true,
            original_name@ != updated.name@,
        ),
        AppCommand::DeleteCollar { name } => collars_changed(
            h,
            before,
            after,
            crate::services::collar_deleted(before, name@),
            true,
            false,
        ),
        AppCommand::SavePreset { original_name, preset } => presets_changed(
            h,
            before,
            after,
            crate::services::preset_saved(before, original_name.deep_view(), preset.deep_view()),
            true,
        ),
        AppCommand::DeletePreset { name } => presets_changed(
            h,
            before,
            after,
            crate::services::preset_deleted(before, name@),
            true,
        ),
        AppCommand::ReorderPresets { names } => presets_changed(
            h,
            before,
            after,
            Ok(
                DomainView {
                    presets: crate::services::reordered(before.presets, names.deep_view()),
                    ..before
                },
            ),
            false,
        ),
        AppCommand::ImportData { data } => collars_changed(
            h,
            before,
            after,
            Ok(
                DomainView {
                    collars: data.deep_view().collars,
                    presets: data.deep_view().presets,
                    preset_name: None,
                    ..before
                },
            ),
            true,
            true,
        ),
        AppCommand::SaveDeviceSettings { settings } => settings_changed(h, before, after, settings),
        AppCommand::StartPresetExecution { preset_name, source, resolved_preset, events } => {
            preset_started(
                h,
                before,
                after,
                logged(
                    sequence,
                    clock,
                    source,
                    EventLogEntryKind::PresetRun { preset_name, resolved_preset },
                ),
                preset_name,
                events,
            )
        },
        AppCommand::StopPreset => preset_stopped(h, before, after),
        AppCommand::StopAll => all_stopped(h, before, after, clock.now_ms),
        AppCommand::SetRemoteControlStatus { status } => {
            &&& after == (DomainView { remote_control_status: status.deep_view(), ..before })
            &&& told_if(
                h,
                before.remote_control_status != status.deep_view(),
                Effect::BroadcastRemoteControlStatus,
            )
        },
        AppCommand::SetMqttStatus { status } => {
            &&& after == (DomainView { mqtt_status: status.deep_view(), ..before })
            &&& told_if(
                h,
                before.mqtt_status != status.deep_view(),
                Effect::BroadcastMqttStatus,
            )
        },
        AppCommand::RecordEvent { source, kind } => event_recorded(
            h,
            before,
            after,
            logged(sequence, clock, source, kind),
        ),
        AppCommand::PushRfDebugEvent { event } => {
            &&& after.rf_debug_events == {
                let all = before.rf_debug_events.push(event.deep_view());
                if all.len() > crate::services::MAX_RF_DEBUG_EVENTS {
                    all.drop_first()
                } else {
                    all
                }
            }
            &&& after == (DomainView { rf_debug_events: after.rf_debug_events, ..before })
            &&& told_if(h, true, Effect::BroadcastRfDebugEvent(event))
        },
        AppCommand::ClearRfDebugEvents { listening } => {
            &&& after == (DomainView { rf_debug_events: Seq::empty(), ..before })
            &&& h.reply == Ok::<Option<Reply>, ControlError>(
                Some(Reply::RfDebugState { listening }),
            )
            &&& h.effects@.len() == 0
        },
        AppCommand::CompletePreset { preset_name } => {
            let running = before.preset_name == Some(preset_name@);
            &&& after == if running {
                before.stopped()
            } else {
                before
            }
            &&& told_if(h, running, Effect::BroadcastState)
        },
    }
}

/// What a command has to keep.
pub open spec fn command_writes(before: DomainView, command: AppCommand) -> Seq<Write> {
    match command {
        AppCommand::AddCollar { collar } => collar_writes(
            crate::services::collar_added(before, collar.deep_view()),
            false,
        ),
        AppCommand::UpdateCollar { original_name, updated } => collar_writes(
            crate::services::collar_updated(before, original_name@, updated.deep_view()),
            original_name@ != updated.name@,
        ),
        AppCommand::DeleteCollar { name } => collar_writes(
            crate::services::collar_deleted(before, name@),
            false,
        ),
        AppCommand::SavePreset { original_name, preset } => preset_writes(
            crate::services::preset_saved(before, original_name.deep_view(), preset.deep_view()),
        ),
        AppCommand::DeletePreset { name } => preset_writes(
            crate::services::preset_deleted(before, name@),
        ),
        AppCommand::ReorderPresets { names } => seq![
            Write::Presets(crate::services::reordered(before.presets, names.deep_view())),
        ],
        AppCommand::ImportData { data } => seq![
            Write::Collars(data.deep_view().collars),
            Write::Presets(data.deep_view().presets),
        ],
        AppCommand::SaveDeviceSettings { settings } => seq![Write::Settings(settings.deep_view())],
        _ => Seq::empty(),
    }
}

/// Whether a command is an event for the log.
pub open spec fn logs(command: AppCommand) -> bool {
    command is RecordEvent || command is StartPresetExecution
}

/// Carries out a command.
pub fn handle_app_command<R: AppRepository>(
    domain: &mut DomainState,
    repository: &mut RepositoryServices<R>,
    sequence: &mut u32,
    clock: Clock,
    command: AppCommand,
) -> (r: Handled)
    requires
        *old(sequence) < u32::MAX,
        clock.now_ms + RF_STOP_LOCKOUT_MS <= u64::MAX,
    ensures
        worked(
            r,
            old(domain).deep_view(),
            final(domain).deep_view(),
            *old(sequence),
            clock,
            command,
        ),
        stores(
            old(repository).repository,
            final(repository).repository,
            r.reply,
            command_writes(old(domain).deep_view(), command),
        ),
        *final(sequence) == if old(domain).device_settings.record_event_log && logs(command) {
            (*old(sequence) + 1) as u32
        } else {
            *old(sequence)
        },
{
    match command {
        AppCommand::AddCollar { collar } => handle_add_collar(domain, repository, collar),
        AppCommand::UpdateCollar { original_name, updated } => handle_update_collar(
            domain,
            repository,
            original_name,
            updated,
        ),
        AppCommand::DeleteCollar { name } => handle_delete_collar(domain, repository, name),
        AppCommand::SavePreset { original_name, preset } => handle_save_preset(
            domain,
            repository,
            original_name,
            preset,
        ),
        AppCommand::DeletePreset { name } => handle_delete_preset(domain, repository, name),
        AppCommand::ReorderPresets { names } => handle_reorder_presets(domain, repository, names),
        AppCommand::ImportData { data } => handle_import_data(domain, repository, data),
        AppCommand::SaveDeviceSettings { settings } => handle_save_device_settings(
            domain,
            repository,
            settings,
        ),
        AppCommand::StartPresetExecution { preset_name, source, resolved_preset, events } => {
            handle_start_preset_execution(
                domain,
                sequence,
                clock,
                preset_name,
                source,
                resolved_preset,
                events,
            )
        },
        AppCommand::StopPreset => handle_stop_preset(domain),
        AppCommand::StopAll => handle_stop_all(domain, clock.now_ms),
        AppCommand::SetRemoteControlStatus { status } => {
            let news = RemoteControlService::set_status(domain, status);
            tell_if(news, Effect::BroadcastRemoteControlStatus)
        },
        AppCommand::SetMqttStatus { status } => {
            let news = MqttService::set_status(domain, status);
            tell_if(news, Effect::BroadcastMqttStatus)
        },
        AppCommand::RecordEvent { source, kind } => handle_record_event(
            domain,
            sequence,
            clock,
            source,
            kind,
        ),
        AppCommand::PushRfDebugEvent { event } => {
            RfDebugService::push_event(domain, event.clone());
            tell_if(true, Effect::BroadcastRfDebugEvent(event))
        },
        AppCommand::ClearRfDebugEvents { listening } => {
            RfDebugService::clear_events(domain);
            Handled { reply: Ok(Some(Reply::RfDebugState { listening })), effects: Vec::new() }
        },
        AppCommand::CompletePreset { preset_name } => {
            let running = ExecutionService::complete_preset(domain, preset_name.as_str());
            tell_if(running, Effect::BroadcastState)
        },
    }
}

/// Whenever a command that succeeds changes collars, presets, the running preset or the lockout,
/// all clients are told.
pub proof fn lemma_changes_are_broadcast(
    h: Handled,
    before: DomainView,
    after: DomainView,
    sequence: u32,
    clock: Clock,
    command: AppCommand,
)
    requires
        worked(h, before, after, sequence, clock, command),
        h.reply is Ok,
        after.collars != before.collars || after.presets != before.presets || after.preset_name
            != before.preset_name || after.rf_lockout_until_ms != before.rf_lockout_until_ms,
    ensures
        h.effects@.len() > 0,
        h.effects@.last() == Effect::BroadcastState,
{
    if command is SaveDeviceSettings {
        assert(after.collars == before.collars);
    }
}

/// Whether a repository that keeps a record was asked to keep something between two moments, and
/// did.
pub open spec fn kept<R: AppRepository>(before: R, after: R, write: Write) -> bool {
    after.calls().skip(before.calls().len() as int).contains(
        Call::Save { write, failure: None },
    )
}

/// Whenever a command that succeeds changes collars, presets or settings, they have been kept.
pub proof fn lemma_changes_are_kept<R: AppRepository>(
    h: Handled,
    before: DomainView,
    after: DomainView,
    sequence: u32,
    clock: Clock,
    command: AppCommand,
    repository: R,
    repository_after: R,
)
    requires
        worked(h, before, after, sequence, clock, command),
        stores(repository, repository_after, h.reply, command_writes(before, command)),
        repository.keeps_record(),
        h.reply is Ok,
    ensures
        after.collars != before.collars ==> kept(
            repository,
            repository_after,
            Write::Collars(after.collars),
        ),
        after.presets != before.presets ==> kept(
            repository,
            repository_after,
            Write::Presets(after.presets),
        ),
        after.device_settings != before.device_settings ==> kept(
            repository,
            repository_after,
            Write::Settings(after.device_settings),
        ),
{
    let calls = repository_after.calls().skip(repository.calls().len() as int);
    let writes = command_writes(before, command);
    if writes.len() > 0 {
        assert(calls[0] == (Call::Save { write: writes[0], failure: None }));
    }
    if writes.len() > 1 {
        assert(calls[1] == (Call::Save { write: writes[1], failure: None }));
    }
    if let AppCommand::UpdateCollar { original_name, updated } = command {
        if original_name@ == updated.name@ {
            assert forall|i: int| 0 <= i < before.presets.len() implies after.presets[i].tracks
                =~= (#[trigger] before.presets[i]).tracks by {}
            assert(after.presets =~= before.presets);
        }
    }
}

/// A command that is refused changes nothing and has no effect.
pub proof fn lemma_refused_changes_nothing(
    h: Handled,
    before: DomainView,
    after: DomainView,
    sequence: u32,
    clock: Clock,
    command: AppCommand,
)
    requires
        worked(h, before, after, sequence, clock, command),
        h.reply is Err,
        !(h.reply->Err_0.deep_view() is Persistence),
    ensures
        after == before,
        h.effects@.len() == 0,
{
}

/// Whether data that is to be imported is in order.
pub open spec fn command_checked(command: AppCommand) -> bool {
    command matches AppCommand::ImportData { data } ==> crate::validation::export_problem(
        data.deep_view(),
    ) is None
}

/// Whatever it is told, the worker keeps collars and presets in order; an import has to be
/// checked before.
pub proof fn lemma_worker_keeps_order(
    h: Handled,
    before: DomainView,
    after: DomainView,
    sequence: u32,
    clock: Clock,
    command: AppCommand,
)
    requires
        crate::services::domain_valid(before),
        command_checked(command),
        worked(h, before, after, sequence, clock, command),
    ensures
        crate::services::domain_valid(after),
{
    match command {
        AppCommand::AddCollar { collar } => {
            if crate::services::collar_added(before, collar.deep_view()) is Ok {
                crate::services::lemma_add_collar_keeps_order(before, collar.deep_view());
            }
        },
        AppCommand::UpdateCollar { original_name, updated } => {
            if crate::services::collar_updated(
                before,
                original_name@,
                updated.deep_view(),
            ) is Ok {
                crate::services::lemma_update_collar_keeps_order(
                    before,
                    original_name@,
                    updated.deep_view(),
                );
            }
        },
        AppCommand::DeleteCollar { name } => {
            if crate::services::collar_deleted(before, name@) is Ok {
                crate::services::lemma_delete_collar_keeps_order(before, name@);
            }
        },
        AppCommand::SavePreset { original_name, preset } => {
            if crate::services::preset_saved(
                before,
                original_name.deep_view(),
                preset.deep_view(),
            ) is Ok {
                crate::services::lemma_save_preset_keeps_order(
                    before,
                    original_name.deep_view(),
                    preset.deep_view(),
                );
            }
        },
        AppCommand::DeletePreset { name } => {
            if crate::services::preset_deleted(before, name@) is Ok {
                crate::services::lemma_delete_preset_keeps_order(before, name@);
            }
        },
        AppCommand::ReorderPresets { names } => {
            crate::services::lemma_reorder_keeps_order(before, names.deep_view());
        },
        AppCommand::ImportData { data } => {
            crate::validation::lemma_export_problem(data.deep_view());
        },
        _ => {},
    }
}

// ----- What each command is for -----

/// An emergency stop ends everything: the transmitter is told first, no preset runs, and for the
/// next ten seconds transmissions are barred. Nothing else changes.
pub proof fn lemma_stop_all_ends_everything(
    h: Handled,
    before: DomainView,
    after: DomainView,
    sequence: u32,
    clock: Clock,
)
    requires
        clock.now_ms + 10_000 <= u64::MAX,
        worked(h, before, after, sequence, clock, AppCommand::StopAll),
    ensures
        h.reply == Ok::<Option<Reply>, ControlError>(None),
        h.effects@.len() == 2,
        h.effects@[0] == Effect::Transmit(TransmissionCommand::StopAll),
        h.effects@[1] == Effect::BroadcastState,
        after.preset_name is None,
        after.rf_lockout_until_ms == clock.now_ms + 10_000,
        after.device_settings == before.device_settings,
        after.collars == before.collars,
        after.presets == before.presets,
        after.rf_debug_events == before.rf_debug_events,
        after.event_log_events == before.event_log_events,
        after.remote_control_status == before.remote_control_status,
        after.mqtt_status == before.mqtt_status,
{
}

/// Stopping the preset tells the transmitter if a preset runs, and the clients in any case; the
/// lockout, the actions and the data stay as they are.
pub proof fn lemma_stop_preset_ends_the_preset(
    h: Handled,
    before: DomainView,
    after: DomainView,
    sequence: u32,
    clock: Clock,
)
    requires
        worked(h, before, after, sequence, clock, AppCommand::StopPreset),
    ensures
        h.reply == Ok::<Option<Reply>, ControlError>(None),
        before.preset_name is Some ==> h.effects@.len() == 2 && h.effects@[0] == Effect::Transmit(
            TransmissionCommand::StopPreset,
        ) && h.effects@[1] == Effect::BroadcastState,
        before.preset_name is None ==> h.effects@.len() == 1 && h.effects@[0]
            == Effect::BroadcastState,
        after.preset_name is None,
        after.rf_lockout_until_ms == before.rf_lockout_until_ms,
        after.device_settings == before.device_settings,
        after.collars == before.collars,
        after.presets == before.presets,
        after.rf_debug_events == before.rf_debug_events,
        after.event_log_events == before.event_log_events,
        after.remote_control_status == before.remote_control_status,
        after.mqtt_status == before.mqtt_status,
{
}

/// When the transmitter reports a preset as completed, that preset no longer runs. A report on
/// another preset, one that was replaced meanwhile, changes nothing.
pub proof fn lemma_completion_ends_only_its_preset(
    h: Handled,
    before: DomainView,
    after: DomainView,
    sequence: u32,
    clock: Clock,
    preset_name: String,
)
    requires
        worked(h, before, after, sequence, clock, AppCommand::CompletePreset { preset_name }),
    ensures
        h.reply == Ok::<Option<Reply>, ControlError>(None),
        before.preset_name == Some(preset_name@) ==> {
            &&& after.preset_name is None
            &&& after == (DomainView { preset_name: None, ..before })
            &&& h.effects@.len() == 1
            &&& h.effects@[0] == Effect::BroadcastState
        },
        before.preset_name != Some(preset_name@) ==> after == before && h.effects@.len() == 0,
{
}

/// Starting a preset hands all its transmissions to the transmitter and makes it the running one.
/// If events are logged, the run is logged under the next number, with the time, the source and
/// the values that were drawn, and the clients hear of the entry.
pub proof fn lemma_start_hands_over_the_transmissions(
    h: Handled,
    before: DomainView,
    after: DomainView,
    sequence: u32,
    clock: Clock,
    preset_name: String,
    source: EventSource,
    resolved_preset: Option<Preset>,
    events: Vec<PresetEvent>,
)
    requires
        worked(
            h,
            before,
            after,
            sequence,
            clock,
            AppCommand::StartPresetExecution { preset_name, source, resolved_preset, events },
        ),
    ensures
        h.reply == Ok::<Option<Reply>, ControlError>(None),
        h.effects@[0] == Effect::Transmit(
            TransmissionCommand::StartPreset { preset_name, events },
        ),
        h.effects@.last() == Effect::BroadcastState,
        after.preset_name == Some(preset_name@),
        after.rf_lockout_until_ms == before.rf_lockout_until_ms,
        after.device_settings == before.device_settings,
        after.collars == before.collars,
        after.presets == before.presets,
        after.rf_debug_events == before.rf_debug_events,
        after.remote_control_status == before.remote_control_status,
        after.mqtt_status == before.mqtt_status,
        !before.device_settings.record_event_log ==> h.effects@.len() == 2
            && after.event_log_events == before.event_log_events,
        before.device_settings.record_event_log ==> {
            let entry = after.event_log_events.last();
            &&& h.effects@.len() == 3
            &&& (h.effects@[1] matches Effect::BroadcastEventLogEntry(told) && told.deep_view()
                == entry)
            &&& entry.sequence == sequence + 1
            &&& entry.monotonic_ms == clock.now_ms
            &&& entry.unix_ms == clock.unix_ms
            &&& entry.source == source
            &&& entry.kind == (EventLogEntryKind::PresetRun {
                preset_name,
                resolved_preset,
            }).deep_view()
            &&& newest_kept(before.event_log_events, after.event_log_events)
        },
{
}

/// Whether a log holds one entry more than before, after the newest of the earlier ones, and no
/// more than a hundred in all.
pub open spec fn newest_kept<T>(before: Seq<T>, after: Seq<T>) -> bool {
    &&& after.len() == if before.len() < 100 {
        before.len() + 1
    } else {
        100
    }
    &&& forall|i: int|
        0 <= i < after.len() - 1 ==> #[trigger] after[i] == before[before.len() + 1 - after.len()
            + i]
}

/// An event is logged only if events are logged: then under the next number, with the time, the
/// source and its contents, as the newest of at most a hundred, and the clients hear of it.
pub proof fn lemma_event_is_logged(
    h: Handled,
    before: DomainView,
    after: DomainView,
    sequence: u32,
    clock: Clock,
    source: EventSource,
    kind: EventLogEntryKind,
)
    requires
        worked(h, before, after, sequence, clock, AppCommand::RecordEvent { source, kind }),
    ensures
        h.reply == Ok::<Option<Reply>, ControlError>(None),
        after == (DomainView { event_log_events: after.event_log_events, ..before }),
        !before.device_settings.record_event_log ==> after.event_log_events
            == before.event_log_events && h.effects@.len() == 0,
        before.device_settings.record_event_log ==> {
            let entry = after.event_log_events.last();
            &&& h.effects@.len() == 1
            &&& (h.effects@[0] matches Effect::BroadcastEventLogEntry(told) && told.deep_view()
                == entry)
            &&& entry.sequence == sequence + 1
            &&& entry.monotonic_ms == clock.now_ms
            &&& entry.unix_ms == clock.unix_ms
            &&& entry.source == source
            &&& entry.kind == kind.deep_view()
            &&& newest_kept(before.event_log_events, after.event_log_events)
        },
{
}

/// A frame that was heard is kept as the newest of at most a hundred, and those who listen hear
/// of it; clearing the frames leaves none.
pub proof fn lemma_frames_are_kept(
    h: Handled,
    before: DomainView,
    after: DomainView,
    sequence: u32,
    clock: Clock,
    command: AppCommand,
)
    requires
        worked(h, before, after, sequence, clock, command),
        before.rf_debug_events.len() <= 100,
    ensures
        after.rf_debug_events.len() <= 100,
        !(command is PushRfDebugEvent || command is ClearRfDebugEvents) ==> after.rf_debug_events
            == before.rf_debug_events,
        command matches AppCommand::PushRfDebugEvent { event } ==> {
            &&& h.reply == Ok::<Option<Reply>, ControlError>(None)
            &&& h.effects@.len() == 1
            &&& h.effects@[0] == Effect::BroadcastRfDebugEvent(event)
            &&& after.rf_debug_events.last() == event.deep_view()
            &&& newest_kept(before.rf_debug_events, after.rf_debug_events)
            &&& after == (DomainView { rf_debug_events: after.rf_debug_events, ..before })
        },
        command matches AppCommand::ClearRfDebugEvents { listening } ==> {
            &&& h.reply == Ok::<Option<Reply>, ControlError>(
                Some(Reply::RfDebugState { listening }),
            )
            &&& h.effects@.len() == 0
            &&& after.rf_debug_events.len() == 0
            &&& after == (DomainView { rf_debug_events: after.rf_debug_events, ..before })
        },
{
}

/// A report on a link is taken over as it is, and the clients hear of it exactly if it says
/// something new.
pub proof fn lemma_link_reports_are_passed_on(
    h: Handled,
    before: DomainView,
    after: DomainView,
    sequence: u32,
    clock: Clock,
    command: AppCommand,
)
    requires
        worked(h, before, after, sequence, clock, command),
    ensures
        command matches AppCommand::SetRemoteControlStatus { status } ==> {
            &&& h.reply == Ok::<Option<Reply>, ControlError>(None)
            &&& after.remote_control_status == status.deep_view()
            &&& after == (DomainView {
                remote_control_status: after.remote_control_status,
                ..before
            })
            &&& before.remote_control_status == status.deep_view() ==> h.effects@.len() == 0
            &&& before.remote_control_status != status.deep_view() ==> h.effects@.len() == 1
                && h.effects@[0] == Effect::BroadcastRemoteControlStatus
        },
        command matches AppCommand::SetMqttStatus { status } ==> {
            &&& h.reply == Ok::<Option<Reply>, ControlError>(None)
            &&& after.mqtt_status == status.deep_view()
            &&& after == (DomainView { mqtt_status: after.mqtt_status, ..before })
            &&& before.mqtt_status == status.deep_view() ==> h.effects@.len() == 0
            &&& before.mqtt_status != status.deep_view() ==> h.effects@.len() == 1
                && h.effects@[0] == Effect::BroadcastMqttStatus
        },
{
}

/// Whether a command that succeeded takes away what a running transmission rests on: a collar
/// that was changed or deleted, or all of them.
pub open spec fn unsettles_collars(command: AppCommand) -> bool {
    command is UpdateCollar || command is DeleteCollar || command is ImportData
}

/// Whether a command that succeeded takes away what a running preset rests on.
pub open spec fn unsettles_presets(command: AppCommand) -> bool {
    unsettles_collars(command) || command is SavePreset || command is DeletePreset
}

/// When the data changes under what is being transmitted, it is stopped: a change of collars ends
/// all actions and the running preset, a change of presets ends the running preset, also where
/// the change could not be stored. A new collar and a new order of the presets stop nothing, and
/// a change that is refused stops nothing either.
pub proof fn lemma_changes_stop_what_rests_on_them(
    h: Handled,
    before: DomainView,
    after: DomainView,
    sequence: u32,
    clock: Clock,
    command: AppCommand,
)
    requires
        worked(h, before, after, sequence, clock, command),
        unsettles_presets(command) || command is AddCollar || command is ReorderPresets,
        h.reply is Ok || h.reply->Err_0.deep_view() is Persistence,
    ensures
        h.effects@.contains(Effect::Transmit(TransmissionCommand::CancelAllActions))
            == unsettles_collars(command),
        h.effects@.contains(Effect::Transmit(TransmissionCommand::StopPreset)) == (
        unsettles_presets(command) && before.preset_name is Some),
        h.effects@.contains(Effect::BroadcastState) == (h.reply is Ok),
        h.reply is Ok ==> h.reply == Ok::<Option<Reply>, ControlError>(None),
        unsettles_presets(command) ==> after.preset_name is None,
        !unsettles_presets(command) ==> after.preset_name == before.preset_name,
        after.rf_lockout_until_ms == before.rf_lockout_until_ms,
        after.device_settings == before.device_settings,
        after.event_log_events == before.event_log_events,
        after.remote_control_status == before.remote_control_status,
        after.mqtt_status == before.mqtt_status,
{
    let stop = Effect::Transmit(TransmissionCommand::StopPreset);
    let cancel = Effect::Transmit(TransmissionCommand::CancelAllActions);
    let tell = Effect::BroadcastState;
    let all = h.effects@;
    if h.reply is Ok {
        assert(all.last() == tell);
        assert(all[all.len() - 1] == tell);
    }
    if unsettles_collars(command) {
        assert(all[if before.preset_name is Some { 1int } else { 0int }] == cancel);
    }
    if unsettles_presets(command) && before.preset_name is Some {
        assert(all[0] == stop);
    }
}

/// An import replaces collars and presets by what it holds.
pub proof fn lemma_import_replaces_data(
    h: Handled,
    before: DomainView,
    after: DomainView,
    sequence: u32,
    clock: Clock,
    data: ExportData,
)
    requires
        worked(h, before, after, sequence, clock, AppCommand::ImportData { data }),
    ensures
        after.collars == data.collars.deep_view(),
        after.presets == data.presets.deep_view(),
        after.preset_name is None,
        h.reply is Ok || h.reply->Err_0.deep_view() is Persistence,
{
}

/// New settings are answered with themselves and with whether the device has to be started anew.
/// A link whose settings changed is set up anew, also where the settings could not be stored; the
/// clients hear of it, and of a log that is switched on or off, once they are stored.
pub proof fn lemma_settings_take_effect(
    h: Handled,
    before: DomainView,
    after: DomainView,
    sequence: u32,
    clock: Clock,
    settings: DeviceSettings,
)
    requires
        worked(h, before, after, sequence, clock, AppCommand::SaveDeviceSettings { settings }),
    ensures
        ({
            let was = before.device_settings;
            let s = settings.deep_view();
            let remote = was.remote_control_enabled != s.remote_control_enabled
                || was.remote_control_url != s.remote_control_url
                || was.remote_control_validate_cert != s.remote_control_validate_cert;
            let mqtt = was.mqtt_enabled != s.mqtt_enabled || was.mqtt_server != s.mqtt_server
                || was.mqtt_port != s.mqtt_port || was.mqtt_username != s.mqtt_username
                || was.mqtt_password != s.mqtt_password;
            let log = was.record_event_log != s.record_event_log;
            let stored = h.reply is Ok;
            &&& after.device_settings == s
            &&& stored ==> h.reply == Ok::<Option<Reply>, ControlError>(
                Some(
                    Reply::DeviceSettings {
                        settings,
                        reboot_required: crate::services::reboot_needed(was, s),
                    },
                ),
            )
            &&& !stored ==> h.reply->Err_0.deep_view() is Persistence
            &&& h.effects@.contains(Effect::ReconnectRemoteControl) == remote
            &&& h.effects@.contains(Effect::ReconnectMqtt) == mqtt
            &&& h.effects@.contains(Effect::BroadcastRemoteControlStatus) == (stored && remote)
            &&& h.effects@.contains(Effect::BroadcastMqttStatus) == (stored && mqtt)
            &&& h.effects@.contains(Effect::BroadcastEventLog) == (stored && log)
            &&& !h.effects@.contains(Effect::BroadcastState)
            &&& forall|i: int| 0 <= i < h.effects@.len() ==> !(#[trigger] h.effects@[i] is Transmit)
        }),
{
    let was = before.device_settings;
    let s = settings.deep_view();
    let remote = crate::services::remote_changed(was, s);
    let mqtt = crate::services::mqtt_changed(was, s);
    let log = was.record_event_log != s.record_event_log;
    let all = h.effects@;
    let first: int = if remote {
        1
    } else {
        0
    };
    let second: int = if mqtt {
        first + 1
    } else {
        first
    };
    if remote {
        assert(all[0] == Effect::ReconnectRemoteControl);
    }
    if mqtt {
        assert(all[first] == Effect::ReconnectMqtt);
    }
    if h.reply is Ok {
        if remote {
            assert(all[second] == Effect::BroadcastRemoteControlStatus);
        }
        if mqtt {
            assert(all[second + first] == Effect::BroadcastMqttStatus);
        }
        if log {
            assert(all[second + second] == Effect::BroadcastEventLog);
        }
    }
}

/// What a command has to keep is kept whole before it is reported as done: each part once and in
/// order. A failure ends the command, and is reported with its cause and with what could not be
/// kept.
pub proof fn lemma_what_is_kept<R: AppRepository>(
    before: R,
    after: R,
    reply: Result<Option<Reply>, ControlError>,
    writes: Seq<Write>,
)
    requires
        stores(before, after, reply, writes),
        before.keeps_record(),
    ensures
        ({
            let old_calls = before.calls();
            let all_calls = after.calls();
            &&& all_calls.len() >= old_calls.len()
            &&& all_calls.take(old_calls.len() as int) == old_calls
            &&& reply is Ok ==> all_calls.len() == old_calls.len() + writes.len()
            &&& reply is Ok ==> forall|i: int|
                0 <= i < writes.len() ==> (#[trigger] all_calls[old_calls.len() + i]) == (
                Call::Save { write: writes[i], failure: None })
            &&& (reply matches Err(e) && e.deep_view() is Persistence) ==> {
                let at = all_calls.len() - 1 - old_calls.len();
                &&& 0 <= at < writes.len()
                &&& all_calls.last() == (Call::Save {
                    write: writes[at],
                    failure: Some(reply->Err_0.deep_view()->Persistence_source),
                })
                &&& reply->Err_0.deep_view()->Persistence_operation == match writes[at] {
                    Write::Settings(_) => "save settings"@,
                    Write::Collars(_) => "save collars"@,
                    Write::Presets(_) => "save presets"@,
                }
            }
        }),
{
    let calls = after.calls().skip(before.calls().len() as int);
    assert(after.calls().take(before.calls().len() as int) =~= before.calls());
    assert forall|i: int| 0 <= i < calls.len() implies #[trigger] after.calls()[before.calls().len()
        + i] == calls[i] by {}
    if calls.len() > 0 {
        assert(after.calls().last() == calls[calls.len() - 1]);
    }
}

/// What each command has to keep: collars and presets as they stand after it, where it changes
/// them, and settings as they were sent. A collar that is renamed changes the presets that name
/// it. The other commands keep nothing.
pub proof fn lemma_what_has_to_be_kept(
    h: Handled,
    before: DomainView,
    after: DomainView,
    sequence: u32,
    clock: Clock,
    command: AppCommand,
)
    requires
        worked(h, before, after, sequence, clock, command),
        h.reply is Ok || h.reply->Err_0.deep_view() is Persistence,
    ensures
        ({
            let writes = command_writes(before, command);
            match command {
                AppCommand::AddCollar { .. } | AppCommand::DeleteCollar { .. } => writes == seq![
                    Write::Collars(after.collars),
                ],
                AppCommand::UpdateCollar { original_name, updated } => if original_name@
                    == updated.name@ {
                    writes == seq![Write::Collars(after.collars)]
                } else {
                    writes == seq![Write::Collars(after.collars), Write::Presets(after.presets)]
                },
                AppCommand::SavePreset { .. } | AppCommand::DeletePreset { .. }
                | AppCommand::ReorderPresets { .. } => writes == seq![
                    Write::Presets(after.presets),
                ],
                AppCommand::ImportData { .. } => writes == seq![
                    Write::Collars(after.collars),
                    Write::Presets(after.presets),
                ],
                AppCommand::SaveDeviceSettings { .. } => writes == seq![
                    Write::Settings(after.device_settings),
                ],
                _ => writes == Seq::<Write>::empty(),
            }
        }),
{
}

/// What could not be kept is named in the answer: collars for a change of collars, or presets
/// where presets change with it, presets for a change of presets, and settings for settings. No
/// other command fails in this way.
pub proof fn lemma_what_could_not_be_kept_is_named(
    h: Handled,
    before: DomainView,
    after: DomainView,
    sequence: u32,
    clock: Clock,
    command: AppCommand,
)
    requires
        worked(h, before, after, sequence, clock, command),
        h.reply is Err,
        h.reply->Err_0.deep_view() is Persistence,
    ensures
        ({
            let named = h.reply->Err_0.deep_view()->Persistence_operation;
            match command {
                AppCommand::AddCollar { .. } | AppCommand::DeleteCollar { .. } => named
                    == "save collars"@,
                AppCommand::UpdateCollar { original_name, updated } => named == "save collars"@
                    || (original_name@ != updated.name@ && named == "save presets"@),
                AppCommand::ImportData { .. } => named == "save collars"@ || named
                    == "save presets"@,
                AppCommand::SavePreset { .. } | AppCommand::DeletePreset { .. }
                | AppCommand::ReorderPresets { .. } => named == "save presets"@,
                AppCommand::SaveDeviceSettings { .. } => named == "save settings"@,
                _ => false,
            }
        }),
{
}

/// A number of the event log is given to a command exactly if it leads to an entry.
pub proof fn lemma_which_commands_are_logged(
    h: Handled,
    before: DomainView,
    after: DomainView,
    sequence: u32,
    clock: Clock,
    command: AppCommand,
)
    requires
        worked(h, before, after, sequence, clock, command),
        before.device_settings.record_event_log,
    ensures
        logs(command) <==> exists|i: int|
            0 <= i < h.effects@.len() && #[trigger] h.effects@[i] is BroadcastEventLogEntry,
        logs(command) ==> after.event_log_events.last().sequence == sequence + 1,
        !logs(command) && !(command is SaveDeviceSettings) ==> after.event_log_events
            == before.event_log_events,
{
    match command {
        AppCommand::StartPresetExecution { .. } => {
            assert(h.effects@[1] is BroadcastEventLogEntry);
        },
        AppCommand::RecordEvent { .. } => {
            assert(h.effects@[0] is BroadcastEventLogEntry);
        },
        _ => {},
    }
}

} // verus!
