//! What the device does with the messages of its clients.

use vstd::prelude::*;

use crate::error::{ControlError, ControlErrorView};
use crate::preview::{
    distribution_or_default, draw_preset, plan_preset, preset_has_random, preview_preset,
    RandomResolver,
};
use crate::protocol::event_log::EventSource;
use crate::protocol::messages::ClientMessage;
use crate::protocol::model::{
    clone_collars, clone_presets, find_collar, find_preset, normalize_presets, Collar, CommandMode,
    Distribution, ExportData, ExportDataView, Preset, PresetPreview, PresetPreviewView, PresetView,
};
use crate::protocol::rf_codec::MAX_INTENSITY;
use crate::protocol::settings::{DeviceSettings, DeviceSettingsView};
use crate::random::{resolve_random_duration, resolve_random_u8, GaussianSource};
use crate::remote_url::parse_remote_control_url;
use crate::session::{
    event_source, ActionKey, ActionOwner, ActiveActionHandle, AppCommand, KeyView, MessageOrigin,
    Reply, TransmissionCommand,
};
use crate::state::{DomainState, DomainView};
use crate::text::{same_text, trim};
use crate::transmission::{EntryView, TransmitterView};
use crate::validation::{validate_export_data, validate_preset};

verus! {

/// What follows from a message that was accepted.
#[derive(Debug)]
pub enum ControlOutcome {
    /// Nothing more to do.
    Done,
    /// Answer the client.
    Reply(Reply),
    /// Send one command now.
    SendNow { collar_id: u16, channel: u8, mode_byte: u8, intensity: u8 },
    /// Tell the worker that owns the transmitter.
    Transmit(TransmissionCommand),
    /// Ask the worker that owns the state of the device.
    Ask(AppCommand),
}

/// How long transmissions are still barred.
pub open spec fn lockout_remaining(until_ms: u64, now_ms: u64) -> u64 {
    if until_ms > now_ms {
        (until_ms - now_ms) as u64
    } else {
        0
    }
}

pub fn rf_lockout_remaining_ms(domain: &DomainState, now_ms: u64) -> (r: u64)
    ensures
        r == lockout_remaining(domain.rf_lockout_until_ms, now_ms),
{
    if domain.rf_lockout_until_ms > now_ms {
        domain.rf_lockout_until_ms - now_ms
    } else {
        0
    }
}

/// The intensity that a command is sent with.
pub open spec fn sent_intensity(mode: CommandMode, intensity: u8) -> u8 {
    if mode.graded() {
        intensity
    } else {
        0
    }
}

pub fn command_intensity(mode: CommandMode, intensity: u8) -> (r: u8)
    ensures
        r == sent_intensity(mode, intensity),
{
    if mode.has_intensity() {
        intensity
    } else {
        0
    }
}

/// The place of the collar that a command goes to, or why it may not be sent.
pub open spec fn command_target(
    d: DomainView,
    now_ms: u64,
    name: Seq<char>,
    mode: CommandMode,
    intensity: u8,
) -> Result<int, ControlErrorView> {
    if lockout_remaining(d.rf_lockout_until_ms, now_ms) > 0 {
        Err(ControlErrorView::TransmissionLockout)
    } else if mode.graded() && intensity > MAX_INTENSITY {
        Err(ControlErrorView::InvalidIntensity { intensity, max: MAX_INTENSITY })
    } else {
        match crate::protocol::model::position(
            crate::protocol::model::collar_names(d.collars),
            name,
        ) {
            Some(i) => Ok(i),
            None => Err(ControlErrorView::UnknownCollar(name)),
        }
    }
}

/// The collar that a command goes to.
pub fn resolve_collar_command(
    domain: &DomainState,
    now_ms: u64,
    collar_name: &str,
    mode: CommandMode,
    intensity: u8,
) -> (r: Result<(Collar, u8), ControlError>)
    ensures
        match r {
            Ok((collar, i)) => {
                let target = command_target(
                    domain.deep_view(),
                    now_ms,
                    collar_name@,
                    mode,
                    intensity,
                );
                &&& target is Ok
                &&& collar.deep_view() == domain.deep_view().collars[target->Ok_0]
                &&& i == sent_intensity(mode, intensity)
            },
            Err(e) => command_target(domain.deep_view(), now_ms, collar_name@, mode, intensity)
                == Err::<int, ControlErrorView>(e.deep_view()),
        },
{
    if rf_lockout_remaining_ms(domain, now_ms) > 0 {
        return Err(ControlError::TransmissionLockout);
    }
    if mode.has_intensity() && intensity > MAX_INTENSITY {
        return Err(ControlError::InvalidIntensity { intensity, max: MAX_INTENSITY });
    }
    match find_collar(domain.collars.as_slice(), collar_name) {
        Some(at) => {
            assert(domain.deep_view().collars[at as int] == domain.collars@[at as int].deep_view());
            Ok((domain.collars[at].clone(), command_intensity(mode, intensity)))
        },
        None => Err(ControlError::UnknownCollar(collar_name.to_owned())),
    }
}

/// What the result of a single command is.
pub open spec fn command_sent(
    r: Result<ControlOutcome, ControlError>,
    d: DomainView,
    now_ms: u64,
    name: Seq<char>,
    mode: CommandMode,
    intensity: u8,
) -> bool {
    match command_target(d, now_ms, name, mode, intensity) {
        Err(e) => r is Err && r->Err_0.deep_view() == e,
        Ok(i) => r == Ok::<ControlOutcome, ControlError>(
            ControlOutcome::SendNow {
                collar_id: d.collars[i].collar_id,
                channel: d.collars[i].channel,
                mode_byte: mode.rf_byte(),
                intensity: sent_intensity(mode, intensity),
            },
        ),
    }
}

pub fn send_command(
    domain: &DomainState,
    now_ms: u64,
    collar_name: &str,
    mode: CommandMode,
    intensity: u8,
) -> (r: Result<ControlOutcome, ControlError>)
    ensures
        command_sent(r, domain.deep_view(), now_ms, collar_name@, mode, intensity),
{
    let (collar, intensity) = match resolve_collar_command(
        domain,
        now_ms,
        collar_name,
        mode,
        intensity,
    ) {
        Ok(target) => target,
        Err(e) => {
            return Err(e);
        },
    };
    Ok(
        ControlOutcome::SendNow {
            collar_id: collar.collar_id,
            channel: collar.channel,
            mode_byte: mode.to_rf_byte(),
            intensity,
        },
    )
}

// ----- Actions -----

/// What is asked of an action.
#[derive(Debug, Clone, Copy, PartialEq, Eq, Structural)]
pub struct ActionRequest {
    pub mode: CommandMode,
    pub intensity: u8,
    pub intensity_max: Option<u8>,
    pub duration_ms: Option<u32>,
    pub duration_max_ms: Option<u32>,
    pub intensity_distribution: Distribution,
    pub duration_distribution: Distribution,
    pub cancel_on_disconnect: bool,
}

/// The longest time from now to which the clock still has to reach.
pub const LONGEST_ACTION_US: u64 = 4_294_967_295_000;

/// Why an action may not be started.
pub open spec fn action_problem(
    d: DomainView,
    now_ms: u64,
    name: Seq<char>,
    request: ActionRequest,
    owner: Option<ActionOwner>,
) -> Option<ControlErrorView> {
    match command_target(d, now_ms, name, request.mode, request.intensity) {
        Err(e) => Some(e),
        Ok(_) => if request.duration_ms == Some(0u32) {
            Some(ControlErrorView::ActionDurationZero)
        } else if request.cancel_on_disconnect && owner is None {
            Some(ControlErrorView::HeldActionRequiresOwner)
        } else {
            None
        },
    }
}

/// Whether an action is sent with an intensity that its request allows.
pub open spec fn intensity_allowed(request: ActionRequest, r: u8) -> bool {
    let low = sent_intensity(request.mode, request.intensity);
    if request.mode.graded() && request.intensity_max is Some && request.intensity_max->0 > low {
        low <= r <= request.intensity_max->0
    } else {
        r == low
    }
}

/// Whether an action lasts as long as its request allows: `None` until it is stopped.
pub open spec fn duration_allowed(request: ActionRequest, r: Option<u32>) -> bool {
    match (request.duration_ms, request.duration_max_ms) {
        (Some(min), Some(max)) => if max > min {
            r is Some && crate::random::duration_drawn(min, max, r->0)
        } else {
            r == Some(min)
        },
        (duration, _) => r == duration,
    }
}

/// Whether a deadline is right for an action that starts now.
pub open spec fn deadline_allowed(request: ActionRequest, now_us: u64, r: Option<u64>) -> bool {
    match r {
        None => duration_allowed(request, None),
        Some(deadline) => exists|duration: u32|
            #[trigger] duration_allowed(request, Some(duration)) && deadline == now_us + duration
                * 1000,
    }
}

/// What the result of starting an action is.
pub open spec fn action_started(
    r: Result<TransmissionCommand, ControlError>,
    d: DomainView,
    now_ms: u64,
    now_us: u64,
    name: Seq<char>,
    request: ActionRequest,
    source: EventSource,
    owner: Option<ActionOwner>,
) -> bool {
    match action_problem(d, now_ms, name, request, owner) {
        Some(e) => r is Err && r->Err_0.deep_view() == e,
        None => {
            let target = d.collars[command_target(
                d,
                now_ms,
                name,
                request.mode,
                request.intensity,
            )->Ok_0];
            &&& r matches Ok(TransmissionCommand::UpsertAction { key, handle })
            &&& key@ == (KeyView { collar_name: name, mode: request.mode })
            &&& handle.owner == owner
            &&& handle.cancel_on_disconnect == request.cancel_on_disconnect
            &&& handle.collar_id == target.collar_id
            &&& handle.channel == target.channel
            &&& handle.mode_byte == request.mode.rf_byte()
            &&& intensity_allowed(request, handle.intensity)
            &&& deadline_allowed(request, now_us, handle.deadline_us)
            &&& handle.started_at_us == now_us
            &&& handle.source == source
        },
    }
}

/// Whether the intensity of an action is drawn from a normal distribution.
pub open spec fn samples_intensity(request: ActionRequest) -> bool {
    &&& request.mode.graded()
    &&& request.intensity_max is Some
    &&& request.intensity_max->0 > sent_intensity(request.mode, request.intensity)
    &&& request.intensity_distribution == Distribution::Gaussian
}

/// Whether the duration of an action is drawn from a normal distribution.
pub open spec fn samples_duration(request: ActionRequest) -> bool {
    &&& request.duration_ms is Some
    &&& request.duration_max_ms is Some
    &&& request.duration_max_ms->0 > request.duration_ms->0
    &&& request.duration_distribution == Distribution::Gaussian
}

/// Whether the values of an action were drawn as its distributions ask. Where it is refused, or
/// asks for no normal distribution, the source has no part in it. Otherwise a source that keeps a
/// record was asked for the intensity and then for the duration, and the values are what it drew,
/// moved into their ranges.
pub open spec fn action_sampled<G: GaussianSource>(
    before: G,
    after: G,
    r: Result<TransmissionCommand, ControlError>,
    now_us: u64,
    request: ActionRequest,
) -> bool {
    let drawn = crate::random::new_samples(before, after);
    &&& r is Err || (!samples_intensity(request) && !samples_duration(request)) ==> after == before
    &&& r matches Ok(TransmissionCommand::UpsertAction { handle, .. }) ==> before.keeps_record()
        ==> {
        &&& crate::random::sampled(before, after, drawn)
        &&& drawn.len() == (if samples_intensity(request) {
            1int
        } else {
            0
        }) + (if samples_duration(request) {
            1int
        } else {
            0
        })
        &&& samples_intensity(request) ==> crate::preview::intensity_from(
            drawn.first(),
            request.intensity,
            request.intensity_max->0,
            handle.intensity,
        )
        &&& samples_duration(request) ==> handle.deadline_us is Some
            && crate::preview::duration_from(
            drawn.last(),
            request.duration_ms->0,
            request.duration_max_ms->0,
            ((handle.deadline_us->0 - now_us) / 1000) as u32,
        )
    }
}

/// An action that is started now, with these values drawn.
pub fn action_command(
    collar: &Collar,
    collar_name: String,
    request: ActionRequest,
    intensity: u8,
    duration_ms: Option<u32>,
    now_us: u64,
    source: EventSource,
    owner: Option<ActionOwner>,
) -> (r: TransmissionCommand)
    requires
        now_us + LONGEST_ACTION_US <= u64::MAX,
    ensures
        r is UpsertAction,
        r->UpsertAction_key@ == (KeyView { collar_name: collar_name@, mode: request.mode }),
        r->UpsertAction_handle == (ActiveActionHandle {
            owner,
            cancel_on_disconnect: request.cancel_on_disconnect,
            collar_id: collar.collar_id,
            channel: collar.channel,
            mode_byte: request.mode.rf_byte(),
            intensity,
            deadline_us: match duration_ms {
                Some(d) => Some((now_us + d * 1000) as u64),
                None => None,
            },
            started_at_us: now_us,
            source,
        }),
{
    let deadline_us = match duration_ms {
        Some(d) => Some(now_us + d as u64 * 1000),
        None => None,
    };
    TransmissionCommand::UpsertAction {
        key: ActionKey { collar_name, mode: request.mode },
        handle: ActiveActionHandle {
            owner,
            cancel_on_disconnect: request.cancel_on_disconnect,
            collar_id: collar.collar_id,
            channel: collar.channel,
            mode_byte: request.mode.to_rf_byte(),
            intensity,
            deadline_us,
            started_at_us: now_us,
            source,
        },
    }
}

/// Samples that are drawn one after the other.
proof fn lemma_samples_in_turn<G: GaussianSource>(a: G, b: G, c: G, first: bool, second: bool)
    requires
        !first ==> b == a,
        !second ==> c == b,
        first && a.keeps_record() ==> crate::random::sampled(
            a,
            b,
            crate::random::new_samples(a, b),
        ) && crate::random::new_samples(a, b).len() == 1,
        second && b.keeps_record() ==> crate::random::sampled(
            b,
            c,
            crate::random::new_samples(b, c),
        ) && crate::random::new_samples(b, c).len() == 1,
    ensures
        a.keeps_record() ==> {
            let drawn = crate::random::new_samples(a, c);
            &&& crate::random::sampled(a, c, drawn)
            &&& drawn.len() == (if first {
                1int
            } else {
                0
            }) + (if second {
                1int
            } else {
                0
            })
            &&& first ==> drawn.first() == crate::random::new_samples(a, b)[0]
            &&& second ==> drawn.last() == crate::random::new_samples(b, c)[0]
        },
{
    if a.keeps_record() {
        let drawn = crate::random::new_samples(a, c);
        assert(c.samples() =~= a.samples() + drawn);
        if first {
            assert(c.samples()[a.samples().len() as int] == b.samples()[a.samples().len() as int]);
        }
    }
}

pub fn start_manual_action<G: GaussianSource>(
    domain: &DomainState,
    now_ms: u64,
    now_us: u64,
    random: &mut RandomResolver<G>,
    collar_name: String,
    request: ActionRequest,
    source: EventSource,
    owner: Option<ActionOwner>,
) -> (r: Result<TransmissionCommand, ControlError>)
    requires
        now_us + LONGEST_ACTION_US <= u64::MAX,
    ensures
        action_started(
            r,
            domain.deep_view(),
            now_ms,
            now_us,
            collar_name@,
            request,
            source,
            owner,
        ),
        action_sampled(old(random).gaussian, final(random).gaussian, r, now_us, request),
{
    let ghost first = random.gaussian;
    let (collar, low) = match resolve_collar_command(
        domain,
        now_ms,
        collar_name.as_str(),
        request.mode,
        request.intensity,
    ) {
        Ok(target) => target,
        Err(e) => {
            return Err(e);
        },
    };
    if let Some(duration) = request.duration_ms {
        if duration == 0 {
            return Err(ControlError::ActionDurationZero);
        }
    }
    if request.cancel_on_disconnect && owner.is_none() {
        return Err(ControlError::HeldActionRequiresOwner);
    }
    let mut intensity: u8 = low;
    if let Some(max) = request.intensity_max {
        if max > low && request.mode.has_intensity() {
            intensity = resolve_random_u8(
                &mut random.rng,
                &mut random.gaussian,
                low,
                max,
                request.intensity_distribution,
            );
        }
    }
    let ghost second = random.gaussian;
    let mut duration_ms: Option<u32> = request.duration_ms;
    if let (Some(min), Some(max)) = (request.duration_ms, request.duration_max_ms) {
        if max > min {
            duration_ms = Some(
                resolve_random_duration(
                    &mut random.rng,
                    &mut random.gaussian,
                    min,
                    max,
                    request.duration_distribution,
                ),
            );
        }
    }
    assert(duration_allowed(request, duration_ms));
    assert(duration_ms is Some ==> duration_allowed(request, Some(duration_ms->0)));
    proof {
        lemma_samples_in_turn(
            first,
            second,
            random.gaussian,
            samples_intensity(request),
            samples_duration(request),
        );
        if duration_ms is Some {
            let ms: int = duration_ms->0 as int;
            assert((now_us + ms * 1000 - now_us) / 1000 == ms);
        }
    }
    Ok(action_command(&collar, collar_name, request, intensity, duration_ms, now_us, source, owner))
}

// ----- Presets -----

/// Whether a result is an error.
pub open spec fn fails(r: Result<ControlOutcome, ControlError>, e: ControlErrorView) -> bool {
    r is Err && r->Err_0.deep_view() == e
}

/// What the result of running a preset is, with the values that were drawn for it.
pub open spec fn resolved_run(
    r: Result<ControlOutcome, ControlError>,
    p: PresetView,
    resolved: PresetView,
    d: DomainView,
    source: EventSource,
) -> bool {
    match crate::preview::planned(resolved, d.collars) {
        Err(why) => fails(r, ControlErrorView::Validation(why)),
        Ok(planned) => {
            &&& r matches Ok(
                ControlOutcome::Ask(
                    AppCommand::StartPresetExecution {
                        preset_name,
                        source: attributed,
                        resolved_preset,
                        events,
                    },
                ),
            )
            &&& preset_name@ == p.name
            &&& attributed == source
            &&& events@ == planned
            &&& resolved_preset.deep_view() == if crate::preview::has_open_value(p) {
                Some(resolved)
            } else {
                None
            }
        },
    }
}

/// What the result of running a preset is.
pub open spec fn preset_run(
    r: Result<ControlOutcome, ControlError>,
    d: DomainView,
    now_ms: u64,
    name: Seq<char>,
    source: EventSource,
) -> bool {
    if lockout_remaining(d.rf_lockout_until_ms, now_ms) > 0 {
        fails(r, ControlErrorView::TransmissionLockout)
    } else {
        match crate::protocol::model::position(
            crate::protocol::model::preset_names(d.presets),
            name,
        ) {
            None => fails(r, ControlErrorView::UnknownPreset(name)),
            Some(i) => match crate::validation::preset_problem(d.presets[i], d.collars) {
                Some(why) => fails(r, ControlErrorView::Validation(why)),
                None => exists|resolved: PresetView|
                    #[trigger] crate::preview::preset_drawn(d.presets[i], resolved)
                        && resolved_run(r, d.presets[i], resolved, d, source),
            },
        }
    }
}

/// Whether the values of a run were drawn as the distributions of the preset ask. Where no preset
/// is to be run, the source has no part in it.
pub open spec fn preset_sampled<G: GaussianSource>(
    before: G,
    after: G,
    r: Result<ControlOutcome, ControlError>,
    d: DomainView,
    now_ms: u64,
    name: Seq<char>,
    source: EventSource,
) -> bool {
    let at = crate::protocol::model::position(
        crate::protocol::model::preset_names(d.presets),
        name,
    );
    if lockout_remaining(d.rf_lockout_until_ms, now_ms) > 0 || at is None
        || crate::validation::preset_problem(d.presets[at->0], d.collars) is Some {
        after == before
    } else {
        exists|resolved: PresetView|
            #[trigger] crate::preview::preset_drawn(d.presets[at->0], resolved)
                && crate::preview::preset_drawn_from(before, after, d.presets[at->0], resolved)
                && resolved_run(r, d.presets[at->0], resolved, d, source)
    }
}

/// Runs a preset with the values that were drawn for it.
pub fn run_resolved_preset(
    preset: &Preset,
    resolved: Preset,
    domain: &DomainState,
    source: EventSource,
) -> (r: Result<ControlOutcome, ControlError>)
    ensures
        resolved_run(
            r,
            preset.deep_view(),
            resolved.deep_view(),
            domain.deep_view(),
            source,
        ),
{
    let events = match plan_preset(&resolved, domain.collars.as_slice()) {
        Ok(events) => events,
        Err(e) => {
            return Err(ControlError::Validation(e.message));
        },
    };
    let resolved_preset = if preset_has_random(preset) {
        Some(resolved)
    } else {
        None
    };
    Ok(
        ControlOutcome::Ask(
            AppCommand::StartPresetExecution {
                preset_name: preset.name.clone(),
                source,
                resolved_preset,
                events,
            },
        ),
    )
}

pub fn run_preset<G: GaussianSource>(
    domain: &DomainState,
    now_ms: u64,
    random: &mut RandomResolver<G>,
    name: String,
    source: EventSource,
) -> (r: Result<ControlOutcome, ControlError>)
    ensures
        preset_run(r, domain.deep_view(), now_ms, name@, source),
        preset_sampled(
            old(random).gaussian,
            final(random).gaussian,
            r,
            domain.deep_view(),
            now_ms,
            name@,
            source,
        ),
{
    if rf_lockout_remaining_ms(domain, now_ms) > 0 {
        return Err(ControlError::TransmissionLockout);
    }
    let at = match find_preset(domain.presets.as_slice(), name.as_str()) {
        Some(at) => at,
        None => {
            return Err(ControlError::UnknownPreset(name));
        },
    };
    let preset = &domain.presets[at];
    assert(domain.deep_view().presets[at as int] == preset.deep_view());
    if let Err(e) = validate_preset(preset, domain.collars.as_slice()) {
        return Err(ControlError::Validation(e.message));
    }
    let resolved = draw_preset(preset, random);
    let ghost drawn = resolved.deep_view();
    let r = run_resolved_preset(preset, resolved, domain, source);
    assert(crate::preview::preset_drawn(domain.deep_view().presets[at as int], drawn));
    r
}

/// The preview of a preset that a client sent, or what is wrong with it.
pub open spec fn preview_outcome(p: PresetView, d: DomainView) -> Result<
    PresetPreviewView,
    Seq<char>,
> {
    let normal = p.normalized();
    match crate::validation::preset_problem(normal, d.collars) {
        Some(why) => Err(why),
        None => crate::preview::previewed(normal, d.collars),
    }
}

/// What the result of a preview is.
pub open spec fn previews(
    r: Result<ControlOutcome, ControlError>,
    origin: MessageOrigin,
    d: DomainView,
    nonce: u32,
    p: PresetView,
) -> bool {
    if origin != MessageOrigin::LocalUi {
        fails(r, ControlErrorView::LocalUiOnly { operation: "preview_preset"@ })
    } else {
        &&& r matches Ok(
            ControlOutcome::Reply(Reply::PresetPreview { nonce: echoed, preview, error }),
        )
        &&& echoed == nonce
        &&& match preview_outcome(p, d) {
            Ok(shown) => preview.deep_view() == Some(shown) && error is None,
            Err(why) => preview is None && error.deep_view() == Some(why),
        }
    }
}

pub fn preview(domain: &DomainState, origin: MessageOrigin, nonce: u32, preset: Preset) -> (r: Result<
    ControlOutcome,
    ControlError,
>)
    ensures
        previews(r, origin, domain.deep_view(), nonce, preset.deep_view()),
{
    if let Err(e) = ensure_local_ui(origin, "preview_preset") {
        return Err(e);
    }
    let mut preset = preset;
    preset.normalize();
    let (preview, error) = match validate_preset(&preset, domain.collars.as_slice()) {
        Err(e) => (None, Some(e.message)),
        Ok(()) => match preview_preset(&preset, domain.collars.as_slice()) {
            Ok(preview) => (Some(preview), None),
            Err(e) => (None, Some(e.message)),
        },
    };
    Ok(ControlOutcome::Reply(Reply::PresetPreview { nonce, preview, error }))
}

// ----- What only the local UI may do -----

pub fn ensure_local_ui(origin: MessageOrigin, operation: &'static str) -> (r: Result<
    (),
    ControlError,
>)
    ensures
        match r {
            Ok(_) => origin == MessageOrigin::LocalUi,
            Err(e) => origin != MessageOrigin::LocalUi && e.deep_view()
                == (ControlErrorView::LocalUiOnly { operation: operation@ }),
        },
{
    if origin != MessageOrigin::LocalUi {
        Err(ControlError::LocalUiOnly { operation })
    } else {
        Ok(())
    }
}

/// Everything that the device keeps, presets normalized.
pub open spec fn exported(d: DomainView) -> ExportDataView {
    ExportDataView {
        collars: d.collars,
        presets: d.presets.map_values(|p: PresetView| p.normalized()),
    }
}

/// What the result of an export is.
pub open spec fn exports(
    r: Result<ControlOutcome, ControlError>,
    origin: MessageOrigin,
    d: DomainView,
) -> bool {
    if origin != MessageOrigin::LocalUi {
        fails(r, ControlErrorView::LocalUiOnly { operation: "export"@ })
    } else {
        r matches Ok(ControlOutcome::Reply(Reply::ExportData { data })) && data.deep_view()
            == exported(d)
    }
}

pub fn export(domain: &DomainState, origin: MessageOrigin) -> (r: Result<
    ControlOutcome,
    ControlError,
>)
    ensures
        exports(r, origin, domain.deep_view()),
{
    if let Err(e) = ensure_local_ui(origin, "export") {
        return Err(e);
    }
    let mut presets = clone_presets(&domain.presets);
    normalize_presets(&mut presets);
    Ok(
        ControlOutcome::Reply(
            Reply::ExportData {
                data: ExportData { collars: clone_collars(&domain.collars), presets },
            },
        ),
    )
}

/// What an import is taken to be: its presets normalized.
pub open spec fn imported(data: ExportDataView) -> ExportDataView {
    ExportDataView {
        collars: data.collars,
        presets: data.presets.map_values(|p: PresetView| p.normalized()),
    }
}

/// What the result of an import is.
pub open spec fn imports(
    r: Result<ControlOutcome, ControlError>,
    origin: MessageOrigin,
    data: ExportDataView,
) -> bool {
    if origin != MessageOrigin::LocalUi {
        fails(r, ControlErrorView::LocalUiOnly { operation: "import"@ })
    } else {
        match crate::validation::export_problem(imported(data)) {
            Some(why) => fails(r, ControlErrorView::Validation(why)),
            None => r matches Ok(ControlOutcome::Ask(AppCommand::ImportData { data: taken }))
                && taken.deep_view() == imported(data),
        }
    }
}

pub fn import(origin: MessageOrigin, data: ExportData) -> (r: Result<ControlOutcome, ControlError>)
    ensures
        imports(r, origin, data.deep_view()),
{
    if let Err(e) = ensure_local_ui(origin, "import") {
        return Err(e);
    }
    let mut presets = data.presets;
    normalize_presets(&mut presets);
    let data = ExportData { collars: data.collars, presets };
    if let Err(e) = validate_export_data(&data) {
        return Err(ControlError::Validation(e.message));
    }
    Ok(ControlOutcome::Ask(AppCommand::ImportData { data }))
}

/// What is exported from a device in order can be imported again, and is taken over as it is.
pub proof fn lemma_export_can_be_imported(d: DomainView)
    requires
        crate::services::domain_valid(d),
    ensures
        imported(exported(d)) == exported(d),
        crate::validation::export_problem(imported(exported(d))) is None,
{
    let e = exported(d);
    assert forall|i: int| 0 <= i < e.presets.len() implies (#[trigger] e.presets[i]).normalized()
        == e.presets[i] by {
        crate::protocol::model::lemma_normalize_twice(d.presets[i]);
    }
    assert(imported(e).presets =~= e.presets);
    assert forall|i: int| 0 <= i < e.presets.len() implies crate::validation::preset_valid(
        #[trigger] e.presets[i],
        e.collars,
    ) by {
        assert(crate::validation::preset_valid(d.presets[i], d.collars));
        crate::validation::lemma_normalized_stays_valid(d.presets[i], d.collars);
    }
    assert(crate::protocol::model::preset_names(e.presets)
        =~= crate::protocol::model::preset_names(d.presets));
    crate::validation::lemma_export_problem(e);
}

/// The settings that a client asks for, as they are taken: without an identity the device keeps
/// its own, and the blanks around addresses are dropped.
pub open spec fn settings_taken(d: DomainView, s: DeviceSettingsView) -> DeviceSettingsView {
    DeviceSettingsView {
        device_id: if s.device_id.len() == 0 {
            d.device_settings.device_id
        } else {
            s.device_id
        },
        ntp_server: crate::text::trimmed(s.ntp_server),
        remote_control_url: crate::text::trimmed(s.remote_control_url),
        ..s
    }
}

/// Why settings may not be taken, given what the URL of the remote control server comes to.
pub open spec fn settings_problem(
    taken: DeviceSettingsView,
    kind: Result<crate::remote_url::RemoteControlUrlKind, Seq<char>>,
) -> Option<ControlErrorView> {
    if taken.ntp_enabled && taken.ntp_server.len() == 0 {
        Some(ControlErrorView::EmptyNtpServer)
    } else if taken.remote_control_enabled && kind is Err {
        Some(ControlErrorView::RemoteControlUrl(kind->Err_0))
    } else {
        None
    }
}

/// What the result of saving settings is.
pub open spec fn saves_settings(
    r: Result<ControlOutcome, ControlError>,
    origin: MessageOrigin,
    d: DomainView,
    s: DeviceSettingsView,
) -> bool {
    let taken = settings_taken(d, s);
    if origin != MessageOrigin::LocalUi {
        fails(r, ControlErrorView::LocalUiOnly { operation: "save_device_settings"@ })
    } else {
        match settings_problem(
            taken,
            crate::remote_url::remote_control_url_kind(taken.remote_control_url),
        ) {
            Some(e) => fails(r, e),
            None => r matches Ok(
                ControlOutcome::Ask(AppCommand::SaveDeviceSettings { settings }),
            ) && settings.deep_view() == taken,
        }
    }
}

/// The settings that a client asks for, as they are taken.
pub fn take_settings(domain: &DomainState, settings: DeviceSettings) -> (r: DeviceSettings)
    ensures
        r.deep_view() == settings_taken(domain.deep_view(), settings.deep_view()),
{
    let mut settings = settings;
    proof {
        reveal_strlit("");
        assert(""@ =~= Seq::empty());
        assert(settings.device_id@.len() == 0 ==> settings.device_id@ =~= ""@);
    }
    if same_text(settings.device_id.as_str(), "") {
        settings.device_id = domain.device_settings.device_id.clone();
    }
    settings.ntp_server = trim(settings.ntp_server.as_str());
    settings.remote_control_url = trim(settings.remote_control_url.as_str());
    settings
}

/// Decides on settings, given what the URL of the remote control server comes to.
pub fn check_settings(
    taken: &DeviceSettings,
    kind: Result<crate::remote_url::RemoteControlUrlKind, String>,
) -> (r: Result<(), ControlError>)
    ensures
        ({
            let problem = settings_problem(
                taken.deep_view(),
                match kind {
                    Ok(k) => Ok(k),
                    Err(e) => Err(e@),
                },
            );
            match r {
                Ok(_) => problem is None,
                Err(e) => problem == Some(e.deep_view()),
            }
        }),
{
    proof {
        reveal_strlit("");
        assert(""@ =~= Seq::empty());
        assert(taken.ntp_server@.len() == 0 ==> taken.ntp_server@ =~= ""@);
    }
    if taken.ntp_enabled && same_text(taken.ntp_server.as_str(), "") {
        return Err(ControlError::EmptyNtpServer);
    }
    if taken.remote_control_enabled {
        if let Err(e) = kind {
            return Err(ControlError::RemoteControlUrl(e));
        }
    }
    Ok(())
}

pub fn save_device_settings(
    domain: &DomainState,
    origin: MessageOrigin,
    settings: DeviceSettings,
) -> (r: Result<ControlOutcome, ControlError>)
    ensures
        saves_settings(r, origin, domain.deep_view(), settings.deep_view()),
{
    if let Err(e) = ensure_local_ui(origin, "save_device_settings") {
        return Err(e);
    }
    let taken = take_settings(domain, settings);
    let kind = parse_remote_control_url(taken.remote_control_url.as_str());
    if let Err(e) = check_settings(&taken, kind) {
        return Err(e);
    }
    Ok(ControlOutcome::Ask(AppCommand::SaveDeviceSettings { settings: taken }))
}

// ----- Messages -----

/// Takes the messages of one client.
#[derive(Debug, Clone, Copy)]
pub struct ControlDispatcher {
    pub origin: MessageOrigin,
    pub owner: Option<ActionOwner>,
}

pub fn local_ui_dispatcher(owner: ActionOwner) -> (r: ControlDispatcher)
    ensures
        r.origin == MessageOrigin::LocalUi,
        r.owner == Some(owner),
{
    ControlDispatcher::new(MessageOrigin::LocalUi, Some(owner))
}

pub fn remote_control_dispatcher() -> (r: ControlDispatcher)
    ensures
        r.origin == MessageOrigin::RemoteControl,
        r.owner == Some(ActionOwner::RemoteControl),
{
    ControlDispatcher::new(MessageOrigin::RemoteControl, Some(ActionOwner::RemoteControl))
}

pub fn mqtt_dispatcher() -> (r: ControlDispatcher)
    ensures
        r.origin == MessageOrigin::Mqtt,
        r.owner == Some(ActionOwner::Mqtt),
{
    ControlDispatcher::new(MessageOrigin::Mqtt, Some(ActionOwner::Mqtt))
}

/// What a client that asks for a timed action asks for.
pub open spec fn timed_action(
    mode: CommandMode,
    intensity: u8,
    duration_ms: u32,
    intensity_max: Option<u8>,
    duration_max_ms: Option<u32>,
    intensity_distribution: Option<Distribution>,
    duration_distribution: Option<Distribution>,
) -> ActionRequest {
    ActionRequest {
        mode,
        intensity,
        intensity_max,
        duration_ms: Some(duration_ms),
        duration_max_ms,
        intensity_distribution: crate::preview::distribution_of(intensity_distribution),
        duration_distribution: crate::preview::distribution_of(duration_distribution),
        cancel_on_disconnect: false,
    }
}

/// What a client that asks for a held action asks for: it ends with the connection.
pub open spec fn held_action(
    mode: CommandMode,
    intensity: u8,
    intensity_max: Option<u8>,
    intensity_distribution: Option<Distribution>,
) -> ActionRequest {
    ActionRequest {
        mode,
        intensity,
        intensity_max,
        duration_ms: None,
        duration_max_ms: None,
        intensity_distribution: crate::preview::distribution_of(intensity_distribution),
        duration_distribution: Distribution::Uniform,
        cancel_on_disconnect: true,
    }
}

/// What the result of asking for an action is.
pub open spec fn starts(
    r: Result<ControlOutcome, ControlError>,
    d: DomainView,
    now_ms: u64,
    now_us: u64,
    name: Seq<char>,
    request: ActionRequest,
    source: EventSource,
    owner: Option<ActionOwner>,
) -> bool {
    match r {
        Ok(ControlOutcome::Transmit(command)) => action_started(
            Ok(command),
            d,
            now_ms,
            now_us,
            name,
            request,
            source,
            owner,
        ),
        Err(e) => action_started(Err(e), d, now_ms, now_us, name, request, source, owner),
        _ => false,
    }
}

/// What the result of a message is.
pub open spec fn answers(
    r: Result<ControlOutcome, ControlError>,
    origin: MessageOrigin,
    owner: Option<ActionOwner>,
    d: DomainView,
    now_ms: u64,
    now_us: u64,
    msg: ClientMessage,
) -> bool {
    let source = crate::session::source_of(origin);
    match msg {
        ClientMessage::Command { collar_name, mode, intensity } => command_sent(
            r,
            d,
            now_ms,
            collar_name@,
            mode,
            intensity,
        ),
        ClientMessage::ButtonEvent { .. } => r matches Ok(ControlOutcome::Done),
        ClientMessage::RunAction {
            collar_name,
            mode,
            intensity,
            duration_ms,
            intensity_max,
            duration_max_ms,
            intensity_distribution,
            duration_distribution,
        } => starts(
            r,
            d,
            now_ms,
            now_us,
            collar_name@,
            timed_action(
                mode,
                intensity,
                duration_ms,
                intensity_max,
                duration_max_ms,
                intensity_distribution,
                duration_distribution,
            ),
            source,
            owner,
        ),
        ClientMessage::StartAction {
            collar_name,
            mode,
            intensity,
            intensity_max,
            intensity_distribution,
        } => starts(
            r,
            d,
            now_ms,
            now_us,
            collar_name@,
            held_action(mode, intensity, intensity_max, intensity_distribution),
            source,
            owner,
        ),
        ClientMessage::StopAction { collar_name, mode } => r matches Ok(
            ControlOutcome::Transmit(TransmissionCommand::CancelAction { key }),
        ) && key@ == (KeyView { collar_name: collar_name@, mode }),
        ClientMessage::AddCollar { name, collar_id, channel } => r matches Ok(
            ControlOutcome::Ask(AppCommand::AddCollar { collar }),
        ) && collar == (Collar { name, collar_id, channel }),
        ClientMessage::UpdateCollar { original_name, name, collar_id, channel } => r matches Ok(
            ControlOutcome::Ask(AppCommand::UpdateCollar { original_name: original, updated }),
        ) && original == original_name && updated == (Collar { name, collar_id, channel }),
        ClientMessage::DeleteCollar { name } => r == Ok::<ControlOutcome, ControlError>(
            ControlOutcome::Ask(AppCommand::DeleteCollar { name }),
        ),
        ClientMessage::SavePreset { original_name, preset } => r matches Ok(
            ControlOutcome::Ask(AppCommand::SavePreset { original_name: original, preset: saved }),
        ) && original == original_name && saved.deep_view() == preset.deep_view().normalized(),
        ClientMessage::Ping { nonce } => r == Ok::<ControlOutcome, ControlError>(
            ControlOutcome::Reply(Reply::Pong { nonce }),
        ),
        ClientMessage::DeletePreset { name } => r == Ok::<ControlOutcome, ControlError>(
            ControlOutcome::Ask(AppCommand::DeletePreset { name }),
        ),
        ClientMessage::RunPreset { name } => preset_run(r, d, now_ms, name@, source),
        ClientMessage::StopPreset => r == Ok::<ControlOutcome, ControlError>(
            ControlOutcome::Ask(AppCommand::StopPreset),
        ),
        ClientMessage::StopAll => r == Ok::<ControlOutcome, ControlError>(
            ControlOutcome::Ask(AppCommand::StopAll),
        ),
        ClientMessage::StartRfDebug | ClientMessage::StopRfDebug | ClientMessage::ClearRfDebug => {
            fails(r, ControlErrorView::LocalUiOnly { operation: "RF debug control"@ })
        },
        ClientMessage::Reboot => fails(
            r,
            ControlErrorView::LocalUiOnly { operation: "Device reboot"@ },
        ),
        ClientMessage::GetDeviceSettings => if origin != MessageOrigin::LocalUi {
            fails(r, ControlErrorView::LocalUiOnly { operation: "get_device_settings"@ })
        } else {
            r matches Ok(
                ControlOutcome::Reply(Reply::DeviceSettings { settings, reboot_required }),
            ) && settings.deep_view() == d.device_settings && !reboot_required
        },
        ClientMessage::GetNetworkStatus => if origin != MessageOrigin::LocalUi {
            fails(r, ControlErrorView::LocalUiOnly { operation: "get_network_status"@ })
        } else {
            r matches Ok(ControlOutcome::Reply(Reply::NetworkStatus { settings }))
                && settings.deep_view() == d.device_settings
        },
        ClientMessage::SaveDeviceSettings { settings } => saves_settings(
            r,
            origin,
            d,
            settings.deep_view(),
        ),
        ClientMessage::PreviewPreset { nonce, preset } => previews(
            r,
            origin,
            d,
            nonce,
            preset.deep_view(),
        ),
        ClientMessage::ReorderPresets { names } => r == Ok::<ControlOutcome, ControlError>(
            ControlOutcome::Ask(AppCommand::ReorderPresets { names }),
        ),
        ClientMessage::Export => exports(r, origin, d),
        ClientMessage::Import { data } => imports(r, origin, data.deep_view()),
    }
}

/// Whether the result of asking for an action was drawn as its distributions ask.
pub open spec fn starts_sampled<G: GaussianSource>(
    before: G,
    after: G,
    r: Result<ControlOutcome, ControlError>,
    now_us: u64,
    request: ActionRequest,
) -> bool {
    match r {
        Ok(ControlOutcome::Transmit(command)) => action_sampled(
            before,
            after,
            Ok(command),
            now_us,
            request,
        ),
        Err(e) => action_sampled(before, after, Err(e), now_us, request),
        _ => false,
    }
}

/// Whether what a message leads to was drawn as its distributions ask. A message that asks for
/// neither an action nor a preset leaves the source as it is.
pub open spec fn answer_sampled<G: GaussianSource>(
    before: G,
    after: G,
    r: Result<ControlOutcome, ControlError>,
    origin: MessageOrigin,
    d: DomainView,
    now_ms: u64,
    now_us: u64,
    msg: ClientMessage,
) -> bool {
    match msg {
        ClientMessage::RunAction {
            mode,
            intensity,
            duration_ms,
            intensity_max,
            duration_max_ms,
            intensity_distribution,
            duration_distribution,
            ..
        } => starts_sampled(
            before,
            after,
            r,
            now_us,
            timed_action(
                mode,
                intensity,
                duration_ms,
                intensity_max,
                duration_max_ms,
                intensity_distribution,
                duration_distribution,
            ),
        ),
        ClientMessage::StartAction {
            mode,
            intensity,
            intensity_max,
            intensity_distribution,
            ..
        } => starts_sampled(
            before,
            after,
            r,
            now_us,
            held_action(mode, intensity, intensity_max, intensity_distribution),
        ),
        ClientMessage::RunPreset { name } => preset_sampled(
            before,
            after,
            r,
            d,
            now_ms,
            name@,
            crate::session::source_of(origin),
        ),
        _ => after == before,
    }
}

impl ControlDispatcher {
    pub fn new(origin: MessageOrigin, owner: Option<ActionOwner>) -> (r: Self)
        ensures
            r.origin == origin,
            r.owner == owner,
    {
        ControlDispatcher { origin, owner }
    }

    fn start_action<G: GaussianSource>(
        &self,
        domain: &DomainState,
        now_ms: u64,
        now_us: u64,
        random: &mut RandomResolver<G>,
        collar_name: String,
        request: ActionRequest,
    ) -> (r: Result<ControlOutcome, ControlError>)
        requires
            now_us + LONGEST_ACTION_US <= u64::MAX,
        ensures
            starts(
                r,
                domain.deep_view(),
                now_ms,
                now_us,
                collar_name@,
                request,
                crate::session::source_of(self.origin),
                self.owner,
            ),
            starts_sampled(
                old(random).gaussian,
                final(random).gaussian,
                r,
                now_us,
                request,
            ),
    {
        match start_manual_action(
            domain,
            now_ms,
            now_us,
            random,
            collar_name,
            request,
            event_source(self.origin),
            self.owner,
        ) {
            Ok(command) => Ok(ControlOutcome::Transmit(command)),
            Err(e) => Err(e),
        }
    }

    /// Decides what to do with a message.
    pub fn handle<G: GaussianSource>(
        &self,
        domain: &DomainState,
        now_ms: u64,
        now_us: u64,
        random: &mut RandomResolver<G>,
        msg: ClientMessage,
    ) -> (r: Result<ControlOutcome, ControlError>)
        requires
            now_us + LONGEST_ACTION_US <= u64::MAX,
        ensures
            answers(r, self.origin, self.owner, domain.deep_view(), now_ms, now_us, msg),
            answer_sampled(
                old(random).gaussian,
                final(random).gaussian,
                r,
                self.origin,
                domain.deep_view(),
                now_ms,
                now_us,
                msg,
            ),
    {
        match msg {
            ClientMessage::Command { collar_name, mode, intensity } => send_command(
                domain,
                now_ms,
                collar_name.as_str(),
                mode,
                intensity,
            ),
            ClientMessage::ButtonEvent { collar_name: _, mode: _, intensity: _, action: _ } => Ok(
                ControlOutcome::Done,
            ),
            ClientMessage::RunAction {
                collar_name,
                mode,
                intensity,
                duration_ms,
                intensity_max,
                duration_max_ms,
                intensity_distribution,
                duration_distribution,
            } => {
                let request = ActionRequest {
                    mode,
                    intensity,
                    intensity_max,
                    duration_ms: Some(duration_ms),
                    duration_max_ms,
                    intensity_distribution: distribution_or_default(intensity_distribution),
                    duration_distribution: distribution_or_default(duration_distribution),
                    cancel_on_disconnect: false,
                };
                self.start_action(domain, now_ms, now_us, random, collar_name, request)
            },
            ClientMessage::StartAction {
                collar_name,
                mode,
                intensity,
                intensity_max,
                intensity_distribution,
            } => {
                let request = ActionRequest {
                    mode,
                    intensity,
                    intensity_max,
                    duration_ms: None,
                    duration_max_ms: None,
                    intensity_distribution: distribution_or_default(intensity_distribution),
                    duration_distribution: Distribution::default(),
                    cancel_on_disconnect: true,
                };
                self.start_action(domain, now_ms, now_us, random, collar_name, request)
            },
            ClientMessage::StopAction { collar_name, mode } => Ok(
                ControlOutcome::Transmit(
                    TransmissionCommand::CancelAction { key: ActionKey { collar_name, mode } },
                ),
            ),
            ClientMessage::AddCollar { name, collar_id, channel } => Ok(
                ControlOutcome::Ask(
                    AppCommand::AddCollar { collar: Collar { name, collar_id, channel } },
                ),
            ),
            ClientMessage::UpdateCollar { original_name, name, collar_id, channel } => Ok(
                ControlOutcome::Ask(
                    AppCommand::UpdateCollar {
                        original_name,
                        updated: Collar { name, collar_id, channel },
                    },
                ),
            ),
            ClientMessage::DeleteCollar { name } => Ok(
                ControlOutcome::Ask(AppCommand::DeleteCollar { name }),
            ),
            ClientMessage::SavePreset { original_name, preset } => {
                let mut preset = preset;
                preset.normalize();
                Ok(ControlOutcome::Ask(AppCommand::SavePreset { original_name, preset }))
            },
            ClientMessage::Ping { nonce } => Ok(ControlOutcome::Reply(Reply::Pong { nonce })),
            ClientMessage::DeletePreset { name } => Ok(
                ControlOutcome::Ask(AppCommand::DeletePreset { name }),
            ),
            ClientMessage::RunPreset { name } => run_preset(
                domain,
                now_ms,
                random,
                name,
                event_source(self.origin),
            ),
            ClientMessage::StopPreset => Ok(ControlOutcome::Ask(AppCommand::StopPreset)),
            ClientMessage::StopAll => Ok(ControlOutcome::Ask(AppCommand::StopAll)),
            ClientMessage::StartRfDebug
            | ClientMessage::StopRfDebug
            | ClientMessage::ClearRfDebug => Err(
                ControlError::LocalUiOnly { operation: "RF debug control" },
            ),
            ClientMessage::Reboot => Err(ControlError::LocalUiOnly { operation: "Device reboot" }),
            ClientMessage::GetDeviceSettings => {
                if let Err(e) = ensure_local_ui(self.origin, "get_device_settings") {
                    return Err(e);
                }
                Ok(
                    ControlOutcome::Reply(
                        Reply::DeviceSettings {
                            settings: domain.device_settings.clone(),
                            reboot_required: false,
                        },
                    ),
                )
            },
            ClientMessage::GetNetworkStatus => {
                if let Err(e) = ensure_local_ui(self.origin, "get_network_status") {
                    return Err(e);
                }
                Ok(
                    ControlOutcome::Reply(
                        Reply::NetworkStatus { settings: domain.device_settings.clone() },
                    ),
                )
            },
            ClientMessage::SaveDeviceSettings { settings } => save_device_settings(
                domain,
                self.origin,
                settings,
            ),
            ClientMessage::PreviewPreset { nonce, preset } => preview(
                domain,
                self.origin,
                nonce,
                preset,
            ),
            ClientMessage::ReorderPresets { names } => Ok(
                ControlOutcome::Ask(AppCommand::ReorderPresets { names }),
            ),
            ClientMessage::Export => export(domain, self.origin),
            ClientMessage::Import { data } => import(self.origin, data),
        }
    }
}

/// Whether a message may only come from the local UI.
pub open spec fn local_only(msg: ClientMessage) -> bool {
    ||| msg is StartRfDebug
    ||| msg is StopRfDebug
    ||| msg is ClearRfDebug
    ||| msg is Reboot
    ||| msg is GetDeviceSettings
    ||| msg is GetNetworkStatus
    ||| msg is SaveDeviceSettings
    ||| msg is PreviewPreset
    ||| msg is Export
    ||| msg is Import
}

/// A message that may only come from the local UI is refused from anywhere else, whatever it
/// holds, and has no effect.
pub proof fn lemma_local_only_refused(
    r: Result<ControlOutcome, ControlError>,
    origin: MessageOrigin,
    owner: Option<ActionOwner>,
    d: DomainView,
    now_ms: u64,
    now_us: u64,
    msg: ClientMessage,
)
    requires
        answers(r, origin, owner, d, now_ms, now_us, msg),
        origin != MessageOrigin::LocalUi,
        local_only(msg),
    ensures
        r is Err,
        r->Err_0.deep_view() is LocalUiOnly,
{
}

/// While transmissions are barred no message leads to one: commands, actions and presets are
/// refused.
pub proof fn lemma_lockout_bars_transmissions(
    r: Result<ControlOutcome, ControlError>,
    origin: MessageOrigin,
    owner: Option<ActionOwner>,
    d: DomainView,
    now_ms: u64,
    now_us: u64,
    msg: ClientMessage,
)
    requires
        answers(r, origin, owner, d, now_ms, now_us, msg),
        now_ms < d.rf_lockout_until_ms,
    ensures
        !(r matches Ok(ControlOutcome::SendNow { .. })),
        !(r matches Ok(ControlOutcome::Transmit(TransmissionCommand::UpsertAction { .. }))),
        !(r matches Ok(ControlOutcome::Ask(AppCommand::StartPresetExecution { .. }))),
        msg is Command || msg is RunAction || msg is StartAction || msg is RunPreset ==> r is Err
            && r->Err_0.deep_view() is TransmissionLockout,
{
}

/// A held action is tied to the connection that asked for it: once that ends, the action does,
/// whatever else is being transmitted.
pub proof fn lemma_held_action_ends_with_its_connection(
    r: Result<ControlOutcome, ControlError>,
    origin: MessageOrigin,
    owner: ActionOwner,
    d: DomainView,
    now_ms: u64,
    now_us: u64,
    msg: ClientMessage,
    t: TransmitterView,
    then_us: u64,
)
    requires
        answers(r, origin, Some(owner), d, now_ms, now_us, msg),
        msg is StartAction,
        r is Ok,
        t.wf(),
    ensures
        r matches Ok(ControlOutcome::Transmit(TransmissionCommand::UpsertAction { key, handle }))
            && !crate::transmission::commanded(
            t,
            TransmissionCommand::CancelOwnedActions { owner },
            then_us,
        ).0.actions.contains(EntryView { key: key@, handle }),
{
    crate::transmission::lemma_disconnect_ends_held_actions(t, owner, then_us);
}

/// Whether an upper bound for an intensity is within what a command can hold.
pub open spec fn bound_ok(intensity_max: Option<u8>) -> bool {
    intensity_max is Some ==> intensity_max->0 <= MAX_INTENSITY
}

/// Whether all upper bounds for intensities that a message leads to are within what a command can
/// hold: its own, or those of the preset that it names.
pub open spec fn bounds_ok(d: DomainView, msg: ClientMessage) -> bool {
    match msg {
        ClientMessage::RunAction { intensity_max, .. } => bound_ok(intensity_max),
        ClientMessage::StartAction { intensity_max, .. } => bound_ok(intensity_max),
        ClientMessage::RunPreset { name } => forall|i: int, j: int, k: int|
            0 <= i < d.presets.len() && d.presets[i].name == name@ && 0 <= j
                < d.presets[i].tracks.len() && 0 <= k < d.presets[i].tracks[j].steps.len()
                ==> bound_ok((#[trigger] d.presets[i].tracks[j].steps[k]).intensity_max),
        _ => true,
    }
}

/// No message leads to a transmission that is stronger than a collar can be told: what a client
/// asks for is checked, and what is drawn stays within its bounds.
pub proof fn lemma_intensity_is_limited(
    r: Result<ControlOutcome, ControlError>,
    origin: MessageOrigin,
    owner: Option<ActionOwner>,
    d: DomainView,
    now_ms: u64,
    now_us: u64,
    msg: ClientMessage,
)
    requires
        answers(r, origin, owner, d, now_ms, now_us, msg),
        bounds_ok(d, msg),
    ensures
        r matches Ok(ControlOutcome::SendNow { intensity, .. }) ==> intensity <= MAX_INTENSITY,
        r matches Ok(ControlOutcome::Transmit(TransmissionCommand::UpsertAction { handle, .. }))
            ==> handle.intensity <= MAX_INTENSITY,
        r matches Ok(ControlOutcome::Ask(AppCommand::StartPresetExecution { events, .. }))
            ==> forall|i: int|
            0 <= i < events@.len() ==> (#[trigger] events@[i]).intensity <= MAX_INTENSITY,
{
    if let ClientMessage::RunPreset { name } = msg {
        let names = crate::protocol::model::preset_names(d.presets);
        if let Some(at) = crate::protocol::model::position(names, name@) {
            crate::protocol::model::lemma_position(names, name@);
            let p = d.presets[at];
            crate::validation::lemma_preset_problem(p, d.collars);
            if r is Ok {
                let resolved = choose|resolved: PresetView|
                    #[trigger] crate::preview::preset_drawn(p, resolved) && resolved_run(
                        r,
                        p,
                        resolved,
                        d,
                        crate::session::source_of(origin),
                    );
                assert(p.name == name@);
                assert forall|i: int, j: int|
                    0 <= i < resolved.tracks.len() && 0 <= j < resolved.tracks[i].steps.len() && (
                    #[trigger] resolved.tracks[i].steps[j]).mode.command() is Some implies
                resolved.tracks[i].steps[j].intensity <= MAX_INTENSITY by {
                    assert(resolved.tracks[i].steps.len() == p.tracks[i].steps.len());
                    assert(crate::preview::step_drawn(
                        p.tracks[i].steps[j],
                        resolved.tracks[i].steps[j],
                    ));
                    assert(bound_ok(d.presets[at].tracks[i].steps[j].intensity_max));
                    assert(crate::validation::track_valid(p.tracks[i], d.collars));
                    assert(crate::validation::step_valid(p.tracks[i].steps[j]));
                }
                crate::scheduling::lemma_schedule_strength(resolved, d.collars, MAX_INTENSITY);
                let s = crate::scheduling::schedule(resolved, d.collars)->Ok_0;
                let planned = crate::preview::planned(resolved, d.collars)->Ok_0;
                assert forall|i: int| 0 <= i < planned.len() implies (
                #[trigger] planned[i]).intensity <= MAX_INTENSITY by {
                    assert(planned[i] == s[i].event);
                }
            }
        }
    }
}

// ----- What messages lead to -----

/// Whether the collar at `c` is the one that a name stands for: the first of that name.
pub open spec fn is_target(d: DomainView, name: Seq<char>, c: int) -> bool {
    crate::scheduling::first_named(d.collars, name, c)
}

proof fn lemma_target(d: DomainView, name: Seq<char>, c: int)
    ensures
        is_target(d, name, c) <==> crate::protocol::model::position(
            crate::protocol::model::collar_names(d.collars),
            name,
        ) == Some(c),
        (forall|i: int| 0 <= i < d.collars.len() ==> (#[trigger] d.collars[i]).name != name)
            ==> crate::protocol::model::position(
            crate::protocol::model::collar_names(d.collars),
            name,
        ) is None,
{
    let names = crate::protocol::model::collar_names(d.collars);
    crate::protocol::model::lemma_position(names, name);
    if is_target(d, name, c) {
        assert forall|b: int| 0 <= b < c implies #[trigger] names[b] != name by {
            assert(d.collars[b].name != name);
        }
        crate::protocol::model::lemma_position_is(names, name, c);
    }
    if crate::protocol::model::position(names, name) == Some(c) {
        assert forall|b: int| 0 <= b < c implies (#[trigger] d.collars[b]).name != name by {
            assert(names[b] != name);
        }
    }
    if crate::protocol::model::position(names, name) is Some {
        let i = crate::protocol::model::position(names, name)->0;
        assert(d.collars[i].name == name);
    }
}

/// A command goes out at once to the collar that it names, in its mode and with its intensity, a
/// beep without any, if transmissions are not barred and the intensity is at most 99.
pub proof fn lemma_command_is_sent(
    r: Result<ControlOutcome, ControlError>,
    origin: MessageOrigin,
    owner: Option<ActionOwner>,
    d: DomainView,
    now_ms: u64,
    now_us: u64,
    collar_name: String,
    mode: CommandMode,
    intensity: u8,
    c: int,
)
    requires
        answers(
            r,
            origin,
            owner,
            d,
            now_ms,
            now_us,
            ClientMessage::Command { collar_name, mode, intensity },
        ),
        d.rf_lockout_until_ms <= now_ms,
    ensures
        mode is Beep || intensity <= 99 ==> is_target(d, collar_name@, c) ==> r == Ok::<
            ControlOutcome,
            ControlError,
        >(
            ControlOutcome::SendNow {
                collar_id: d.collars[c].collar_id,
                channel: d.collars[c].channel,
                mode_byte: match mode {
                    CommandMode::Shock => 1,
                    CommandMode::Vibrate => 2,
                    CommandMode::Beep => 3,
                },
                intensity: if mode is Beep {
                    0
                } else {
                    intensity
                },
            },
        ),
        !(mode is Beep) && intensity > 99 ==> fails(
            r,
            ControlErrorView::InvalidIntensity { intensity, max: 99 },
        ),
        (mode is Beep || intensity <= 99) && (forall|i: int|
            0 <= i < d.collars.len() ==> (#[trigger] d.collars[i]).name != collar_name@) ==> fails(
            r,
            ControlErrorView::UnknownCollar(collar_name@),
        ),
{
    lemma_target(d, collar_name@, c);
}

/// Whether an action for this collar was started with an intensity of this range and, unless it is
/// held, for a time of this range.
pub open spec fn action_runs(
    r: Result<ControlOutcome, ControlError>,
    collar: crate::protocol::model::CollarView,
    mode: CommandMode,
    owner: Option<ActionOwner>,
    source: EventSource,
    now_us: u64,
    held: bool,
    weakest: u8,
    strongest: u8,
    shortest_ms: int,
    longest_ms: int,
) -> bool {
    &&& r matches Ok(ControlOutcome::Transmit(TransmissionCommand::UpsertAction { key, handle }))
    &&& key.collar_name@ == collar.name
    &&& key.mode == mode
    &&& handle.collar_id == collar.collar_id
    &&& handle.channel == collar.channel
    &&& handle.mode_byte == match mode {
        CommandMode::Shock => 1u8,
        CommandMode::Vibrate => 2u8,
        CommandMode::Beep => 3u8,
    }
    &&& handle.owner == owner
    &&& handle.source == source
    &&& handle.started_at_us == now_us
    &&& handle.cancel_on_disconnect == held
    &&& weakest <= handle.intensity <= strongest
    &&& held ==> handle.deadline_us is None
    &&& !held ==> handle.deadline_us is Some && now_us + shortest_ms * 1000
        <= handle.deadline_us->0 <= now_us + longest_ms * 1000
}

/// A timed action runs on the collar that it names for the time that it asks for, with the
/// intensity that it asks for, a beep without any; where it asks for a range, the value lies in it,
/// a duration in whole half seconds.
pub proof fn lemma_timed_action_runs(
    r: Result<ControlOutcome, ControlError>,
    origin: MessageOrigin,
    owner: Option<ActionOwner>,
    d: DomainView,
    now_ms: u64,
    now_us: u64,
    msg: ClientMessage,
    c: int,
)
    requires
        answers(r, origin, owner, d, now_ms, now_us, msg),
        d.rf_lockout_until_ms <= now_ms,
        msg is RunAction,
        is_target(d, msg->RunAction_collar_name@, c),
        msg->RunAction_mode is Beep || msg->RunAction_intensity <= 99,
        msg->RunAction_duration_ms > 0,
    ensures
        ({
            let beeps = msg->RunAction_mode is Beep;
            let strength = msg->RunAction_intensity;
            let duration = msg->RunAction_duration_ms;
            let drawn_strength = !beeps && msg->RunAction_intensity_max is Some
                && msg->RunAction_intensity_max->0 > strength;
            let drawn_duration = msg->RunAction_duration_max_ms is Some
                && msg->RunAction_duration_max_ms->0 > duration;
            action_runs(
                r,
                d.collars[c],
                msg->RunAction_mode,
                owner,
                crate::session::source_of(origin),
                now_us,
                false,
                if beeps {
                    0
                } else {
                    strength
                },
                if beeps {
                    0
                } else if drawn_strength {
                    msg->RunAction_intensity_max->0
                } else {
                    strength
                },
                if drawn_duration {
                    duration - 499
                } else {
                    duration as int
                },
                if drawn_duration {
                    msg->RunAction_duration_max_ms->0 as int
                } else {
                    duration as int
                },
            )
        }),
{
    lemma_target(d, msg->RunAction_collar_name@, c);
    if let ClientMessage::RunAction {
        collar_name,
        mode,
        intensity,
        duration_ms,
        intensity_max,
        duration_max_ms,
        intensity_distribution,
        duration_distribution,
    } = msg {
        let request = timed_action(
            mode,
            intensity,
            duration_ms,
            intensity_max,
            duration_max_ms,
            intensity_distribution,
            duration_distribution,
        );
        assert(r is Ok);
        assert(r->Ok_0 is Transmit);
        let handle = r->Ok_0->Transmit_0->UpsertAction_handle;
        assert(deadline_allowed(request, now_us, handle.deadline_us));
        assert(!duration_allowed(request, None));
        let ms = choose|ms: u32|
            #[trigger] duration_allowed(request, Some(ms)) && handle.deadline_us->0 == now_us + ms
                * 1000;
        assert(duration_allowed(request, Some(ms)));
    }
}

/// A timed action of no duration is refused, and so is any action that is too strong or names no
/// collar.
pub proof fn lemma_bad_action_is_refused(
    r: Result<ControlOutcome, ControlError>,
    origin: MessageOrigin,
    owner: Option<ActionOwner>,
    d: DomainView,
    now_ms: u64,
    now_us: u64,
    msg: ClientMessage,
)
    requires
        answers(r, origin, owner, d, now_ms, now_us, msg),
        d.rf_lockout_until_ms <= now_ms,
    ensures
        msg is RunAction && !(msg->RunAction_mode is Beep) && msg->RunAction_intensity > 99
            ==> fails(
            r,
            ControlErrorView::InvalidIntensity { intensity: msg->RunAction_intensity, max: 99 },
        ),
        msg is StartAction && !(msg->StartAction_mode is Beep) && msg->StartAction_intensity > 99
            ==> fails(
            r,
            ControlErrorView::InvalidIntensity { intensity: msg->StartAction_intensity, max: 99 },
        ),
        msg is RunAction && (msg->RunAction_mode is Beep || msg->RunAction_intensity <= 99) && (
        forall|i: int|
            0 <= i < d.collars.len() ==> (#[trigger] d.collars[i]).name
                != msg->RunAction_collar_name@) ==> fails(
            r,
            ControlErrorView::UnknownCollar(msg->RunAction_collar_name@),
        ),
        msg is StartAction && (msg->StartAction_mode is Beep || msg->StartAction_intensity <= 99)
            && (forall|i: int|
            0 <= i < d.collars.len() ==> (#[trigger] d.collars[i]).name
                != msg->StartAction_collar_name@) ==> fails(
            r,
            ControlErrorView::UnknownCollar(msg->StartAction_collar_name@),
        ),
        msg is RunAction && msg->RunAction_duration_ms == 0 ==> r is Err,
{
    if msg is RunAction {
        lemma_target(d, msg->RunAction_collar_name@, 0);
    }
    if msg is StartAction {
        lemma_target(d, msg->StartAction_collar_name@, 0);
    }
}

/// A held action runs on the collar that it names until it is stopped or its connection ends, with
/// the intensity that it asks for, a beep without any; where it asks for a range, the intensity
/// lies in it.
pub proof fn lemma_held_action_runs(
    r: Result<ControlOutcome, ControlError>,
    origin: MessageOrigin,
    owner: Option<ActionOwner>,
    d: DomainView,
    now_ms: u64,
    now_us: u64,
    msg: ClientMessage,
    c: int,
)
    requires
        answers(r, origin, owner, d, now_ms, now_us, msg),
        d.rf_lockout_until_ms <= now_ms,
        msg is StartAction,
        is_target(d, msg->StartAction_collar_name@, c),
        msg->StartAction_mode is Beep || msg->StartAction_intensity <= 99,
    ensures
        owner is None ==> fails(r, ControlErrorView::HeldActionRequiresOwner),
        owner is Some ==> {
            let beeps = msg->StartAction_mode is Beep;
            let strength = msg->StartAction_intensity;
            action_runs(
                r,
                d.collars[c],
                msg->StartAction_mode,
                owner,
                crate::session::source_of(origin),
                now_us,
                true,
                if beeps {
                    0
                } else {
                    strength
                },
                if beeps {
                    0
                } else if msg->StartAction_intensity_max is Some
                    && msg->StartAction_intensity_max->0 > strength {
                    msg->StartAction_intensity_max->0
                } else {
                    strength
                },
                0,
                0,
            )
        },
{
    lemma_target(d, msg->StartAction_collar_name@, c);
    if let ClientMessage::StartAction {
        collar_name,
        mode,
        intensity,
        intensity_max,
        intensity_distribution,
    } = msg {
        let request = held_action(mode, intensity, intensity_max, intensity_distribution);
        if owner is Some {
            let handle = r->Ok_0->Transmit_0->UpsertAction_handle;
            assert(deadline_allowed(request, now_us, handle.deadline_us));
            assert(forall|ms: u32| !(#[trigger] duration_allowed(request, Some(ms))));
        }
    }
}

/// Who asks is noted: the local UI, the remote control server or the broker.
pub proof fn lemma_sources()
    ensures
        crate::session::source_of(MessageOrigin::LocalUi) == EventSource::LocalUi,
        crate::session::source_of(MessageOrigin::RemoteControl) == EventSource::RemoteControl,
        crate::session::source_of(MessageOrigin::Mqtt) == EventSource::Mqtt,
{
}

/// What a message asks of the workers is passed on as it is asked for: the end of an action, a
/// change of collars or presets, and the end of the preset or of everything. A ping is answered
/// with its number.
pub proof fn lemma_requests_are_passed_on(
    r: Result<ControlOutcome, ControlError>,
    origin: MessageOrigin,
    owner: Option<ActionOwner>,
    d: DomainView,
    now_ms: u64,
    now_us: u64,
    msg: ClientMessage,
)
    requires
        answers(r, origin, owner, d, now_ms, now_us, msg),
    ensures
        msg is StopAction ==> r is Ok && r->Ok_0 is Transmit && r->Ok_0->Transmit_0 is CancelAction
            && r->Ok_0->Transmit_0->CancelAction_key.collar_name@ == msg->StopAction_collar_name@
            && r->Ok_0->Transmit_0->CancelAction_key.mode == msg->StopAction_mode,
        msg is AddCollar ==> r is Ok && r->Ok_0 is Ask && r->Ok_0->Ask_0 is AddCollar
            && r->Ok_0->Ask_0->AddCollar_collar == (Collar {
            name: msg->AddCollar_name,
            collar_id: msg->AddCollar_collar_id,
            channel: msg->AddCollar_channel,
        }),
        msg is UpdateCollar ==> r is Ok && r->Ok_0 is Ask && r->Ok_0->Ask_0 is UpdateCollar
            && r->Ok_0->Ask_0->UpdateCollar_original_name == msg->UpdateCollar_original_name
            && r->Ok_0->Ask_0->UpdateCollar_updated == (Collar {
            name: msg->UpdateCollar_name,
            collar_id: msg->UpdateCollar_collar_id,
            channel: msg->UpdateCollar_channel,
        }),
        msg is DeleteCollar ==> r is Ok && r->Ok_0 is Ask && r->Ok_0->Ask_0
            == (AppCommand::DeleteCollar { name: msg->DeleteCollar_name }),
        msg is SavePreset ==> r is Ok && r->Ok_0 is Ask && r->Ok_0->Ask_0 is SavePreset
            && r->Ok_0->Ask_0->SavePreset_original_name == msg->SavePreset_original_name
            && r->Ok_0->Ask_0->SavePreset_preset.deep_view()
            == msg->SavePreset_preset.deep_view().normalized(),
        msg is DeletePreset ==> r is Ok && r->Ok_0 is Ask && r->Ok_0->Ask_0
            == (AppCommand::DeletePreset { name: msg->DeletePreset_name }),
        msg is ReorderPresets ==> r is Ok && r->Ok_0 is Ask && r->Ok_0->Ask_0
            == (AppCommand::ReorderPresets { names: msg->ReorderPresets_names }),
        msg is StopPreset ==> r is Ok && r->Ok_0 is Ask && r->Ok_0->Ask_0 is StopPreset,
        msg is StopAll ==> r is Ok && r->Ok_0 is Ask && r->Ok_0->Ask_0 is StopAll,
        msg is Ping ==> r is Ok && r->Ok_0 is Reply && r->Ok_0->Reply_0 == (Reply::Pong {
            nonce: msg->Ping_nonce,
        }),
        msg is ButtonEvent ==> r is Ok && r->Ok_0 is Done,
{
}

/// The local UI is told the settings that are in force.
pub proof fn lemma_settings_are_shown(
    r: Result<ControlOutcome, ControlError>,
    owner: Option<ActionOwner>,
    d: DomainView,
    now_ms: u64,
    now_us: u64,
    msg: ClientMessage,
)
    requires
        answers(r, MessageOrigin::LocalUi, owner, d, now_ms, now_us, msg),
    ensures
        msg is GetDeviceSettings ==> r is Ok && r->Ok_0 is Reply && r->Ok_0->Reply_0
            is DeviceSettings && r->Ok_0->Reply_0->DeviceSettings_settings.deep_view()
            == d.device_settings && !r->Ok_0->Reply_0->DeviceSettings_reboot_required,
        msg is GetNetworkStatus ==> r is Ok && r->Ok_0 is Reply && r->Ok_0->Reply_0
            is NetworkStatus && r->Ok_0->Reply_0->NetworkStatus_settings.deep_view()
            == d.device_settings,
{
}

/// A preset that leaves nothing to chance runs exactly as it is scheduled, under its name and on
/// behalf of who asks; it is refused if it does not pass its checks or cannot be scheduled.
pub proof fn lemma_fixed_preset_runs_as_scheduled(
    r: Result<ControlOutcome, ControlError>,
    origin: MessageOrigin,
    owner: Option<ActionOwner>,
    d: DomainView,
    now_ms: u64,
    now_us: u64,
    name: String,
    at: int,
)
    requires
        answers(r, origin, owner, d, now_ms, now_us, ClientMessage::RunPreset { name }),
        d.rf_lockout_until_ms <= now_ms,
        0 <= at < d.presets.len(),
        d.presets[at].name == name@,
        forall|i: int| 0 <= i < at ==> (#[trigger] d.presets[i]).name != name@,
        forall|i: int, j: int|
            0 <= i < d.presets[at].tracks.len() && 0 <= j < d.presets[at].tracks[i].steps.len()
                ==> crate::preview::step_fixed(#[trigger] d.presets[at].tracks[i].steps[j]),
        crate::scheduling::fits(d.presets[at], u64::MAX as int),
    ensures
        ({
            let p = d.presets[at];
            let runs = crate::validation::preset_problem(p, d.collars) is None
                && crate::scheduling::schedule(p, d.collars) is Ok;
            &&& r is Ok <==> runs
            &&& runs ==> {
                &&& r->Ok_0 is Ask
                &&& r->Ok_0->Ask_0 is StartPresetExecution
                &&& r->Ok_0->Ask_0->StartPresetExecution_preset_name@ == name@
                &&& r->Ok_0->Ask_0->StartPresetExecution_source == crate::session::source_of(origin)
                &&& r->Ok_0->Ask_0->StartPresetExecution_resolved_preset is None
                &&& r->Ok_0->Ask_0->StartPresetExecution_events@
                    == crate::scheduling::transmissions(
                    crate::scheduling::schedule(p, d.collars)->Ok_0,
                )
            }
        }),
{
    let p = d.presets[at];
    let names = crate::protocol::model::preset_names(d.presets);
    assert forall|i: int| 0 <= i < at implies #[trigger] names[i] != name@ by {
        assert(d.presets[i].name != name@);
    }
    crate::protocol::model::lemma_position_is(names, name@, at);
    crate::preview::lemma_open_values(p);
    if crate::validation::preset_problem(p, d.collars) is None {
        let source = crate::session::source_of(origin);
        let resolved = choose|resolved: PresetView|
            #[trigger] crate::preview::preset_drawn(p, resolved) && resolved_run(
                r,
                p,
                resolved,
                d,
                source,
            );
        lemma_schedule_of_fixed(p, resolved, d.collars);
        let planned = crate::preview::planned(resolved, d.collars);
        if planned is Ok {
            assert(planned->Ok_0 =~= crate::scheduling::transmissions(
                crate::scheduling::schedule(p, d.collars)->Ok_0,
            ));
        }
    }
}

/// Where nothing is drawn, what is scheduled is the preset itself.
proof fn lemma_schedule_of_fixed(
    p: PresetView,
    r: PresetView,
    collars: Seq<crate::protocol::model::CollarView>,
)
    requires
        crate::preview::preset_drawn(p, r),
        !crate::preview::has_open_value(p),
    ensures
        crate::scheduling::schedule(r, collars) == crate::scheduling::schedule(p, collars),
        forall|limit: int| #[trigger]
            crate::scheduling::fits(r, limit) == crate::scheduling::fits(p, limit),
{
    assert forall|i: int| 0 <= i < p.tracks.len() implies crate::scheduling::same_run(
        p.tracks[i],
        #[trigger] r.tracks[i],
    ) by {
        assert forall|j: int| 0 <= j < p.tracks[i].steps.len() implies crate::scheduling::same_send(
            p.tracks[i].steps[j],
            #[trigger] r.tracks[i].steps[j],
        ) by {
            assert(crate::preview::step_drawn(p.tracks[i].steps[j], r.tracks[i].steps[j]));
            assert(!(p.tracks[i].steps[j].random_duration()
                || p.tracks[i].steps[j].random_intensity()));
        }
        assert(r.tracks[i].steps.len() == p.tracks[i].steps.len());
    }
    crate::scheduling::lemma_same_schedule(p, r, collars);
}

/// The local UI is shown the preview of the preset that it sends, normalized, or told what is wrong
/// with it, under the number that it gave.
pub proof fn lemma_preview_is_answered(
    r: Result<ControlOutcome, ControlError>,
    owner: Option<ActionOwner>,
    d: DomainView,
    now_ms: u64,
    now_us: u64,
    nonce: u32,
    preset: Preset,
)
    requires
        answers(
            r,
            MessageOrigin::LocalUi,
            owner,
            d,
            now_ms,
            now_us,
            ClientMessage::PreviewPreset { nonce, preset },
        ),
    ensures
        ({
            let p = preset.deep_view().normalized();
            let shown = crate::validation::preset_problem(p, d.collars) is None
                && crate::preview::previewed(p, d.collars) is Ok;
            &&& r is Ok
            &&& r->Ok_0 is Reply
            &&& r->Ok_0->Reply_0 is PresetPreview
            &&& r->Ok_0->Reply_0->PresetPreview_nonce == nonce
            &&& shown ==> r->Ok_0->Reply_0->PresetPreview_preview.deep_view() == Some(
                crate::preview::previewed(p, d.collars)->Ok_0,
            ) && r->Ok_0->Reply_0->PresetPreview_error is None
            &&& !shown ==> r->Ok_0->Reply_0->PresetPreview_preview is None
                && r->Ok_0->Reply_0->PresetPreview_error is Some
        }),
{
}

/// An export holds every collar and every preset that the device keeps, presets normalized, and an
/// import is taken over in the same way.
pub proof fn lemma_export_holds_everything(d: DomainView, data: ExportDataView, i: int)
    ensures
        exported(d).collars == d.collars,
        exported(d).presets.len() == d.presets.len(),
        0 <= i < d.presets.len() ==> exported(d).presets[i] == d.presets[i].normalized(),
        imported(data).collars == data.collars,
        imported(data).presets.len() == data.presets.len(),
        0 <= i < data.presets.len() ==> imported(data).presets[i] == data.presets[i].normalized(),
{
}

/// The local UI is given the export when it asks for it, and what it sends as an import is taken
/// over if it is valid.
pub proof fn lemma_export_and_import_are_answered(
    r: Result<ControlOutcome, ControlError>,
    owner: Option<ActionOwner>,
    d: DomainView,
    now_ms: u64,
    now_us: u64,
    msg: ClientMessage,
)
    requires
        answers(r, MessageOrigin::LocalUi, owner, d, now_ms, now_us, msg),
    ensures
        msg is Export ==> r is Ok && r->Ok_0 is Reply && r->Ok_0->Reply_0 is ExportData
            && r->Ok_0->Reply_0->ExportData_data.deep_view() == exported(d),
        msg is Import ==> {
            let data = imported(msg->Import_data.deep_view());
            &&& r is Ok <==> crate::validation::export_problem(data) is None
            &&& r is Ok ==> r->Ok_0 is Ask && r->Ok_0->Ask_0 is ImportData
                && r->Ok_0->Ask_0->ImportData_data.deep_view() == data
        },
{
}

/// Settings are taken as they are sent, but for the blanks around the addresses of the time server
/// and the remote control server, and for the identity, which stays if none is sent. They are
/// refused if the time server is to be used and not named, or the remote control server is to be
/// used and its address is no good.
pub proof fn lemma_settings_are_taken(
    r: Result<ControlOutcome, ControlError>,
    owner: Option<ActionOwner>,
    d: DomainView,
    now_ms: u64,
    now_us: u64,
    settings: DeviceSettings,
)
    requires
        answers(
            r,
            MessageOrigin::LocalUi,
            owner,
            d,
            now_ms,
            now_us,
            ClientMessage::SaveDeviceSettings { settings },
        ),
    ensures
        ({
            let s = settings.deep_view();
            let url = crate::text::trimmed(s.remote_control_url);
            let no_time = s.ntp_enabled && crate::text::is_blank(s.ntp_server);
            let no_remote = s.remote_control_enabled && crate::remote_url::remote_control_url_kind(
                url,
            ) is Err;
            &&& r is Ok <==> !no_time && !no_remote
            &&& no_time ==> fails(r, ControlErrorView::EmptyNtpServer)
            &&& r is Ok ==> {
                let taken = r->Ok_0->Ask_0->SaveDeviceSettings_settings.deep_view();
                &&& r->Ok_0 is Ask
                &&& r->Ok_0->Ask_0 is SaveDeviceSettings
                &&& taken.device_id == if s.device_id.len() == 0 {
                    d.device_settings.device_id
                } else {
                    s.device_id
                }
                &&& taken.ntp_server == crate::text::trimmed(s.ntp_server)
                &&& taken.remote_control_url == url
                &&& s == (DeviceSettingsView {
                    device_id: s.device_id,
                    ntp_server: s.ntp_server,
                    remote_control_url: s.remote_control_url,
                    ..taken
                })
            }
        }),
{
    crate::text::lemma_blank_is_trimmed_empty(settings.ntp_server@);
}

/// What only the local UI may ask for is refused from elsewhere by its name; listening to the radio
/// and restarting are not for this way at all.
pub proof fn lemma_local_requests_are_named(
    r: Result<ControlOutcome, ControlError>,
    origin: MessageOrigin,
    owner: Option<ActionOwner>,
    d: DomainView,
    now_ms: u64,
    now_us: u64,
    msg: ClientMessage,
)
    requires
        answers(r, origin, owner, d, now_ms, now_us, msg),
    ensures
        msg is StartRfDebug || msg is StopRfDebug || msg is ClearRfDebug ==> fails(
            r,
            ControlErrorView::LocalUiOnly { operation: "RF debug control"@ },
        ),
        msg is Reboot ==> fails(r, ControlErrorView::LocalUiOnly { operation: "Device reboot"@ }),
        origin != MessageOrigin::LocalUi ==> {
            &&& msg is Export ==> fails(r, ControlErrorView::LocalUiOnly { operation: "export"@ })
            &&& msg is Import ==> fails(r, ControlErrorView::LocalUiOnly { operation: "import"@ })
            &&& msg is PreviewPreset ==> fails(
                r,
                ControlErrorView::LocalUiOnly { operation: "preview_preset"@ },
            )
            &&& msg is SaveDeviceSettings ==> fails(
                r,
                ControlErrorView::LocalUiOnly { operation: "save_device_settings"@ },
            )
            &&& msg is GetDeviceSettings ==> fails(
                r,
                ControlErrorView::LocalUiOnly { operation: "get_device_settings"@ },
            )
            &&& msg is GetNetworkStatus ==> fails(
                r,
                ControlErrorView::LocalUiOnly { operation: "get_network_status"@ },
            )
        },
{
}

/// The values of an action are drawn from a normal distribution exactly where it gives a range and
/// asks for that distribution; a beep has no strength to draw. The strength is drawn before the
/// duration, each with one sample. An action that is refused draws nothing.
pub proof fn lemma_what_an_action_draws<G: GaussianSource>(
    before: G,
    after: G,
    r: Result<TransmissionCommand, ControlError>,
    now_us: u64,
    request: ActionRequest,
)
    requires
        action_sampled(before, after, r, now_us, request),
    ensures
        ({
            let strength = request.mode != CommandMode::Beep && request.intensity_max is Some
                && request.intensity_max->0 > request.intensity && request.intensity_distribution
                == Distribution::Gaussian;
            let length = request.duration_ms is Some && request.duration_max_ms is Some
                && request.duration_max_ms->0 > request.duration_ms->0
                && request.duration_distribution == Distribution::Gaussian;
            let count: int = if strength && length {
                2
            } else if strength || length {
                1
            } else {
                0
            };
            let n = before.samples().len() as int;
            &&& r is Err || !(strength || length) ==> after == before
            &&& r is Ok && r->Ok_0 is UpsertAction && before.keeps_record() ==> {
                let handle = r->Ok_0->UpsertAction_handle;
                &&& after.keeps_record()
                &&& after.samples().len() == n + count
                &&& after.samples().take(n) == before.samples()
                &&& strength ==> crate::preview::intensity_from(
                    after.samples()[n],
                    request.intensity,
                    request.intensity_max->0,
                    handle.intensity,
                )
                &&& length ==> handle.deadline_us is Some && crate::preview::duration_from(
                    after.samples().last(),
                    request.duration_ms->0,
                    request.duration_max_ms->0,
                    ((handle.deadline_us->0 - now_us) / 1000) as u32,
                )
            }
        }),
{
    if r is Ok && r->Ok_0 is UpsertAction && before.keeps_record() {
        let drawn = crate::random::new_samples(before, after);
        assert(after.samples().take(before.samples().len() as int) =~= before.samples());
        assert(after.samples() == before.samples() + drawn);
        if drawn.len() > 0 {
            assert(after.samples()[before.samples().len() as int] == drawn[0]);
            assert(after.samples().last() == drawn.last());
        }
    }
}

/// A message that asks for neither an action nor a preset draws nothing. An action that is asked
/// for draws as it says, and leads to a transmission or to an error.
pub proof fn lemma_what_a_message_draws<G: GaussianSource>(
    before: G,
    after: G,
    r: Result<ControlOutcome, ControlError>,
    origin: MessageOrigin,
    d: DomainView,
    now_ms: u64,
    now_us: u64,
    msg: ClientMessage,
)
    requires
        answer_sampled(before, after, r, origin, d, now_ms, now_us, msg),
    ensures
        !(msg is RunAction || msg is StartAction || msg is RunPreset) ==> after == before,
        (msg is RunAction || msg is StartAction) ==> r is Err || r->Ok_0 is Transmit,
        (msg is RunAction || msg is StartAction) && r is Err ==> after == before,
        msg matches ClientMessage::StartAction {
            mode,
            intensity,
            intensity_max,
            intensity_distribution,
            ..
        } ==> (r matches Ok(ControlOutcome::Transmit(command)) ==> action_sampled(
            before,
            after,
            Ok(command),
            now_us,
            held_action(mode, intensity, intensity_max, intensity_distribution),
        )),
        msg matches ClientMessage::RunAction {
            mode,
            intensity,
            duration_ms,
            intensity_max,
            duration_max_ms,
            intensity_distribution,
            duration_distribution,
            ..
        } ==> (r matches Ok(ControlOutcome::Transmit(command)) ==> action_sampled(
            before,
            after,
            Ok(command),
            now_us,
            timed_action(
                mode,
                intensity,
                duration_ms,
                intensity_max,
                duration_max_ms,
                intensity_distribution,
                duration_distribution,
            ),
        )),
{
}

/// What the two ways of asking for an action come to: one lasts as long as it says and does not
/// depend on the connection, the other lasts until it is stopped or the connection ends.
pub proof fn lemma_what_is_asked_for(
    mode: CommandMode,
    intensity: u8,
    duration_ms: u32,
    intensity_max: Option<u8>,
    duration_max_ms: Option<u32>,
    strength: Option<Distribution>,
    length: Option<Distribution>,
)
    ensures
        ({
            let t = timed_action(
                mode,
                intensity,
                duration_ms,
                intensity_max,
                duration_max_ms,
                strength,
                length,
            );
            let h = held_action(mode, intensity, intensity_max, strength);
            let drawn = if strength == Some(Distribution::Gaussian) {
                Distribution::Gaussian
            } else {
                Distribution::Uniform
            };
            &&& t.mode == mode && h.mode == mode
            &&& t.intensity == intensity && h.intensity == intensity
            &&& t.intensity_max == intensity_max && h.intensity_max == intensity_max
            &&& t.intensity_distribution == drawn && h.intensity_distribution == drawn
            &&& t.duration_ms == Some(duration_ms)
            &&& t.duration_max_ms == duration_max_ms
            &&& t.duration_distribution == if length == Some(Distribution::Gaussian) {
                Distribution::Gaussian
            } else {
                Distribution::Uniform
            }
            &&& !t.cancel_on_disconnect
            &&& h.duration_ms is None
            &&& h.duration_max_ms is None
            &&& h.cancel_on_disconnect
        }),
{
}

} // verus!
