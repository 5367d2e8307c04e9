//! The changes that commands make to what the device knows.

use vstd::prelude::*;

use crate::error::{ControlError, ControlErrorView};
use crate::protocol::event_log::{EventLogEntry, EventLogEntryKind, EventLogEntryView, EventSource};
use crate::protocol::model::{
    clone_collars, clone_presets, find_collar, find_preset, Collar, CollarView, ExportData,
    MqttStatus, MqttStatusView, Preset, PresetTrack, PresetView, RemoteControlStatus, RfDebugFrame,
    TrackView,
};
use crate::protocol::settings::{DeviceSettings, DeviceSettingsView};
use crate::remote_url::remote_control_status_from_settings;
use crate::state::{DomainState, DomainView};
use crate::text::{blank, same_text, trim};
use crate::validation::{validate_collar, validate_preset, validate_presets};

verus! {

pub const MAX_EVENT_LOG_ENTRIES: usize = 100;

pub const MAX_RF_DEBUG_EVENTS: usize = 100;

pub const RF_STOP_LOCKOUT_MS: u64 = 10_000;

impl DomainView {
    /// The state with no preset running.
    pub open spec fn stopped(self) -> DomainView {
        DomainView { preset_name: None, ..self }
    }
}

pub fn stop_active_preset(domain: &mut DomainState) -> (r: bool)
    ensures
        r == (old(domain).preset_name is Some),
        *final(domain) == (DomainState { preset_name: None, ..*old(domain) }),
        final(domain).deep_view() == old(domain).deep_view().stopped(),
{
    if domain.preset_name.is_some() {
        domain.preset_name = None;
        true
    } else {
        false
    }
}

// ----- Collars -----

#[derive(Debug)]
pub struct CollarChange {
    pub collars: Vec<Collar>,
    pub presets: Option<Vec<Preset>>,
    pub preset_stopped: bool,
    pub cancel_manual_actions: bool,
}

#[verifier::ext_equal]
pub struct CollarChangeView {
    pub collars: Seq<CollarView>,
    pub presets: Option<Seq<PresetView>>,
    pub preset_stopped: bool,
    pub cancel_manual_actions: bool,
}

impl DeepView for CollarChange {
    type V = CollarChangeView;

    open spec fn deep_view(&self) -> CollarChangeView {
        CollarChangeView {
            collars: self.collars.deep_view(),
            presets: self.presets.deep_view(),
            preset_stopped: self.preset_stopped,
            cancel_manual_actions: self.cancel_manual_actions,
        }
    }
}

/// The state with one more collar, or why it may not be added.
pub open spec fn collar_added(d: DomainView, c: CollarView) -> Result<DomainView, ControlErrorView> {
    if crate::validation::collar_problem(c) is Some {
        Err(ControlErrorView::Validation(crate::validation::collar_problem(c)->0))
    } else if crate::protocol::model::collar_names(d.collars).contains(c.name) {
        Err(ControlErrorView::DuplicateCollar(c.name))
    } else {
        Ok(DomainView { collars: d.collars.push(c), ..d })
    }
}

/// A track with a collar renamed.
pub open spec fn track_renamed(t: TrackView, from: Seq<char>, to: Seq<char>) -> TrackView {
    if t.collar_name == from {
        TrackView { collar_name: to, ..t }
    } else {
        t
    }
}

/// A preset with a collar renamed.
pub open spec fn preset_renamed(p: PresetView, from: Seq<char>, to: Seq<char>) -> PresetView {
    PresetView { tracks: p.tracks.map_values(|t: TrackView| track_renamed(t, from, to)), ..p }
}

/// Presets with a collar renamed.
pub open spec fn presets_renamed(
    ps: Seq<PresetView>,
    from: Seq<char>,
    to: Seq<char>,
) -> Seq<PresetView> {
    ps.map_values(|p: PresetView| preset_renamed(p, from, to))
}

/// Whether a name stands anywhere in a list but at `except`.
pub open spec fn elsewhere(names: Seq<Seq<char>>, name: Seq<char>, except: int) -> bool {
    exists|i: int| 0 <= i < names.len() && i != except && #[trigger] names[i] == name
}

/// The state with a collar replaced, the presets following a new name, or why it may not be.
pub open spec fn collar_updated(d: DomainView, original: Seq<char>, c: CollarView) -> Result<
    DomainView,
    ControlErrorView,
> {
    let names = crate::protocol::model::collar_names(d.collars);
    match crate::protocol::model::position(names, original) {
        None => Err(ControlErrorView::UnknownCollar(original)),
        Some(i) => if crate::validation::collar_problem(c) is Some {
            Err(ControlErrorView::Validation(crate::validation::collar_problem(c)->0))
        } else if elsewhere(names, c.name, i) {
            Err(ControlErrorView::DuplicateCollar(c.name))
        } else {
            Ok(
                DomainView {
                    collars: d.collars.update(i, c),
                    presets: presets_renamed(d.presets, original, c.name),
                    preset_name: None,
                    ..d
                },
            )
        },
    }
}

/// Whether some track of a preset names the collar.
pub open spec fn preset_names_collar(p: PresetView, name: Seq<char>) -> bool {
    exists|i: int| 0 <= i < p.tracks.len() && (#[trigger] p.tracks[i]).collar_name == name
}

/// Whether some preset names the collar.
pub open spec fn collar_in_use(ps: Seq<PresetView>, name: Seq<char>) -> bool {
    exists|i: int| 0 <= i < ps.len() && preset_names_collar(#[trigger] ps[i], name)
}

/// The collars that do not have this name.
pub open spec fn collars_without(cs: Seq<CollarView>, name: Seq<char>) -> Seq<CollarView>
    decreases cs.len(),
{
    if cs.len() == 0 {
        cs
    } else if cs.last().name == name {
        collars_without(cs.drop_last(), name)
    } else {
        collars_without(cs.drop_last(), name).push(cs.last())
    }
}

/// The state without a collar, or why it may not be deleted.
pub open spec fn collar_deleted(d: DomainView, name: Seq<char>) -> Result<
    DomainView,
    ControlErrorView,
> {
    if collar_in_use(d.presets, name) {
        Err(ControlErrorView::CollarReferencedByPreset(name))
    } else if !crate::protocol::model::collar_names(d.collars).contains(name) {
        Err(ControlErrorView::UnknownCollar(name))
    } else {
        Ok(DomainView { collars: collars_without(d.collars, name), preset_name: None, ..d })
    }
}

proof fn lemma_collars_without(cs: Seq<CollarView>, name: Seq<char>)
    ensures
        collars_without(cs, name).len() <= cs.len(),
        collars_without(cs, name).len() == cs.len()
            <==> !crate::protocol::model::collar_names(cs).contains(name),
        !crate::protocol::model::collar_names(cs).contains(name) ==> collars_without(cs, name)
            == cs,
    decreases cs.len(),
{
    let names = crate::protocol::model::collar_names(cs);
    if cs.len() > 0 {
        let front = cs.drop_last();
        let fnames = crate::protocol::model::collar_names(front);
        lemma_collars_without(front, name);
        assert(fnames =~= names.drop_last());
        assert(names[cs.len() - 1] == cs.last().name);
        if fnames.contains(name) {
            let i = choose|i: int| 0 <= i < fnames.len() && fnames[i] == name;
            assert(names[i] == name);
        }
        if names.contains(name) && cs.last().name != name {
            let i = choose|i: int| 0 <= i < names.len() && names[i] == name;
            assert(fnames[i] == name);
        }
        if !names.contains(name) {
            assert(cs.last().name != name);
            assert(front.push(cs.last()) =~= cs);
        }
    }
}

pub struct CollarService;

impl CollarService {
    pub fn add(domain: &mut DomainState, collar: Collar) -> (r: Result<CollarChange, ControlError>)
        ensures
            match r {
                Ok(change) => {
                    &&& collar_added(old(domain).deep_view(), collar.deep_view()) == Ok::<
                        DomainView,
                        ControlErrorView,
                    >(final(domain).deep_view())
                    &&& change.deep_view() == (CollarChangeView {
                        collars: final(domain).deep_view().collars,
                        presets: None,
                        preset_stopped: false,
                        cancel_manual_actions: false,
                    })
                },
                Err(e) => {
                    &&& collar_added(old(domain).deep_view(), collar.deep_view()) == Err::<
                        DomainView,
                        ControlErrorView,
                    >(e.deep_view())
                    &&& *final(domain) == *old(domain)
                },
            },
    {
        if let Err(e) = validate_collar(&collar) {
            return Err(ControlError::Validation(e.message));
        }
        let known = find_collar(domain.collars.as_slice(), collar.name.as_str());
        proof {
            crate::protocol::model::lemma_position(
                crate::protocol::model::collar_names(domain.deep_view().collars),
                collar.name@,
            );
        }
        if known.is_some() {
            return Err(ControlError::DuplicateCollar(collar.name));
        }
        let ghost before = domain.deep_view();
        domain.collars.push(collar);
        assert(domain.deep_view().collars =~= before.collars.push(collar.deep_view()));
        Ok(
            CollarChange {
                collars: clone_collars(&domain.collars),
                presets: None,
                preset_stopped: false,
                cancel_manual_actions: false,
            },
        )
    }

    pub fn update(domain: &mut DomainState, original_name: String, updated: Collar) -> (r: Result<
        CollarChange,
        ControlError,
    >)
        ensures
            match r {
                Ok(change) => {
                    &&& collar_updated(
                        old(domain).deep_view(),
                        original_name@,
                        updated.deep_view(),
                    ) == Ok::<DomainView, ControlErrorView>(final(domain).deep_view())
                    &&& change.deep_view() == (CollarChangeView {
                        collars: final(domain).deep_view().collars,
                        presets: if original_name@ != updated.name@ {
                            Some(final(domain).deep_view().presets)
                        } else {
                            None
                        },
                        preset_stopped: old(domain).preset_name is Some,
                        cancel_manual_actions: true,
                    })
                },
                Err(e) => {
                    &&& collar_updated(
                        old(domain).deep_view(),
                        original_name@,
                        updated.deep_view(),
                    ) == Err::<DomainView, ControlErrorView>(e.deep_view())
                    &&& *final(domain) == *old(domain)
                },
            },
    {
        let ghost before = domain.deep_view();
        let ghost names = crate::protocol::model::collar_names(before.collars);
        let index = match find_collar(domain.collars.as_slice(), original_name.as_str()) {
            Some(index) => index,
            None => {
                return Err(ControlError::UnknownCollar(original_name));
            },
        };
        if let Err(e) = validate_collar(&updated) {
            return Err(ControlError::Validation(e.message));
        }
        let mut i: usize = 0;
        while i < domain.collars.len()
            invariant
                i <= domain.collars@.len(),
                *domain == *old(domain),
                before == domain.deep_view(),
                names == crate::protocol::model::collar_names(before.collars),
                index < domain.collars@.len(),
                crate::protocol::model::position(names, original_name@) == Some(index as int),
                crate::validation::collar_problem(updated.deep_view()) is None,
                forall|j: int| 0 <= j < i && j != index ==> #[trigger] names[j] != updated.name@,
            decreases domain.collars@.len() - i,
        {
            assert(names[i as int] == domain.collars@[i as int].name@);
            if i != index && same_text(domain.collars[i].name.as_str(), updated.name.as_str()) {
                return Err(ControlError::DuplicateCollar(updated.name));
            }
            i = i + 1;
        }
        let renamed = !same_text(original_name.as_str(), updated.name.as_str());
        let updated_name = updated.name.clone();
        domain.collars.set(index, updated);
        assert(domain.deep_view().collars =~= before.collars.update(
            index as int,
            updated.deep_view(),
        ));
        if renamed {
            rename_in_presets(&mut domain.presets, original_name.as_str(), updated_name.as_str());
        } else {
            assert(presets_renamed(before.presets, original_name@, updated.name@)
                =~= before.presets) by {
                lemma_rename_to_same(before.presets, updated.name@);
            }
        }
        let preset_stopped = stop_active_preset(domain);
        let presets = if renamed {
            Some(clone_presets(&domain.presets))
        } else {
            None
        };
        Ok(
            CollarChange {
                collars: clone_collars(&domain.collars),
                presets,
                preset_stopped,
                cancel_manual_actions: true,
            },
        )
    }

    pub fn delete(domain: &mut DomainState, name: String) -> (r: Result<CollarChange, ControlError>)
        ensures
            match r {
                Ok(change) => {
                    &&& collar_deleted(old(domain).deep_view(), name@) == Ok::<
                        DomainView,
                        ControlErrorView,
                    >(final(domain).deep_view())
                    &&& change.deep_view() == (CollarChangeView {
                        collars: final(domain).deep_view().collars,
                        presets: None,
                        preset_stopped: old(domain).preset_name is Some,
                        cancel_manual_actions: true,
                    })
                },
                Err(e) => {
                    &&& collar_deleted(old(domain).deep_view(), name@) == Err::<
                        DomainView,
                        ControlErrorView,
                    >(e.deep_view())
                    &&& *final(domain) == *old(domain)
                },
            },
    {
        if collar_used(&domain.presets, name.as_str()) {
            return Err(ControlError::CollarReferencedByPreset(name));
        }
        let ghost before = domain.deep_view();
        let mut kept: Vec<Collar> = Vec::new();
        let mut i: usize = 0;
        while i < domain.collars.len()
            invariant
                i <= domain.collars@.len(),
                *domain == *old(domain),
                before == domain.deep_view(),
                kept.deep_view() == collars_without(before.collars.take(i as int), name@),
            decreases domain.collars@.len() - i,
        {
            let ghost next = before.collars.take(i + 1);
            proof {
                assert(next.drop_last() =~= before.collars.take(i as int));
                assert(next.last() == domain.collars@[i as int].deep_view());
            }
            if !same_text(domain.collars[i].name.as_str(), name.as_str()) {
                let ghost sofar = kept.deep_view();
                let collar = domain.collars[i].clone();
                kept.push(collar);
                assert(kept.deep_view() =~= sofar.push(collar.deep_view()));
            }
            i = i + 1;
        }
        proof {
            assert(before.collars.take(i as int) =~= before.collars);
            lemma_collars_without(before.collars, name@);
        }
        if kept.len() == domain.collars.len() {
            return Err(ControlError::UnknownCollar(name));
        }
        domain.collars = kept;
        let preset_stopped = stop_active_preset(domain);
        Ok(
            CollarChange {
                collars: clone_collars(&domain.collars),
                presets: None,
                preset_stopped,
                cancel_manual_actions: true,
            },
        )
    }
}

proof fn lemma_rename_to_same(ps: Seq<PresetView>, name: Seq<char>)
    ensures
        presets_renamed(ps, name, name) == ps,
{
    assert forall|i: int| 0 <= i < ps.len() implies preset_renamed(#[trigger] ps[i], name, name)
        == ps[i] by {
        assert(preset_renamed(ps[i], name, name).tracks =~= ps[i].tracks);
    }
    assert(presets_renamed(ps, name, name) =~= ps);
}

fn rename_in_tracks(tracks: &mut Vec<PresetTrack>, from: &str, to: &str)
    ensures
        final(tracks).deep_view() == old(tracks).deep_view().map_values(
            |t: TrackView| track_renamed(t, from@, to@),
        ),
{
    let ghost before = tracks@;
    let mut i: usize = 0;
    while i < tracks.len()
        invariant
            i <= tracks@.len(),
            before == old(tracks)@,
            tracks@.len() == before.len(),
            forall|j: int|
                0 <= j < i ==> tracks@[j].deep_view() == track_renamed(
                    (#[trigger] before[j]).deep_view(),
                    from@,
                    to@,
                ),
            forall|j: int| i <= j < before.len() ==> tracks@[j] == #[trigger] before[j],
        decreases before.len() - i,
    {
        assert(tracks@[i as int] == before[i as int]);
        if same_text(tracks[i].collar_name.as_str(), from) {
            tracks[i].collar_name = to.to_owned();
        }
        i = i + 1;
    }
    assert(tracks.deep_view() =~= old(tracks).deep_view().map_values(
        |t: TrackView| track_renamed(t, from@, to@),
    ));
}

fn rename_in_presets(presets: &mut Vec<Preset>, from: &str, to: &str)
    ensures
        final(presets).deep_view() == presets_renamed(old(presets).deep_view(), from@, to@),
{
    let ghost before = presets@;
    let mut i: usize = 0;
    while i < presets.len()
        invariant
            i <= presets@.len(),
            before == old(presets)@,
            presets@.len() == before.len(),
            forall|j: int|
                0 <= j < i ==> presets@[j].deep_view() == preset_renamed(
                    (#[trigger] before[j]).deep_view(),
                    from@,
                    to@,
                ),
            forall|j: int| i <= j < before.len() ==> presets@[j] == #[trigger] before[j],
        decreases before.len() - i,
    {
        assert(presets@[i as int] == before[i as int]);
        rename_in_tracks(&mut presets[i].tracks, from, to);
        i = i + 1;
    }
    assert(presets.deep_view() =~= presets_renamed(old(presets).deep_view(), from@, to@));
}

/// Whether some preset names the collar.
fn collar_used(presets: &Vec<Preset>, name: &str) -> (r: bool)
    ensures
        r == collar_in_use(presets.deep_view(), name@),
{
    let ghost ps = presets.deep_view();
    let mut i: usize = 0;
    while i < presets.len()
        invariant
            i <= presets@.len(),
            ps == presets.deep_view(),
            forall|k: int| 0 <= k < i ==> !preset_names_collar(#[trigger] ps[k], name@),
        decreases presets@.len() - i,
    {
        let tracks = &presets[i].tracks;
        let ghost p = ps[i as int];
        let mut j: usize = 0;
        while j < tracks.len()
            invariant
                j <= tracks@.len(),
                i < presets@.len(),
                ps == presets.deep_view(),
                p == ps[i as int],
                p.tracks == tracks.deep_view(),
                forall|k: int| 0 <= k < j ==> (#[trigger] p.tracks[k]).collar_name != name@,
            decreases tracks@.len() - j,
        {
            assert(p.tracks[j as int].collar_name == tracks@[j as int].collar_name@);
            if same_text(tracks[j].collar_name.as_str(), name) {
                assert(preset_names_collar(ps[i as int], name@));
                return true;
            }
            j = j + 1;
        }
        i = i + 1;
    }
    false
}

// ----- Presets -----

#[derive(Debug)]
pub struct PresetChange {
    pub presets: Vec<Preset>,
    pub preset_stopped: bool,
}

#[verifier::ext_equal]
pub struct PresetChangeView {
    pub presets: Seq<PresetView>,
    pub preset_stopped: bool,
}

impl DeepView for PresetChange {
    type V = PresetChangeView;

    open spec fn deep_view(&self) -> PresetChangeView {
        PresetChangeView {
            presets: self.presets.deep_view(),
            preset_stopped: self.preset_stopped,
        }
    }
}

/// The name of the preset that a save replaces, if it gives one.
pub open spec fn replaced_name(original: Option<Seq<char>>) -> Option<Seq<char>> {
    match original {
        Some(name) => if crate::text::trimmed(name).len() > 0 {
            Some(crate::text::trimmed(name))
        } else {
            None
        },
        None => None,
    }
}

/// The presets after a save: a preset that is named is replaced, otherwise one of the same name,
/// otherwise the new one is appended.
pub open spec fn presets_with(
    ps: Seq<PresetView>,
    replaced: Option<Seq<char>>,
    p: PresetView,
) -> Result<Seq<PresetView>, ControlErrorView> {
    let names = crate::protocol::model::preset_names(ps);
    match replaced {
        Some(name) => match crate::protocol::model::position(names, name) {
            None => Err(ControlErrorView::UnknownPreset(name)),
            Some(i) => if elsewhere(names, p.name, i) {
                Err(ControlErrorView::DuplicatePreset(p.name))
            } else {
                Ok(ps.update(i, p))
            },
        },
        None => match crate::protocol::model::position(names, p.name) {
            Some(i) => Ok(ps.update(i, p)),
            None => Ok(ps.push(p)),
        },
    }
}

/// The state after a preset was saved, or why it may not be.
pub open spec fn preset_saved(d: DomainView, original: Option<Seq<char>>, p: PresetView) -> Result<
    DomainView,
    ControlErrorView,
> {
    if crate::validation::preset_problem(p, d.collars) is Some {
        Err(ControlErrorView::Validation(crate::validation::preset_problem(p, d.collars)->0))
    } else {
        match presets_with(d.presets, replaced_name(original), p) {
            Err(e) => Err(e),
            Ok(ps) => if crate::validation::presets_problem(ps, d.collars) is Some {
                Err(ControlErrorView::Validation(crate::validation::presets_problem(ps, d.collars)->0))
            } else {
                Ok(DomainView { presets: ps, preset_name: None, ..d })
            },
        }
    }
}

/// The presets that do not have this name.
pub open spec fn presets_without(ps: Seq<PresetView>, name: Seq<char>) -> Seq<PresetView>
    decreases ps.len(),
{
    if ps.len() == 0 {
        ps
    } else if ps.last().name == name {
        presets_without(ps.drop_last(), name)
    } else {
        presets_without(ps.drop_last(), name).push(ps.last())
    }
}

/// The state without a preset, or why there is none to delete.
pub open spec fn preset_deleted(d: DomainView, name: Seq<char>) -> Result<
    DomainView,
    ControlErrorView,
> {
    if !crate::protocol::model::preset_names(d.presets).contains(name) {
        Err(ControlErrorView::UnknownPreset(name))
    } else {
        Ok(DomainView { presets: presets_without(d.presets, name), preset_name: None, ..d })
    }
}

proof fn lemma_presets_without(ps: Seq<PresetView>, name: Seq<char>)
    ensures
        presets_without(ps, name).len() <= ps.len(),
        presets_without(ps, name).len() == ps.len()
            <==> !crate::protocol::model::preset_names(ps).contains(name),
    decreases ps.len(),
{
    let names = crate::protocol::model::preset_names(ps);
    if ps.len() > 0 {
        let front = ps.drop_last();
        let fnames = crate::protocol::model::preset_names(front);
        lemma_presets_without(front, name);
        assert(fnames =~= names.drop_last());
        assert(names[ps.len() - 1] == ps.last().name);
        if fnames.contains(name) {
            let i = choose|i: int| 0 <= i < fnames.len() && fnames[i] == name;
            assert(names[i] == name);
        }
        if names.contains(name) && ps.last().name != name {
            let i = choose|i: int| 0 <= i < names.len() && names[i] == name;
            assert(fnames[i] == name);
        }
        if !names.contains(name) {
            assert(ps.last().name != name);
        }
    }
}

/// Whether a name does not occur again behind place `i`.
pub open spec fn last_of_its_name(names: Seq<Seq<char>>, i: int) -> bool {
    forall|j: int| i < j < names.len() ==> #[trigger] names[j] != names[i]
}

/// The preset that place `i` of an order asks for: the first of that name, where the order does
/// not name it again later.
pub open spec fn asked_for(ps: Seq<PresetView>, order: Seq<Seq<char>>, i: int) -> Option<int> {
    if last_of_its_name(order, i) {
        crate::protocol::model::position(crate::protocol::model::preset_names(ps), order[i])
    } else {
        None
    }
}

/// The presets that the first `n` places of an order ask for.
pub open spec fn ordered(ps: Seq<PresetView>, order: Seq<Seq<char>>, n: int) -> Seq<PresetView>
    decreases n,
{
    if n <= 0 {
        Seq::empty()
    } else {
        match asked_for(ps, order, n - 1) {
            Some(i) => ordered(ps, order, n - 1).push(ps[i]),
            None => ordered(ps, order, n - 1),
        }
    }
}

/// Whether an order asks for the preset at place `i`.
pub open spec fn is_asked_for(ps: Seq<PresetView>, order: Seq<Seq<char>>, i: int) -> bool {
    order.contains(ps[i].name) && crate::protocol::model::position(
        crate::protocol::model::preset_names(ps),
        ps[i].name,
    ) == Some(i)
}

/// Of the first `n` presets those that are not at a place of `skip`.
pub open spec fn outside(ps: Seq<PresetView>, skip: spec_fn(int) -> bool, n: int) -> Seq<PresetView>
    decreases n,
{
    if n <= 0 {
        Seq::empty()
    } else if skip(n - 1) {
        outside(ps, skip, n - 1)
    } else {
        outside(ps, skip, n - 1).push(ps[n - 1])
    }
}

/// The presets in a new order: first those that the order asks for, then the others as they were.
pub open spec fn reordered(ps: Seq<PresetView>, order: Seq<Seq<char>>) -> Seq<PresetView> {
    ordered(ps, order, order.len() as int) + outside(
        ps,
        |i: int| is_asked_for(ps, order, i),
        ps.len() as int,
    )
}

pub struct PresetService;

impl PresetService {
    pub fn save(domain: &mut DomainState, original_name: Option<String>, preset: Preset) -> (r:
        Result<PresetChange, ControlError>)
        ensures
            match r {
                Ok(change) => {
                    &&& preset_saved(
                        old(domain).deep_view(),
                        original_name.deep_view(),
                        preset.deep_view(),
                    ) == Ok::<DomainView, ControlErrorView>(final(domain).deep_view())
                    &&& change.deep_view() == (PresetChangeView {
                        presets: final(domain).deep_view().presets,
                        preset_stopped: old(domain).preset_name is Some,
                    })
                },
                Err(e) => {
                    &&& preset_saved(
                        old(domain).deep_view(),
                        original_name.deep_view(),
                        preset.deep_view(),
                    ) == Err::<DomainView, ControlErrorView>(e.deep_view())
                    &&& *final(domain) == *old(domain)
                },
            },
    {
        if let Err(e) = validate_preset(&preset, domain.collars.as_slice()) {
            return Err(ControlError::Validation(e.message));
        }
        let replaced = match original_name {
            Some(name) => {
                let trimmed = trim(name.as_str());
                proof {
                    crate::text::lemma_blank_is_trimmed_empty(name@);
                }
                if blank(name.as_str()) {
                    None
                } else {
                    Some(trimmed)
                }
            },
            None => None,
        };
        let updated = match save_among(&domain.presets, replaced, preset) {
            Ok(updated) => updated,
            Err(e) => {
                return Err(e);
            },
        };
        if let Err(e) = validate_presets(updated.as_slice(), domain.collars.as_slice()) {
            return Err(ControlError::Validation(e.message));
        }
        let preset_stopped = stop_active_preset(domain);
        domain.presets = updated;
        Ok(PresetChange { presets: clone_presets(&domain.presets), preset_stopped })
    }

    pub fn delete(domain: &mut DomainState, name: String) -> (r: Result<PresetChange, ControlError>)
        ensures
            match r {
                Ok(change) => {
                    &&& preset_deleted(old(domain).deep_view(), name@) == Ok::<
                        DomainView,
                        ControlErrorView,
                    >(final(domain).deep_view())
                    &&& change.deep_view() == (PresetChangeView {
                        presets: final(domain).deep_view().presets,
                        preset_stopped: old(domain).preset_name is Some,
                    })
                },
                Err(e) => {
                    &&& preset_deleted(old(domain).deep_view(), name@) == Err::<
                        DomainView,
                        ControlErrorView,
                    >(e.deep_view())
                    &&& *final(domain) == *old(domain)
                },
            },
    {
        let ghost before = domain.deep_view();
        let mut kept: Vec<Preset> = Vec::new();
        let mut i: usize = 0;
        while i < domain.presets.len()
            invariant
                i <= domain.presets@.len(),
                *domain == *old(domain),
                before == domain.deep_view(),
                kept.deep_view() == presets_without(before.presets.take(i as int), name@),
            decreases domain.presets@.len() - i,
        {
            let ghost next = before.presets.take(i + 1);
            proof {
                assert(next.drop_last() =~= before.presets.take(i as int));
                assert(next.last() == domain.presets@[i as int].deep_view());
            }
            if !same_text(domain.presets[i].name.as_str(), name.as_str()) {
                let ghost sofar = kept.deep_view();
                let preset = domain.presets[i].clone();
                kept.push(preset);
                assert(kept.deep_view() =~= sofar.push(preset.deep_view()));
            }
            i = i + 1;
        }
        proof {
            assert(before.presets.take(i as int) =~= before.presets);
            lemma_presets_without(before.presets, name@);
        }
        if kept.len() == domain.presets.len() {
            return Err(ControlError::UnknownPreset(name));
        }
        domain.presets = kept;
        let preset_stopped = stop_active_preset(domain);
        Ok(PresetChange { presets: clone_presets(&domain.presets), preset_stopped })
    }

    pub fn reorder(domain: &mut DomainState, names: Vec<String>) -> (r: PresetChange)
        ensures
            final(domain).deep_view() == (DomainView {
                presets: reordered(old(domain).deep_view().presets, names.deep_view()),
                ..old(domain).deep_view()
            }),
            r.deep_view() == (PresetChangeView {
                presets: final(domain).deep_view().presets,
                preset_stopped: false,
            }),
    {
        let ghost ps = domain.deep_view().presets;
        let ghost order = names.deep_view();
        let mut out: Vec<Preset> = Vec::new();
        let mut i: usize = 0;
        while i < names.len()
            invariant
                i <= names@.len(),
                *domain == *old(domain),
                ps == domain.deep_view().presets,
                order == names.deep_view(),
                out.deep_view() == ordered(ps, order, i as int),
            decreases names@.len() - i,
        {
            assert(order[i as int] == names@[i as int]@);
            if is_last_of_its_name(&names, i) {
                if let Some(at) = find_preset(domain.presets.as_slice(), names[i].as_str()) {
                    let ghost sofar = out.deep_view();
                    let preset = domain.presets[at].clone();
                    assert(preset.deep_view() == ps[at as int]);
                    out.push(preset);
                    assert(out.deep_view() =~= sofar.push(preset.deep_view()));
                }
            }
            i = i + 1;
        }
        let ghost first = out.deep_view();
        let ghost skip = |k: int| is_asked_for(ps, order, k);
        let mut k: usize = 0;
        assert(first + outside(ps, skip, 0) =~= first);
        while k < domain.presets.len()
            invariant
                k <= domain.presets@.len(),
                *domain == *old(domain),
                ps == domain.deep_view().presets,
                order == names.deep_view(),
                skip == |k: int| is_asked_for(ps, order, k),
                out.deep_view() == first + outside(ps, skip, k as int),
            decreases domain.presets@.len() - k,
        {
            let name = domain.presets[k].name.as_str();
            assert(ps[k as int] == domain.presets@[k as int].deep_view());
            let first_at = find_preset(domain.presets.as_slice(), name);
            let taken = listed(&names, name) && match first_at {
                Some(at) => at == k,
                None => false,
            };
            assert(taken == skip(k as int));
            if !taken {
                let ghost sofar = out.deep_view();
                let preset = domain.presets[k].clone();
                out.push(preset);
                assert(out.deep_view() =~= sofar.push(preset.deep_view()));
                assert(out.deep_view() =~= first + outside(ps, skip, k as int).push(ps[k as int]));
            }
            k = k + 1;
        }
        domain.presets = out;
        PresetChange { presets: clone_presets(&domain.presets), preset_stopped: false }
    }
}

/// The presets after a save, or why there are none.
fn save_among(presets: &Vec<Preset>, replaced: Option<String>, preset: Preset) -> (r: Result<
    Vec<Preset>,
    ControlError,
>)
    ensures
        match r {
            Ok(v) => presets_with(
                presets.deep_view(),
                replaced.deep_view(),
                preset.deep_view(),
            ) == Ok::<Seq<PresetView>, ControlErrorView>(v.deep_view()),
            Err(e) => presets_with(
                presets.deep_view(),
                replaced.deep_view(),
                preset.deep_view(),
            ) == Err::<Seq<PresetView>, ControlErrorView>(e.deep_view()),
        },
{
    let ghost ps = presets.deep_view();
    let ghost names = crate::protocol::model::preset_names(ps);
    let ghost p = preset.deep_view();
    let mut updated = clone_presets(presets);
    match replaced {
        Some(name) => {
            let index = match find_preset(presets.as_slice(), name.as_str()) {
                Some(index) => index,
                None => {
                    return Err(ControlError::UnknownPreset(name));
                },
            };
            let mut i: usize = 0;
            while i < presets.len()
                invariant
                    i <= presets@.len(),
                    ps == presets.deep_view(),
                    names == crate::protocol::model::preset_names(ps),
                    replaced == Some(name),
                    crate::protocol::model::position(names, name@) == Some(index as int),
                    index < presets@.len(),
                    p == preset.deep_view(),
                    updated.deep_view() == ps,
                    forall|j: int| 0 <= j < i && j != index ==> #[trigger] names[j] != preset.name@,
                decreases presets@.len() - i,
            {
                assert(names[i as int] == presets@[i as int].name@);
                if i != index && same_text(presets[i].name.as_str(), preset.name.as_str()) {
                    return Err(ControlError::DuplicatePreset(preset.name));
                }
                i = i + 1;
            }
            assert(updated.deep_view().len() == updated@.len());
            updated.set(index, preset);
            assert(updated.deep_view() =~= ps.update(index as int, p));
        },
        None => match find_preset(presets.as_slice(), preset.name.as_str()) {
            Some(index) => {
                assert(updated.deep_view().len() == updated@.len());
                updated.set(index, preset);
                assert(updated.deep_view() =~= ps.update(index as int, p));
            },
            None => {
                updated.push(preset);
                assert(updated.deep_view() =~= ps.push(p));
            },
        },
    }
    Ok(updated)
}

fn is_last_of_its_name(names: &Vec<String>, i: usize) -> (r: bool)
    requires
        i < names.len(),
    ensures
        r == last_of_its_name(names.deep_view(), i as int),
{
    let ghost order = names.deep_view();
    let mut j: usize = i + 1;
    while j < names.len()
        invariant
            i < j <= names@.len(),
            order == names.deep_view(),
            forall|k: int| i < k < j ==> #[trigger] order[k] != order[i as int],
        decreases names@.len() - j,
    {
        assert(order[j as int] == names@[j as int]@);
        assert(order[i as int] == names@[i as int]@);
        if same_text(names[j].as_str(), names[i].as_str()) {
            return false;
        }
        j = j + 1;
    }
    true
}

fn listed(names: &Vec<String>, name: &str) -> (r: bool)
    ensures
        r == names.deep_view().contains(name@),
{
    let ghost order = names.deep_view();
    let mut j: usize = 0;
    while j < names.len()
        invariant
            j <= names@.len(),
            order == names.deep_view(),
            forall|k: int| 0 <= k < j ==> #[trigger] order[k] != name@,
        decreases names@.len() - j,
    {
        assert(order[j as int] == names@[j as int]@);
        if same_text(names[j].as_str(), name) {
            return true;
        }
        j = j + 1;
    }
    false
}

// ----- Everything at once -----

#[derive(Debug)]
pub struct DataChange {
    pub collars: Vec<Collar>,
    pub presets: Vec<Preset>,
    pub preset_stopped: bool,
    pub cancel_manual_actions: bool,
}

pub struct DataService;

impl DataService {
    /// Replaces all collars and presets.
    pub fn import(domain: &mut DomainState, data: ExportData) -> (r: DataChange)
        ensures
            final(domain).deep_view() == (DomainView {
                collars: data.deep_view().collars,
                presets: data.deep_view().presets,
                preset_name: None,
                ..old(domain).deep_view()
            }),
            r.collars.deep_view() == data.deep_view().collars,
            r.presets.deep_view() == data.deep_view().presets,
            r.preset_stopped == (old(domain).preset_name is Some),
            r.cancel_manual_actions,
    {
        let preset_stopped = stop_active_preset(domain);
        domain.collars = data.collars;
        domain.presets = data.presets;
        DataChange {
            collars: clone_collars(&domain.collars),
            presets: clone_presets(&domain.presets),
            preset_stopped,
            cancel_manual_actions: true,
        }
    }
}

// ----- Settings -----

/// What a change of settings entails.
#[derive(Debug)]
pub struct SettingsChange {
    pub settings: DeviceSettings,
    pub reboot_required: bool,
    pub remote_settings_changed: bool,
    pub mqtt_settings_changed: bool,
    pub event_log_changed: bool,
}

/// Whether a change of settings takes effect only after a reboot: pins, Wi-Fi, access point,
/// client limit and time server do; everything else is taken up at once.
pub open spec fn reboot_needed(a: DeviceSettingsView, b: DeviceSettingsView) -> bool {
    ||| a.tx_led_pin != b.tx_led_pin
    ||| a.rx_led_pin != b.rx_led_pin
    ||| a.rf_tx_pin != b.rf_tx_pin
    ||| a.rf_rx_pin != b.rf_rx_pin
    ||| a.wifi_client_enabled != b.wifi_client_enabled
    ||| a.wifi_ssid != b.wifi_ssid
    ||| a.wifi_password != b.wifi_password
    ||| a.ap_enabled != b.ap_enabled
    ||| a.ap_password != b.ap_password
    ||| a.max_clients != b.max_clients
    ||| a.ntp_enabled != b.ntp_enabled
    ||| a.ntp_server != b.ntp_server
}

/// Whether the link to the remote control server has to be set up anew.
pub open spec fn remote_changed(a: DeviceSettingsView, b: DeviceSettingsView) -> bool {
    ||| a.remote_control_enabled != b.remote_control_enabled
    ||| a.remote_control_url != b.remote_control_url
    ||| a.remote_control_validate_cert != b.remote_control_validate_cert
}

/// Whether the link to the MQTT broker has to be set up anew.
pub open spec fn mqtt_changed(a: DeviceSettingsView, b: DeviceSettingsView) -> bool {
    ||| a.mqtt_enabled != b.mqtt_enabled
    ||| a.mqtt_server != b.mqtt_server
    ||| a.mqtt_port != b.mqtt_port
    ||| a.mqtt_username != b.mqtt_username
    ||| a.mqtt_password != b.mqtt_password
}

/// The report on the link to the broker right after the settings changed.
pub open spec fn initial_mqtt_status(s: DeviceSettingsView) -> MqttStatusView {
    MqttStatusView {
        enabled: s.mqtt_enabled,
        connected: false,
        server: crate::text::trimmed(s.mqtt_server),
        status_text: if !s.mqtt_enabled {
            "Off"@
        } else if crate::text::trimmed(s.mqtt_server).len() == 0 {
            "Missing server"@
        } else {
            "Connecting..."@
        },
    }
}

/// The state after new settings were taken over.
pub open spec fn settings_applied(d: DomainView, s: DeviceSettingsView) -> DomainView {
    DomainView {
        device_settings: s,
        remote_control_status: if remote_changed(d.device_settings, s) {
            crate::remote_url::initial_status(s)
        } else {
            d.remote_control_status
        },
        mqtt_status: if mqtt_changed(d.device_settings, s) {
            initial_mqtt_status(s)
        } else {
            d.mqtt_status
        },
        event_log_events: if s.record_event_log {
            d.event_log_events
        } else {
            Seq::empty()
        },
        ..d
    }
}

pub fn device_settings_reboot_required(previous: &DeviceSettings, next: &DeviceSettings) -> (r: bool)
    ensures
        r == reboot_needed(previous.deep_view(), next.deep_view()),
{
    previous.tx_led_pin != next.tx_led_pin || previous.rx_led_pin != next.rx_led_pin
        || previous.rf_tx_pin != next.rf_tx_pin || previous.rf_rx_pin != next.rf_rx_pin
        || previous.wifi_client_enabled != next.wifi_client_enabled || previous.wifi_ssid
        != next.wifi_ssid || previous.wifi_password != next.wifi_password || previous.ap_enabled
        != next.ap_enabled || previous.ap_password != next.ap_password || previous.max_clients
        != next.max_clients || previous.ntp_enabled != next.ntp_enabled || previous.ntp_server
        != next.ntp_server
}

/// The report on the link to the broker right after the settings changed.
pub fn mqtt_status_from_settings(settings: &DeviceSettings) -> (r: MqttStatus)
    ensures
        r.deep_view() == initial_mqtt_status(settings.deep_view()),
{
    proof {
        crate::text::lemma_blank_is_trimmed_empty(settings.mqtt_server@);
    }
    let status_text = if !settings.mqtt_enabled {
        "Off".to_owned()
    } else if blank(settings.mqtt_server.as_str()) {
        "Missing server".to_owned()
    } else {
        "Connecting...".to_owned()
    };
    MqttStatus {
        enabled: settings.mqtt_enabled,
        connected: false,
        server: trim(settings.mqtt_server.as_str()),
        status_text,
    }
}

pub struct SettingsService;

impl SettingsService {
    pub fn apply(domain: &mut DomainState, settings: DeviceSettings) -> (r: SettingsChange)
        ensures
            final(domain).deep_view() == settings_applied(
                old(domain).deep_view(),
                settings.deep_view(),
            ),
            r.settings == settings,
            r.reboot_required == reboot_needed(
                old(domain).deep_view().device_settings,
                settings.deep_view(),
            ),
            r.remote_settings_changed == remote_changed(
                old(domain).deep_view().device_settings,
                settings.deep_view(),
            ),
            r.mqtt_settings_changed == mqtt_changed(
                old(domain).deep_view().device_settings,
                settings.deep_view(),
            ),
            r.event_log_changed == (old(domain).device_settings.record_event_log
                != settings.record_event_log),
    {
        let previous = domain.device_settings.clone();
        let reboot_required = device_settings_reboot_required(&previous, &settings);
        let remote_settings_changed = previous.remote_control_enabled
            != settings.remote_control_enabled || previous.remote_control_url
            != settings.remote_control_url || previous.remote_control_validate_cert
            != settings.remote_control_validate_cert;
        let mqtt_settings_changed = previous.mqtt_enabled != settings.mqtt_enabled
            || previous.mqtt_server != settings.mqtt_server || previous.mqtt_port
            != settings.mqtt_port || previous.mqtt_username != settings.mqtt_username
            || previous.mqtt_password != settings.mqtt_password;
        let event_log_changed = previous.record_event_log != settings.record_event_log;
        domain.device_settings = settings.clone();
        if remote_settings_changed {
            domain.remote_control_status = remote_control_status_from_settings(
                &domain.device_settings,
            );
        }
        if mqtt_settings_changed {
            domain.mqtt_status = mqtt_status_from_settings(&domain.device_settings);
        }
        if !domain.device_settings.record_event_log {
            domain.event_log_events.clear();
            assert(domain.deep_view().event_log_events =~= Seq::empty());
        }
        SettingsChange {
            settings,
            reboot_required,
            remote_settings_changed,
            mqtt_settings_changed,
            event_log_changed,
        }
    }
}

// ----- Running presets -----

pub struct ExecutionService;

impl ExecutionService {
    pub fn start_preset(domain: &mut DomainState, preset_name: String)
        ensures
            *final(domain) == (DomainState { preset_name: Some(preset_name), ..*old(domain) }),
            final(domain).deep_view() == (DomainView {
                preset_name: Some(preset_name@),
                ..old(domain).deep_view()
            }),
    {
        domain.preset_name = Some(preset_name);
    }

    pub fn stop_preset(domain: &mut DomainState) -> (r: bool)
        ensures
            r == (old(domain).preset_name is Some),
            *final(domain) == (DomainState { preset_name: None, ..*old(domain) }),
            final(domain).deep_view() == old(domain).deep_view().stopped(),
    {
        stop_active_preset(domain)
    }

    /// Stops the preset and bars transmissions for a while.
    pub fn stop_all(domain: &mut DomainState, now_ms: u64)
        requires
            now_ms + RF_STOP_LOCKOUT_MS <= u64::MAX,
        ensures
            *final(domain) == (DomainState {
                preset_name: None,
                rf_lockout_until_ms: (now_ms + RF_STOP_LOCKOUT_MS) as u64,
                ..*old(domain)
            }),
            final(domain).deep_view() == (DomainView {
                preset_name: None,
                rf_lockout_until_ms: (now_ms + RF_STOP_LOCKOUT_MS) as u64,
                ..old(domain).deep_view()
            }),
    {
        domain.preset_name = None;
        domain.rf_lockout_until_ms = now_ms + RF_STOP_LOCKOUT_MS;
    }

    pub fn complete_preset(domain: &mut DomainState, preset_name: &str) -> (r: bool)
        ensures
            r == (old(domain).deep_view().preset_name == Some(preset_name@)),
            final(domain).deep_view() == if r {
                old(domain).deep_view().stopped()
            } else {
                old(domain).deep_view()
            },
            !r ==> *final(domain) == *old(domain),
    {
        let running = match &domain.preset_name {
            Some(name) => same_text(name.as_str(), preset_name),
            None => false,
        };
        if running {
            domain.preset_name = None;
        }
        running
    }
}

// ----- Links -----

pub struct RemoteControlService;

impl RemoteControlService {
    /// Notes how the link stands, and says whether that is news.
    pub fn set_status(domain: &mut DomainState, status: RemoteControlStatus) -> (r: bool)
        ensures
            r == (old(domain).deep_view().remote_control_status != status.deep_view()),
            final(domain).deep_view() == (DomainView {
                remote_control_status: status.deep_view(),
                ..old(domain).deep_view()
            }),
    {
        if domain.remote_control_status.same_as(&status) {
            false
        } else {
            domain.remote_control_status = status;
            true
        }
    }
}

pub struct MqttService;

impl MqttService {
    /// Notes how the link stands, and says whether that is news.
    pub fn set_status(domain: &mut DomainState, status: MqttStatus) -> (r: bool)
        ensures
            r == (old(domain).deep_view().mqtt_status != status.deep_view()),
            final(domain).deep_view() == (DomainView {
                mqtt_status: status.deep_view(),
                ..old(domain).deep_view()
            }),
    {
        if domain.mqtt_status.same_as(&status) {
            false
        } else {
            domain.mqtt_status = status;
            true
        }
    }
}

// ----- Logs -----

/// The last `n` items of `s`, or all of them.
pub open spec fn last_items<T>(s: Seq<T>, n: int) -> Seq<T> {
    if s.len() <= n {
        s
    } else {
        s.skip(s.len() - n)
    }
}

pub struct EventLogService;

impl EventLogService {
    /// Logs an event under the next sequence number, if events are logged, and keeps the last
    /// hundred.
    pub fn append<F: FnOnce() -> u64>(
        domain: &mut DomainState,
        next_sequence: F,
        monotonic_ms: u64,
        unix_ms: Option<u64>,
        source: EventSource,
        kind: EventLogEntryKind,
    ) -> (r: Option<EventLogEntry>)
        requires
            call_requires(next_sequence, ()),
        ensures
            r is Some <==> old(domain).device_settings.record_event_log,
            r is None ==> *final(domain) == *old(domain),
            r matches Some(entry) ==> {
                &&& call_ensures(next_sequence, (), entry.sequence)
                &&& entry.deep_view() == (EventLogEntryView {
                    sequence: entry.sequence,
                    monotonic_ms,
                    unix_ms,
                    source,
                    kind: kind.deep_view(),
                })
                &&& final(domain).deep_view() == (DomainView {
                    event_log_events: last_items(
                        old(domain).deep_view().event_log_events.push(entry.deep_view()),
                        MAX_EVENT_LOG_ENTRIES as int,
                    ),
                    ..old(domain).deep_view()
                })
            },
    {
        if !domain.device_settings.record_event_log {
            return None;
        }
        let entry = EventLogEntry {
            sequence: next_sequence(),
            monotonic_ms,
            unix_ms,
            source,
            kind,
        };
        let ghost before = domain.deep_view().event_log_events;
        let ghost all = before.push(entry.deep_view());
        let kept_copy = entry.clone();
        domain.event_log_events.push(kept_copy);
        assert(domain.deep_view().event_log_events =~= all);
        if domain.event_log_events.len() > MAX_EVENT_LOG_ENTRIES {
            let excess: usize = domain.event_log_events.len() - MAX_EVENT_LOG_ENTRIES;
            let kept = domain.event_log_events.split_off(excess);
            domain.event_log_events = kept;
            assert(domain.deep_view().event_log_events =~= last_items(
                all,
                MAX_EVENT_LOG_ENTRIES as int,
            ));
        }
        Some(entry)
    }
}

pub struct RfDebugService;

impl RfDebugService {
    /// Notes a frame that was heard; beyond a hundred the oldest is dropped.
    pub fn push_event(domain: &mut DomainState, event: RfDebugFrame)
        ensures
            final(domain).deep_view() == (DomainView {
                rf_debug_events: {
                    let all = old(domain).deep_view().rf_debug_events.push(event.deep_view());
                    if all.len() > MAX_RF_DEBUG_EVENTS {
                        all.drop_first()
                    } else {
                        all
                    }
                },
                ..old(domain).deep_view()
            }),
    {
        let ghost all = domain.deep_view().rf_debug_events.push(event.deep_view());
        domain.rf_debug_events.push_back(event);
        assert(domain.deep_view().rf_debug_events =~= all);
        if domain.rf_debug_events.len() > MAX_RF_DEBUG_EVENTS {
            domain.rf_debug_events.pop_front();
            assert(domain.deep_view().rf_debug_events =~= all.drop_first());
        }
    }

    pub fn clear_events(domain: &mut DomainState)
        ensures
            final(domain).deep_view() == (DomainView {
                rf_debug_events: Seq::empty(),
                ..old(domain).deep_view()
            }),
    {
        domain.rf_debug_events.clear();
        assert(domain.deep_view().rf_debug_events =~= Seq::empty());
    }
}

// ----- Laws -----

/// Whether what the device keeps is in order: its collars are valid, and so are its presets.
pub open spec fn domain_valid(d: DomainView) -> bool {
    crate::validation::collars_valid(d.collars) && crate::validation::presets_valid(
        d.presets,
        d.collars,
    )
}

/// A preset stays valid when every collar that it names is still there under its name.
proof fn lemma_preset_valid_with(
    p: PresetView,
    collars: Seq<CollarView>,
    others: Seq<CollarView>,
)
    requires
        crate::validation::preset_valid(p, collars),
        forall|name: Seq<char>|
            preset_names_collar(p, name) ==> #[trigger] crate::protocol::model::collar_names(
                others,
            ).contains(name),
    ensures
        crate::validation::preset_valid(p, others),
{
    assert forall|i: int| 0 <= i < p.tracks.len() implies crate::validation::track_valid(
        #[trigger] p.tracks[i],
        others,
    ) by {
        assert(crate::validation::track_valid(p.tracks[i], collars));
        assert(preset_names_collar(p, p.tracks[i].collar_name));
        assert(crate::protocol::model::collar_names(others).contains(p.tracks[i].collar_name));
    }
}

/// A collar that is added leaves everything in order.
pub proof fn lemma_add_collar_keeps_order(d: DomainView, c: CollarView)
    requires
        domain_valid(d),
        collar_added(d, c) is Ok,
    ensures
        domain_valid(collar_added(d, c)->Ok_0),
{
    let cs = d.collars;
    let after = cs.push(c);
    let names = crate::protocol::model::collar_names(cs);
    let anames = crate::protocol::model::collar_names(after);
    assert(anames =~= names.push(c.name));
    assert forall|i: int| 0 <= i < after.len() implies crate::validation::collar_valid(
        #[trigger] after[i],
    ) by {
        if i < cs.len() {
            assert(after[i] == cs[i]);
        }
    }
    assert forall|i: int, j: int| 0 <= i < anames.len() && 0 <= j < anames.len() && i
        != j implies anames[i] != anames[j] by {
        if i < names.len() && j < names.len() {
            assert(names[i] == anames[i] && names[j] == anames[j]);
        } else if i < names.len() {
            assert(names[i] == anames[i]);
            assert(names.contains(names[i]));
        } else {
            assert(names[j] == anames[j]);
            assert(names.contains(names[j]));
        }
    }
    assert forall|i: int| 0 <= i < d.presets.len() implies crate::validation::preset_valid(
        #[trigger] d.presets[i],
        after,
    ) by {
        let p = d.presets[i];
        assert forall|name: Seq<char>| preset_names_collar(p, name) implies
        #[trigger] crate::protocol::model::collar_names(after).contains(name) by {
            let k = choose|k: int| 0 <= k < p.tracks.len() && (#[trigger] p.tracks[k]).collar_name
                == name;
            assert(crate::validation::track_valid(p.tracks[k], cs));
            let m = choose|m: int| 0 <= m < names.len() && names[m] == name;
            assert(anames[m] == name);
        }
        lemma_preset_valid_with(p, cs, after);
    }
}

/// Deleting a collar leaves everything in order.
pub proof fn lemma_delete_collar_keeps_order(d: DomainView, name: Seq<char>)
    requires
        domain_valid(d),
        collar_deleted(d, name) is Ok,
    ensures
        domain_valid(collar_deleted(d, name)->Ok_0),
{
    let cs = d.collars;
    let after = collars_without(cs, name);
    let anames = crate::protocol::model::collar_names(after);
    let names = crate::protocol::model::collar_names(cs);
    lemma_collars_without_is(cs, name);
    assert forall|i: int| 0 <= i < d.presets.len() implies crate::validation::preset_valid(
        #[trigger] d.presets[i],
        after,
    ) by {
        let p = d.presets[i];
        assert forall|other: Seq<char>| preset_names_collar(p, other) implies
        #[trigger] crate::protocol::model::collar_names(after).contains(other) by {
            let k = choose|k: int| 0 <= k < p.tracks.len() && (#[trigger] p.tracks[k]).collar_name
                == other;
            assert(crate::validation::track_valid(p.tracks[k], cs));
            assert(other != name);
        }
        lemma_preset_valid_with(p, cs, after);
    }
}

/// What is left when a collar is deleted: the others, in their order and still without a repeated
/// name.
proof fn lemma_collars_without_is(cs: Seq<CollarView>, name: Seq<char>)
    requires
        crate::validation::collars_valid(cs),
    ensures
        crate::validation::collars_valid(collars_without(cs, name)),
        forall|other: Seq<char>|
            other != name ==> (#[trigger] crate::protocol::model::collar_names(
                collars_without(cs, name),
            ).contains(other) <==> crate::protocol::model::collar_names(cs).contains(other)),
        !crate::protocol::model::collar_names(collars_without(cs, name)).contains(name),
    decreases cs.len(),
{
    let names = crate::protocol::model::collar_names(cs);
    if cs.len() > 0 {
        let front = cs.drop_last();
        let last = cs.last();
        let fnames = crate::protocol::model::collar_names(front);
        assert(fnames =~= names.drop_last());
        assert(names =~= fnames.push(last.name));
        assert(crate::validation::collar_valid(cs[cs.len() - 1]));
        assert(crate::validation::collars_valid(front)) by {
            assert forall|i: int| 0 <= i < front.len() implies crate::validation::collar_valid(
                #[trigger] front[i],
            ) by {
                assert(front[i] == cs[i]);
            }
            assert forall|i: int, j: int| 0 <= i < fnames.len() && 0 <= j < fnames.len() && i
                != j implies fnames[i] != fnames[j] by {
                assert(fnames[i] == names[i] && fnames[j] == names[j]);
            }
        }
        lemma_collars_without_is(front, name);
        let kept = collars_without(front, name);
        let knames = crate::protocol::model::collar_names(kept);
        assert(!fnames.contains(last.name)) by {
            if fnames.contains(last.name) {
                let k = choose|k: int| 0 <= k < fnames.len() && fnames[k] == last.name;
                assert(names[k] == names[names.len() - 1]);
            }
        }
        lemma_push_contains(fnames, last.name);
        if last.name != name {
            let after = kept.push(last);
            let anames = crate::protocol::model::collar_names(after);
            assert(anames =~= knames.push(last.name));
            lemma_push_contains(knames, last.name);
            assert(!knames.contains(last.name));
            assert forall|i: int| 0 <= i < after.len() implies crate::validation::collar_valid(
                #[trigger] after[i],
            ) by {
                if i < kept.len() {
                    assert(after[i] == kept[i]);
                }
            }
            assert forall|i: int, j: int| 0 <= i < anames.len() && 0 <= j < anames.len() && i
                != j implies anames[i] != anames[j] by {
                if i < knames.len() && j < knames.len() {
                    assert(knames[i] == anames[i] && knames[j] == anames[j]);
                } else if i < knames.len() {
                    assert(knames[i] == anames[i]);
                    assert(knames.contains(knames[i]));
                } else {
                    assert(knames[j] == anames[j]);
                    assert(knames.contains(knames[j]));
                }
            }
        }
    }
}

proof fn lemma_push_contains(names: Seq<Seq<char>>, last: Seq<char>)
    ensures
        forall|name: Seq<char>| #[trigger]
            names.push(last).contains(name) <==> names.contains(name) || name == last,
{
    assert forall|name: Seq<char>| names.contains(name) || name == last implies #[trigger]
    names.push(last).contains(name) by {
        if names.contains(name) {
            let k = choose|k: int| 0 <= k < names.len() && names[k] == name;
            assert(names.push(last)[k] == name);
        } else {
            assert(names.push(last)[names.len() as int] == name);
        }
    }
    assert forall|name: Seq<char>| #[trigger] names.push(last).contains(name) implies names.contains(
        name,
    ) || name == last by {
        let k = choose|k: int| 0 <= k < names.push(last).len() && names.push(last)[k] == name;
        if k < names.len() {
            assert(names[k] == name);
        }
    }
}

/// A collar that is replaced, under its name or a new one, leaves everything in order: the presets
/// that name it follow.
pub proof fn lemma_update_collar_keeps_order(d: DomainView, original: Seq<char>, c: CollarView)
    requires
        domain_valid(d),
        collar_updated(d, original, c) is Ok,
    ensures
        domain_valid(collar_updated(d, original, c)->Ok_0),
{
    let cs = d.collars;
    let names = crate::protocol::model::collar_names(cs);
    crate::protocol::model::lemma_position(names, original);
    let at = crate::protocol::model::position(names, original)->0;
    let after = cs.update(at, c);
    let anames = crate::protocol::model::collar_names(after);
    assert(anames =~= names.update(at, c.name));
    assert forall|i: int| 0 <= i < after.len() implies crate::validation::collar_valid(
        #[trigger] after[i],
    ) by {
        if i != at {
            assert(after[i] == cs[i]);
        }
    }
    assert forall|i: int, j: int| 0 <= i < anames.len() && 0 <= j < anames.len() && i
        != j implies anames[i] != anames[j] by {
        if i != at && j != at {
            assert(names[i] == anames[i] && names[j] == anames[j]);
        } else if i != at {
            assert(names[i] == anames[i]);
        } else {
            assert(names[j] == anames[j]);
        }
    }
    let renamed = presets_renamed(d.presets, original, c.name);
    assert forall|i: int| 0 <= i < renamed.len() implies crate::validation::preset_valid(
        #[trigger] renamed[i],
        after,
    ) by {
        let p = d.presets[i];
        let q = preset_renamed(p, original, c.name);
        assert(renamed[i] == q);
        assert(crate::validation::preset_valid(p, cs));
        assert forall|k: int| 0 <= k < q.tracks.len() implies crate::validation::track_valid(
            #[trigger] q.tracks[k],
            after,
        ) by {
            let t = p.tracks[k];
            assert(crate::validation::track_valid(t, cs));
            if t.collar_name == original {
                assert(anames[at] == c.name);
            } else {
                let m = choose|m: int| 0 <= m < names.len() && names[m] == t.collar_name;
                assert(anames[m] == t.collar_name);
            }
        }
        let k = choose|k: int|
            0 <= k < p.tracks.len() && crate::validation::track_commands(#[trigger] p.tracks[k]);
        let m = choose|m: int|
            0 <= m < p.tracks[k].steps.len() && (
            #[trigger] p.tracks[k].steps[m]).mode.command() is Some;
        assert(q.tracks[k].steps[m].mode.command() is Some);
        assert(crate::validation::track_commands(q.tracks[k]));
    }
    let pnames = crate::protocol::model::preset_names(d.presets);
    assert(crate::protocol::model::preset_names(renamed) =~= pnames);
}

/// A preset that is saved leaves everything in order.
pub proof fn lemma_save_preset_keeps_order(
    d: DomainView,
    original: Option<Seq<char>>,
    p: PresetView,
)
    requires
        domain_valid(d),
        preset_saved(d, original, p) is Ok,
    ensures
        domain_valid(preset_saved(d, original, p)->Ok_0),
{
    crate::validation::lemma_presets_problem(preset_saved(d, original, p)->Ok_0.presets, d.collars);
}

/// Saving a preset never fails for the list as a whole once the preset itself is valid and its
/// name is free: what is in order stays in order.
pub proof fn lemma_save_preset_succeeds(d: DomainView, original: Option<Seq<char>>, p: PresetView)
    requires
        domain_valid(d),
        crate::validation::preset_valid(p, d.collars),
        presets_with(d.presets, replaced_name(original), p) is Ok,
    ensures
        preset_saved(d, original, p) is Ok,
{
    let ps = d.presets;
    let names = crate::protocol::model::preset_names(ps);
    crate::validation::lemma_preset_problem(p, d.collars);
    let after = presets_with(ps, replaced_name(original), p)->Ok_0;
    let anames = crate::protocol::model::preset_names(after);
    let at = match replaced_name(original) {
        Some(name) => crate::protocol::model::position(names, name),
        None => crate::protocol::model::position(names, p.name),
    };
    match replaced_name(original) {
        Some(name) => crate::protocol::model::lemma_position(names, name),
        None => crate::protocol::model::lemma_position(names, p.name),
    }
    assert forall|i: int| 0 <= i < after.len() implies crate::validation::preset_valid(
        #[trigger] after[i],
        d.collars,
    ) by {
        if i < ps.len() && at != Some(i) {
            assert(after[i] == ps[i]);
        }
    }
    match at {
        Some(k) => {
            assert(anames =~= names.update(k, p.name));
            assert forall|i: int, j: int| 0 <= i < anames.len() && 0 <= j < anames.len() && i
                != j implies anames[i] != anames[j] by {
                if i != k && j != k {
                    assert(names[i] == anames[i] && names[j] == anames[j]);
                } else if i != k {
                    assert(names[i] == anames[i]);
                    assert(names[i] != names[k]);
                } else {
                    assert(names[j] == anames[j]);
                    assert(names[j] != names[k]);
                }
            }
        },
        None => {
            assert(anames =~= names.push(p.name));
            assert forall|i: int, j: int| 0 <= i < anames.len() && 0 <= j < anames.len() && i
                != j implies anames[i] != anames[j] by {
                if i < names.len() && j < names.len() {
                    assert(names[i] == anames[i] && names[j] == anames[j]);
                } else if i < names.len() {
                    assert(names[i] == anames[i]);
                    assert(names.contains(names[i]));
                } else {
                    assert(names[j] == anames[j]);
                    assert(names.contains(names[j]));
                }
            }
        },
    }
    crate::validation::lemma_presets_problem(after, d.collars);
}

proof fn lemma_presets_without_is(
    ps: Seq<PresetView>,
    name: Seq<char>,
    collars: Seq<CollarView>,
)
    requires
        crate::validation::presets_valid(ps, collars),
    ensures
        crate::validation::presets_valid(presets_without(ps, name), collars),
        forall|other: Seq<char>|
            #[trigger] crate::protocol::model::preset_names(presets_without(ps, name)).contains(
                other,
            ) <==> other != name && crate::protocol::model::preset_names(ps).contains(other),
    decreases ps.len(),
{
    let names = crate::protocol::model::preset_names(ps);
    if ps.len() > 0 {
        let front = ps.drop_last();
        let last = ps.last();
        let fnames = crate::protocol::model::preset_names(front);
        assert(fnames =~= names.drop_last());
        assert(names =~= fnames.push(last.name));
        assert(crate::validation::preset_valid(ps[ps.len() - 1], collars));
        assert(crate::validation::presets_valid(front, collars)) by {
            assert forall|i: int| 0 <= i < front.len() implies crate::validation::preset_valid(
                #[trigger] front[i],
                collars,
            ) by {
                assert(front[i] == ps[i]);
            }
            assert forall|i: int, j: int| 0 <= i < fnames.len() && 0 <= j < fnames.len() && i
                != j implies fnames[i] != fnames[j] by {
                assert(fnames[i] == names[i] && fnames[j] == names[j]);
            }
        }
        lemma_presets_without_is(front, name, collars);
        let kept = presets_without(front, name);
        let knames = crate::protocol::model::preset_names(kept);
        assert(!fnames.contains(last.name)) by {
            if fnames.contains(last.name) {
                let k = choose|k: int| 0 <= k < fnames.len() && fnames[k] == last.name;
                assert(names[k] == names[names.len() - 1]);
            }
        }
        lemma_push_contains(fnames, last.name);
        if last.name != name {
            let after = kept.push(last);
            let anames = crate::protocol::model::preset_names(after);
            assert(anames =~= knames.push(last.name));
            lemma_push_contains(knames, last.name);
            assert(!knames.contains(last.name));
            assert forall|i: int| 0 <= i < after.len() implies crate::validation::preset_valid(
                #[trigger] after[i],
                collars,
            ) by {
                if i < kept.len() {
                    assert(after[i] == kept[i]);
                }
            }
            assert forall|i: int, j: int| 0 <= i < anames.len() && 0 <= j < anames.len() && i
                != j implies anames[i] != anames[j] by {
                if i < knames.len() && j < knames.len() {
                    assert(knames[i] == anames[i] && knames[j] == anames[j]);
                } else if i < knames.len() {
                    assert(knames[i] == anames[i]);
                    assert(knames.contains(knames[i]));
                } else {
                    assert(knames[j] == anames[j]);
                    assert(knames.contains(knames[j]));
                }
            }
        }
    }
}

/// Deleting a preset leaves everything in order, and takes away that name and no other.
pub proof fn lemma_delete_preset_keeps_order(d: DomainView, name: Seq<char>)
    requires
        domain_valid(d),
        preset_deleted(d, name) is Ok,
    ensures
        domain_valid(preset_deleted(d, name)->Ok_0),
        forall|other: Seq<char>|
            #[trigger] crate::protocol::model::preset_names(
                preset_deleted(d, name)->Ok_0.presets,
            ).contains(other) <==> other != name && crate::protocol::model::preset_names(
                d.presets,
            ).contains(other),
{
    lemma_presets_without_is(d.presets, name, d.collars);
}

/// Whether one of the first `n` places of an order asks for the preset at place `i`.
spec fn asked_early(ps: Seq<PresetView>, order: Seq<Seq<char>>, n: int, i: int) -> bool {
    exists|k: int| 0 <= k < n && #[trigger] asked_for(ps, order, k) == Some(i)
}

proof fn lemma_outside_one_more(
    ps: Seq<PresetView>,
    skip: spec_fn(int) -> bool,
    more: spec_fn(int) -> bool,
    at: int,
    n: int,
)
    requires
        0 <= n <= ps.len(),
        0 <= at < ps.len(),
        !skip(at),
        forall|i: int| 0 <= i < ps.len() ==> #[trigger] more(i) == (skip(i) || i == at),
    ensures
        outside(ps, skip, n).to_multiset() == if at < n {
            outside(ps, more, n).to_multiset().insert(ps[at])
        } else {
            outside(ps, more, n).to_multiset()
        },
    decreases n,
{
    broadcast use vstd::seq_lib::group_to_multiset_ensures;

    if n > 0 {
        lemma_outside_one_more(ps, skip, more, at, n - 1);
        let a = outside(ps, skip, n - 1);
        let b = outside(ps, more, n - 1);
        assert(more(n - 1) == (skip(n - 1) || n - 1 == at));
        if n - 1 == at {
            assert(a.push(ps[n - 1]).to_multiset() =~= a.to_multiset().insert(ps[at]));
        } else if !skip(n - 1) {
            assert(a.push(ps[n - 1]).to_multiset() =~= a.to_multiset().insert(ps[n - 1]));
            assert(b.push(ps[n - 1]).to_multiset() =~= b.to_multiset().insert(ps[n - 1]));
            if at < n {
                assert(b.to_multiset().insert(ps[at]).insert(ps[n - 1])
                    =~= b.to_multiset().insert(ps[n - 1]).insert(ps[at]));
            }
        }
    }
}

proof fn lemma_outside_same(
    ps: Seq<PresetView>,
    skip: spec_fn(int) -> bool,
    other: spec_fn(int) -> bool,
    n: int,
)
    requires
        0 <= n <= ps.len(),
        forall|i: int| 0 <= i < ps.len() ==> #[trigger] other(i) == skip(i),
    ensures
        outside(ps, skip, n) == outside(ps, other, n),
    decreases n,
{
    if n > 0 {
        lemma_outside_same(ps, skip, other, n - 1);
        assert(other(n - 1) == skip(n - 1));
    }
}

proof fn lemma_outside_none(ps: Seq<PresetView>, skip: spec_fn(int) -> bool, n: int)
    requires
        0 <= n <= ps.len(),
        forall|i: int| 0 <= i < ps.len() ==> !(#[trigger] skip(i)),
    ensures
        outside(ps, skip, n) == ps.take(n),
    decreases n,
{
    if n > 0 {
        lemma_outside_none(ps, skip, n - 1);
        assert(!skip(n - 1));
        assert(ps.take(n) =~= ps.take(n - 1).push(ps[n - 1]));
    } else {
        assert(ps.take(0) =~= Seq::empty());
    }
}

proof fn lemma_ordered_and_rest(ps: Seq<PresetView>, order: Seq<Seq<char>>, n: int)
    requires
        0 <= n <= order.len(),
    ensures
        (ordered(ps, order, n) + outside(
            ps,
            |i: int| asked_early(ps, order, n, i),
            ps.len() as int,
        )).to_multiset() == ps.to_multiset(),
    decreases n,
{
    broadcast use vstd::seq_lib::group_to_multiset_ensures;

    let names = crate::protocol::model::preset_names(ps);
    let len = ps.len() as int;
    let now = |i: int| asked_early(ps, order, n, i);
    if n == 0 {
        lemma_outside_none(ps, now, len);
        assert(ps.take(len) =~= ps);
        assert(Seq::<PresetView>::empty() + ps =~= ps);
    } else {
        let before = |i: int| asked_early(ps, order, n - 1, i);
        lemma_ordered_and_rest(ps, order, n - 1);
        let head = ordered(ps, order, n - 1);
        let asked = asked_for(ps, order, n - 1);
        assert forall|i: int| 0 <= i < ps.len() implies #[trigger] now(i) == (before(i) || asked
            == Some(i)) by {
            if now(i) {
                let k = choose|k: int| 0 <= k < n && #[trigger] asked_for(ps, order, k) == Some(i);
                if k < n - 1 {
                    assert(before(i));
                }
            }
            if before(i) {
                let k = choose|k: int|
                    0 <= k < n - 1 && #[trigger] asked_for(ps, order, k) == Some(i);
                assert(now(i));
            }
            if asked == Some(i) {
                assert(now(i));
            }
        }
        match asked {
            None => {
                lemma_outside_same(ps, before, now, len);
            },
            Some(at) => {
                crate::protocol::model::lemma_position(names, order[n - 1]);
                assert(!before(at)) by {
                    if before(at) {
                        let k = choose|k: int|
                            0 <= k < n - 1 && #[trigger] asked_for(ps, order, k) == Some(at);
                        crate::protocol::model::lemma_position(names, order[k]);
                        assert(order[k] == order[n - 1]);
                        assert(last_of_its_name(order, k));
                    }
                }
                lemma_outside_one_more(ps, before, now, at, len);
                let rest_before = outside(ps, before, len);
                let rest_now = outside(ps, now, len);
                vstd::seq_lib::lemma_multiset_commutative(head, rest_before);
                vstd::seq_lib::lemma_multiset_commutative(head.push(ps[at]), rest_now);
                assert(head.push(ps[at]).to_multiset() =~= head.to_multiset().insert(ps[at]));
                assert(head.to_multiset().insert(ps[at]).add(rest_now.to_multiset())
                    =~= head.to_multiset().add(rest_now.to_multiset().insert(ps[at])));
            },
        }
    }
}

/// Putting presets in a new order keeps every preset, as often as it occurs, whatever the order
/// names.
pub proof fn lemma_reorder_keeps_all(ps: Seq<PresetView>, order: Seq<Seq<char>>)
    ensures
        reordered(ps, order).to_multiset() == ps.to_multiset(),
{
    let names = crate::protocol::model::preset_names(ps);
    let n = order.len() as int;
    let early = |i: int| asked_early(ps, order, n, i);
    let asked = |i: int| is_asked_for(ps, order, i);
    lemma_ordered_and_rest(ps, order, n);
    assert forall|i: int| 0 <= i < ps.len() implies #[trigger] asked(i) == early(i) by {
        assert(names[i] == ps[i].name);
        if asked(i) {
            lemma_last_occurrence(order, ps[i].name);
            let k = choose|k: int|
                0 <= k < order.len() && order[k] == ps[i].name && #[trigger] last_of_its_name(
                    order,
                    k,
                );
            assert(asked_for(ps, order, k) == Some(i));
        }
        if early(i) {
            let k = choose|k: int| 0 <= k < n && #[trigger] asked_for(ps, order, k) == Some(i);
            crate::protocol::model::lemma_position(names, order[k]);
            assert(order.contains(order[k]));
        }
    }
    lemma_outside_same(ps, early, asked, ps.len() as int);
}

/// A name that occurs has a last place.
proof fn lemma_last_occurrence(order: Seq<Seq<char>>, name: Seq<char>)
    requires
        order.contains(name),
    ensures
        exists|k: int|
            0 <= k < order.len() && order[k] == name && #[trigger] last_of_its_name(order, k),
    decreases order.len(),
{
    let m = order.len() - 1;
    if order[m] == name {
        assert(last_of_its_name(order, m));
    } else {
        let front = order.drop_last();
        let k0 = choose|k: int| 0 <= k < order.len() && order[k] == name;
        assert(front[k0] == name);
        lemma_last_occurrence(front, name);
        let k = choose|k: int|
            0 <= k < front.len() && front[k] == name && #[trigger] last_of_its_name(front, k);
        assert(order[k] == name);
        assert forall|j: int| k < j < order.len() implies #[trigger] order[j] != order[k] by {
            if j < m {
                assert(front[j] == order[j]);
            }
        }
        assert(last_of_its_name(order, k));
    }
}

/// Putting presets in a new order leaves everything in order.
pub proof fn lemma_reorder_keeps_order(d: DomainView, order: Seq<Seq<char>>)
    requires
        domain_valid(d),
    ensures
        domain_valid(DomainView { presets: reordered(d.presets, order), ..d }),
{
    broadcast use vstd::seq_lib::group_to_multiset_ensures;

    let ps = d.presets;
    let after = reordered(ps, order);
    lemma_reorder_keeps_all(ps, order);
    let names = crate::protocol::model::preset_names(ps);
    let anames = crate::protocol::model::preset_names(after);
    assert forall|i: int| 0 <= i < after.len() implies crate::validation::preset_valid(
        #[trigger] after[i],
        d.collars,
    ) by {
        assert(after.contains(after[i]));
        assert(ps.to_multiset().contains(after[i]));
        assert(ps.contains(after[i]));
        let k = choose|k: int| 0 <= k < ps.len() && ps[k] == after[i];
        assert(crate::validation::preset_valid(ps[k], d.collars));
    }
    assert(ps.no_duplicates()) by {
        assert forall|i: int, j: int| 0 <= i < ps.len() && 0 <= j < ps.len() && i
            != j implies ps[i] != ps[j] by {
            assert(names[i] != names[j]);
        }
    }
    ps.lemma_multiset_has_no_duplicates();
    assert(after.no_duplicates()) by {
        after.lemma_multiset_has_no_duplicates_conv();
    }
    assert forall|i: int, j: int| 0 <= i < anames.len() && 0 <= j < anames.len() && i
        != j implies anames[i] != anames[j] by {
        assert(after.contains(after[i]) && after.contains(after[j]));
        assert(ps.to_multiset().contains(after[i]) && ps.to_multiset().contains(after[j]));
        assert(ps.contains(after[i]) && ps.contains(after[j]));
        let k = choose|k: int| 0 <= k < ps.len() && ps[k] == after[i];
        let m = choose|m: int| 0 <= m < ps.len() && ps[m] == after[j];
        assert(after[i] != after[j]);
        assert(names[k] != names[m]);
    }
}

/// Taking over the settings that are in force changes nothing but drops a log that is not to be
/// kept, and requires no reboot.
pub proof fn lemma_same_settings_change_nothing(d: DomainView)
    ensures
        !reboot_needed(d.device_settings, d.device_settings),
        !remote_changed(d.device_settings, d.device_settings),
        !mqtt_changed(d.device_settings, d.device_settings),
        d.device_settings.record_event_log ==> settings_applied(d, d.device_settings) == d,
{
}

/// The event log never holds more than a hundred entries.
pub proof fn lemma_event_log_bounded(log: Seq<EventLogEntryView>, entry: EventLogEntryView)
    ensures
        last_items(log.push(entry), MAX_EVENT_LOG_ENTRIES as int).len() <= MAX_EVENT_LOG_ENTRIES,
        last_items(log.push(entry), MAX_EVENT_LOG_ENTRIES as int).last() == entry,
{
}

// ----- What each change does -----

/// A collar can be added exactly if it has a name, a channel that exists, and a name that no other
/// collar has. It goes behind the others, and nothing else changes.
pub proof fn lemma_add_collar(d: DomainView, c: CollarView)
    ensures
        collar_added(d, c) is Ok <==> !crate::text::is_blank(c.name) && c.channel <= 2 && forall|
            i: int,
        |
            0 <= i < d.collars.len() ==> (#[trigger] d.collars[i]).name != c.name,
        collar_added(d, c) matches Ok(r) ==> {
            &&& r.collars.len() == d.collars.len() + 1
            &&& r.collars.last() == c
            &&& r.collars.drop_last() == d.collars
            &&& r == (DomainView { collars: r.collars, ..d })
        },
        collar_added(d, c) matches Err(e) ==> e is Validation || e
            == ControlErrorView::DuplicateCollar(c.name),
{
    let names = crate::protocol::model::collar_names(d.collars);
    if names.contains(c.name) {
        let i = choose|i: int| 0 <= i < names.len() && names[i] == c.name;
        assert(d.collars[i].name == c.name);
    }
    if !(forall|i: int| 0 <= i < d.collars.len() ==> (#[trigger] d.collars[i]).name != c.name) {
        let i = choose|i: int|
            0 <= i < d.collars.len() && (#[trigger] d.collars[i]).name == c.name;
        assert(names[i] == c.name);
    }
    if collar_added(d, c) is Ok {
        assert(d.collars.push(c).drop_last() =~= d.collars);
    }
}

/// Replacing a collar puts the new one in its place. Every track that named it names the new one;
/// otherwise collars and presets stay as they are, a preset that runs is stopped, and nothing else
/// changes.
pub proof fn lemma_update_collar(d: DomainView, original: Seq<char>, c: CollarView, at: int)
    requires
        0 <= at < d.collars.len(),
        d.collars[at].name == original,
        forall|i: int| 0 <= i < at ==> (#[trigger] d.collars[i]).name != original,
    ensures
        collar_updated(d, original, c) is Ok <==> !crate::text::is_blank(c.name) && c.channel <= 2
            && forall|i: int|
            0 <= i < d.collars.len() && i != at ==> (#[trigger] d.collars[i]).name != c.name,
        collar_updated(d, original, c) matches Ok(r) ==> {
            &&& r == (DomainView {
                collars: r.collars,
                presets: r.presets,
                preset_name: None,
                ..d
            })
            &&& r.collars.len() == d.collars.len()
            &&& forall|i: int|
                0 <= i < d.collars.len() ==> #[trigger] r.collars[i] == if i == at {
                    c
                } else {
                    d.collars[i]
                }
            &&& r.presets.len() == d.presets.len()
            &&& forall|i: int|
                #![trigger r.presets[i]]
                0 <= i < d.presets.len() ==> r.presets[i].name == d.presets[i].name
                    && r.presets[i].tracks.len() == d.presets[i].tracks.len()
            &&& forall|i: int, j: int|
                #![trigger r.presets[i].tracks[j]]
                0 <= i < d.presets.len() && 0 <= j < d.presets[i].tracks.len() ==> {
                    &&& r.presets[i].tracks[j].steps == d.presets[i].tracks[j].steps
                    &&& r.presets[i].tracks[j].collar_name == if d.presets[i].tracks[j].collar_name
                        == original {
                        c.name
                    } else {
                        d.presets[i].tracks[j].collar_name
                    }
                }
        },
        collar_updated(d, original, c) matches Err(e) ==> e is Validation || e
            == ControlErrorView::DuplicateCollar(c.name),
{
    let names = crate::protocol::model::collar_names(d.collars);
    assert forall|i: int| 0 <= i < at implies #[trigger] names[i] != original by {
        assert(d.collars[i].name != original);
    }
    crate::protocol::model::lemma_position_is(names, original, at);
    if elsewhere(names, c.name, at) {
        let i = choose|i: int| 0 <= i < names.len() && i != at && #[trigger] names[i] == c.name;
        assert(d.collars[i].name == c.name);
    }
    if !(forall|i: int|
        0 <= i < d.collars.len() && i != at ==> (#[trigger] d.collars[i]).name != c.name) {
        let i = choose|i: int|
            0 <= i < d.collars.len() && i != at && (#[trigger] d.collars[i]).name == c.name;
        assert(names[i] == c.name);
    }
}

/// A collar that is not there cannot be replaced.
pub proof fn lemma_update_unknown_collar(d: DomainView, original: Seq<char>, c: CollarView)
    requires
        forall|i: int| 0 <= i < d.collars.len() ==> (#[trigger] d.collars[i]).name != original,
    ensures
        collar_updated(d, original, c) == Err::<DomainView, ControlErrorView>(
            ControlErrorView::UnknownCollar(original),
        ),
{
    let names = crate::protocol::model::collar_names(d.collars);
    crate::protocol::model::lemma_position(names, original);
    if names.contains(original) {
        let i = choose|i: int| 0 <= i < names.len() && names[i] == original;
        assert(d.collars[i].name == original);
    }
}

/// Whether some track of some preset names the collar.
pub open spec fn some_track_names(ps: Seq<PresetView>, name: Seq<char>) -> bool {
    exists|i: int, j: int|
        0 <= i < ps.len() && 0 <= j < ps[i].tracks.len() && (
        #[trigger] ps[i].tracks[j]).collar_name == name
}

/// A collar can be deleted exactly if it is there and no track names it. Those of another name
/// stay, in their order; a preset that runs is stopped; nothing else changes.
pub proof fn lemma_delete_collar(d: DomainView, name: Seq<char>)
    ensures
        collar_deleted(d, name) is Ok <==> !some_track_names(d.presets, name) && exists|i: int|
            0 <= i < d.collars.len() && (#[trigger] d.collars[i]).name == name,
        collar_deleted(d, name) matches Ok(r) ==> r == (DomainView {
            collars: d.collars.filter(|c: CollarView| c.name != name),
            preset_name: None,
            ..d
        }),
        collar_deleted(d, name) matches Err(e) ==> e == if some_track_names(d.presets, name) {
            ControlErrorView::CollarReferencedByPreset(name)
        } else {
            ControlErrorView::UnknownCollar(name)
        },
{
    let names = crate::protocol::model::collar_names(d.collars);
    lemma_collars_without_filters(d.collars, name);
    if collar_in_use(d.presets, name) {
        let i = choose|i: int|
            0 <= i < d.presets.len() && preset_names_collar(#[trigger] d.presets[i], name);
        let j = choose|j: int|
            0 <= j < d.presets[i].tracks.len() && (#[trigger] d.presets[i].tracks[j]).collar_name
                == name;
        assert(d.presets[i].tracks[j].collar_name == name);
    }
    if some_track_names(d.presets, name) {
        let (i, j) = choose|i: int, j: int|
            0 <= i < d.presets.len() && 0 <= j < d.presets[i].tracks.len() && (
            #[trigger] d.presets[i].tracks[j]).collar_name == name;
        assert(preset_names_collar(d.presets[i], name));
    }
    if names.contains(name) {
        let i = choose|i: int| 0 <= i < names.len() && names[i] == name;
        assert(d.collars[i].name == name);
    }
    if exists|i: int| 0 <= i < d.collars.len() && (#[trigger] d.collars[i]).name == name {
        let i = choose|i: int| 0 <= i < d.collars.len() && (#[trigger] d.collars[i]).name == name;
        assert(names[i] == name);
    }
}

proof fn lemma_collars_without_filters(cs: Seq<CollarView>, name: Seq<char>)
    ensures
        collars_without(cs, name) == cs.filter(|c: CollarView| c.name != name),
    decreases cs.len(),
{
    reveal(Seq::filter);
    if cs.len() > 0 {
        lemma_collars_without_filters(cs.drop_last(), name);
    }
}

proof fn lemma_presets_without_filters(ps: Seq<PresetView>, name: Seq<char>)
    ensures
        presets_without(ps, name) == ps.filter(|p: PresetView| p.name != name),
    decreases ps.len(),
{
    reveal(Seq::filter);
    if ps.len() > 0 {
        lemma_presets_without_filters(ps.drop_last(), name);
    }
}

/// A preset can be deleted exactly if it is there. Those of another name stay, in their order; a
/// preset that runs is stopped; nothing else changes.
pub proof fn lemma_delete_preset(d: DomainView, name: Seq<char>)
    ensures
        preset_deleted(d, name) is Ok <==> exists|i: int|
            0 <= i < d.presets.len() && (#[trigger] d.presets[i]).name == name,
        preset_deleted(d, name) matches Ok(r) ==> r == (DomainView {
            presets: d.presets.filter(|p: PresetView| p.name != name),
            preset_name: None,
            ..d
        }),
        preset_deleted(d, name) matches Err(e) ==> e == ControlErrorView::UnknownPreset(name),
{
    let names = crate::protocol::model::preset_names(d.presets);
    lemma_presets_without_filters(d.presets, name);
    if names.contains(name) {
        let i = choose|i: int| 0 <= i < names.len() && names[i] == name;
        assert(d.presets[i].name == name);
    }
    if exists|i: int| 0 <= i < d.presets.len() && (#[trigger] d.presets[i]).name == name {
        let i = choose|i: int| 0 <= i < d.presets.len() && (#[trigger] d.presets[i]).name == name;
        assert(names[i] == name);
    }
}

/// The place of the preset of that name.
pub open spec fn stands_at(ps: Seq<PresetView>, name: Seq<char>, i: int) -> bool {
    &&& 0 <= i < ps.len()
    &&& ps[i].name == name
}

/// The name of the preset that a save replaces, if there is one: the one that the save gives, or
/// else that of the preset itself.
pub open spec fn name_saved_over(original: Option<Seq<char>>, name: Seq<char>) -> Seq<char> {
    match original {
        Some(given) => if crate::text::is_blank(given) {
            name
        } else {
            crate::text::trimmed(given)
        },
        None => name,
    }
}

/// After a save the presets hold exactly the preset that was sent under its name. It stands in the
/// place of the one that it replaces, which is the one that the save names, or else the one of the
/// same name; if there is none it stands behind the others. Every other preset is as it was and
/// where it was; a preset that runs is stopped; nothing else changes.
pub proof fn lemma_save_stores_what_was_sent(
    d: DomainView,
    original: Option<Seq<char>>,
    p: PresetView,
)
    requires
        domain_valid(d),
        preset_saved(d, original, p) is Ok,
    ensures
        ({
            let r = preset_saved(d, original, p)->Ok_0;
            let replaces = name_saved_over(original, p.name);
            let known = exists|i: int| #[trigger] stands_at(d.presets, replaces, i);
            &&& r == (DomainView { presets: r.presets, preset_name: None, ..d })
            &&& exists|i: int| #[trigger] stands_at(r.presets, p.name, i) && r.presets[i] == p
            &&& forall|i: int| #[trigger] stands_at(r.presets, p.name, i) ==> r.presets[i] == p
            &&& r.presets.len() == d.presets.len() + if known {
                0int
            } else {
                1
            }
            &&& forall|i: int|
                0 <= i < d.presets.len() ==> #[trigger] r.presets[i] == if stands_at(
                    d.presets,
                    replaces,
                    i,
                ) {
                    p
                } else {
                    d.presets[i]
                }
            &&& !known ==> r.presets.last() == p
        }),
{
    let ps = d.presets;
    let names = crate::protocol::model::preset_names(ps);
    let r = preset_saved(d, original, p)->Ok_0;
    match original {
        Some(name) => crate::text::lemma_blank_is_trimmed_empty(name),
        None => {},
    }
    let replaces = name_saved_over(original, p.name);
    crate::protocol::model::lemma_position(names, replaces);
    let at = crate::protocol::model::position(names, replaces);
    assert forall|i: int| 0 <= i < ps.len() implies (#[trigger] ps[i]).name == names[i] by {}
    assert forall|i: int| #[trigger] stands_at(ps, replaces, i) implies at == Some(i) by {
        assert(names[i] == replaces);
        assert(names.contains(names[i]));
        if at != Some(i) {
            assert(names[at->0] == names[i]);
        }
    }
    match at {
        Some(k) => {
            assert(stands_at(ps, replaces, k));
            assert(r.presets == ps.update(k, p));
            assert(stands_at(r.presets, p.name, k) && r.presets[k] == p);
        },
        None => {
            assert(r.presets == ps.push(p));
            assert(stands_at(r.presets, p.name, ps.len() as int));
        },
    }
    crate::validation::lemma_presets_problem(r.presets, d.collars);
    let rnames = crate::protocol::model::preset_names(r.presets);
    let here = choose|i: int| #[trigger] stands_at(r.presets, p.name, i) && r.presets[i] == p;
    assert forall|i: int| #[trigger] stands_at(r.presets, p.name, i) implies r.presets[i] == p by {
        if i != here {
            assert(rnames[i] == rnames[here]);
        }
    }
}

/// A preset can be saved exactly if it is valid and, where the save names one to replace, that one
/// is there and no other preset has the new name.
pub proof fn lemma_what_can_be_saved(d: DomainView, original: Option<Seq<char>>, p: PresetView)
    requires
        domain_valid(d),
    ensures
        preset_saved(d, original, p) is Ok <==> crate::validation::preset_valid(p, d.collars)
            && match original {
            Some(name) if !crate::text::is_blank(name) => {
                &&& exists|i: int| #[trigger] stands_at(d.presets, crate::text::trimmed(name), i)
                &&& forall|i: int| #[trigger]
                    stands_at(d.presets, p.name, i) ==> d.presets[i].name == crate::text::trimmed(
                        name,
                    )
            },
            _ => true,
        },
        match original {
            Some(name) if !crate::text::is_blank(name) && crate::validation::preset_valid(
                p,
                d.collars,
            ) => !(exists|i: int| #[trigger]
                stands_at(d.presets, crate::text::trimmed(name), i)) ==> preset_saved(
                d,
                original,
                p,
            ) == Err::<DomainView, ControlErrorView>(
                ControlErrorView::UnknownPreset(crate::text::trimmed(name)),
            ),
            _ => true,
        },
{
    let ps = d.presets;
    let names = crate::protocol::model::preset_names(ps);
    crate::validation::lemma_preset_problem(p, d.collars);
    match original {
        Some(name) => crate::text::lemma_blank_is_trimmed_empty(name),
        None => {},
    }
    if crate::validation::preset_valid(p, d.collars) {
        match replaced_name(original) {
            None => {
                lemma_save_preset_succeeds(d, original, p);
            },
            Some(name) => {
                crate::protocol::model::lemma_position(names, name);
                match crate::protocol::model::position(names, name) {
                    None => {
                        assert forall|i: int| !(#[trigger] stands_at(ps, name, i)) by {
                            if stands_at(ps, name, i) {
                                assert(names[i] == name);
                                assert(names.contains(names[i]));
                            }
                        }
                    },
                    Some(k) => {
                        assert(stands_at(ps, name, k));
                        if elsewhere(names, p.name, k) {
                            let i = choose|i: int|
                                0 <= i < names.len() && i != k && #[trigger] names[i] == p.name;
                            assert(stands_at(ps, p.name, i));
                            assert(names[i] != names[k]);
                        } else {
                            lemma_save_preset_succeeds(d, original, p);
                            assert forall|i: int| #[trigger] stands_at(ps, p.name, i) implies ps[i].name
                                == name by {
                                assert(names[i] == p.name);
                            }
                        }
                    },
                }
            },
        }
    }
}

/// Two places of the part that an order asks for come from two places of the order.
proof fn lemma_ordered_place(ps: Seq<PresetView>, order: Seq<Seq<char>>, n: int, a: int) -> (k: int)
    requires
        0 <= n <= order.len(),
        0 <= a < ordered(ps, order, n).len(),
    ensures
        0 <= k < n,
        last_of_its_name(order, k),
        order[k] == ordered(ps, order, n)[a].name,
    decreases n,
{
    let names = crate::protocol::model::preset_names(ps);
    let asked = asked_for(ps, order, n - 1);
    crate::protocol::model::lemma_position(names, order[n - 1]);
    if a < ordered(ps, order, n - 1).len() {
        lemma_ordered_place(ps, order, n - 1, a)
    } else {
        assert(names[asked->0] == order[n - 1]);
        n - 1
    }
}

proof fn lemma_ordered_pair(
    ps: Seq<PresetView>,
    order: Seq<Seq<char>>,
    n: int,
    a: int,
    b: int,
) -> (k: (int, int))
    requires
        0 <= n <= order.len(),
        0 <= a < b < ordered(ps, order, n).len(),
    ensures
        0 <= k.0 < k.1 < n,
        last_of_its_name(order, k.0),
        last_of_its_name(order, k.1),
        order[k.0] == ordered(ps, order, n)[a].name,
        order[k.1] == ordered(ps, order, n)[b].name,
    decreases n,
{
    let names = crate::protocol::model::preset_names(ps);
    let asked = asked_for(ps, order, n - 1);
    crate::protocol::model::lemma_position(names, order[n - 1]);
    if b < ordered(ps, order, n - 1).len() {
        lemma_ordered_pair(ps, order, n - 1, a, b)
    } else {
        assert(names[asked->0] == order[n - 1]);
        (lemma_ordered_place(ps, order, n - 1, a), n - 1)
    }
}

proof fn lemma_outside_place(
    ps: Seq<PresetView>,
    skip: spec_fn(int) -> bool,
    n: int,
    a: int,
) -> (k: int)
    requires
        0 <= n <= ps.len(),
        0 <= a < outside(ps, skip, n).len(),
    ensures
        0 <= k < n,
        !skip(k),
        outside(ps, skip, n)[a] == ps[k],
    decreases n,
{
    if a < outside(ps, skip, n - 1).len() {
        lemma_outside_place(ps, skip, n - 1, a)
    } else {
        n - 1
    }
}

proof fn lemma_outside_pair(
    ps: Seq<PresetView>,
    skip: spec_fn(int) -> bool,
    n: int,
    a: int,
    b: int,
) -> (k: (int, int))
    requires
        0 <= n <= ps.len(),
        0 <= a < b < outside(ps, skip, n).len(),
    ensures
        0 <= k.0 < k.1 < n,
        !skip(k.0),
        !skip(k.1),
        outside(ps, skip, n)[a] == ps[k.0],
        outside(ps, skip, n)[b] == ps[k.1],
    decreases n,
{
    if b < outside(ps, skip, n - 1).len() {
        lemma_outside_pair(ps, skip, n - 1, a, b)
    } else {
        (lemma_outside_place(ps, skip, n - 1, a), n - 1)
    }
}

/// In the new order the presets that were named come first, in the order in which they were named,
/// a name that was given twice counting where it was given last; those that were not named follow
/// in the order that they had.
pub proof fn lemma_reorder_follows_names(d: DomainView, order: Seq<Seq<char>>, a: int, b: int)
    requires
        domain_valid(d),
        0 <= a < b < reordered(d.presets, order).len(),
    ensures
        ({
            let first = reordered(d.presets, order)[a];
            let second = reordered(d.presets, order)[b];
            &&& order.contains(second.name) ==> order.contains(first.name) && exists|k: int, l: int|
                0 <= k < l < order.len() && #[trigger] last_of_its_name(order, k)
                    && #[trigger] last_of_its_name(order, l) && order[k] == first.name && order[l]
                    == second.name
            &&& !order.contains(first.name) ==> exists|k: int, l: int|
                0 <= k < l < d.presets.len() && #[trigger] d.presets[k] == first
                    && #[trigger] d.presets[l] == second
        }),
{
    let ps = d.presets;
    let names = crate::protocol::model::preset_names(ps);
    let n = order.len() as int;
    let head = ordered(ps, order, n);
    let skip = |i: int| is_asked_for(ps, order, i);
    let tail = outside(ps, skip, ps.len() as int);
    let all = reordered(ps, order);
    assert forall|i: int| 0 <= i < ps.len() implies #[trigger] skip(i) == order.contains(
        ps[i].name,
    ) by {
        assert forall|j: int| 0 <= j < i implies #[trigger] names[j] != names[i] by {}
        crate::protocol::model::lemma_position_is(names, ps[i].name, i);
    }
    if b < head.len() {
        let k = lemma_ordered_pair(ps, order, n, a, b);
        assert(all[a] == head[a] && all[b] == head[b]);
        assert(order.contains(order[k.0]) && order.contains(order[k.1]));
    } else {
        let j = lemma_outside_place(ps, skip, ps.len() as int, b - head.len());
        assert(all[b] == tail[b - head.len()]);
        assert(!skip(j));
        assert(!order.contains(all[b].name));
        if a < head.len() {
            let k = lemma_ordered_place(ps, order, n, a);
            assert(all[a] == head[a]);
            assert(order.contains(order[k]));
        } else {
            let k = lemma_outside_pair(ps, skip, ps.len() as int, a - head.len(), b - head.len());
            assert(all[a] == tail[a - head.len()]);
            assert(ps[k.0] == all[a] && ps[k.1] == all[b]);
        }
    }
}

/// Settings that differ only in what says nothing of the hardware, the networks, the number of
/// clients or the clock need no reboot, and all others do.
pub proof fn lemma_reboot_is_needed(a: DeviceSettingsView, b: DeviceSettingsView)
    ensures
        reboot_needed(a, b) <==> b != (DeviceSettingsView {
            device_id: b.device_id,
            remote_control_enabled: b.remote_control_enabled,
            remote_control_url: b.remote_control_url,
            remote_control_validate_cert: b.remote_control_validate_cert,
            record_event_log: b.record_event_log,
            mqtt_enabled: b.mqtt_enabled,
            mqtt_server: b.mqtt_server,
            mqtt_port: b.mqtt_port,
            mqtt_username: b.mqtt_username,
            mqtt_password: b.mqtt_password,
            ..a
        }),
{
}

/// New settings are in force at once. A link whose settings changed begins anew, without a
/// connection, and one whose settings did not change stays as it is. A log that is not to be kept
/// is dropped. Nothing else changes.
pub proof fn lemma_settings_are_applied(d: DomainView, s: DeviceSettingsView)
    ensures
        ({
            let r = settings_applied(d, s);
            let was = d.device_settings;
            let same_remote = was.remote_control_enabled == s.remote_control_enabled
                && was.remote_control_url == s.remote_control_url
                && was.remote_control_validate_cert == s.remote_control_validate_cert;
            let same_mqtt = was.mqtt_enabled == s.mqtt_enabled && was.mqtt_server == s.mqtt_server
                && was.mqtt_port == s.mqtt_port && was.mqtt_username == s.mqtt_username
                && was.mqtt_password == s.mqtt_password;
            &&& r.device_settings == s
            &&& r.collars == d.collars
            &&& r.presets == d.presets
            &&& r.preset_name == d.preset_name
            &&& r.rf_lockout_until_ms == d.rf_lockout_until_ms
            &&& r.rf_debug_events == d.rf_debug_events
            &&& s.record_event_log ==> r.event_log_events == d.event_log_events
            &&& !s.record_event_log ==> r.event_log_events.len() == 0
            &&& same_remote ==> r.remote_control_status == d.remote_control_status
            &&& !same_remote ==> !r.remote_control_status.connected
                && r.remote_control_status.enabled == s.remote_control_enabled
                && r.remote_control_status.rtt_ms is None
                && r.remote_control_status.validate_cert == s.remote_control_validate_cert
                && r.remote_control_status.url == crate::text::trimmed(s.remote_control_url)
            &&& same_mqtt ==> r.mqtt_status == d.mqtt_status
            &&& !same_mqtt ==> !r.mqtt_status.connected && r.mqtt_status.enabled == s.mqtt_enabled
                && r.mqtt_status.server == crate::text::trimmed(s.mqtt_server)
                && r.mqtt_status.status_text == if !s.mqtt_enabled {
                "Off"@
            } else if crate::text::is_blank(s.mqtt_server) {
                "Missing server"@
            } else {
                "Connecting..."@
            }
            &&& same_remote == !remote_changed(was, s)
            &&& same_mqtt == !mqtt_changed(was, s)
        }),
{
    crate::text::lemma_blank_is_trimmed_empty(s.mqtt_server);
}

/// A log keeps the newest entries in their order, up to a hundred of them.
pub proof fn lemma_log_keeps_the_newest(log: Seq<EventLogEntryView>, entry: EventLogEntryView)
    ensures
        ({
            let kept = last_items(log.push(entry), MAX_EVENT_LOG_ENTRIES as int);
            &&& log.len() < 100 ==> kept.len() == log.len() + 1
            &&& log.len() >= 100 ==> kept.len() == 100
            &&& kept.last() == entry
            &&& forall|i: int|
                0 <= i < kept.len() - 1 ==> #[trigger] kept[i] == log[log.len() + 1 - kept.len()
                    + i]
        }),
{
}

} // verus!
