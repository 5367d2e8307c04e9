//! What collars and presets have to meet before they are kept or run.

use vstd::prelude::*;

use crate::protocol::model::{
    find_collar, Collar, CollarView, ExportData, ExportDataView, Preset, PresetStep, PresetTrack,
    PresetView, TrackView,
};
use crate::protocol::rf_codec::{MAX_CHANNEL, MAX_INTENSITY};
use crate::text::{blank, push_decimal, push_text, same_text};

verus! {

/// The first thing that is wrong with a value.
#[derive(Debug)]
pub struct ValidationError {
    pub message: String,
}

impl View for ValidationError {
    type V = Seq<char>;

    open spec fn view(&self) -> Seq<char> {
        self.message@
    }
}

/// Whether a check found exactly this problem, or none.
pub open spec fn reports(r: Result<(), ValidationError>, problem: Option<Seq<char>>) -> bool {
    match r {
        Ok(_) => problem is None,
        Err(e) => problem == Some(e@),
    }
}

// ----- Collars -----

/// What is wrong with a collar.
pub open spec fn collar_problem(c: CollarView) -> Option<Seq<char>> {
    if crate::text::is_blank(c.name) {
        Some("Collar name cannot be empty"@)
    } else if c.channel > MAX_CHANNEL {
        Some(
            "Collar '"@ + c.name + "' has invalid channel "@ + crate::text::decimal(
                c.channel as nat,
            ),
        )
    } else {
        None
    }
}

/// The first thing that is wrong with a list of collars.
pub open spec fn collars_problem(cs: Seq<CollarView>) -> Option<Seq<char>>
    decreases cs.len(),
{
    if cs.len() == 0 {
        None
    } else {
        let front = cs.drop_last();
        let last = cs.last();
        if collars_problem(front) is Some {
            collars_problem(front)
        } else if collar_problem(last) is Some {
            collar_problem(last)
        } else if crate::protocol::model::collar_names(front).contains(last.name) {
            Some("Duplicate collar name '"@ + last.name + "'"@)
        } else {
            None
        }
    }
}

/// Whether a collar may be kept: it has a name and a channel that exists.
pub open spec fn collar_valid(c: CollarView) -> bool {
    !crate::text::is_blank(c.name) && c.channel <= MAX_CHANNEL
}

/// Whether a list of collars may be kept: each may, and no two share a name.
pub open spec fn collars_valid(cs: Seq<CollarView>) -> bool {
    &&& forall|i: int| 0 <= i < cs.len() ==> collar_valid(#[trigger] cs[i])
    &&& crate::protocol::model::collar_names(cs).no_duplicates()
}

/// Nothing is wrong with a list of collars exactly when each has a name and a channel that
/// exists, and no two share a name.
pub proof fn lemma_collars_problem(cs: Seq<CollarView>)
    ensures
        collars_problem(cs) is None <==> collars_valid(cs),
    decreases cs.len(),
{
    let names = crate::protocol::model::collar_names(cs);
    if cs.len() > 0 {
        let front = cs.drop_last();
        let last = cs.last();
        let fnames = crate::protocol::model::collar_names(front);
        lemma_collars_problem(front);
        assert(fnames =~= names.drop_last());
        if collars_valid(cs) {
            assert forall|i: int| 0 <= i < front.len() implies collar_valid(#[trigger] front[i]) by {
                assert(front[i] == cs[i]);
            }
            assert(collar_valid(cs[cs.len() - 1]));
            if fnames.contains(last.name) {
                let k = choose|k: int| 0 <= k < fnames.len() && fnames[k] == last.name;
                assert(names[k] == names[names.len() - 1]);
            }
        }
        if collars_problem(cs) is None {
            assert forall|i: int| 0 <= i < cs.len() implies collar_valid(#[trigger] cs[i]) by {
                if i < cs.len() - 1 {
                    assert(front[i] == cs[i]);
                }
            }
            assert forall|i: int, j: int|
                0 <= i < names.len() && 0 <= j < names.len() && i != j implies names[i]
                != names[j] by {
                if i < names.len() - 1 && j < names.len() - 1 {
                    assert(fnames[i] == names[i] && fnames[j] == names[j]);
                } else if i < names.len() - 1 {
                    assert(fnames[i] == names[i]);
                    assert(fnames.contains(fnames[i]));
                } else {
                    assert(fnames[j] == names[j]);
                    assert(fnames.contains(fnames[j]));
                }
            }
        }
    }
}

pub fn validate_collar(collar: &Collar) -> (r: Result<(), ValidationError>)
    ensures
        reports(r, collar_problem(collar.deep_view())),
{
    if blank(collar.name.as_str()) {
        return Err(ValidationError { message: "Collar name cannot be empty".to_owned() });
    }
    if collar.channel > MAX_CHANNEL {
        let mut message = "Collar '".to_owned();
        push_text(&mut message, collar.name.as_str());
        push_text(&mut message, "' has invalid channel ");
        push_decimal(&mut message, collar.channel as u64);
        return Err(ValidationError { message });
    }
    Ok(())
}

pub fn validate_collars(collars: &[Collar]) -> (r: Result<(), ValidationError>)
    ensures
        reports(r, collars_problem(collars.deep_view())),
{
    let ghost all = collars.deep_view();
    let mut i: usize = 0;
    while i < collars.len()
        invariant
            i <= collars@.len(),
            all == collars.deep_view(),
            collars_problem(all.take(i as int)) is None,
        decreases collars@.len() - i,
    {
        let ghost next = all.take(i + 1);
        proof {
            assert(next.drop_last() =~= all.take(i as int));
            lemma_collars_problem_first(all, i as int);
        }
        let collar = &collars[i];
        if let Err(e) = validate_collar(collar) {
            return Err(e);
        }
        let ghost names = crate::protocol::model::collar_names(all.take(i as int));
        let mut j: usize = 0;
        while j < i
            invariant
                j <= i < collars@.len(),
                *collar == collars@[i as int],
                all == collars.deep_view(),
                names == crate::protocol::model::collar_names(all.take(i as int)),
                next == all.take(i + 1),
                next.drop_last() == all.take(i as int),
                collars_problem(all.take(i as int)) is None,
                collar_problem(collar.deep_view()) is None,
                collars_problem(next) is Some ==> collars_problem(all) == collars_problem(next),
                forall|k: int| 0 <= k < j ==> #[trigger] names[k] != collar.name@,
            decreases i - j,
        {
            assert(names[j as int] == collars@[j as int].name@);
            if same_text(collars[j].name.as_str(), collar.name.as_str()) {
                proof {
                    assert(names.contains(names[j as int]));
                }
                let mut message = "Duplicate collar name '".to_owned();
                push_text(&mut message, collar.name.as_str());
                push_text(&mut message, "'");
                return Err(ValidationError { message });
            }
            j = j + 1;
        }
        i = i + 1;
    }
    proof {
        assert(all.take(i as int) =~= all);
    }
    Ok(())
}

/// A problem that shows in a front part of the list is the problem of the list.
proof fn lemma_collars_problem_first(cs: Seq<CollarView>, i: int)
    requires
        0 <= i < cs.len(),
    ensures
        collars_problem(cs.take(i + 1)) is Some ==> collars_problem(cs) == collars_problem(
            cs.take(i + 1),
        ),
    decreases cs.len(),
{
    if i + 1 == cs.len() {
        assert(cs.take(i + 1) =~= cs);
    } else {
        lemma_collars_problem_first(cs.drop_last(), i);
        assert(cs.drop_last().take(i + 1) =~= cs.take(i + 1));
    }
}

// ----- Presets -----

/// "Preset 'name' track n", as the messages on a track begin.
pub open spec fn at_track(preset: Seq<char>, track: nat) -> Seq<char> {
    "Preset '"@ + preset + "' track "@ + crate::text::decimal(track)
}

/// "Preset 'name' track n step m", as the messages on a step begin.
pub open spec fn at_step(preset: Seq<char>, track: nat, step: nat) -> Seq<char> {
    at_track(preset, track) + " step "@ + crate::text::decimal(step)
}

/// What is wrong with a step.
pub open spec fn step_problem(
    preset: Seq<char>,
    track: nat,
    step: nat,
    s: PresetStep,
) -> Option<Seq<char>> {
    if s.duration_ms == 0 {
        Some(at_step(preset, track, step) + " has zero duration"@)
    } else if s.mode.command() is Some && s.intensity > MAX_INTENSITY {
        Some(
            at_step(preset, track, step) + " has invalid intensity "@ + crate::text::decimal(
                s.intensity as nat,
            ),
        )
    } else {
        None
    }
}

/// The first thing that is wrong with the steps of a track.
pub open spec fn steps_problem(
    preset: Seq<char>,
    track: nat,
    steps: Seq<PresetStep>,
) -> Option<Seq<char>>
    decreases steps.len(),
{
    if steps.len() == 0 {
        None
    } else {
        let before = steps_problem(preset, track, steps.drop_last());
        if before is Some {
            before
        } else {
            step_problem(preset, track, (steps.len() - 1) as nat, steps.last())
        }
    }
}

/// The first thing that is wrong with a track.
pub open spec fn track_problem(
    preset: Seq<char>,
    track: nat,
    t: TrackView,
    collars: Seq<CollarView>,
) -> Option<Seq<char>> {
    if crate::text::is_blank(t.collar_name) {
        Some(at_track(preset, track) + " has no collar selected"@)
    } else if !crate::protocol::model::collar_names(collars).contains(t.collar_name) {
        Some(at_track(preset, track) + " references unknown collar '"@ + t.collar_name + "'"@)
    } else if t.steps.len() == 0 {
        Some(at_track(preset, track) + " has no steps"@)
    } else {
        steps_problem(preset, track, t.steps)
    }
}

/// The first thing that is wrong with the tracks of a preset.
pub open spec fn tracks_problem(
    preset: Seq<char>,
    tracks: Seq<TrackView>,
    collars: Seq<CollarView>,
) -> Option<Seq<char>>
    decreases tracks.len(),
{
    if tracks.len() == 0 {
        None
    } else {
        let before = tracks_problem(preset, tracks.drop_last(), collars);
        if before is Some {
            before
        } else {
            track_problem(preset, (tracks.len() - 1) as nat, tracks.last(), collars)
        }
    }
}

/// Whether some step of a track sends a command.
pub open spec fn track_commands(t: TrackView) -> bool {
    exists|i: int| 0 <= i < t.steps.len() && (#[trigger] t.steps[i]).mode.command() is Some
}

/// Whether some step of some track sends a command.
pub open spec fn commands(tracks: Seq<TrackView>) -> bool {
    exists|i: int| 0 <= i < tracks.len() && track_commands(#[trigger] tracks[i])
}

/// The first thing that is wrong with a preset.
pub open spec fn preset_problem(p: PresetView, collars: Seq<CollarView>) -> Option<Seq<char>> {
    if crate::text::is_blank(p.name) {
        Some("Preset name cannot be empty"@)
    } else if p.tracks.len() == 0 {
        Some("Preset '"@ + p.name + "' has no tracks"@)
    } else if tracks_problem(p.name, p.tracks, collars) is Some {
        tracks_problem(p.name, p.tracks, collars)
    } else if !commands(p.tracks) {
        Some("Preset '"@ + p.name + "' has no runnable command steps"@)
    } else {
        None
    }
}

/// The first thing that is wrong with a list of presets.
pub open spec fn presets_problem(
    ps: Seq<PresetView>,
    collars: Seq<CollarView>,
) -> Option<Seq<char>>
    decreases ps.len(),
{
    if ps.len() == 0 {
        None
    } else {
        let front = ps.drop_last();
        let last = ps.last();
        if presets_problem(front, collars) is Some {
            presets_problem(front, collars)
        } else if preset_problem(last, collars) is Some {
            preset_problem(last, collars)
        } else if crate::protocol::model::preset_names(front).contains(last.name) {
            Some("Duplicate preset name '"@ + last.name + "'"@)
        } else {
            None
        }
    }
}

/// The first thing that is wrong with an export: its collars come before its presets.
pub open spec fn export_problem(d: ExportDataView) -> Option<Seq<char>> {
    if collars_problem(d.collars) is Some {
        collars_problem(d.collars)
    } else {
        presets_problem(d.presets, d.collars)
    }
}

/// Whether a step may be kept.
pub open spec fn step_valid(s: PresetStep) -> bool {
    s.duration_ms > 0 && (s.mode.command() is Some ==> s.intensity <= MAX_INTENSITY)
}

/// Whether a track may be kept: it names a collar that exists and has steps, all valid.
pub open spec fn track_valid(t: TrackView, collars: Seq<CollarView>) -> bool {
    &&& !crate::text::is_blank(t.collar_name)
    &&& crate::protocol::model::collar_names(collars).contains(t.collar_name)
    &&& t.steps.len() > 0
    &&& forall|i: int| 0 <= i < t.steps.len() ==> step_valid(#[trigger] t.steps[i])
}

/// Whether a preset may be kept: it has a name, valid tracks, and a step that sends a command.
pub open spec fn preset_valid(p: PresetView, collars: Seq<CollarView>) -> bool {
    &&& !crate::text::is_blank(p.name)
    &&& forall|i: int| 0 <= i < p.tracks.len() ==> track_valid(#[trigger] p.tracks[i], collars)
    &&& commands(p.tracks)
}

/// Whether a list of presets may be kept: each may, and no two share a name.
pub open spec fn presets_valid(ps: Seq<PresetView>, collars: Seq<CollarView>) -> bool {
    &&& forall|i: int| 0 <= i < ps.len() ==> preset_valid(#[trigger] ps[i], collars)
    &&& crate::protocol::model::preset_names(ps).no_duplicates()
}

proof fn lemma_steps_problem(preset: Seq<char>, track: nat, steps: Seq<PresetStep>)
    ensures
        steps_problem(preset, track, steps) is None <==> forall|i: int|
            0 <= i < steps.len() ==> step_valid(#[trigger] steps[i]),
    decreases steps.len(),
{
    if steps.len() > 0 {
        let front = steps.drop_last();
        lemma_steps_problem(preset, track, front);
        assert forall|i: int| 0 <= i < front.len() implies front[i] == #[trigger] steps[i] by {}
        if forall|i: int| 0 <= i < steps.len() ==> step_valid(#[trigger] steps[i]) {
            assert(forall|i: int| 0 <= i < front.len() ==> step_valid(#[trigger] front[i]));
            assert(step_valid(steps[steps.len() - 1]));
        }
        if steps_problem(preset, track, steps) is None {
            assert forall|i: int| 0 <= i < steps.len() implies step_valid(#[trigger] steps[i]) by {
                if i < front.len() {
                    assert(step_valid(front[i]));
                }
            }
        }
    }
}

proof fn lemma_tracks_problem(preset: Seq<char>, tracks: Seq<TrackView>, collars: Seq<CollarView>)
    ensures
        tracks_problem(preset, tracks, collars) is None <==> forall|i: int|
            0 <= i < tracks.len() ==> track_valid(#[trigger] tracks[i], collars),
    decreases tracks.len(),
{
    if tracks.len() > 0 {
        let front = tracks.drop_last();
        lemma_tracks_problem(preset, front, collars);
        lemma_steps_problem(preset, (tracks.len() - 1) as nat, tracks.last().steps);
        assert forall|i: int| 0 <= i < front.len() implies front[i] == #[trigger] tracks[i] by {}
        if forall|i: int| 0 <= i < tracks.len() ==> track_valid(#[trigger] tracks[i], collars) {
            assert(forall|i: int| 0 <= i < front.len() ==> track_valid(#[trigger] front[i], collars));
            assert(track_valid(tracks[tracks.len() - 1], collars));
        }
        if tracks_problem(preset, tracks, collars) is None {
            assert forall|i: int| 0 <= i < tracks.len() implies track_valid(
                #[trigger] tracks[i],
                collars,
            ) by {
                if i < front.len() {
                    assert(track_valid(front[i], collars));
                }
            }
        }
    }
}

/// Nothing is wrong with a preset exactly when it has a name, every track names a collar that
/// exists and has valid steps, and some step sends a command.
pub proof fn lemma_preset_problem(p: PresetView, collars: Seq<CollarView>)
    ensures
        preset_problem(p, collars) is None <==> preset_valid(p, collars),
{
    lemma_tracks_problem(p.name, p.tracks, collars);
}

/// A preset that may be kept may still be kept when it is normalized.
pub proof fn lemma_normalized_stays_valid(p: PresetView, collars: Seq<CollarView>)
    requires
        preset_valid(p, collars),
    ensures
        preset_valid(p.normalized(), collars),
{
    let q = p.normalized();
    assert forall|i: int| 0 <= i < q.tracks.len() implies track_valid(
        #[trigger] q.tracks[i],
        collars,
    ) by {
        let t = p.tracks[i];
        assert(track_valid(t, collars));
        assert forall|j: int| 0 <= j < t.normalized().steps.len() implies step_valid(
            #[trigger] t.normalized().steps[j],
        ) by {
            assert(step_valid(t.steps[j]));
        }
    }
    let i = choose|i: int| 0 <= i < p.tracks.len() && track_commands(#[trigger] p.tracks[i]);
    let t = p.tracks[i];
    let j = choose|j: int| 0 <= j < t.steps.len() && (#[trigger] t.steps[j]).mode.command() is Some;
    assert(q.tracks[i].steps[j].mode.command() is Some);
    assert(track_commands(q.tracks[i]));
}

/// Nothing is wrong with a list of presets exactly when each is valid and no two share a name.
pub proof fn lemma_presets_problem(ps: Seq<PresetView>, collars: Seq<CollarView>)
    ensures
        presets_problem(ps, collars) is None <==> presets_valid(ps, collars),
    decreases ps.len(),
{
    let names = crate::protocol::model::preset_names(ps);
    if ps.len() > 0 {
        let front = ps.drop_last();
        let last = ps.last();
        let fnames = crate::protocol::model::preset_names(front);
        lemma_presets_problem(front, collars);
        lemma_preset_problem(last, collars);
        assert(fnames =~= names.drop_last());
        if presets_valid(ps, collars) {
            assert forall|i: int| 0 <= i < front.len() implies preset_valid(
                #[trigger] front[i],
                collars,
            ) by {
                assert(front[i] == ps[i]);
            }
            assert(preset_valid(ps[ps.len() - 1], collars));
            if fnames.contains(last.name) {
                let k = choose|k: int| 0 <= k < fnames.len() && fnames[k] == last.name;
                assert(names[k] == names[names.len() - 1]);
            }
        }
        if presets_problem(ps, collars) is None {
            assert forall|i: int| 0 <= i < ps.len() implies preset_valid(
                #[trigger] ps[i],
                collars,
            ) by {
                if i < ps.len() - 1 {
                    assert(front[i] == ps[i]);
                }
            }
            assert forall|i: int, j: int|
                0 <= i < names.len() && 0 <= j < names.len() && i != j implies names[i]
                != names[j] by {
                if i < names.len() - 1 && j < names.len() - 1 {
                    assert(fnames[i] == names[i] && fnames[j] == names[j]);
                } else if i < names.len() - 1 {
                    assert(fnames[i] == names[i]);
                    assert(fnames.contains(fnames[i]));
                } else {
                    assert(fnames[j] == names[j]);
                    assert(fnames.contains(fnames[j]));
                }
            }
        }
    }
}

/// Nothing is wrong with an export exactly when its collars and its presets are valid.
pub proof fn lemma_export_problem(d: ExportDataView)
    ensures
        export_problem(d) is None <==> collars_valid(d.collars) && presets_valid(
            d.presets,
            d.collars,
        ),
{
    lemma_collars_problem(d.collars);
    lemma_presets_problem(d.presets, d.collars);
}

/// A message that begins with "Preset 'name' track n".
pub fn track_message(preset: &str, track: usize) -> (r: String)
    ensures
        r@ == at_track(preset@, track as nat),
{
    let mut message = "Preset '".to_owned();
    push_text(&mut message, preset);
    push_text(&mut message, "' track ");
    push_decimal(&mut message, track as u64);
    message
}

/// A message that begins with "Preset 'name' track n step m".
pub fn step_message(preset: &str, track: usize, step: usize) -> (r: String)
    ensures
        r@ == at_step(preset@, track as nat, step as nat),
{
    let mut message = track_message(preset, track);
    push_text(&mut message, " step ");
    push_decimal(&mut message, step as u64);
    message
}

fn validate_step(preset: &str, track: usize, index: usize, step: &PresetStep) -> (r: Result<
    (),
    ValidationError,
>)
    ensures
        reports(r, step_problem(preset@, track as nat, index as nat, *step)),
{
    if step.duration_ms == 0 {
        let mut message = step_message(preset, track, index);
        push_text(&mut message, " has zero duration");
        return Err(ValidationError { message });
    }
    if step.mode.to_command_mode().is_some() && step.intensity > MAX_INTENSITY {
        let mut message = step_message(preset, track, index);
        push_text(&mut message, " has invalid intensity ");
        push_decimal(&mut message, step.intensity as u64);
        return Err(ValidationError { message });
    }
    Ok(())
}

/// A problem that shows in a front part of the steps is the problem of the steps.
proof fn lemma_steps_problem_first(preset: Seq<char>, track: nat, steps: Seq<PresetStep>, i: int)
    requires
        0 <= i <= steps.len(),
    ensures
        steps_problem(preset, track, steps.take(i)) is Some ==> steps_problem(preset, track, steps)
            == steps_problem(preset, track, steps.take(i)),
    decreases steps.len(),
{
    if i == steps.len() {
        assert(steps.take(i) =~= steps);
    } else {
        lemma_steps_problem_first(preset, track, steps.drop_last(), i);
        assert(steps.drop_last().take(i) =~= steps.take(i));
    }
}

/// A problem that shows in a front part of the tracks is the problem of the tracks.
proof fn lemma_tracks_problem_first(
    preset: Seq<char>,
    tracks: Seq<TrackView>,
    collars: Seq<CollarView>,
    i: int,
)
    requires
        0 <= i <= tracks.len(),
    ensures
        tracks_problem(preset, tracks.take(i), collars) is Some ==> tracks_problem(
            preset,
            tracks,
            collars,
        ) == tracks_problem(preset, tracks.take(i), collars),
    decreases tracks.len(),
{
    if i == tracks.len() {
        assert(tracks.take(i) =~= tracks);
    } else {
        lemma_tracks_problem_first(preset, tracks.drop_last(), collars, i);
        assert(tracks.drop_last().take(i) =~= tracks.take(i));
    }
}

/// A problem that shows in a front part of the presets is the problem of the presets.
proof fn lemma_presets_problem_first(ps: Seq<PresetView>, collars: Seq<CollarView>, i: int)
    requires
        0 <= i <= ps.len(),
    ensures
        presets_problem(ps.take(i), collars) is Some ==> presets_problem(ps, collars)
            == presets_problem(ps.take(i), collars),
    decreases ps.len(),
{
    if i == ps.len() {
        assert(ps.take(i) =~= ps);
    } else {
        lemma_presets_problem_first(ps.drop_last(), collars, i);
        assert(ps.drop_last().take(i) =~= ps.take(i));
    }
}

/// Checks a track. `Ok` holds whether some step of it sends a command.
fn validate_track(preset: &str, index: usize, track: &PresetTrack, collars: &[Collar]) -> (r: Result<
    bool,
    ValidationError,
>)
    ensures
        match r {
            Ok(runs) => track_problem(
                preset@,
                index as nat,
                track.deep_view(),
                collars.deep_view(),
            ) is None && runs == track_commands(track.deep_view()),
            Err(e) => track_problem(
                preset@,
                index as nat,
                track.deep_view(),
                collars.deep_view(),
            ) == Some(e@),
        },
{
    if blank(track.collar_name.as_str()) {
        let mut message = track_message(preset, index);
        push_text(&mut message, " has no collar selected");
        return Err(ValidationError { message });
    }
    let known = find_collar(collars, track.collar_name.as_str());
    proof {
        crate::protocol::model::lemma_position(
            crate::protocol::model::collar_names(collars.deep_view()),
            track.collar_name@,
        );
    }
    if known.is_none() {
        let mut message = track_message(preset, index);
        push_text(&mut message, " references unknown collar '");
        push_text(&mut message, track.collar_name.as_str());
        push_text(&mut message, "'");
        return Err(ValidationError { message });
    }
    if track.steps.len() == 0 {
        let mut message = track_message(preset, index);
        push_text(&mut message, " has no steps");
        return Err(ValidationError { message });
    }
    let ghost steps = track.steps@;
    let mut runs = false;
    let mut i: usize = 0;
    while i < track.steps.len()
        invariant
            i <= track.steps@.len(),
            steps == track.steps@,
            steps_problem(preset@, index as nat, steps.take(i as int)) is None,
            track_problem(preset@, index as nat, track.deep_view(), collars.deep_view())
                == steps_problem(preset@, index as nat, steps),
            runs == exists|j: int| 0 <= j < i && (#[trigger] steps[j]).mode.command() is Some,
        decreases track.steps@.len() - i,
    {
        proof {
            assert(steps.take(i + 1).drop_last() =~= steps.take(i as int));
            lemma_steps_problem_first(preset@, index as nat, steps, i + 1);
        }
        if let Err(e) = validate_step(preset, index, i, &track.steps[i]) {
            return Err(e);
        }
        if track.steps[i].mode.to_command_mode().is_some() {
            assert(steps[i as int].mode.command() is Some);
            runs = true;
        }
        i = i + 1;
    }
    assert(steps.take(i as int) =~= steps);
    Ok(runs)
}

pub fn validate_preset(preset: &Preset, collars: &[Collar]) -> (r: Result<(), ValidationError>)
    ensures
        reports(r, preset_problem(preset.deep_view(), collars.deep_view())),
{
    if blank(preset.name.as_str()) {
        return Err(ValidationError { message: "Preset name cannot be empty".to_owned() });
    }
    if preset.tracks.len() == 0 {
        let mut message = "Preset '".to_owned();
        push_text(&mut message, preset.name.as_str());
        push_text(&mut message, "' has no tracks");
        return Err(ValidationError { message });
    }
    let ghost p = preset.deep_view();
    let ghost tracks = p.tracks;
    let mut runnable = false;
    let mut i: usize = 0;
    while i < preset.tracks.len()
        invariant
            i <= preset.tracks@.len(),
            p == preset.deep_view(),
            tracks == p.tracks,
            tracks.len() > 0,
            !crate::text::is_blank(p.name),
            tracks_problem(p.name, tracks.take(i as int), collars.deep_view()) is None,
            runnable == exists|j: int| 0 <= j < i && track_commands(#[trigger] tracks[j]),
        decreases preset.tracks@.len() - i,
    {
        proof {
            assert(tracks.take(i + 1).drop_last() =~= tracks.take(i as int));
            assert(tracks[i as int] == preset.tracks@[i as int].deep_view());
            lemma_tracks_problem_first(p.name, tracks, collars.deep_view(), i + 1);
        }
        match validate_track(preset.name.as_str(), i, &preset.tracks[i], collars) {
            Ok(runs) => {
                if runs {
                    assert(track_commands(tracks[i as int]));
                    runnable = true;
                }
            },
            Err(e) => {
                return Err(e);
            },
        }
        i = i + 1;
    }
    assert(tracks.take(i as int) =~= tracks);
    if !runnable {
        let mut message = "Preset '".to_owned();
        push_text(&mut message, preset.name.as_str());
        push_text(&mut message, "' has no runnable command steps");
        return Err(ValidationError { message });
    }
    Ok(())
}

pub fn validate_presets(presets: &[Preset], collars: &[Collar]) -> (r: Result<(), ValidationError>)
    ensures
        reports(r, presets_problem(presets.deep_view(), collars.deep_view())),
{
    let ghost all = presets.deep_view();
    let mut i: usize = 0;
    while i < presets.len()
        invariant
            i <= presets@.len(),
            all == presets.deep_view(),
            presets_problem(all.take(i as int), collars.deep_view()) is None,
        decreases presets@.len() - i,
    {
        let ghost next = all.take(i + 1);
        proof {
            assert(next.drop_last() =~= all.take(i as int));
            lemma_presets_problem_first(all, collars.deep_view(), i + 1);
        }
        let preset = &presets[i];
        if let Err(e) = validate_preset(preset, collars) {
            return Err(e);
        }
        let ghost names = crate::protocol::model::preset_names(all.take(i as int));
        let mut j: usize = 0;
        while j < i
            invariant
                j <= i < presets@.len(),
                *preset == presets@[i as int],
                all == presets.deep_view(),
                names == crate::protocol::model::preset_names(all.take(i as int)),
                next == all.take(i + 1),
                next.drop_last() == all.take(i as int),
                presets_problem(all.take(i as int), collars.deep_view()) is None,
                preset_problem(preset.deep_view(), collars.deep_view()) is None,
                presets_problem(next, collars.deep_view()) is Some ==> presets_problem(
                    all,
                    collars.deep_view(),
                ) == presets_problem(next, collars.deep_view()),
                forall|k: int| 0 <= k < j ==> #[trigger] names[k] != preset.name@,
            decreases i - j,
        {
            assert(names[j as int] == presets@[j as int].name@);
            if same_text(presets[j].name.as_str(), preset.name.as_str()) {
                proof {
                    assert(names.contains(names[j as int]));
                }
                let mut message = "Duplicate preset name '".to_owned();
                push_text(&mut message, preset.name.as_str());
                push_text(&mut message, "'");
                return Err(ValidationError { message });
            }
            j = j + 1;
        }
        i = i + 1;
    }
    proof {
        assert(all.take(i as int) =~= all);
    }
    Ok(())
}

pub fn validate_export_data(data: &ExportData) -> (r: Result<(), ValidationError>)
    ensures
        reports(r, export_problem(data.deep_view())),
{
    if let Err(e) = validate_collars(data.collars.as_slice()) {
        return Err(e);
    }
    validate_presets(data.presets.as_slice(), data.collars.as_slice())
}

// ----- What is asked -----

/// A collar needs a name that is not blank and a channel from 0 to 2.
pub proof fn lemma_what_a_collar_needs(c: CollarView)
    ensures
        collar_problem(c) is None <==> c.channel <= 2 && exists|i: int|
            0 <= i < c.name.len() && !crate::text::is_space(#[trigger] c.name[i]),
{
}

/// A preset needs a name that is not blank, and tracks that each name a collar that exists and have
/// steps, of which each takes some time and, unless it is a pause, is no stronger than 99; and it
/// needs a step that is no pause.
pub proof fn lemma_what_a_preset_needs(p: PresetView, collars: Seq<CollarView>)
    ensures
        preset_problem(p, collars) is None <==> {
            &&& exists|i: int|
                0 <= i < p.name.len() && !crate::text::is_space(#[trigger] p.name[i])
            &&& forall|i: int|
                0 <= i < p.tracks.len() ==> {
                    &&& !crate::text::is_blank((#[trigger] p.tracks[i]).collar_name)
                    &&& p.tracks[i].steps.len() > 0
                    &&& exists|c: int|
                        0 <= c < collars.len() && (#[trigger] collars[c]).name
                            == p.tracks[i].collar_name
                }
            &&& forall|i: int, j: int|
                0 <= i < p.tracks.len() && 0 <= j < p.tracks[i].steps.len() ==> (
                #[trigger] p.tracks[i].steps[j]).duration_ms > 0 && (p.tracks[i].steps[j].mode
                    is Pause || p.tracks[i].steps[j].intensity <= 99)
            &&& exists|i: int, j: int|
                0 <= i < p.tracks.len() && 0 <= j < p.tracks[i].steps.len() && !((
                #[trigger] p.tracks[i].steps[j]).mode is Pause)
        },
{
    let names = crate::protocol::model::collar_names(collars);
    lemma_preset_problem(p, collars);
    if preset_valid(p, collars) {
        assert forall|i: int| 0 <= i < p.tracks.len() implies {
            &&& !crate::text::is_blank((#[trigger] p.tracks[i]).collar_name)
            &&& p.tracks[i].steps.len() > 0
            &&& exists|c: int|
                0 <= c < collars.len() && (#[trigger] collars[c]).name == p.tracks[i].collar_name
        } by {
            assert(track_valid(p.tracks[i], collars));
            let c = choose|c: int| 0 <= c < names.len() && names[c] == p.tracks[i].collar_name;
            assert(collars[c].name == p.tracks[i].collar_name);
        }
        assert forall|i: int, j: int|
            0 <= i < p.tracks.len() && 0 <= j < p.tracks[i].steps.len() implies (
        #[trigger] p.tracks[i].steps[j]).duration_ms > 0 && (p.tracks[i].steps[j].mode is Pause
            || p.tracks[i].steps[j].intensity <= 99) by {
            assert(track_valid(p.tracks[i], collars));
            assert(step_valid(p.tracks[i].steps[j]));
        }
        let i = choose|i: int| 0 <= i < p.tracks.len() && track_commands(#[trigger] p.tracks[i]);
        let j = choose|j: int|
            0 <= j < p.tracks[i].steps.len() && (
            #[trigger] p.tracks[i].steps[j]).mode.command() is Some;
        assert(!(p.tracks[i].steps[j].mode is Pause));
    }
    if (forall|i: int|
        0 <= i < p.tracks.len() ==> {
            &&& !crate::text::is_blank((#[trigger] p.tracks[i]).collar_name)
            &&& p.tracks[i].steps.len() > 0
            &&& exists|c: int|
                0 <= c < collars.len() && (#[trigger] collars[c]).name == p.tracks[i].collar_name
        }) && (forall|i: int, j: int|
        0 <= i < p.tracks.len() && 0 <= j < p.tracks[i].steps.len() ==> (
        #[trigger] p.tracks[i].steps[j]).duration_ms > 0 && (p.tracks[i].steps[j].mode is Pause
            || p.tracks[i].steps[j].intensity <= 99)) && (exists|i: int, j: int|
        0 <= i < p.tracks.len() && 0 <= j < p.tracks[i].steps.len() && !((
        #[trigger] p.tracks[i].steps[j]).mode is Pause)) {
        assert forall|i: int| 0 <= i < p.tracks.len() implies track_valid(
            #[trigger] p.tracks[i],
            collars,
        ) by {
            let c = choose|c: int|
                0 <= c < collars.len() && (#[trigger] collars[c]).name == p.tracks[i].collar_name;
            assert(names[c] == p.tracks[i].collar_name);
            assert forall|j: int| 0 <= j < p.tracks[i].steps.len() implies step_valid(
                #[trigger] p.tracks[i].steps[j],
            ) by {}
        }
        let (i, j) = choose|i: int, j: int|
            0 <= i < p.tracks.len() && 0 <= j < p.tracks[i].steps.len() && !((
            #[trigger] p.tracks[i].steps[j]).mode is Pause);
        assert(p.tracks[i].steps[j].mode.command() is Some);
        assert(track_commands(p.tracks[i]));
    }
}

/// An export needs collars that are each valid and have different names, and presets that are each
/// valid for them and have different names.
pub proof fn lemma_what_an_export_needs(d: ExportDataView)
    ensures
        export_problem(d) is None <==> {
            &&& forall|i: int| 0 <= i < d.collars.len() ==> collar_problem(#[trigger] d.collars[i]) is None
            &&& forall|i: int, j: int|
                0 <= i < j < d.collars.len() ==> (#[trigger] d.collars[i]).name != (
                #[trigger] d.collars[j]).name
            &&& forall|i: int|
                0 <= i < d.presets.len() ==> preset_problem(#[trigger] d.presets[i], d.collars) is None
            &&& forall|i: int, j: int|
                0 <= i < j < d.presets.len() ==> (#[trigger] d.presets[i]).name != (
                #[trigger] d.presets[j]).name
        },
{
    let cnames = crate::protocol::model::collar_names(d.collars);
    let pnames = crate::protocol::model::preset_names(d.presets);
    lemma_export_problem(d);
    assert forall|i: int| 0 <= i < d.presets.len() implies (preset_problem(
        #[trigger] d.presets[i],
        d.collars,
    ) is None) == preset_valid(d.presets[i], d.collars) by {
        lemma_preset_problem(d.presets[i], d.collars);
    }
    assert forall|i: int| 0 <= i < d.collars.len() implies (collar_problem(
        #[trigger] d.collars[i],
    ) is None) == collar_valid(d.collars[i]) by {}
    assert forall|i: int| 0 <= i < d.collars.len() implies cnames[i] == (
    #[trigger] d.collars[i]).name by {}
    assert forall|i: int| 0 <= i < d.presets.len() implies pnames[i] == (
    #[trigger] d.presets[i]).name by {}
    if cnames.no_duplicates() {
        assert forall|i: int, j: int| 0 <= i < j < d.collars.len() implies (
        #[trigger] d.collars[i]).name != (#[trigger] d.collars[j]).name by {
            assert(cnames[i] != cnames[j]);
        }
    }
    if pnames.no_duplicates() {
        assert forall|i: int, j: int| 0 <= i < j < d.presets.len() implies (
        #[trigger] d.presets[i]).name != (#[trigger] d.presets[j]).name by {
            assert(pnames[i] != pnames[j]);
        }
    }
    if forall|i: int, j: int|
        0 <= i < j < d.collars.len() ==> (#[trigger] d.collars[i]).name != (
        #[trigger] d.collars[j]).name {
        assert forall|i: int, j: int| 0 <= i < cnames.len() && 0 <= j < cnames.len() && i
            != j implies cnames[i] != cnames[j] by {
            assert(cnames[i] == d.collars[i].name && cnames[j] == d.collars[j].name);
        }
    }
    if forall|i: int, j: int|
        0 <= i < j < d.presets.len() ==> (#[trigger] d.presets[i]).name != (
        #[trigger] d.presets[j]).name {
        assert forall|i: int, j: int| 0 <= i < pnames.len() && 0 <= j < pnames.len() && i
            != j implies pnames[i] != pnames[j] by {
            assert(pnames[i] == d.presets[i].name && pnames[j] == d.presets[j].name);
        }
    }
}

// ----- Which problem is reported -----

/// What is wrong with a collar is told with its name, and with its channel where that is wrong.
pub proof fn lemma_what_is_told_of_a_collar(c: CollarView)
    ensures
        crate::text::is_blank(c.name) ==> collar_problem(c) == Some("Collar name cannot be empty"@),
        !crate::text::is_blank(c.name) && c.channel > 2 ==> collar_problem(c) == Some(
            "Collar '"@ + c.name + "' has invalid channel "@ + crate::text::decimal(
                c.channel as nat,
            ),
        ),
{
}

/// Of a list of collars the first problem is told: that of the first collar that is not valid, or
/// that has the name of one before it.
pub proof fn lemma_first_bad_collar(cs: Seq<CollarView>, k: int)
    requires
        0 <= k < cs.len(),
        collars_problem(cs.take(k)) is None,
    ensures
        collar_problem(cs[k]) is Some ==> collars_problem(cs) == collar_problem(cs[k]),
        collar_problem(cs[k]) is None && (exists|i: int|
            0 <= i < k && (#[trigger] cs[i]).name == cs[k].name) ==> collars_problem(cs) == Some(
            "Duplicate collar name '"@ + cs[k].name + "'"@,
        ),
    decreases cs.len(),
{
    let front = cs.drop_last();
    if k + 1 == cs.len() {
        assert(front =~= cs.take(k));
        let names = crate::protocol::model::collar_names(front);
        if exists|i: int| 0 <= i < k && (#[trigger] cs[i]).name == cs[k].name {
            let i = choose|i: int| 0 <= i < k && (#[trigger] cs[i]).name == cs[k].name;
            assert(names[i] == cs[i].name);
            assert(names.contains(cs[k].name));
        }
    } else {
        assert(front.take(k) =~= cs.take(k));
        lemma_first_bad_collar(front, k);
        if exists|i: int| 0 <= i < k && (#[trigger] cs[i]).name == cs[k].name {
            let i = choose|i: int| 0 <= i < k && (#[trigger] cs[i]).name == cs[k].name;
            assert(front[i].name == front[k].name);
        }
    }
}

/// Whether a step can stand in a preset: it takes some time and, unless it is a pause, is no
/// stronger than 99.
pub open spec fn step_can_stand(s: PresetStep) -> bool {
    s.duration_ms > 0 && (s.mode is Pause || s.intensity <= 99)
}

/// Of the steps of a track the first that cannot stand is told, by its place.
pub proof fn lemma_first_bad_step(preset: Seq<char>, track: nat, steps: Seq<PresetStep>, k: int)
    requires
        0 <= k < steps.len(),
        forall|j: int| 0 <= j < k ==> step_can_stand(#[trigger] steps[j]),
        !step_can_stand(steps[k]),
    ensures
        steps_problem(preset, track, steps) == Some(
            "Preset '"@ + preset + "' track "@ + crate::text::decimal(track) + " step "@
                + crate::text::decimal(k as nat) + if steps[k].duration_ms == 0 {
                " has zero duration"@
            } else {
                " has invalid intensity "@ + crate::text::decimal(steps[k].intensity as nat)
            },
        ),
    decreases steps.len(),
{
    let front = steps.drop_last();
    if k + 1 == steps.len() {
        assert forall|j: int| 0 <= j < front.len() implies step_can_stand(#[trigger] front[j]) by {
            assert(front[j] == steps[j]);
        }
        lemma_no_bad_step(preset, track, front);
        let at = at_step(preset, track, k as nat);
        assert(at + " has invalid intensity "@ + crate::text::decimal(steps[k].intensity as nat)
            =~= at + (" has invalid intensity "@ + crate::text::decimal(
            steps[k].intensity as nat,
        )));
    } else {
        assert forall|j: int| 0 <= j < k implies step_can_stand(#[trigger] front[j]) by {
            assert(front[j] == steps[j]);
        }
        assert(front[k] == steps[k]);
        lemma_first_bad_step(preset, track, front, k);
    }
}

proof fn lemma_no_bad_step(preset: Seq<char>, track: nat, steps: Seq<PresetStep>)
    requires
        forall|j: int| 0 <= j < steps.len() ==> step_can_stand(#[trigger] steps[j]),
    ensures
        steps_problem(preset, track, steps) is None,
    decreases steps.len(),
{
    if steps.len() > 0 {
        let front = steps.drop_last();
        assert(step_can_stand(steps[steps.len() - 1]));
        assert forall|j: int| 0 <= j < front.len() implies step_can_stand(#[trigger] front[j]) by {
            assert(front[j] == steps[j]);
        }
        lemma_no_bad_step(preset, track, front);
    }
}

/// Of a track the collar is told before the steps: that none is selected, or that it does not
/// exist.
pub proof fn lemma_what_is_told_of_a_track(
    preset: Seq<char>,
    track: nat,
    t: TrackView,
    collars: Seq<CollarView>,
)
    ensures
        ({
            let r = track_problem(preset, track, t, collars);
            let at = "Preset '"@ + preset + "' track "@ + crate::text::decimal(track);
            let known = crate::protocol::model::collar_names(collars).contains(t.collar_name);
            let named = !crate::text::is_blank(t.collar_name);
            &&& !named ==> r == Some(at + " has no collar selected"@)
            &&& named && !known ==> r == Some(
                at + " references unknown collar '"@ + t.collar_name + "'"@,
            )
            &&& named && known && t.steps.len() == 0 ==> r == Some(at + " has no steps"@)
            &&& named && known && t.steps.len() > 0 ==> r == steps_problem(preset, track, t.steps)
        }),
{
}

/// Of the tracks of a preset the first that is not in order is told, by its place.
pub proof fn lemma_first_bad_track(
    preset: Seq<char>,
    tracks: Seq<TrackView>,
    collars: Seq<CollarView>,
    k: int,
)
    requires
        0 <= k < tracks.len(),
        forall|j: int|
            0 <= j < k ==> track_problem(preset, j as nat, #[trigger] tracks[j], collars) is None,
        track_problem(preset, k as nat, tracks[k], collars) is Some,
    ensures
        tracks_problem(preset, tracks, collars) == track_problem(
            preset,
            k as nat,
            tracks[k],
            collars,
        ),
    decreases tracks.len(),
{
    let front = tracks.drop_last();
    if k + 1 == tracks.len() {
        assert forall|j: int| 0 <= j < front.len() implies track_problem(
            preset,
            j as nat,
            #[trigger] front[j],
            collars,
        ) is None by {
            assert(front[j] == tracks[j]);
        }
        lemma_no_bad_track(preset, front, collars);
    } else {
        assert forall|j: int| 0 <= j < k implies track_problem(
            preset,
            j as nat,
            #[trigger] front[j],
            collars,
        ) is None by {
            assert(front[j] == tracks[j]);
        }
        assert(front[k] == tracks[k]);
        lemma_first_bad_track(preset, front, collars, k);
    }
}

proof fn lemma_no_bad_track(
    preset: Seq<char>,
    tracks: Seq<TrackView>,
    collars: Seq<CollarView>,
)
    requires
        forall|j: int|
            0 <= j < tracks.len() ==> track_problem(
                preset,
                j as nat,
                #[trigger] tracks[j],
                collars,
            ) is None,
    ensures
        tracks_problem(preset, tracks, collars) is None,
    decreases tracks.len(),
{
    if tracks.len() > 0 {
        let front = tracks.drop_last();
        let last = tracks.len() - 1;
        assert(track_problem(preset, last as nat, tracks[last], collars) is None);
        assert forall|j: int| 0 <= j < front.len() implies track_problem(
            preset,
            j as nat,
            #[trigger] front[j],
            collars,
        ) is None by {
            assert(front[j] == tracks[j]);
        }
        lemma_no_bad_track(preset, front, collars);
    }
}

/// Of a preset the name is told first, then that it has no tracks, then its tracks, and at last
/// that it sends nothing.
pub proof fn lemma_what_is_told_of_a_preset(p: PresetView, collars: Seq<CollarView>)
    ensures
        ({
            let r = preset_problem(p, collars);
            let named = !crate::text::is_blank(p.name);
            let tracks = tracks_problem(p.name, p.tracks, collars);
            &&& !named ==> r == Some("Preset name cannot be empty"@)
            &&& named && p.tracks.len() == 0 ==> r == Some(
                "Preset '"@ + p.name + "' has no tracks"@,
            )
            &&& named && p.tracks.len() > 0 && tracks is Some ==> r == tracks
            &&& named && p.tracks.len() > 0 && tracks is None && (forall|i: int, j: int|
                0 <= i < p.tracks.len() && 0 <= j < p.tracks[i].steps.len() ==> (
                #[trigger] p.tracks[i].steps[j]).mode is Pause) ==> r == Some(
                "Preset '"@ + p.name + "' has no runnable command steps"@,
            )
        }),
{
    if commands(p.tracks) {
        let i = choose|i: int| 0 <= i < p.tracks.len() && track_commands(#[trigger] p.tracks[i]);
        let j = choose|j: int|
            0 <= j < p.tracks[i].steps.len() && (
            #[trigger] p.tracks[i].steps[j]).mode.command() is Some;
        assert(!(p.tracks[i].steps[j].mode is Pause));
    }
}

/// Of a list of presets the first problem is told: that of the first preset that is not valid, or
/// that has the name of one before it. Of an export the collars come first.
pub proof fn lemma_first_bad_preset(ps: Seq<PresetView>, collars: Seq<CollarView>, k: int)
    requires
        0 <= k < ps.len(),
        presets_problem(ps.take(k), collars) is None,
    ensures
        preset_problem(ps[k], collars) is Some ==> presets_problem(ps, collars) == preset_problem(
            ps[k],
            collars,
        ),
        preset_problem(ps[k], collars) is None && (exists|i: int|
            0 <= i < k && (#[trigger] ps[i]).name == ps[k].name) ==> presets_problem(ps, collars)
            == Some("Duplicate preset name '"@ + ps[k].name + "'"@),
        ({
            let r = export_problem(ExportDataView { collars, presets: ps });
            &&& collars_problem(collars) is Some ==> r == collars_problem(collars)
            &&& collars_problem(collars) is None ==> r == presets_problem(ps, collars)
        }),
    decreases ps.len(),
{
    let front = ps.drop_last();
    if k + 1 == ps.len() {
        assert(front =~= ps.take(k));
        let names = crate::protocol::model::preset_names(front);
        if exists|i: int| 0 <= i < k && (#[trigger] ps[i]).name == ps[k].name {
            let i = choose|i: int| 0 <= i < k && (#[trigger] ps[i]).name == ps[k].name;
            assert(names[i] == ps[i].name);
            assert(names.contains(ps[k].name));
        }
    } else {
        assert(front.take(k) =~= ps.take(k));
        lemma_first_bad_preset(front, collars, k);
        if exists|i: int| 0 <= i < k && (#[trigger] ps[i]).name == ps[k].name {
            let i = choose|i: int| 0 <= i < k && (#[trigger] ps[i]).name == ps[k].name;
            assert(front[i].name == front[k].name);
        }
    }
}

} // verus!
