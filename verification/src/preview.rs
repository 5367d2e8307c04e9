//! Presets with random values: what a run draws, and what a preview shows.

use rand::rngs::SmallRng;
use vstd::prelude::*;

use crate::protocol::model::{
    Collar, CollarView, CommandMode, Distribution, Preset, PresetPreview, PresetPreviewEvent,
    PresetPreviewEventView, PresetPreviewView, PresetStep, PresetTrack, PresetView, TrackView,
};
use crate::protocol::rf_codec::{encode_rf_frame, MAX_INTENSITY};
use crate::random::{
    resolve_random_duration, resolve_random_u8, GaussianSource, Sample, DURATION_STEP_MS,
};
use crate::rf::hex_text;
use crate::rf_timing::RF_COMMAND_TRANSMIT_DURATION_US;
use crate::scheduling::{
    preset_fits, schedule_preset_events, schedule_steps, steps_duration_ms, PresetEvent,
    ScheduleError, ScheduledPresetEvent,
};
use crate::text::{push_decimal, push_text};
use crate::validation::step_message;

verus! {

// ----- Random values -----

/// Picks the values that a preset leaves open.
pub trait StepResolver: Sized {
    /// What samples are drawn from.
    type Source;

    /// Whether samples are drawn for normal distributions.
    spec fn draws() -> bool;

    spec fn source(&self) -> Self::Source;

    /// Whether the source keeps a record of what it drew.
    spec fn keeps_record(&self) -> bool;

    /// What the source drew so far, if it keeps a record.
    spec fn samples(&self) -> Seq<Sample>;

    /// Whether `r` can be picked as a duration from `min` to `max`.
    spec fn may_last(min: u32, max: u32, distribution: Distribution, r: u32) -> bool;

    /// Whether `r` can be picked as an intensity from `min` to `max`.
    spec fn may_reach(min: u8, max: u8, distribution: Distribution, r: u8) -> bool;

    fn resolve_duration(&mut self, min: u32, max: u32, distribution: Distribution) -> (r: u32)
        requires
            min < max,
        ensures
            Self::may_last(min, max, distribution, r),
            Self::draws() && distribution == Distribution::Uniform ==> final(self).source()
                == old(self).source() && final(self).keeps_record() == old(self).keeps_record()
                && final(self).samples() == old(self).samples(),
            Self::draws() && distribution == Distribution::Gaussian && old(self).keeps_record()
                ==> final(self).keeps_record() && one_more(
                old(self).samples(),
                final(self).samples(),
            ) && duration_from(final(self).samples().last(), min, max, r),
    ;

    fn resolve_intensity(&mut self, min: u8, max: u8, distribution: Distribution) -> (r: u8)
        requires
            min < max,
        ensures
            Self::may_reach(min, max, distribution, r),
            Self::draws() && distribution == Distribution::Uniform ==> final(self).source()
                == old(self).source() && final(self).keeps_record() == old(self).keeps_record()
                && final(self).samples() == old(self).samples(),
            Self::draws() && distribution == Distribution::Gaussian && old(self).keeps_record()
                ==> final(self).keeps_record() && one_more(
                old(self).samples(),
                final(self).samples(),
            ) && intensity_from(final(self).samples().last(), min, max, r),
    ;
}

/// Whether one more sample was drawn.
pub open spec fn one_more(before: Seq<Sample>, after: Seq<Sample>) -> bool {
    after.len() == before.len() + 1 && after == before.push(after.last())
}

/// Whether a duration is what a sample comes to: a sample of steps.
pub open spec fn duration_from(sample: Sample, min: u32, max: u32, r: u32) -> bool {
    &&& r % DURATION_STEP_MS == 0
    &&& crate::random::comes_from(
        sample,
        min / DURATION_STEP_MS,
        max / DURATION_STEP_MS,
        r as int / DURATION_STEP_MS as int,
    )
}

/// Whether an intensity is what a sample comes to.
pub open spec fn intensity_from(sample: Sample, min: u8, max: u8, r: u8) -> bool {
    crate::random::comes_from(sample, min as u32, max as u32, r as int)
}

/// Picks the middle of every range.
pub struct MidpointResolver;

impl StepResolver for MidpointResolver {
    type Source = ();

    open spec fn draws() -> bool {
        false
    }

    open spec fn source(&self) -> () {
        ()
    }

    open spec fn keeps_record(&self) -> bool {
        false
    }

    open spec fn samples(&self) -> Seq<Sample> {
        Seq::empty()
    }

    open spec fn may_last(min: u32, max: u32, distribution: Distribution, r: u32) -> bool {
        r == (min + max) / 2
    }

    open spec fn may_reach(min: u8, max: u8, distribution: Distribution, r: u8) -> bool {
        r == (min + max) / 2
    }

    fn resolve_duration(&mut self, min: u32, max: u32, distribution: Distribution) -> (r: u32) {
        min + (max - min) / 2
    }

    fn resolve_intensity(&mut self, min: u8, max: u8, distribution: Distribution) -> (r: u8) {
        min + (max - min) / 2
    }
}

/// Picks at random.
pub struct RandomResolver<G> {
    pub rng: SmallRng,
    pub gaussian: G,
}

impl<G: GaussianSource> StepResolver for RandomResolver<G> {
    type Source = G;

    open spec fn draws() -> bool {
        true
    }

    open spec fn source(&self) -> G {
        self.gaussian
    }

    open spec fn keeps_record(&self) -> bool {
        self.gaussian.keeps_record()
    }

    open spec fn samples(&self) -> Seq<Sample> {
        self.gaussian.samples()
    }

    open spec fn may_last(min: u32, max: u32, distribution: Distribution, r: u32) -> bool {
        crate::random::duration_drawn(min, max, r)
    }

    open spec fn may_reach(min: u8, max: u8, distribution: Distribution, r: u8) -> bool {
        min <= r <= max
    }

    fn resolve_duration(&mut self, min: u32, max: u32, distribution: Distribution) -> (r: u32) {
        let ghost before = self.gaussian;
        let r = resolve_random_duration(
            &mut self.rng,
            &mut self.gaussian,
            min,
            max,
            distribution,
        );
        proof {
            lemma_one_more(before, self.gaussian);
        }
        r
    }

    fn resolve_intensity(&mut self, min: u8, max: u8, distribution: Distribution) -> (r: u8) {
        let ghost before = self.gaussian;
        let r = resolve_random_u8(&mut self.rng, &mut self.gaussian, min, max, distribution);
        proof {
            lemma_one_more(before, self.gaussian);
        }
        r
    }
}

proof fn lemma_one_more<G: GaussianSource>(before: G, after: G)
    ensures
        ({
            let drawn = crate::random::new_samples(before, after);
            before.keeps_record() && crate::random::sampled(before, after, drawn) && drawn.len()
                == 1 ==> one_more(before.samples(), after.samples()) && after.samples().last()
                == drawn[0]
        }),
{
    let drawn = crate::random::new_samples(before, after);
    if before.keeps_record() && crate::random::sampled(before, after, drawn) && drawn.len() == 1 {
        assert(after.samples() =~= before.samples().push(drawn[0]));
    }
}

/// A distribution, uniform where none is given.
pub open spec fn distribution_of(d: Option<Distribution>) -> Distribution {
    match d {
        Some(d) => d,
        None => Distribution::Uniform,
    }
}

/// A distribution, uniform where none is given.
pub fn distribution_or_default(d: Option<Distribution>) -> (r: Distribution)
    ensures
        r == distribution_of(d),
{
    match d {
        Some(d) => d,
        None => Distribution::default(),
    }
}

/// Whether `r` is `s` with every range replaced by a value that the resolver can pick.
pub open spec fn step_resolved<R: StepResolver>(s: PresetStep, r: PresetStep) -> bool {
    &&& r.mode == s.mode
    &&& r.duration_max_ms is None
    &&& r.intensity_max is None
    &&& r.duration_distribution is None
    &&& r.intensity_distribution is None
    &&& if s.random_duration() {
        R::may_last(
            s.duration_ms,
            s.duration_max_ms->0,
            distribution_of(s.duration_distribution),
            r.duration_ms,
        )
    } else {
        r.duration_ms == s.duration_ms
    }
    &&& if s.random_intensity() {
        R::may_reach(
            s.intensity,
            s.intensity_max->0,
            distribution_of(s.intensity_distribution),
            r.intensity,
        )
    } else {
        r.intensity == s.intensity
    }
}

/// Whether `r` is `t` with every step resolved.
pub open spec fn track_resolved<R: StepResolver>(t: TrackView, r: TrackView) -> bool {
    &&& r.collar_name == t.collar_name
    &&& r.steps.len() == t.steps.len()
    &&& forall|i: int|
        0 <= i < t.steps.len() ==> step_resolved::<R>(t.steps[i], #[trigger] r.steps[i])
}

/// Whether `r` is `p` with every step resolved.
pub open spec fn preset_resolved<R: StepResolver>(p: PresetView, r: PresetView) -> bool {
    &&& r.name == p.name
    &&& r.tracks.len() == p.tracks.len()
    &&& forall|i: int|
        0 <= i < p.tracks.len() ==> track_resolved::<R>(p.tracks[i], #[trigger] r.tracks[i])
}

/// Whether a duration is drawn from a normal distribution.
pub open spec fn samples_duration(s: PresetStep) -> bool {
    s.random_duration() && distribution_of(s.duration_distribution) == Distribution::Gaussian
}

/// Whether an intensity is drawn from a normal distribution.
pub open spec fn samples_intensity(s: PresetStep) -> bool {
    s.random_intensity() && distribution_of(s.intensity_distribution) == Distribution::Gaussian
}

/// How many samples a step takes.
pub open spec fn step_samples(s: PresetStep) -> int {
    (if samples_duration(s) {
        1int
    } else {
        0
    }) + (if samples_intensity(s) {
        1int
    } else {
        0
    })
}

/// How many samples steps take.
pub open spec fn steps_samples(ss: Seq<PresetStep>) -> int
    decreases ss.len(),
{
    if ss.len() == 0 {
        0
    } else {
        steps_samples(ss.drop_last()) + step_samples(ss.last())
    }
}

/// How many samples tracks take.
pub open spec fn tracks_samples(ts: Seq<TrackView>) -> int
    decreases ts.len(),
{
    if ts.len() == 0 {
        0
    } else {
        tracks_samples(ts.drop_last()) + steps_samples(ts.last().steps)
    }
}

/// Whether the values of a step are what these samples come to, the duration before the intensity.
pub open spec fn step_sampled(s: PresetStep, r: PresetStep, drawn: Seq<Sample>) -> bool {
    &&& drawn.len() == step_samples(s)
    &&& samples_duration(s) ==> duration_from(
        drawn.first(),
        s.duration_ms,
        s.duration_max_ms->0,
        r.duration_ms,
    )
    &&& samples_intensity(s) ==> intensity_from(
        drawn.last(),
        s.intensity,
        s.intensity_max->0,
        r.intensity,
    )
}

/// Whether the values of steps are what these samples come to, one step after the other.
pub open spec fn steps_sampled(
    ss: Seq<PresetStep>,
    rs: Seq<PresetStep>,
    drawn: Seq<Sample>,
) -> bool
    decreases ss.len(),
{
    if ss.len() == 0 {
        drawn.len() == 0
    } else {
        let front = drawn.len() - step_samples(ss.last());
        &&& front >= 0
        &&& steps_sampled(ss.drop_last(), rs.drop_last(), drawn.take(front))
        &&& step_sampled(ss.last(), rs.last(), drawn.skip(front))
    }
}

/// Whether the values of tracks are what these samples come to, one track after the other.
pub open spec fn tracks_sampled(ts: Seq<TrackView>, rs: Seq<TrackView>, drawn: Seq<Sample>) -> bool
    decreases ts.len(),
{
    if ts.len() == 0 {
        drawn.len() == 0
    } else {
        let front = drawn.len() - steps_samples(ts.last().steps);
        &&& front >= 0
        &&& tracks_sampled(ts.drop_last(), rs.drop_last(), drawn.take(front))
        &&& steps_sampled(ts.last().steps, rs.last().steps, drawn.skip(front))
    }
}

/// What the source of a resolver drew between two moments, if it keeps a record.
pub open spec fn drawn_since<R: StepResolver>(before: R, after: R) -> Seq<Sample> {
    after.samples().skip(before.samples().len() as int)
}

/// Whether the record of a source was only added to, and by so many samples. Where none is taken,
/// the source is as it was.
pub open spec fn added<R: StepResolver>(before: R, after: R, count: int) -> bool {
    R::draws() ==> {
        &&& count == 0 ==> after.source() == before.source() && after.keeps_record()
            == before.keeps_record() && after.samples() == before.samples()
        &&& before.keeps_record() ==> after.keeps_record() && after.samples() == before.samples()
            + drawn_since(before, after) && drawn_since(before, after).len() == count
    }
}

proof fn lemma_added_twice<R: StepResolver>(a: R, b: R, c: R, m: int, n: int)
    requires
        added(a, b, m),
        added(b, c, n),
        0 <= m,
        0 <= n,
    ensures
        added(a, c, m + n),
        R::draws() && a.keeps_record() ==> drawn_since(a, c).take(m) == drawn_since(a, b)
            && drawn_since(a, c).skip(m) == drawn_since(b, c),
{
    if R::draws() && a.keeps_record() {
        assert(c.samples() =~= a.samples() + drawn_since(a, c));
        assert(drawn_since(a, c).take(m) =~= drawn_since(a, b));
        assert(drawn_since(a, c).skip(m) =~= drawn_since(b, c));
    }
}

/// Nothing is drawn in no time.
proof fn lemma_added_none<R: StepResolver>(a: R)
    ensures
        added(a, a, 0),
        drawn_since(a, a).len() == 0,
{
    assert(a.samples() =~= a.samples() + drawn_since(a, a));
}

/// What one pick draws.
proof fn lemma_added_one<R: StepResolver>(a: R, b: R, taken: bool)
    requires
        R::draws() && !taken ==> b.source() == a.source() && b.keeps_record() == a.keeps_record()
            && b.samples() == a.samples(),
        R::draws() && taken && a.keeps_record() ==> b.keeps_record() && one_more(
            a.samples(),
            b.samples(),
        ),
    ensures
        added(
            a,
            b,
            if taken {
                1
            } else {
                0
            },
        ),
        R::draws() && taken && a.keeps_record() ==> drawn_since(a, b) == seq![b.samples().last()],
{
    if R::draws() && a.keeps_record() {
        assert(b.samples() =~= a.samples() + drawn_since(a, b));
        if taken {
            assert(drawn_since(a, b) =~= seq![b.samples().last()]);
        }
    }
}

proof fn lemma_steps_samples(ss: Seq<PresetStep>)
    ensures
        steps_samples(ss) >= 0,
    decreases ss.len(),
{
    if ss.len() > 0 {
        lemma_steps_samples(ss.drop_last());
    }
}

proof fn lemma_tracks_samples(ts: Seq<TrackView>)
    ensures
        tracks_samples(ts) >= 0,
    decreases ts.len(),
{
    if ts.len() > 0 {
        lemma_tracks_samples(ts.drop_last());
        lemma_steps_samples(ts.last().steps);
    }
}

fn resolve_step<R: StepResolver>(step: &PresetStep, resolver: &mut R) -> (r: PresetStep)
    ensures
        step_resolved::<R>(*step, r),
        added(*old(resolver), *final(resolver), step_samples(*step)),
        R::draws() && old(resolver).keeps_record() ==> step_sampled(
            *step,
            r,
            drawn_since(*old(resolver), *final(resolver)),
        ),
{
    let duration_ms: u32 = match step.duration_max_ms {
        Some(max) if max > step.duration_ms => resolver.resolve_duration(
            step.duration_ms,
            max,
            distribution_or_default(step.duration_distribution),
        ),
        _ => step.duration_ms,
    };
    let ghost between = *resolver;
    let ghost first = if samples_duration(*step) {
        1int
    } else {
        0
    };
    proof {
        lemma_added_one(*old(resolver), between, samples_duration(*step));
    }
    let mut intensity: u8 = step.intensity;
    if let Some(max) = step.intensity_max {
        if max > step.intensity {
            intensity = resolver.resolve_intensity(
                step.intensity,
                max,
                distribution_or_default(step.intensity_distribution),
            );
        }
    }
    let r = PresetStep {
        mode: step.mode,
        intensity,
        duration_ms,
        intensity_max: None,
        duration_max_ms: None,
        intensity_distribution: None,
        duration_distribution: None,
    };
    proof {
        lemma_added_one(between, *resolver, samples_intensity(*step));
        lemma_added_twice(*old(resolver), between, *resolver, first, step_samples(*step) - first);
        assert(added(*old(resolver), *resolver, step_samples(*step)));
        if R::draws() && old(resolver).keeps_record() {
            let drawn = drawn_since(*old(resolver), *resolver);
            if samples_duration(*step) {
                assert(drawn.take(first)[0] == drawn[0]);
            }
            if samples_intensity(*step) {
                assert(drawn.skip(first)[0] == drawn[first]);
            }
        }
    }
    r
}

fn resolve_track<R: StepResolver>(track: &PresetTrack, resolver: &mut R) -> (r: PresetTrack)
    ensures
        track_resolved::<R>(track.deep_view(), r.deep_view()),
        added(*old(resolver), *final(resolver), steps_samples(track.deep_view().steps)),
        R::draws() && old(resolver).keeps_record() ==> steps_sampled(
            track.deep_view().steps,
            r.deep_view().steps,
            drawn_since(*old(resolver), *final(resolver)),
        ),
{
    let ghost ss = track.deep_view().steps;
    let mut steps: Vec<PresetStep> = Vec::new();
    let mut i: usize = 0;
    proof {
        lemma_added_none(*resolver);
        assert(ss.take(0) =~= Seq::empty());
    }
    while i < track.steps.len()
        invariant
            i <= track.steps@.len(),
            ss == track.deep_view().steps,
            ss == track.steps@,
            steps@.len() == i,
            forall|j: int|
                0 <= j < i ==> step_resolved::<R>(track.steps@[j], #[trigger] steps@[j]),
            added(*old(resolver), *resolver, steps_samples(ss.take(i as int))),
            R::draws() && old(resolver).keeps_record() ==> steps_sampled(
                ss.take(i as int),
                steps@,
                drawn_since(*old(resolver), *resolver),
            ),
        decreases track.steps@.len() - i,
    {
        let ghost between = *resolver;
        let ghost sofar = steps@;
        let step = resolve_step(&track.steps[i], resolver);
        steps.push(step);
        proof {
            let next = ss.take(i + 1);
            assert(next.drop_last() =~= ss.take(i as int));
            assert(next.last() == track.steps@[i as int]);
            assert(steps@.drop_last() =~= sofar);
            lemma_steps_samples(ss.take(i as int));
            lemma_added_twice(
                *old(resolver),
                between,
                *resolver,
                steps_samples(ss.take(i as int)),
                step_samples(track.steps@[i as int]),
            );
        }
        i = i + 1;
    }
    proof {
        assert(ss.take(i as int) =~= ss);
    }
    PresetTrack { collar_name: track.collar_name.clone(), steps }
}

/// A preset with every range replaced by a value. Where samples are drawn, they are those of the
/// normal distributions that the preset asks for, one for each, in the order of its tracks and
/// steps.
pub fn resolve_preset<R: StepResolver>(preset: &Preset, resolver: &mut R) -> (r: Preset)
    ensures
        preset_resolved::<R>(preset.deep_view(), r.deep_view()),
        added(*old(resolver), *final(resolver), tracks_samples(preset.deep_view().tracks)),
        R::draws() && old(resolver).keeps_record() ==> tracks_sampled(
            preset.deep_view().tracks,
            r.deep_view().tracks,
            drawn_since(*old(resolver), *final(resolver)),
        ),
{
    let ghost ts = preset.deep_view().tracks;
    let mut tracks: Vec<PresetTrack> = Vec::new();
    let mut i: usize = 0;
    proof {
        lemma_added_none(*resolver);
        assert(ts.take(0) =~= Seq::empty());
    }
    while i < preset.tracks.len()
        invariant
            i <= preset.tracks@.len(),
            ts == preset.deep_view().tracks,
            tracks@.len() == i,
            forall|j: int|
                0 <= j < i ==> track_resolved::<R>(
                    preset.tracks@[j].deep_view(),
                    (#[trigger] tracks@[j]).deep_view(),
                ),
            added(*old(resolver), *resolver, tracks_samples(ts.take(i as int))),
            R::draws() && old(resolver).keeps_record() ==> tracks_sampled(
                ts.take(i as int),
                tracks.deep_view(),
                drawn_since(*old(resolver), *resolver),
            ),
        decreases preset.tracks@.len() - i,
    {
        let ghost between = *resolver;
        let ghost sofar = tracks.deep_view();
        let track = resolve_track(&preset.tracks[i], resolver);
        tracks.push(track);
        proof {
            let next = ts.take(i + 1);
            assert(next.drop_last() =~= ts.take(i as int));
            assert(next.last() == preset.tracks@[i as int].deep_view());
            assert(tracks.deep_view().drop_last() =~= sofar);
            assert(tracks.deep_view().last() == track.deep_view());
            lemma_tracks_samples(ts.take(i as int));
            lemma_steps_samples(next.last().steps);
            lemma_added_twice(
                *old(resolver),
                between,
                *resolver,
                tracks_samples(ts.take(i as int)),
                steps_samples(next.last().steps),
            );
        }
        i = i + 1;
    }
    proof {
        assert(ts.take(i as int) =~= ts);
    }
    let r = Preset { name: preset.name.clone(), tracks };
    assert forall|j: int| 0 <= j < preset.deep_view().tracks.len() implies track_resolved::<R>(
        preset.deep_view().tracks[j],
        #[trigger] r.deep_view().tracks[j],
    ) by {
        assert(r.deep_view().tracks[j] == tracks@[j].deep_view());
    }
    r
}

/// Whether `r` is `s` with a value drawn for every range.
pub open spec fn step_drawn(s: PresetStep, r: PresetStep) -> bool {
    &&& r.mode == s.mode
    &&& r.duration_max_ms is None
    &&& r.intensity_max is None
    &&& r.duration_distribution is None
    &&& r.intensity_distribution is None
    &&& if s.random_duration() {
        crate::random::duration_drawn(s.duration_ms, s.duration_max_ms->0, r.duration_ms)
    } else {
        r.duration_ms == s.duration_ms
    }
    &&& if s.random_intensity() {
        s.intensity <= r.intensity <= s.intensity_max->0
    } else {
        r.intensity == s.intensity
    }
}

/// Whether `r` is `p` with a value drawn for every range.
pub open spec fn preset_drawn(p: PresetView, r: PresetView) -> bool {
    &&& r.name == p.name
    &&& r.tracks.len() == p.tracks.len()
    &&& forall|i: int|
        0 <= i < p.tracks.len() ==> (#[trigger] r.tracks[i]).collar_name == p.tracks[i].collar_name
            && r.tracks[i].steps.len() == p.tracks[i].steps.len()
    &&& forall|i: int, j: int|
        0 <= i < p.tracks.len() && 0 <= j < p.tracks[i].steps.len() ==> step_drawn(
            p.tracks[i].steps[j],
            #[trigger] r.tracks[i].steps[j],
        )
}

/// Whether the values of a preset were drawn as its distributions ask. Without normal
/// distributions the source has no part in it. With them, a source that keeps a record was asked
/// once for each, in the order of tracks and steps, and the values are what it drew, moved into
/// their ranges.
pub open spec fn preset_drawn_from<G: GaussianSource>(
    before: G,
    after: G,
    p: PresetView,
    r: PresetView,
) -> bool {
    let drawn = crate::random::new_samples(before, after);
    &&& tracks_samples(p.tracks) == 0 ==> after == before
    &&& before.keeps_record() ==> crate::random::sampled(before, after, drawn) && tracks_sampled(
        p.tracks,
        r.tracks,
        drawn,
    )
}

/// A preset with a value drawn for every range.
pub fn draw_preset<G: GaussianSource>(preset: &Preset, random: &mut RandomResolver<G>) -> (r: Preset)
    ensures
        preset_drawn(preset.deep_view(), r.deep_view()),
        preset_drawn_from(
            old(random).gaussian,
            final(random).gaussian,
            preset.deep_view(),
            r.deep_view(),
        ),
{
    let r = resolve_preset(preset, random);
    assert forall|i: int, j: int|
        0 <= i < preset.deep_view().tracks.len() && 0 <= j < preset.deep_view().tracks[i].steps.len()
        implies step_drawn(
        preset.deep_view().tracks[i].steps[j],
        #[trigger] r.deep_view().tracks[i].steps[j],
    ) by {
        assert(r.deep_view().tracks[i].steps.len() == preset.deep_view().tracks[i].steps.len());
    }
    r
}

/// A step with the middle of every range.
pub open spec fn step_at_midpoint(s: PresetStep) -> PresetStep {
    PresetStep {
        mode: s.mode,
        intensity: s.intensity_midpoint() as u8,
        duration_ms: s.duration_midpoint() as u32,
        intensity_max: None,
        duration_max_ms: None,
        intensity_distribution: None,
        duration_distribution: None,
    }
}

/// A preset with the middle of every range.
pub open spec fn preset_at_midpoint(p: PresetView) -> PresetView {
    PresetView {
        name: p.name,
        tracks: p.tracks.map_values(
            |t: TrackView|
                TrackView {
                    collar_name: t.collar_name,
                    steps: t.steps.map_values(|s: PresetStep| step_at_midpoint(s)),
                },
        ),
    }
}

/// Picking the middle of every range leaves nothing open.
pub proof fn lemma_midpoint_is_unique(p: PresetView, r: PresetView)
    requires
        preset_resolved::<MidpointResolver>(p, r),
    ensures
        r == preset_at_midpoint(p),
{
    let m = preset_at_midpoint(p);
    assert forall|i: int| 0 <= i < p.tracks.len() implies #[trigger] r.tracks[i] == m.tracks[i] by {
        assert(track_resolved::<MidpointResolver>(p.tracks[i], r.tracks[i]));
        assert forall|j: int| 0 <= j < p.tracks[i].steps.len() implies
        #[trigger] r.tracks[i].steps[j] == m.tracks[i].steps[j] by {
            assert(step_resolved::<MidpointResolver>(
                p.tracks[i].steps[j],
                r.tracks[i].steps[j],
            ));
        }
        assert(r.tracks[i].steps =~= m.tracks[i].steps);
    }
    assert(r.tracks =~= m.tracks);
}

/// A preset in which nothing is open is resolved to the same values, whoever resolves it.
pub proof fn lemma_fixed_preset_is_kept<R: StepResolver>(p: PresetView, r: PresetView)
    requires
        preset_resolved::<R>(p, r),
        forall|i: int, j: int|
            0 <= i < p.tracks.len() && 0 <= j < p.tracks[i].steps.len() ==> !(
            #[trigger] p.tracks[i].steps[j]).random_duration()
                && !p.tracks[i].steps[j].random_intensity(),
    ensures
        forall|i: int, j: int|
            0 <= i < p.tracks.len() && 0 <= j < p.tracks[i].steps.len() ==> {
                &&& (#[trigger] r.tracks[i].steps[j]).mode == p.tracks[i].steps[j].mode
                &&& r.tracks[i].steps[j].duration_ms == p.tracks[i].steps[j].duration_ms
                &&& r.tracks[i].steps[j].intensity == p.tracks[i].steps[j].intensity
            },
{
    assert forall|i: int, j: int|
        0 <= i < p.tracks.len() && 0 <= j < p.tracks[i].steps.len() implies {
        &&& (#[trigger] r.tracks[i].steps[j]).mode == p.tracks[i].steps[j].mode
        &&& r.tracks[i].steps[j].duration_ms == p.tracks[i].steps[j].duration_ms
        &&& r.tracks[i].steps[j].intensity == p.tracks[i].steps[j].intensity
    } by {
        assert(track_resolved::<R>(p.tracks[i], r.tracks[i]));
        assert(step_resolved::<R>(p.tracks[i].steps[j], r.tracks[i].steps[j]));
        assert(!p.tracks[i].steps[j].random_duration());
    }
}

/// Whether some step of a preset leaves a value open.
pub open spec fn has_open_value(p: PresetView) -> bool {
    exists|i: int, j: int|
        0 <= i < p.tracks.len() && 0 <= j < p.tracks[i].steps.len() && ((
        #[trigger] p.tracks[i].steps[j]).random_duration()
            || p.tracks[i].steps[j].random_intensity())
}

/// Whether some step of a preset leaves a value open.
pub fn preset_has_random(preset: &Preset) -> (r: bool)
    ensures
        r == has_open_value(preset.deep_view()),
{
    let ghost p = preset.deep_view();
    let mut i: usize = 0;
    while i < preset.tracks.len()
        invariant
            i <= preset.tracks@.len(),
            p == preset.deep_view(),
            forall|k: int, j: int|
                0 <= k < i && 0 <= j < p.tracks[k].steps.len() ==> !(
                #[trigger] p.tracks[k].steps[j]).random_duration()
                    && !p.tracks[k].steps[j].random_intensity(),
        decreases preset.tracks@.len() - i,
    {
        let steps = &preset.tracks[i].steps;
        assert(p.tracks[i as int].steps == steps@);
        let mut j: usize = 0;
        while j < steps.len()
            invariant
                j <= steps@.len(),
                i < preset.tracks@.len(),
                p == preset.deep_view(),
                p.tracks[i as int].steps == steps@,
                forall|m: int|
                    0 <= m < j ==> !(#[trigger] p.tracks[i as int].steps[m]).random_duration()
                        && !p.tracks[i as int].steps[m].random_intensity(),
            decreases steps@.len() - j,
        {
            if steps[j].has_random() {
                assert(p.tracks[i as int].steps[j as int].random_duration()
                    || p.tracks[i as int].steps[j as int].random_intensity());
                return true;
            }
            assert(!p.tracks[i as int].steps[j as int].random_duration());
            j = j + 1;
        }
        i = i + 1;
    }
    false
}

// ----- Schedules of presets of any length -----

/// What is said of a preset that runs longer than the clock can count.
pub open spec fn too_long(preset: Seq<char>) -> Seq<char> {
    "Preset '"@ + preset + "' is too long to schedule"@
}

fn too_long_error(preset: &str) -> (r: ScheduleError)
    ensures
        r@ == too_long(preset@),
{
    let mut message = "Preset '".to_owned();
    push_text(&mut message, preset);
    push_text(&mut message, "' is too long to schedule");
    ScheduleError { message }
}

/// The transmissions of a preset in order of time, or why it cannot be scheduled; a preset that
/// the clock cannot count cannot.
pub open spec fn planned(p: PresetView, collars: Seq<CollarView>) -> Result<
    Seq<PresetEvent>,
    Seq<char>,
> {
    if !crate::scheduling::fits(p, u64::MAX as int) {
        Err(too_long(p.name))
    } else {
        match crate::scheduling::schedule(p, collars) {
            Ok(s) => Ok(s.map_values(|e: ScheduledPresetEvent| e.event)),
            Err(e) => Err(e),
        }
    }
}

/// Schedules a preset of any length.
pub fn plan_preset(preset: &Preset, collars: &[Collar]) -> (r: Result<
    Vec<PresetEvent>,
    ScheduleError,
>)
    ensures
        match r {
            Ok(v) => planned(preset.deep_view(), collars.deep_view()) == Ok::<
                Seq<PresetEvent>,
                Seq<char>,
            >(v@),
            Err(e) => planned(preset.deep_view(), collars.deep_view()) == Err::<
                Seq<PresetEvent>,
                Seq<char>,
            >(e@),
        },
{
    if !preset_fits(preset, u64::MAX) {
        return Err(too_long_error(preset.name.as_str()));
    }
    schedule_preset_events(preset, collars)
}

// ----- Previews -----

/// The event of a preview that shows a transmission.
#[verifier::opaque]
pub open spec fn preview_event(
    p: PresetView,
    s: ScheduledPresetEvent,
) -> PresetPreviewEventView {
    PresetPreviewEventView {
        requested_time_us: (s.event.time_ms * 1000) as u64,
        actual_time_us: (s.event.time_ms * 1000) as u64,
        track_index: s.track_index,
        step_index: s.step_index,
        transmit_duration_us: RF_COMMAND_TRANSMIT_DURATION_US,
        collar_name: p.tracks[s.track_index as int].collar_name,
        collar_id: s.event.collar_id,
        channel: s.event.channel,
        mode: CommandMode::of_rf_byte(s.event.mode_byte)->0,
        mode_byte: s.event.mode_byte,
        intensity: s.event.intensity,
        raw_hex: crate::rf::raw_hex(
            crate::protocol::rf_codec::rf_frame(
                s.event.collar_id,
                s.event.channel,
                s.event.mode_byte,
                s.event.intensity,
            ),
        ),
    }
}

/// The events of a preview, or the first transmission that is too strong to be sent.
pub open spec fn preview_events(p: PresetView, s: Seq<ScheduledPresetEvent>) -> Result<
    Seq<PresetPreviewEventView>,
    Seq<char>,
>
    decreases s.len(),
{
    if s.len() == 0 {
        Ok(Seq::empty())
    } else {
        let last = s.last();
        match preview_events(p, s.drop_last()) {
            Err(e) => Err(e),
            Ok(before) => if last.event.intensity > MAX_INTENSITY {
                Err(
                    crate::validation::at_step(
                        p.name,
                        last.track_index as nat,
                        last.step_index as nat,
                    ) + " has invalid intensity "@ + crate::text::decimal(
                        last.event.intensity as nat,
                    ),
                )
            } else {
                Ok(before.push(preview_event(p, last)))
            },
        }
    }
}

/// How long the longest track takes.
pub open spec fn longest_ms(tracks: Seq<TrackView>) -> int
    decreases tracks.len(),
{
    if tracks.len() == 0 {
        0
    } else {
        let before = longest_ms(tracks.drop_last());
        let last = crate::scheduling::total_ms(tracks.last().steps);
        if last > before {
            last
        } else {
            before
        }
    }
}

/// The preview of a preset: what it transmits with the middle of every range.
pub open spec fn previewed(p: PresetView, collars: Seq<CollarView>) -> Result<
    PresetPreviewView,
    Seq<char>,
> {
    let m = preset_at_midpoint(p);
    if !crate::scheduling::fits(m, u64::MAX as int / 1000) {
        Err(too_long(p.name))
    } else {
        match crate::scheduling::schedule(m, collars) {
            Err(e) => Err(e),
            Ok(s) => match preview_events(m, s) {
                Err(e) => Err(e),
                Ok(events) => Ok(
                    PresetPreviewView {
                        total_duration_us: (longest_ms(m.tracks) * 1000) as u64,
                        events,
                    },
                ),
            },
        }
    }
}

/// A failure that shows in a front part of the events is the failure of the preview.
proof fn lemma_preview_events_first(p: PresetView, s: Seq<ScheduledPresetEvent>, i: int)
    requires
        0 <= i <= s.len(),
    ensures
        preview_events(p, s.take(i)) is Err ==> preview_events(p, s) == preview_events(
            p,
            s.take(i),
        ),
    decreases s.len(),
{
    if i == s.len() {
        assert(s.take(i) =~= s);
    } else {
        lemma_preview_events_first(p, s.drop_last(), i);
        assert(s.drop_last().take(i) =~= s.take(i));
    }
}

/// Whether a result is as stated.
pub open spec fn preview_is(
    r: Result<PresetPreview, ScheduleError>,
    expected: Result<PresetPreviewView, Seq<char>>,
) -> bool {
    match r {
        Ok(preview) => expected == Ok::<PresetPreviewView, Seq<char>>(preview.deep_view()),
        Err(e) => expected == Err::<PresetPreviewView, Seq<char>>(e@),
    }
}

fn longest_track_ms(preset: &Preset) -> (r: u64)
    requires
        crate::scheduling::fits(preset.deep_view(), u64::MAX as int / 1000),
    ensures
        r == longest_ms(preset.deep_view().tracks),
        r <= u64::MAX / 1000,
{
    let ghost tracks = preset.deep_view().tracks;
    let mut longest: u64 = 0;
    let mut i: usize = 0;
    while i < preset.tracks.len()
        invariant
            i <= preset.tracks@.len(),
            tracks == preset.deep_view().tracks,
            crate::scheduling::fits(preset.deep_view(), u64::MAX as int / 1000),
            longest == longest_ms(tracks.take(i as int)),
            longest <= u64::MAX / 1000,
        decreases preset.tracks@.len() - i,
    {
        assert(tracks.take(i + 1).drop_last() =~= tracks.take(i as int));
        let steps = &preset.tracks[i].steps;
        assert(tracks[i as int].steps == steps@);
        let total: u64 = steps_duration_ms(steps);
        if total > longest {
            longest = total;
        }
        i = i + 1;
    }
    assert(tracks.take(i as int) =~= tracks);
    longest
}

/// The event of a preview that shows a transmission.
fn show_event(preset: &Preset, s: ScheduledPresetEvent) -> (r: PresetPreviewEvent)
    requires
        crate::scheduling::sound_event(
            s,
            preset.deep_view().tracks.len() as int,
            u64::MAX as int / 1000,
        ),
        s.event.intensity <= MAX_INTENSITY,
    ensures
        r.deep_view() == preview_event(preset.deep_view(), s),
{
    let raw = encode_rf_frame(
        s.event.collar_id,
        s.event.channel,
        s.event.mode_byte,
        s.event.intensity,
    );
    proof {
        reveal(preview_event);
    }
    let mode = match CommandMode::from_rf_byte(s.event.mode_byte) {
        Some(mode) => mode,
        None => CommandMode::Beep,
    };
    assert(preset.deep_view().tracks[s.track_index as int].collar_name
        == preset.tracks@[s.track_index as int].collar_name@);
    PresetPreviewEvent {
        requested_time_us: s.event.time_ms * 1000,
        actual_time_us: s.event.time_ms * 1000,
        track_index: s.track_index,
        step_index: s.step_index,
        transmit_duration_us: RF_COMMAND_TRANSMIT_DURATION_US,
        collar_name: preset.tracks[s.track_index].collar_name.clone(),
        collar_id: s.event.collar_id,
        channel: s.event.channel,
        mode,
        mode_byte: s.event.mode_byte,
        intensity: s.event.intensity,
        raw_hex: hex_text(&raw),
    }
}

/// The events of a preview of a preset in which nothing is left open.
fn show_events(preset: &Preset, scheduled: &Vec<ScheduledPresetEvent>) -> (r: Result<
    Vec<PresetPreviewEvent>,
    ScheduleError,
>)
    requires
        forall|k: int|
            0 <= k < scheduled@.len() ==> crate::scheduling::sound_event(
                #[trigger] scheduled@[k],
                preset.deep_view().tracks.len() as int,
                u64::MAX as int / 1000,
            ),
    ensures
        match r {
            Ok(v) => preview_events(preset.deep_view(), scheduled@) == Ok::<
                Seq<PresetPreviewEventView>,
                Seq<char>,
            >(v.deep_view()),
            Err(e) => preview_events(preset.deep_view(), scheduled@) == Err::<
                Seq<PresetPreviewEventView>,
                Seq<char>,
            >(e@),
        },
{
    let ghost m = preset.deep_view();
    let ghost limit = u64::MAX as int / 1000;
    let mut events: Vec<PresetPreviewEvent> = Vec::new();
    let mut i: usize = 0;
    assert(scheduled@.take(0) =~= Seq::empty());
    assert(events.deep_view() =~= Seq::empty());
    while i < scheduled.len()
        invariant
            i <= scheduled@.len(),
            m == preset.deep_view(),
            limit == u64::MAX as int / 1000,
            forall|k: int|
                0 <= k < scheduled@.len() ==> crate::scheduling::sound_event(
                    #[trigger] scheduled@[k],
                    m.tracks.len() as int,
                    limit,
                ),
            preview_events(m, scheduled@.take(i as int)) == Ok::<
                Seq<PresetPreviewEventView>,
                Seq<char>,
            >(events.deep_view()),
        decreases scheduled@.len() - i,
    {
        let s = scheduled[i];
        proof {
            assert(scheduled@.take(i + 1).drop_last() =~= scheduled@.take(i as int));
            assert(scheduled@.take(i + 1).last() == s);
            lemma_preview_events_first(m, scheduled@, i + 1);
            assert(crate::scheduling::sound_event(scheduled@[i as int], m.tracks.len() as int, limit));
        }
        if s.event.intensity > MAX_INTENSITY {
            let mut message = step_message(preset.name.as_str(), s.track_index, s.step_index);
            push_text(&mut message, " has invalid intensity ");
            push_decimal(&mut message, s.event.intensity as u64);
            return Err(ScheduleError { message });
        }
        let event = show_event(preset, s);
        let ghost before = events.deep_view();
        events.push(event);
        assert(events.deep_view() =~= before.push(event.deep_view()));
        i = i + 1;
    }
    assert(scheduled@.take(i as int) =~= scheduled@);
    Ok(events)
}

/// What running a preset would transmit, with the middle of every range.
pub fn preview_preset(preset: &Preset, collars: &[Collar]) -> (r: Result<
    PresetPreview,
    ScheduleError,
>)
    ensures
        preview_is(r, previewed(preset.deep_view(), collars.deep_view())),
{
    let resolved = resolve_preset(preset, &mut MidpointResolver);
    let ghost m = resolved.deep_view();
    let ghost limit = u64::MAX as int / 1000;
    proof {
        lemma_midpoint_is_unique(preset.deep_view(), m);
    }
    if !preset_fits(&resolved, u64::MAX / 1000) {
        return Err(too_long_error(preset.name.as_str()));
    }
    let scheduled = match schedule_steps(&resolved, collars) {
        Ok(v) => v,
        Err(e) => {
            return Err(e);
        },
    };
    proof {
        assert(resolved.tracks.len() == m.tracks.len());
        crate::scheduling::lemma_schedule_sound(m, collars.deep_view(), limit);
    }
    let events = match show_events(&resolved, &scheduled) {
        Ok(events) => events,
        Err(e) => {
            return Err(e);
        },
    };
    let total_duration_us: u64 = longest_track_ms(&resolved) * 1000;
    Ok(PresetPreview { total_duration_us, events })
}

// ----- What runs and previews show -----

/// A preset with a value drawn for every range keeps its name, its tracks, the modes of its steps
/// and every value that it fixes; a value that is drawn lies in its range, a duration in whole half
/// seconds.
pub proof fn lemma_drawn_values(p: PresetView, r: PresetView, i: int, j: int)
    requires
        preset_drawn(p, r),
        0 <= i < p.tracks.len(),
        0 <= j < p.tracks[i].steps.len(),
    ensures
        r.name == p.name,
        r.tracks.len() == p.tracks.len(),
        r.tracks[i].collar_name == p.tracks[i].collar_name,
        r.tracks[i].steps.len() == p.tracks[i].steps.len(),
        ({
            let step = p.tracks[i].steps[j];
            let drawn = r.tracks[i].steps[j];
            &&& drawn.mode == step.mode
            &&& match step.duration_max_ms {
                Some(max) if max > step.duration_ms => drawn.duration_ms % 500 == 0
                    && drawn.duration_ms <= max && drawn.duration_ms + 500 > step.duration_ms,
                _ => drawn.duration_ms == step.duration_ms,
            }
            &&& match step.intensity_max {
                Some(max) if max > step.intensity => step.intensity <= drawn.intensity <= max,
                _ => drawn.intensity == step.intensity,
            }
        }),
{
    assert(step_drawn(p.tracks[i].steps[j], r.tracks[i].steps[j]));
    assert(r.tracks[i].steps.len() == p.tracks[i].steps.len());
}

/// Whether a step leaves nothing to chance.
pub open spec fn step_fixed(s: PresetStep) -> bool {
    &&& s.duration_max_ms is None || s.duration_max_ms->0 <= s.duration_ms
    &&& s.intensity_max is None || s.intensity_max->0 <= s.intensity
}

/// A preset has an open value exactly if some step leaves something to chance.
pub proof fn lemma_open_values(p: PresetView)
    ensures
        has_open_value(p) <==> exists|i: int, j: int|
            0 <= i < p.tracks.len() && 0 <= j < p.tracks[i].steps.len() && !step_fixed(
                #[trigger] p.tracks[i].steps[j],
            ),
{
    if has_open_value(p) {
        let (i, j) = choose|i: int, j: int|
            0 <= i < p.tracks.len() && 0 <= j < p.tracks[i].steps.len() && ((
            #[trigger] p.tracks[i].steps[j]).random_duration()
                || p.tracks[i].steps[j].random_intensity());
        assert(!step_fixed(p.tracks[i].steps[j]));
    }
    if exists|i: int, j: int|
        0 <= i < p.tracks.len() && 0 <= j < p.tracks[i].steps.len() && !step_fixed(
            #[trigger] p.tracks[i].steps[j],
        ) {
        let (i, j) = choose|i: int, j: int|
            0 <= i < p.tracks.len() && 0 <= j < p.tracks[i].steps.len() && !step_fixed(
                #[trigger] p.tracks[i].steps[j],
            );
        assert(p.tracks[i].steps[j].random_duration() || p.tracks[i].steps[j].random_intensity());
    }
}

/// What a preset transmits is its schedule, without the steps that ask for it; a preset that the
/// clock cannot count transmits nothing.
pub proof fn lemma_planned_is_schedule(p: PresetView, collars: Seq<CollarView>)
    ensures
        crate::scheduling::fits(p, u64::MAX as int) ==> match planned(p, collars) {
            Ok(events) => crate::scheduling::schedule(p, collars) is Ok && events.len()
                == crate::scheduling::schedule(p, collars)->Ok_0.len() && forall|k: int|
                0 <= k < events.len() ==> #[trigger] events[k] == crate::scheduling::schedule(
                    p,
                    collars,
                )->Ok_0[k].event,
            Err(why) => crate::scheduling::schedule(p, collars) == Err::<
                Seq<ScheduledPresetEvent>,
                Seq<char>,
            >(why),
        },
        !crate::scheduling::fits(p, u64::MAX as int) ==> planned(p, collars) is Err,
{
}

/// The middle of every range stands in a preview in place of the range; everything else is as it
/// is in the preset.
pub proof fn lemma_midpoint_values(p: PresetView, i: int, j: int)
    requires
        0 <= i < p.tracks.len(),
        0 <= j < p.tracks[i].steps.len(),
    ensures
        ({
            let m = preset_at_midpoint(p);
            let step = p.tracks[i].steps[j];
            let shown = m.tracks[i].steps[j];
            &&& m.name == p.name
            &&& m.tracks.len() == p.tracks.len()
            &&& m.tracks[i].collar_name == p.tracks[i].collar_name
            &&& m.tracks[i].steps.len() == p.tracks[i].steps.len()
            &&& shown.mode == step.mode
            &&& step_fixed(shown)
            &&& match step.duration_max_ms {
                Some(max) if max > step.duration_ms => 2 * shown.duration_ms <= step.duration_ms
                    + max < 2 * shown.duration_ms + 2,
                _ => shown.duration_ms == step.duration_ms,
            }
            &&& match step.intensity_max {
                Some(max) if max > step.intensity => 2 * shown.intensity <= step.intensity + max < 2
                    * shown.intensity + 2,
                _ => shown.intensity == step.intensity,
            }
        }),
{
}

proof fn lemma_preview_events(p: PresetView, s: Seq<ScheduledPresetEvent>)
    ensures
        preview_events(p, s) is Ok <==> forall|k: int|
            0 <= k < s.len() ==> (#[trigger] s[k]).event.intensity <= 99,
        preview_events(p, s) matches Ok(events) ==> events.len() == s.len() && forall|k: int|
            0 <= k < s.len() ==> #[trigger] events[k] == preview_event(p, s[k]),
    decreases s.len(),
{
    if s.len() > 0 {
        let front = s.drop_last();
        lemma_preview_events(p, front);
        assert(s[s.len() - 1] == s.last());
        assert forall|k: int| 0 <= k < front.len() implies front[k] == #[trigger] s[k] by {}
        if forall|k: int| 0 <= k < s.len() ==> (#[trigger] s[k]).event.intensity <= 99 {
            assert forall|k: int| 0 <= k < front.len() implies (#[trigger] front[k]).event.intensity
                <= 99 by {
                assert(front[k] == s[k]);
            }
        }
        if preview_events(p, s) is Ok {
            let events = preview_events(p, s)->Ok_0;
            let before = preview_events(p, front)->Ok_0;
            assert forall|k: int| 0 <= k < s.len() implies #[trigger] events[k] == preview_event(
                p,
                s[k],
            ) by {
                if k < front.len() {
                    assert(events[k] == before[k]);
                    assert(front[k] == s[k]);
                }
            }
            assert forall|k: int| 0 <= k < s.len() implies (#[trigger] s[k]).event.intensity
                <= 99 by {
                if k < front.len() {
                    assert(front[k].event.intensity <= 99);
                }
            }
        }
    }
}

proof fn lemma_longest(tracks: Seq<TrackView>)
    ensures
        forall|i: int|
            0 <= i < tracks.len() ==> crate::scheduling::total_ms((#[trigger] tracks[i]).steps)
                <= longest_ms(tracks),
        0 <= longest_ms(tracks),
        longest_ms(tracks) == 0 || exists|i: int|
            0 <= i < tracks.len() && crate::scheduling::total_ms((#[trigger] tracks[i]).steps)
                == longest_ms(tracks),
    decreases tracks.len(),
{
    if tracks.len() > 0 {
        let front = tracks.drop_last();
        lemma_longest(front);
        assert(tracks[tracks.len() - 1] == tracks.last());
        assert forall|i: int| 0 <= i < tracks.len() implies crate::scheduling::total_ms(
            (#[trigger] tracks[i]).steps,
        ) <= longest_ms(tracks) by {
            if i < front.len() {
                assert(front[i] == tracks[i]);
            }
        }
        if longest_ms(tracks) == longest_ms(front) && longest_ms(front) != 0 {
            let i = choose|i: int|
                0 <= i < front.len() && crate::scheduling::total_ms((#[trigger] front[i]).steps)
                    == longest_ms(front);
            assert(tracks[i] == front[i]);
        }
    }
}

/// A preview shows what the preset transmits with the middle of every range, each transmission at
/// its time, with the step that asks for it, the collar it goes to and the bytes of its frame. It
/// lasts as long as the longest track. There is a preview exactly if that can be scheduled and sent.
pub proof fn lemma_preview_shows_schedule(p: PresetView, collars: Seq<CollarView>)
    ensures
        ({
            let m = preset_at_midpoint(p);
            let s = crate::scheduling::schedule(m, collars);
            &&& previewed(p, collars) is Ok <==> crate::scheduling::fits(m, u64::MAX as int / 1000)
                && s is Ok && forall|k: int|
                0 <= k < s->Ok_0.len() ==> (#[trigger] s->Ok_0[k]).event.intensity <= 99
            &&& previewed(p, collars) matches Ok(v) ==> {
                &&& v.events.len() == s->Ok_0.len()
                &&& forall|i: int|
                    0 <= i < m.tracks.len() ==> crate::scheduling::total_ms(
                        (#[trigger] m.tracks[i]).steps,
                    ) * 1000 <= v.total_duration_us
                &&& v.total_duration_us == 0 || exists|i: int|
                    0 <= i < m.tracks.len() && crate::scheduling::total_ms(
                        (#[trigger] m.tracks[i]).steps,
                    ) * 1000 == v.total_duration_us
            }
        }),
{
    let m = preset_at_midpoint(p);
    lemma_longest(m.tracks);
    if crate::scheduling::schedule(m, collars) is Ok {
        lemma_preview_events(m, crate::scheduling::schedule(m, collars)->Ok_0);
    }
    if crate::scheduling::fits(m, u64::MAX as int / 1000) {
        assert(longest_ms(m.tracks) <= u64::MAX as int / 1000) by {
            if longest_ms(m.tracks) != 0 {
                let i = choose|i: int|
                    0 <= i < m.tracks.len() && crate::scheduling::total_ms(
                        (#[trigger] m.tracks[i]).steps,
                    ) == longest_ms(m.tracks);
                assert(crate::scheduling::total_ms(m.tracks[i].steps) <= u64::MAX as int / 1000);
            }
        }
    }
}

/// Every transmission in a preview is shown as it is sent.
pub proof fn lemma_preview_event_tells_transmission(
    p: PresetView,
    collars: Seq<CollarView>,
    k: int,
)
    requires
        previewed(p, collars) is Ok,
        0 <= k < previewed(p, collars)->Ok_0.events.len(),
        p.tracks.len() <= usize::MAX,
        forall|i: int|
            0 <= i < p.tracks.len() ==> (#[trigger] p.tracks[i]).steps.len() <= usize::MAX,
    ensures
        ({
            let m = preset_at_midpoint(p);
            let s = crate::scheduling::schedule(m, collars)->Ok_0[k];
            let shown = previewed(p, collars)->Ok_0.events[k];
            &&& shown.requested_time_us == s.event.time_ms * 1000
            &&& shown.actual_time_us == s.event.time_ms * 1000
            &&& shown.transmit_duration_us == 132_450
            &&& shown.track_index == s.track_index
            &&& shown.step_index == s.step_index
            &&& shown.collar_name == p.tracks[s.track_index as int].collar_name
            &&& shown.collar_id == s.event.collar_id
            &&& shown.channel == s.event.channel
            &&& shown.mode_byte == s.event.mode_byte
            &&& shown.mode.rf_byte() == s.event.mode_byte
            &&& shown.intensity == s.event.intensity
            &&& shown.raw_hex == crate::rf::raw_hex(
                crate::protocol::rf_codec::rf_frame(
                    s.event.collar_id,
                    s.event.channel,
                    s.event.mode_byte,
                    s.event.intensity,
                ),
            )
            &&& crate::scheduling::asked_for(
                m,
                collars,
                shown.track_index as int,
                shown.step_index as int,
                s.event,
            )
        }),
{
    let m = preset_at_midpoint(p);
    let schedule = crate::scheduling::schedule(m, collars)->Ok_0;
    reveal(preview_event);
    lemma_preview_shows_schedule(p, collars);
    lemma_preview_events(m, schedule);
    crate::rf_timing::lemma_timing();
    assert forall|i: int| 0 <= i < m.tracks.len() implies (#[trigger] m.tracks[i]).steps.len()
        <= usize::MAX by {
        assert(p.tracks[i].steps.len() <= usize::MAX);
    }
    crate::scheduling::lemma_schedule_labels(m, collars, k);
    crate::scheduling::lemma_schedule_sound(m, collars, u64::MAX as int / 1000);
    let s = schedule[k];
    assert(crate::scheduling::sound_event(s, m.tracks.len() as int, u64::MAX as int / 1000));
    assert(previewed(p, collars)->Ok_0.events[k] == preview_event(m, s));
}

// ----- What is drawn, and from where -----

/// A value is drawn from a normal distribution exactly if it is a range and that distribution is
/// asked for; without a distribution it is drawn from the uniform one.
pub proof fn lemma_what_takes_samples(s: PresetStep)
    ensures
        samples_duration(s) <==> s.duration_max_ms is Some && s.duration_max_ms->0 > s.duration_ms
            && s.duration_distribution == Some(Distribution::Gaussian),
        samples_intensity(s) <==> s.intensity_max is Some && s.intensity_max->0 > s.intensity
            && s.intensity_distribution == Some(Distribution::Gaussian),
        distribution_of(None) == Distribution::Uniform,
        distribution_of(Some(Distribution::Gaussian)) == Distribution::Gaussian,
        distribution_of(Some(Distribution::Uniform)) == Distribution::Uniform,
{
}

/// A duration comes from a sample of half seconds between those of the two bounds, and an intensity
/// from a sample between its bounds; either is moved into its range.
pub proof fn lemma_values_from_samples(
    sample: Sample,
    low: u32,
    high: u32,
    r: u32,
    a: u8,
    b: u8,
    s: u8,
)
    requires
        low <= high,
        a <= b,
    ensures
        duration_from(sample, low, high, r) <==> {
            &&& sample.low == low / 500
            &&& sample.high == high / 500
            &&& r == 500 * (if sample.value < low / 500 {
                low as int / 500
            } else if sample.value > high / 500 {
                high as int / 500
            } else {
                sample.value as int
            })
        },
        intensity_from(sample, a, b, s) <==> {
            &&& sample.low == a
            &&& sample.high == b
            &&& s == if sample.value < a {
                a as int
            } else if sample.value > b {
                b as int
            } else {
                sample.value as int
            }
        },
{
    if r % 500 == 0 {
        assert(r == 500 * (r as int / 500));
    }
}

/// A step takes a sample for its duration, then one for its intensity, each where it is asked for.
pub proof fn lemma_samples_of_a_step(s: PresetStep, r: PresetStep, drawn: Seq<Sample>)
    requires
        step_sampled(s, r, drawn),
    ensures
        samples_duration(s) && samples_intensity(s) ==> drawn.len() == 2 && duration_from(
            drawn[0],
            s.duration_ms,
            s.duration_max_ms->0,
            r.duration_ms,
        ) && intensity_from(drawn[1], s.intensity, s.intensity_max->0, r.intensity),
        samples_duration(s) && !samples_intensity(s) ==> drawn.len() == 1 && duration_from(
            drawn[0],
            s.duration_ms,
            s.duration_max_ms->0,
            r.duration_ms,
        ),
        !samples_duration(s) && samples_intensity(s) ==> drawn.len() == 1 && intensity_from(
            drawn[0],
            s.intensity,
            s.intensity_max->0,
            r.intensity,
        ),
        !samples_duration(s) && !samples_intensity(s) ==> drawn.len() == 0,
{
}

/// Steps take their samples one after the other: those of a further step come after all before.
pub proof fn lemma_samples_of_steps(
    ss: Seq<PresetStep>,
    rs: Seq<PresetStep>,
    s: PresetStep,
    r: PresetStep,
    first: Seq<Sample>,
    then: Seq<Sample>,
)
    requires
        then.len() == step_samples(s),
    ensures
        steps_sampled(ss.push(s), rs.push(r), first + then) <==> steps_sampled(ss, rs, first)
            && step_sampled(s, r, then),
        steps_sampled(Seq::empty(), Seq::empty(), first) <==> first.len() == 0,
        steps_samples(ss.push(s)) == steps_samples(ss) + step_samples(s),
        steps_samples(Seq::empty()) == 0,
{
    assert(ss.push(s).drop_last() =~= ss);
    assert(rs.push(r).drop_last() =~= rs);
    assert((first + then).take(first.len() as int) =~= first);
    assert((first + then).skip(first.len() as int) =~= then);
}

/// Tracks take their samples one after the other: those of a further track come after all before.
pub proof fn lemma_samples_of_tracks(
    ts: Seq<TrackView>,
    rs: Seq<TrackView>,
    t: TrackView,
    r: TrackView,
    first: Seq<Sample>,
    then: Seq<Sample>,
)
    requires
        then.len() == steps_samples(t.steps),
    ensures
        tracks_sampled(ts.push(t), rs.push(r), first + then) <==> tracks_sampled(ts, rs, first)
            && steps_sampled(t.steps, r.steps, then),
        tracks_sampled(Seq::empty(), Seq::empty(), first) <==> first.len() == 0,
        tracks_samples(ts.push(t)) == tracks_samples(ts) + steps_samples(t.steps),
        tracks_samples(Seq::empty()) == 0,
{
    assert(ts.push(t).drop_last() =~= ts);
    assert(rs.push(r).drop_last() =~= rs);
    assert((first + then).take(first.len() as int) =~= first);
    assert((first + then).skip(first.len() as int) =~= then);
}

/// A preset without normal distributions leaves the source as it is; with them, a source that keeps
/// a record shows the samples of the run after those that it showed before.
pub proof fn lemma_source_of_a_run<G: GaussianSource>(
    before: G,
    after: G,
    p: PresetView,
    r: PresetView,
)
    requires
        preset_drawn_from(before, after, p, r),
    ensures
        (forall|i: int, j: int|
            0 <= i < p.tracks.len() && 0 <= j < p.tracks[i].steps.len() ==> !samples_duration(
                #[trigger] p.tracks[i].steps[j],
            ) && !samples_intensity(p.tracks[i].steps[j])) ==> after == before,
        before.keeps_record() ==> after.keeps_record() && exists|drawn: Seq<Sample>|
            after.samples() == before.samples() + drawn && #[trigger] tracks_sampled(
                p.tracks,
                r.tracks,
                drawn,
            ),
{
    if forall|i: int, j: int|
        0 <= i < p.tracks.len() && 0 <= j < p.tracks[i].steps.len() ==> !samples_duration(
            #[trigger] p.tracks[i].steps[j],
        ) && !samples_intensity(p.tracks[i].steps[j]) {
        lemma_no_samples_of_tracks(p.tracks);
    }
}

proof fn lemma_no_samples_of_steps(ss: Seq<PresetStep>)
    requires
        forall|j: int|
            0 <= j < ss.len() ==> !samples_duration(#[trigger] ss[j]) && !samples_intensity(ss[j]),
    ensures
        steps_samples(ss) == 0,
    decreases ss.len(),
{
    if ss.len() > 0 {
        assert(ss.last() == ss[ss.len() - 1]);
        lemma_no_samples_of_steps(ss.drop_last());
    }
}

proof fn lemma_no_samples_of_tracks(ts: Seq<TrackView>)
    requires
        forall|i: int, j: int|
            0 <= i < ts.len() && 0 <= j < ts[i].steps.len() ==> !samples_duration(
                #[trigger] ts[i].steps[j],
            ) && !samples_intensity(ts[i].steps[j]),
    ensures
        tracks_samples(ts) == 0,
    decreases ts.len(),
{
    if ts.len() > 0 {
        let last = ts[ts.len() - 1];
        let front = ts.drop_last();
        assert forall|j: int| 0 <= j < last.steps.len() implies !samples_duration(
            #[trigger] last.steps[j],
        ) && !samples_intensity(last.steps[j]) by {
            assert(ts[ts.len() - 1].steps[j] == last.steps[j]);
        }
        lemma_no_samples_of_steps(last.steps);
        assert forall|i: int, j: int| 0 <= i < front.len() && 0 <= j < front[i].steps.len() implies
        !samples_duration(#[trigger] front[i].steps[j]) && !samples_intensity(
            front[i].steps[j],
        ) by {
            assert(ts[i].steps[j] == front[i].steps[j]);
        }
        lemma_no_samples_of_tracks(front);
    }
}

/// A preset that the clock cannot count is told as too long, and a preview names the first
/// transmission that is too strong by its place.
pub proof fn lemma_why_there_is_no_preview(
    p: PresetView,
    collars: Seq<CollarView>,
    s: Seq<ScheduledPresetEvent>,
    last: ScheduledPresetEvent,
)
    ensures
        !crate::scheduling::fits(p, 0xffff_ffff_ffff_ffff) ==> planned(p, collars) == Err::<
            Seq<PresetEvent>,
            Seq<char>,
        >("Preset '"@ + p.name + "' is too long to schedule"@),
        preview_events(p, s) is Err ==> preview_events(p, s.push(last)) == preview_events(p, s),
        preview_events(p, s) is Ok && last.event.intensity > 99 ==> preview_events(p, s.push(last))
            == Err::<Seq<PresetPreviewEventView>, Seq<char>>(
            "Preset '"@ + p.name + "' track "@ + crate::text::decimal(last.track_index as nat)
                + " step "@ + crate::text::decimal(last.step_index as nat)
                + " has invalid intensity "@ + crate::text::decimal(last.event.intensity as nat),
        ),
        preview_events(p, s) is Ok && last.event.intensity <= 99 ==> preview_events(
            p,
            s.push(last),
        ) is Ok,
{
    assert(s.push(last).drop_last() =~= s);
}

/// A preview and its absence are told as they are.
pub proof fn lemma_preview_is_told_as_it_is(
    r: Result<PresetPreview, ScheduleError>,
    expected: Result<PresetPreviewView, Seq<char>>,
)
    requires
        preview_is(r, expected),
    ensures
        r is Ok <==> expected is Ok,
        r is Ok ==> r->Ok_0.deep_view() == expected->Ok_0,
        r is Err ==> r->Err_0@ == expected->Err_0,
{
}

} // verus!
