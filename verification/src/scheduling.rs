//! When to transmit what, so that a preset runs on one transmitter.

use vstd::multiset::Multiset;
use vstd::prelude::*;

use crate::protocol::model::{
    find_collar, Collar, CollarView, Preset, PresetStep, PresetTrack, PresetView, TrackView,
};
use crate::text::{push_decimal, push_text};
use crate::validation::{step_message, track_message};

verus! {

/// How long a command occupies the transmitter.
pub const RF_COMMAND_TRANSMIT_DURATION_MS: u64 = 130;

/// Maximum gap between command starts for sustained collar activation.
pub const RETRANSMIT_INTERVAL_MS: u64 = 200;

/// A single scheduled RF transmission event.
#[derive(Debug, Clone, Copy, PartialEq, Eq, Structural)]
pub struct PresetEvent {
    pub time_ms: u64,
    pub collar_id: u16,
    pub channel: u8,
    pub mode_byte: u8,
    pub intensity: u8,
}

/// Why a preset or a step cannot be scheduled.
#[derive(Debug)]
pub struct ScheduleError {
    pub message: String,
}

impl View for ScheduleError {
    type V = Seq<char>;

    open spec fn view(&self) -> Seq<char> {
        self.message@
    }
}

// ----- One step -----

/// The times at which a step that lasts from `start` to `end` transmits. Commands start 200 ms
/// apart; where at least 130 ms are left over after the last of them, one more ends with the step.
pub open spec fn step_times(start: int, end: int) -> Seq<int> {
    let spare = end - start - RF_COMMAND_TRANSMIT_DURATION_MS;
    if spare < 0 {
        Seq::empty()
    } else {
        let regular = Seq::new(
            (spare / RETRANSMIT_INTERVAL_MS as int + 1) as nat,
            |i: int| start + RETRANSMIT_INTERVAL_MS * i,
        );
        if spare % (RETRANSMIT_INTERVAL_MS as int) >= RF_COMMAND_TRANSMIT_DURATION_MS {
            regular.push(end - RF_COMMAND_TRANSMIT_DURATION_MS)
        } else {
            regular
        }
    }
}

/// Why a step that lasts from `start` to `end` cannot keep its collar active to its end.
pub open spec fn step_problem(start: int, end: int) -> Option<Seq<char>> {
    let spare = end - start - RF_COMMAND_TRANSMIT_DURATION_MS;
    let rest = spare % (RETRANSMIT_INTERVAL_MS as int);
    if start >= end {
        None
    } else if spare < 0 {
        Some(
            "step duration "@ + crate::text::decimal((end - start) as nat)
                + "ms is shorter than RF transmit time "@ + crate::text::decimal(
                RF_COMMAND_TRANSMIT_DURATION_MS as nat,
            ) + "ms"@,
        )
    } else if RETRANSMIT_INTERVAL_MS - RF_COMMAND_TRANSMIT_DURATION_MS < rest
        < RF_COMMAND_TRANSMIT_DURATION_MS {
        Some("step cannot be sustained without overlapping transmissions"@)
    } else {
        None
    }
}

/// One event for each time.
pub open spec fn events_at(
    times: Seq<int>,
    collar_id: u16,
    channel: u8,
    mode_byte: u8,
    intensity: u8,
) -> Seq<PresetEvent> {
    times.map_values(
        |t: int| PresetEvent { time_ms: t as u64, collar_id, channel, mode_byte, intensity },
    )
}

/// A step that can be scheduled transmits at its start, never starts two commands less than
/// 130 ms or more than 200 ms apart, and ends its last command within the step and at most 200 ms
/// after that command began.
pub proof fn lemma_step_sustained(start: int, end: int)
    requires
        start < end,
        step_problem(start, end) is None,
    ensures
        step_times(start, end).len() > 0,
        step_times(start, end)[0] == start,
        forall|i: int|
            #![trigger step_times(start, end)[i]]
            0 < i < step_times(start, end).len() ==> RF_COMMAND_TRANSMIT_DURATION_MS
                <= step_times(start, end)[i] - step_times(start, end)[i - 1]
                <= RETRANSMIT_INTERVAL_MS,
        step_times(start, end).last() + RF_COMMAND_TRANSMIT_DURATION_MS <= end,
        end <= step_times(start, end).last() + RETRANSMIT_INTERVAL_MS,
{
}

/// Whatever a step transmits, it transmits no earlier than its start and it is done by its end.
pub proof fn lemma_step_times_within(start: int, end: int, i: int)
    requires
        0 <= i < step_times(start, end).len(),
    ensures
        start <= step_times(start, end)[i],
        step_times(start, end)[i] + RF_COMMAND_TRANSMIT_DURATION_MS <= end,
{
}

/// Schedule RF retransmission events for a single preset step.
///
/// Transmits at step start, then schedules later retransmits as late as possible
/// while keeping no more than RETRANSMIT_INTERVAL_MS between command starts and
/// ensuring every transmission completes at or before step end.
pub fn schedule_step_events(
    events: &mut Vec<PresetEvent>,
    start_ms: u64,
    end_ms: u64,
    collar_id: u16,
    channel: u8,
    mode_byte: u8,
    intensity: u8,
) -> (r: Result<(), ScheduleError>)
    ensures
        final(events)@ == old(events)@ + events_at(
            step_times(start_ms as int, end_ms as int),
            collar_id,
            channel,
            mode_byte,
            intensity,
        ),
        match r {
            Ok(_) => step_problem(start_ms as int, end_ms as int) is None,
            Err(e) => step_problem(start_ms as int, end_ms as int) == Some(e@),
        },
{
    let ghost times = step_times(start_ms as int, end_ms as int);
    let ghost planned = events_at(times, collar_id, channel, mode_byte, intensity);
    if start_ms >= end_ms {
        assert(planned =~= Seq::empty());
        return Ok(());
    }
    let step_duration_ms: u64 = end_ms - start_ms;
    if step_duration_ms < RF_COMMAND_TRANSMIT_DURATION_MS {
        assert(planned =~= Seq::empty());
        let mut message = "step duration ".to_owned();
        push_decimal(&mut message, step_duration_ms);
        push_text(&mut message, "ms is shorter than RF transmit time ");
        push_decimal(&mut message, RF_COMMAND_TRANSMIT_DURATION_MS);
        push_text(&mut message, "ms");
        return Err(ScheduleError { message });
    }
    let ghost before = events@;
    let mut t: u64 = start_ms;
    let ghost mut i: int = 0;
    loop
        invariant
            start_ms < end_ms,
            end_ms - start_ms >= RF_COMMAND_TRANSMIT_DURATION_MS,
            times == step_times(start_ms as int, end_ms as int),
            planned == events_at(times, collar_id, channel, mode_byte, intensity),
            before == old(events)@,
            0 <= i < times.len(),
            t == times[i],
            start_ms <= t,
            t + RF_COMMAND_TRANSMIT_DURATION_MS <= end_ms,
            events@ =~= before + planned.take(i),
        decreases end_ms - t,
    {
        events.push(PresetEvent { time_ms: t, collar_id, channel, mode_byte, intensity });
        proof {
            assert(planned[i] == events@.last());
            assert(planned.take(i + 1) =~= planned.take(i).push(planned[i]));
        }
        if end_ms - t <= RETRANSMIT_INTERVAL_MS {
            assert(i + 1 == times.len());
            assert(planned.take(i + 1) =~= planned);
            return Ok(());
        }
        let next_earliest: u64 = t + RF_COMMAND_TRANSMIT_DURATION_MS;
        let sustained: u64 = t + RETRANSMIT_INTERVAL_MS;
        let last: u64 = end_ms - RF_COMMAND_TRANSMIT_DURATION_MS;
        let next_latest: u64 = if sustained <= last {
            sustained
        } else {
            last
        };
        if next_earliest > next_latest {
            assert(i + 1 == times.len());
            assert(planned.take(i + 1) =~= planned);
            return Err(
                ScheduleError {
                    message: "step cannot be sustained without overlapping transmissions".to_owned(),
                },
            );
        }
        t = next_latest;
        proof {
            i = i + 1;
        }
    }
}

// ----- A preset -----

/// A transmission, and the step that asks for it.
#[derive(Debug, Clone, Copy, PartialEq, Eq, Structural)]
pub struct ScheduledPresetEvent {
    pub event: PresetEvent,
    pub track_index: usize,
    pub step_index: usize,
}

/// How long a run of steps takes.
pub open spec fn total_ms(steps: Seq<PresetStep>) -> int
    decreases steps.len(),
{
    if steps.len() == 0 {
        0
    } else {
        total_ms(steps.drop_last()) + steps.last().duration_ms
    }
}

/// Whether no track of a preset takes longer than `limit`.
pub open spec fn fits(p: PresetView, limit: int) -> bool {
    forall|i: int| 0 <= i < p.tracks.len() ==> total_ms((#[trigger] p.tracks[i]).steps) <= limit
}

/// Events with the step that they belong to.
pub open spec fn labelled(
    events: Seq<PresetEvent>,
    track: int,
    step: int,
) -> Seq<ScheduledPresetEvent> {
    events.map_values(
        |e: PresetEvent|
            ScheduledPresetEvent {
                event: e,
                track_index: track as usize,
                step_index: step as usize,
            },
    )
}

/// The transmissions of a run of steps, one step after the other, or why there are none.
pub open spec fn steps_plan(
    preset: Seq<char>,
    track: int,
    collar: CollarView,
    steps: Seq<PresetStep>,
) -> Result<Seq<ScheduledPresetEvent>, Seq<char>>
    decreases steps.len(),
{
    if steps.len() == 0 {
        Ok(Seq::empty())
    } else {
        match steps_plan(preset, track, collar, steps.drop_last()) {
            Err(why) => Err(why),
            Ok(before) => {
                let step = steps.last();
                let start = total_ms(steps.drop_last());
                let end = start + step.duration_ms;
                match (step.mode.command(), step_problem(start, end)) {
                    (None, _) => Ok(before),
                    (Some(_), Some(why)) => Err(
                        crate::validation::at_step(preset, track as nat, (steps.len() - 1) as nat)
                            + " is unschedulable: "@ + why,
                    ),
                    (Some(mode), None) => Ok(
                        before + labelled(
                            events_at(
                                step_times(start, end),
                                collar.collar_id,
                                collar.channel,
                                mode.rf_byte(),
                                step.intensity,
                            ),
                            track,
                            steps.len() - 1,
                        ),
                    ),
                }
            },
        }
    }
}

/// The transmissions of a run of tracks, one track after the other, or why there are none.
pub open spec fn tracks_plan(
    preset: Seq<char>,
    tracks: Seq<TrackView>,
    collars: Seq<CollarView>,
) -> Result<Seq<ScheduledPresetEvent>, Seq<char>>
    decreases tracks.len(),
{
    if tracks.len() == 0 {
        Ok(Seq::empty())
    } else {
        let track = tracks.last();
        let index = tracks.len() - 1;
        match tracks_plan(preset, tracks.drop_last(), collars) {
            Err(why) => Err(why),
            Ok(before) => match crate::protocol::model::position(
                crate::protocol::model::collar_names(collars),
                track.collar_name,
            ) {
                None => Err(
                    crate::validation::at_track(preset, index as nat)
                        + " references unknown collar '"@ + track.collar_name + "'"@,
                ),
                Some(i) => match steps_plan(preset, index, collars[i], track.steps) {
                    Err(why) => Err(why),
                    Ok(events) => Ok(before + events),
                },
            },
        }
    }
}

/// `s` with `e` behind everything that is not later than it.
pub open spec fn insert_by_time(
    s: Seq<ScheduledPresetEvent>,
    e: ScheduledPresetEvent,
) -> Seq<ScheduledPresetEvent>
    decreases s.len(),
{
    if s.len() == 0 || s.last().event.time_ms <= e.event.time_ms {
        s.push(e)
    } else {
        insert_by_time(s.drop_last(), e).push(s.last())
    }
}

/// `s` in order of time; what is at the same time stays in the order it had.
pub open spec fn by_time(s: Seq<ScheduledPresetEvent>) -> Seq<ScheduledPresetEvent>
    decreases s.len(),
{
    if s.len() == 0 {
        s
    } else {
        insert_by_time(by_time(s.drop_last()), s.last())
    }
}

/// Whether no event of `s` is earlier than one before it.
pub open spec fn in_order(s: Seq<ScheduledPresetEvent>) -> bool {
    forall|i: int, j: int|
        0 <= i <= j < s.len() ==> (#[trigger] s[i]).event.time_ms <= (#[trigger] s[j]).event.time_ms
}

/// The first two transmissions that would overlap, in words.
pub open spec fn overlap_problem(
    preset: Seq<char>,
    s: Seq<ScheduledPresetEvent>,
) -> Option<Seq<char>>
    decreases s.len(),
{
    if s.len() < 2 {
        None
    } else {
        let before = overlap_problem(preset, s.drop_last());
        let previous = s[s.len() - 2];
        let next = s.last();
        if before is Some {
            before
        } else if next.event.time_ms < previous.event.time_ms + RF_COMMAND_TRANSMIT_DURATION_MS {
            Some(
                "Preset '"@ + preset
                    + "' cannot overlap RF transmissions on a single transmitter: track "@
                    + crate::text::decimal(next.track_index as nat) + " step "@
                    + crate::text::decimal(next.step_index as nat) + " starts at "@
                    + crate::text::decimal(next.event.time_ms as nat) + "ms before track "@
                    + crate::text::decimal(previous.track_index as nat) + " step "@
                    + crate::text::decimal(previous.step_index as nat) + " ends at "@
                    + crate::text::decimal(
                    (previous.event.time_ms + RF_COMMAND_TRANSMIT_DURATION_MS) as nat,
                ) + "ms"@,
            )
        } else {
            None
        }
    }
}

/// The transmissions of a preset in order of time, or why it cannot be scheduled.
pub open spec fn schedule(p: PresetView, collars: Seq<CollarView>) -> Result<
    Seq<ScheduledPresetEvent>,
    Seq<char>,
> {
    match tracks_plan(p.name, p.tracks, collars) {
        Err(why) => Err(why),
        Ok(plan) => match overlap_problem(p.name, by_time(plan)) {
            Some(why) => Err(why),
            None => Ok(by_time(plan)),
        },
    }
}

// ----- Laws -----

proof fn lemma_insert_by_time(s: Seq<ScheduledPresetEvent>, e: ScheduledPresetEvent)
    requires
        in_order(s),
    ensures
        insert_by_time(s, e).len() == s.len() + 1,
        in_order(insert_by_time(s, e)),
        insert_by_time(s, e).to_multiset() == s.to_multiset().insert(e),
        forall|i: int|
            0 <= i < insert_by_time(s, e).len() ==> (#[trigger] insert_by_time(
                s,
                e,
            )[i]).event.time_ms <= if s.len() == 0 || s.last().event.time_ms <= e.event.time_ms {
                e.event.time_ms
            } else {
                s.last().event.time_ms
            },
    decreases s.len(),
{
    broadcast use vstd::seq_lib::group_to_multiset_ensures;

    if s.len() == 0 || s.last().event.time_ms <= e.event.time_ms {
        assert(s.push(e).to_multiset() =~= s.to_multiset().insert(e));
    } else {
        let front = s.drop_last();
        assert(in_order(front)) by {
            assert forall|i: int, j: int| 0 <= i <= j < front.len() implies (
            #[trigger] front[i]).event.time_ms <= (#[trigger] front[j]).event.time_ms by {
                assert(s[i].event.time_ms <= s[j].event.time_ms);
            }
        }
        lemma_insert_by_time(front, e);
        let r = insert_by_time(front, e);
        if front.len() > 0 {
            assert(front.last() == s[s.len() - 2]);
            assert(s[s.len() - 2].event.time_ms <= s[s.len() - 1].event.time_ms);
        }
        assert(front.push(s.last()) =~= s);
        assert(r.push(s.last()).to_multiset() =~= s.to_multiset().insert(e));
        assert forall|i: int, j: int| 0 <= i <= j < r.push(s.last()).len() implies (
        #[trigger] r.push(s.last())[i]).event.time_ms <= (#[trigger] r.push(
            s.last(),
        )[j]).event.time_ms by {
            if j < r.len() {
                assert(r[i].event.time_ms <= r[j].event.time_ms);
            } else if i < r.len() {
                assert(r[i] == r.push(s.last())[i]);
            }
        }
    }
}

/// Putting events in order of time keeps every event, as often as it occurs.
pub proof fn lemma_by_time_orders(s: Seq<ScheduledPresetEvent>)
    ensures
        in_order(by_time(s)),
        by_time(s).len() == s.len(),
        by_time(s).to_multiset() == s.to_multiset(),
    decreases s.len(),
{
    broadcast use vstd::seq_lib::group_to_multiset_ensures;

    if s.len() > 0 {
        lemma_by_time_orders(s.drop_last());
        lemma_insert_by_time(by_time(s.drop_last()), s.last());
        assert(s.drop_last().push(s.last()) =~= s);
    }
}

/// The events of `s` at time `t`, in the order they have in `s`.
pub open spec fn at_time(s: Seq<ScheduledPresetEvent>, t: u64) -> Seq<ScheduledPresetEvent>
    decreases s.len(),
{
    if s.len() == 0 {
        s
    } else if s.last().event.time_ms == t {
        at_time(s.drop_last(), t).push(s.last())
    } else {
        at_time(s.drop_last(), t)
    }
}

proof fn lemma_at_time_after_insert(
    s: Seq<ScheduledPresetEvent>,
    e: ScheduledPresetEvent,
    t: u64,
)
    requires
        in_order(s),
    ensures
        at_time(insert_by_time(s, e), t) == if e.event.time_ms == t {
            at_time(s, t).push(e)
        } else {
            at_time(s, t)
        },
    decreases s.len(),
{
    let r = insert_by_time(s, e);
    if s.len() == 0 || s.last().event.time_ms <= e.event.time_ms {
        assert(s.push(e).drop_last() =~= s);
    } else {
        let front = s.drop_last();
        assert(in_order(front)) by {
            assert forall|i: int, j: int| 0 <= i <= j < front.len() implies (
            #[trigger] front[i]).event.time_ms <= (#[trigger] front[j]).event.time_ms by {
                assert(s[i].event.time_ms <= s[j].event.time_ms);
            }
        }
        lemma_at_time_after_insert(front, e, t);
        assert(r.drop_last() =~= insert_by_time(front, e));
        if s.last().event.time_ms == t {
            assert(e.event.time_ms != t);
        }
    }
}

/// Events at the same time keep the order that they had.
pub proof fn lemma_by_time_is_stable(s: Seq<ScheduledPresetEvent>, t: u64)
    ensures
        at_time(by_time(s), t) == at_time(s, t),
    decreases s.len(),
{
    if s.len() > 0 {
        lemma_by_time_is_stable(s.drop_last(), t);
        lemma_by_time_orders(s.drop_last());
        lemma_at_time_after_insert(by_time(s.drop_last()), s.last(), t);
    }
}

/// Whether every transmission of `s` is over before the next begins.
pub open spec fn no_overlap(s: Seq<ScheduledPresetEvent>) -> bool {
    forall|i: int, j: int|
        0 <= i < j < s.len() ==> (#[trigger] s[i]).event.time_ms + RF_COMMAND_TRANSMIT_DURATION_MS
            <= (#[trigger] s[j]).event.time_ms
}

/// No overlap is reported exactly when there is none.
pub proof fn lemma_overlap_problem(preset: Seq<char>, s: Seq<ScheduledPresetEvent>)
    ensures
        overlap_problem(preset, s) is None <==> no_overlap(s),
    decreases s.len(),
{
    if s.len() >= 2 {
        let front = s.drop_last();
        lemma_overlap_problem(preset, front);
        if no_overlap(s) {
            assert forall|i: int, j: int| 0 <= i < j < front.len() implies (
            #[trigger] front[i]).event.time_ms + RF_COMMAND_TRANSMIT_DURATION_MS <= (
            #[trigger] front[j]).event.time_ms by {
                assert(front[i] == s[i] && front[j] == s[j]);
            }
            assert(s[s.len() - 2].event.time_ms + RF_COMMAND_TRANSMIT_DURATION_MS <= s[s.len()
                - 1].event.time_ms);
        }
        if overlap_problem(preset, s) is None {
            assert forall|i: int, j: int| 0 <= i < j < s.len() implies (
            #[trigger] s[i]).event.time_ms + RF_COMMAND_TRANSMIT_DURATION_MS <= (
            #[trigger] s[j]).event.time_ms by {
                if j < front.len() {
                    assert(front[i] == s[i] && front[j] == s[j]);
                } else if i < s.len() - 2 {
                    assert(front[i] == s[i] && front[s.len() - 2] == s[s.len() - 2]);
                }
            }
        }
    }
}

/// A schedule holds every transmission that the tracks of the preset ask for and no other, in
/// order of time, and no two of them overlap.
pub proof fn lemma_schedule(p: PresetView, collars: Seq<CollarView>)
    requires
        schedule(p, collars) is Ok,
    ensures
        tracks_plan(p.name, p.tracks, collars) is Ok,
        schedule(p, collars)->Ok_0.to_multiset() == tracks_plan(
            p.name,
            p.tracks,
            collars,
        )->Ok_0.to_multiset(),
        in_order(schedule(p, collars)->Ok_0),
        no_overlap(schedule(p, collars)->Ok_0),
{
    let plan = tracks_plan(p.name, p.tracks, collars)->Ok_0;
    lemma_by_time_orders(plan);
    lemma_overlap_problem(p.name, by_time(plan));
}

// ----- Planning -----

proof fn lemma_total_grows(steps: Seq<PresetStep>, i: int)
    requires
        0 <= i <= steps.len(),
    ensures
        0 <= total_ms(steps.take(i)) <= total_ms(steps),
    decreases steps.len(),
{
    if i < steps.len() {
        lemma_total_grows(steps.drop_last(), i);
        assert(steps.drop_last().take(i) =~= steps.take(i));
    } else {
        assert(steps.take(i) =~= steps);
        if steps.len() > 0 {
            lemma_total_grows(steps.drop_last(), i - 1);
        }
    }
}

/// A failure that shows in a front part of the steps is the failure of the steps.
proof fn lemma_steps_plan_first(
    preset: Seq<char>,
    track: int,
    collar: CollarView,
    steps: Seq<PresetStep>,
    i: int,
)
    requires
        0 <= i <= steps.len(),
    ensures
        steps_plan(preset, track, collar, steps.take(i)) is Err ==> steps_plan(
            preset,
            track,
            collar,
            steps,
        ) == steps_plan(preset, track, collar, steps.take(i)),
    decreases steps.len(),
{
    if i == steps.len() {
        assert(steps.take(i) =~= steps);
    } else {
        lemma_steps_plan_first(preset, track, collar, steps.drop_last(), i);
        assert(steps.drop_last().take(i) =~= steps.take(i));
    }
}

/// A failure that shows in a front part of the tracks is the failure of the tracks.
proof fn lemma_tracks_plan_first(
    preset: Seq<char>,
    tracks: Seq<TrackView>,
    collars: Seq<CollarView>,
    i: int,
)
    requires
        0 <= i <= tracks.len(),
    ensures
        tracks_plan(preset, tracks.take(i), collars) is Err ==> tracks_plan(
            preset,
            tracks,
            collars,
        ) == tracks_plan(preset, tracks.take(i), collars),
    decreases tracks.len(),
{
    if i == tracks.len() {
        assert(tracks.take(i) =~= tracks);
    } else {
        lemma_tracks_plan_first(preset, tracks.drop_last(), collars, i);
        assert(tracks.drop_last().take(i) =~= tracks.take(i));
    }
}

/// An overlap that shows in a front part is the overlap that is reported.
proof fn lemma_overlap_first(preset: Seq<char>, s: Seq<ScheduledPresetEvent>, i: int)
    requires
        0 <= i <= s.len(),
    ensures
        overlap_problem(preset, s.take(i)) is Some ==> overlap_problem(preset, s)
            == overlap_problem(preset, s.take(i)),
    decreases s.len(),
{
    if i == s.len() {
        assert(s.take(i) =~= s);
    } else {
        lemma_overlap_first(preset, s.drop_last(), i);
        assert(s.drop_last().take(i) =~= s.take(i));
    }
}

/// Whether a transmission belongs to a track, sends a command, and is over by `limit`.
pub open spec fn sound_event(e: ScheduledPresetEvent, tracks: int, limit: int) -> bool {
    &&& e.track_index < tracks
    &&& crate::protocol::model::CommandMode::of_rf_byte(e.event.mode_byte) is Some
    &&& e.event.time_ms + RF_COMMAND_TRANSMIT_DURATION_MS <= limit
}

/// Every transmission of a run of steps is over when the steps are.
proof fn lemma_steps_plan_sound(
    preset: Seq<char>,
    track: int,
    collar: CollarView,
    steps: Seq<PresetStep>,
)
    requires
        total_ms(steps) <= u64::MAX,
        0 <= track < usize::MAX,
    ensures
        steps_plan(preset, track, collar, steps) matches Ok(plan) ==> forall|i: int|
            0 <= i < plan.len() ==> sound_event(#[trigger] plan[i], track + 1, total_ms(steps)),
    decreases steps.len(),
{
    if steps.len() > 0 {
        let front = steps.drop_last();
        lemma_total_grows(steps, steps.len() - 1);
        assert(steps.take(steps.len() - 1) =~= front);
        lemma_steps_plan_sound(preset, track, collar, front);
        lemma_total_grows(front, front.len() as int);
        assert(front.take(front.len() as int) =~= front);
        if steps_plan(preset, track, collar, steps) is Ok {
            let plan = steps_plan(preset, track, collar, steps)->Ok_0;
            let before = steps_plan(preset, track, collar, front)->Ok_0;
            let start = total_ms(front);
            let end = total_ms(steps);
            assert forall|i: int| 0 <= i < plan.len() implies sound_event(
                #[trigger] plan[i],
                track + 1,
                total_ms(steps),
            ) by {
                if i < before.len() {
                    assert(plan[i] == before[i]);
                    assert(sound_event(before[i], track + 1, total_ms(front)));
                } else {
                    lemma_step_times_within(start, end, i - before.len());
                }
            }
        }
    }
}

/// Every transmission of a preset belongs to one of its tracks, sends a command, and is over by
/// any time by which all tracks are.
pub proof fn lemma_tracks_plan_sound(
    preset: Seq<char>,
    tracks: Seq<TrackView>,
    collars: Seq<CollarView>,
    limit: int,
)
    requires
        forall|i: int| 0 <= i < tracks.len() ==> total_ms((#[trigger] tracks[i]).steps) <= limit,
        limit <= u64::MAX,
        tracks.len() <= usize::MAX,
    ensures
        tracks_plan(preset, tracks, collars) matches Ok(plan) ==> forall|i: int|
            0 <= i < plan.len() ==> sound_event(#[trigger] plan[i], tracks.len() as int, limit),
    decreases tracks.len(),
{
    if tracks.len() > 0 {
        let front = tracks.drop_last();
        assert forall|i: int| 0 <= i < front.len() implies total_ms((#[trigger] front[i]).steps)
            <= limit by {
            assert(front[i] == tracks[i]);
        }
        lemma_tracks_plan_sound(preset, front, collars, limit);
        if tracks_plan(preset, tracks, collars) is Ok {
            let track = tracks[tracks.len() - 1];
            let at = crate::protocol::model::position(
                crate::protocol::model::collar_names(collars),
                track.collar_name,
            )->0;
            lemma_steps_plan_sound(preset, tracks.len() - 1, collars[at], track.steps);
            let plan = tracks_plan(preset, tracks, collars)->Ok_0;
            let before = tracks_plan(preset, front, collars)->Ok_0;
            let own = steps_plan(preset, tracks.len() - 1, collars[at], track.steps)->Ok_0;
            assert forall|i: int| 0 <= i < plan.len() implies sound_event(
                #[trigger] plan[i],
                tracks.len() as int,
                limit,
            ) by {
                if i < before.len() {
                    assert(plan[i] == before[i]);
                    assert(sound_event(before[i], front.len() as int, limit));
                } else {
                    assert(plan[i] == own[i - before.len()]);
                    assert(sound_event(
                        own[i - before.len()],
                        tracks.len() as int,
                        total_ms(track.steps),
                    ));
                }
            }
        }
    }
}

/// What holds of every transmission that the tracks of a preset ask for holds of its schedule.
pub proof fn lemma_schedule_sound(p: PresetView, collars: Seq<CollarView>, limit: int)
    requires
        fits(p, limit),
        limit <= u64::MAX,
        p.tracks.len() <= usize::MAX,
        tracks_plan(p.name, p.tracks, collars) is Ok,
    ensures
        ({
            let s = by_time(tracks_plan(p.name, p.tracks, collars)->Ok_0);
            forall|i: int|
                0 <= i < s.len() ==> sound_event(#[trigger] s[i], p.tracks.len() as int, limit)
        }),
{
    broadcast use vstd::seq_lib::group_to_multiset_ensures;

    let plan = tracks_plan(p.name, p.tracks, collars)->Ok_0;
    let s = by_time(plan);
    lemma_tracks_plan_sound(p.name, p.tracks, collars, limit);
    lemma_by_time_orders(plan);
    assert forall|i: int| 0 <= i < s.len() implies sound_event(
        #[trigger] s[i],
        p.tracks.len() as int,
        limit,
    ) by {
        assert(s.to_multiset().count(s[i]) > 0);
        assert(plan.contains(s[i]));
        let k = choose|k: int| 0 <= k < plan.len() && plan[k] == s[i];
        assert(sound_event(plan[k], p.tracks.len() as int, limit));
    }
}

proof fn lemma_steps_plan_strength(
    preset: Seq<char>,
    track: int,
    collar: CollarView,
    steps: Seq<PresetStep>,
    limit: u8,
)
    requires
        forall|j: int|
            0 <= j < steps.len() && (#[trigger] steps[j]).mode.command() is Some
                ==> steps[j].intensity <= limit,
    ensures
        steps_plan(preset, track, collar, steps) matches Ok(plan) ==> forall|i: int|
            0 <= i < plan.len() ==> (#[trigger] plan[i]).event.intensity <= limit,
    decreases steps.len(),
{
    if steps.len() > 0 {
        let front = steps.drop_last();
        assert forall|j: int|
            0 <= j < front.len() && (#[trigger] front[j]).mode.command() is Some implies
        front[j].intensity <= limit by {
            assert(front[j] == steps[j]);
        }
        lemma_steps_plan_strength(preset, track, collar, front, limit);
        assert(steps.last() == steps[steps.len() - 1]);
        if steps_plan(preset, track, collar, steps) is Ok {
            let plan = steps_plan(preset, track, collar, steps)->Ok_0;
            let before = steps_plan(preset, track, collar, front)->Ok_0;
            assert forall|i: int| 0 <= i < plan.len() implies (#[trigger] plan[i]).event.intensity
                <= limit by {
                if i < before.len() {
                    assert(plan[i] == before[i]);
                }
            }
        }
    }
}

proof fn lemma_tracks_plan_strength(
    preset: Seq<char>,
    tracks: Seq<TrackView>,
    collars: Seq<CollarView>,
    limit: u8,
)
    requires
        forall|i: int, j: int|
            0 <= i < tracks.len() && 0 <= j < tracks[i].steps.len() && (
            #[trigger] tracks[i].steps[j]).mode.command() is Some ==> tracks[i].steps[j].intensity
                <= limit,
    ensures
        tracks_plan(preset, tracks, collars) matches Ok(plan) ==> forall|i: int|
            0 <= i < plan.len() ==> (#[trigger] plan[i]).event.intensity <= limit,
    decreases tracks.len(),
{
    if tracks.len() > 0 {
        let front = tracks.drop_last();
        assert forall|i: int, j: int|
            0 <= i < front.len() && 0 <= j < front[i].steps.len() && (
            #[trigger] front[i].steps[j]).mode.command() is Some implies front[i].steps[j].intensity
            <= limit by {
            assert(front[i] == tracks[i]);
            assert(tracks[i].steps[j].mode.command() is Some);
        }
        lemma_tracks_plan_strength(preset, front, collars, limit);
        if tracks_plan(preset, tracks, collars) is Ok {
            let last = tracks.len() - 1;
            let track = tracks[last];
            let at = crate::protocol::model::position(
                crate::protocol::model::collar_names(collars),
                track.collar_name,
            )->0;
            assert forall|j: int|
                0 <= j < track.steps.len() && (#[trigger] track.steps[j]).mode.command() is Some
                implies track.steps[j].intensity <= limit by {
                assert(tracks[last].steps[j].mode.command() is Some);
            }
            lemma_steps_plan_strength(preset, last, collars[at], track.steps, limit);
            let plan = tracks_plan(preset, tracks, collars)->Ok_0;
            let before = tracks_plan(preset, front, collars)->Ok_0;
            let own = steps_plan(preset, last, collars[at], track.steps)->Ok_0;
            assert forall|i: int| 0 <= i < plan.len() implies (#[trigger] plan[i]).event.intensity
                <= limit by {
                if i < before.len() {
                    assert(plan[i] == before[i]);
                } else {
                    assert(plan[i] == own[i - before.len()]);
                }
            }
        }
    }
}

/// No transmission of a schedule is stronger than the strongest step that sends a command.
pub proof fn lemma_schedule_strength(p: PresetView, collars: Seq<CollarView>, limit: u8)
    requires
        schedule(p, collars) is Ok,
        forall|i: int, j: int|
            0 <= i < p.tracks.len() && 0 <= j < p.tracks[i].steps.len() && (
            #[trigger] p.tracks[i].steps[j]).mode.command() is Some
                ==> p.tracks[i].steps[j].intensity <= limit,
    ensures
        forall|i: int|
            0 <= i < schedule(p, collars)->Ok_0.len() ==> (#[trigger] schedule(
                p,
                collars,
            )->Ok_0[i]).event.intensity <= limit,
{
    broadcast use vstd::seq_lib::group_to_multiset_ensures;

    let plan = tracks_plan(p.name, p.tracks, collars)->Ok_0;
    let s = schedule(p, collars)->Ok_0;
    lemma_tracks_plan_strength(p.name, p.tracks, collars, limit);
    lemma_schedule(p, collars);
    assert forall|i: int| 0 <= i < s.len() implies (#[trigger] s[i]).event.intensity
        <= limit by {
        assert(s.to_multiset().count(s[i]) > 0);
        assert(plan.contains(s[i]));
        let k = choose|k: int| 0 <= k < plan.len() && plan[k] == s[i];
        assert(plan[k].event.intensity <= limit);
    }
}

// ----- What a schedule is made of -----

/// The transmissions of a schedule, without the steps that ask for them.
pub open spec fn transmissions(s: Seq<ScheduledPresetEvent>) -> Seq<PresetEvent> {
    s.map_values(|e: ScheduledPresetEvent| e.event)
}

/// The first collar that has the name of a track.
pub open spec fn collar_of(track: TrackView, collars: Seq<CollarView>) -> CollarView {
    collars[crate::protocol::model::position(
        crate::protocol::model::collar_names(collars),
        track.collar_name,
    )->0]
}

/// What one step transmits: it begins when the steps before it are over; a pause transmits
/// nothing.
pub open spec fn step_events(
    steps: Seq<PresetStep>,
    collar: CollarView,
    j: int,
) -> Seq<PresetEvent> {
    let start = total_ms(steps.take(j));
    match steps[j].mode.command() {
        None => Seq::empty(),
        Some(mode) => events_at(
            step_times(start, start + steps[j].duration_ms),
            collar.collar_id,
            collar.channel,
            mode.rf_byte(),
            steps[j].intensity,
        ),
    }
}

/// What the first `n` steps of a track transmit, each step on its own.
pub open spec fn all_of_steps(
    steps: Seq<PresetStep>,
    collar: CollarView,
    n: int,
) -> Multiset<PresetEvent>
    decreases n,
{
    if n <= 0 {
        Multiset::empty()
    } else {
        all_of_steps(steps, collar, n - 1).add(step_events(steps, collar, n - 1).to_multiset())
    }
}

/// What the first `n` tracks transmit, each step on its own.
pub open spec fn all_of_tracks(
    tracks: Seq<TrackView>,
    collars: Seq<CollarView>,
    n: int,
) -> Multiset<PresetEvent>
    decreases n,
{
    if n <= 0 {
        Multiset::empty()
    } else {
        all_of_tracks(tracks, collars, n - 1).add(
            all_of_steps(
                tracks[n - 1].steps,
                collar_of(tracks[n - 1], collars),
                tracks[n - 1].steps.len() as int,
            ),
        )
    }
}

proof fn lemma_transmissions_joined(a: Seq<ScheduledPresetEvent>, b: Seq<ScheduledPresetEvent>)
    ensures
        transmissions(a + b).to_multiset() == transmissions(a).to_multiset().add(
            transmissions(b).to_multiset(),
        ),
{
    assert(transmissions(a + b) =~= transmissions(a) + transmissions(b));
    vstd::seq_lib::lemma_multiset_commutative(transmissions(a), transmissions(b));
}

proof fn lemma_transmissions_inserted(s: Seq<ScheduledPresetEvent>, e: ScheduledPresetEvent)
    ensures
        transmissions(insert_by_time(s, e)).to_multiset() == transmissions(s).to_multiset().insert(
            e.event,
        ),
    decreases s.len(),
{
    broadcast use vstd::seq_lib::group_to_multiset_ensures;

    if s.len() == 0 || s.last().event.time_ms <= e.event.time_ms {
        assert(transmissions(s.push(e)) =~= transmissions(s).push(e.event));
    } else {
        let front = s.drop_last();
        lemma_transmissions_inserted(front, e);
        assert(transmissions(insert_by_time(front, e).push(s.last())) =~= transmissions(
            insert_by_time(front, e),
        ).push(s.last().event));
        assert(transmissions(s) =~= transmissions(front).push(s.last().event));
        assert(transmissions(insert_by_time(s, e)).to_multiset() =~= transmissions(
            s,
        ).to_multiset().insert(e.event));
    }
}

proof fn lemma_transmissions_by_time(s: Seq<ScheduledPresetEvent>)
    ensures
        transmissions(by_time(s)).to_multiset() == transmissions(s).to_multiset(),
    decreases s.len(),
{
    broadcast use vstd::seq_lib::group_to_multiset_ensures;

    if s.len() > 0 {
        lemma_transmissions_by_time(s.drop_last());
        lemma_transmissions_inserted(by_time(s.drop_last()), s.last());
        assert(transmissions(s) =~= transmissions(s.drop_last()).push(s.last().event));
    }
}

proof fn lemma_steps_plan_is_all(
    preset: Seq<char>,
    track: int,
    collar: CollarView,
    steps: Seq<PresetStep>,
    n: int,
)
    requires
        0 <= n <= steps.len(),
        steps_plan(preset, track, collar, steps.take(n)) is Ok,
    ensures
        transmissions(steps_plan(preset, track, collar, steps.take(n))->Ok_0).to_multiset()
            == all_of_steps(steps, collar, n),
    decreases n,
{
    broadcast use vstd::seq_lib::group_to_multiset_ensures;

    let plan = steps_plan(preset, track, collar, steps.take(n))->Ok_0;
    if n == 0 {
        assert(transmissions(plan) =~= Seq::empty());
        assert(transmissions(plan).to_multiset() =~= Multiset::empty());
    } else {
        let front = steps.take(n - 1);
        assert(steps.take(n).drop_last() =~= front);
        assert(steps.take(n).last() == steps[n - 1]);
        lemma_steps_plan_is_all(preset, track, collar, steps, n - 1);
        let before = steps_plan(preset, track, collar, front)->Ok_0;
        let own = step_events(steps, collar, n - 1);
        if steps[n - 1].mode.command() is None {
            assert(own.to_multiset() =~= Multiset::empty());
            assert(all_of_steps(steps, collar, n) =~= all_of_steps(steps, collar, n - 1));
        } else {
            let tagged = labelled(own, track, n - 1);
            assert(plan == before + tagged);
            assert(transmissions(tagged) =~= own);
            lemma_transmissions_joined(before, tagged);
        }
    }
}

proof fn lemma_tracks_plan_is_all(
    preset: Seq<char>,
    tracks: Seq<TrackView>,
    collars: Seq<CollarView>,
    n: int,
)
    requires
        0 <= n <= tracks.len(),
        tracks_plan(preset, tracks.take(n), collars) is Ok,
    ensures
        transmissions(tracks_plan(preset, tracks.take(n), collars)->Ok_0).to_multiset()
            == all_of_tracks(tracks, collars, n),
    decreases n,
{
    broadcast use vstd::seq_lib::group_to_multiset_ensures;

    let plan = tracks_plan(preset, tracks.take(n), collars)->Ok_0;
    if n == 0 {
        assert(transmissions(plan) =~= Seq::empty());
        assert(transmissions(plan).to_multiset() =~= Multiset::empty());
    } else {
        let front = tracks.take(n - 1);
        let track = tracks[n - 1];
        assert(tracks.take(n).drop_last() =~= front);
        assert(tracks.take(n).last() == track);
        lemma_tracks_plan_is_all(preset, tracks, collars, n - 1);
        let before = tracks_plan(preset, front, collars)->Ok_0;
        let collar = collar_of(track, collars);
        let own = steps_plan(preset, n - 1, collar, track.steps)->Ok_0;
        assert(track.steps.take(track.steps.len() as int) =~= track.steps);
        lemma_steps_plan_is_all(preset, n - 1, collar, track.steps, track.steps.len() as int);
        assert(plan == before + own);
        lemma_transmissions_joined(before, own);
    }
}

/// A schedule holds exactly what the steps of the preset transmit, each on its own: every step
/// begins when the steps before it in its track are over, pauses among them, and sends to the
/// first collar with the name of its track. Nothing is lost and nothing is added.
pub proof fn lemma_schedule_is_all_steps(p: PresetView, collars: Seq<CollarView>)
    requires
        schedule(p, collars) is Ok,
    ensures
        transmissions(schedule(p, collars)->Ok_0).to_multiset() == all_of_tracks(
            p.tracks,
            collars,
            p.tracks.len() as int,
        ),
{
    assert(p.tracks.take(p.tracks.len() as int) =~= p.tracks);
    lemma_tracks_plan_is_all(p.name, p.tracks, collars, p.tracks.len() as int);
    lemma_transmissions_by_time(tracks_plan(p.name, p.tracks, collars)->Ok_0);
}

/// Whether a transmission is one of a step.
pub open spec fn sent_by(
    tracks: Seq<TrackView>,
    collars: Seq<CollarView>,
    i: int,
    j: int,
    e: PresetEvent,
) -> bool {
    &&& 0 <= i < tracks.len()
    &&& 0 <= j < tracks[i].steps.len()
    &&& step_events(tracks[i].steps, collar_of(tracks[i], collars), j).contains(e)
}

proof fn lemma_of_some_step(steps: Seq<PresetStep>, collar: CollarView, n: int, e: PresetEvent)
    requires
        0 <= n <= steps.len(),
        all_of_steps(steps, collar, n).count(e) > 0,
    ensures
        exists|j: int| 0 <= j < n && #[trigger] step_events(steps, collar, j).contains(e),
    decreases n,
{
    broadcast use vstd::seq_lib::group_to_multiset_ensures;

    if step_events(steps, collar, n - 1).to_multiset().count(e) > 0 {
        assert(step_events(steps, collar, n - 1).contains(e));
    } else {
        lemma_of_some_step(steps, collar, n - 1, e);
    }
}

proof fn lemma_of_some_track(
    tracks: Seq<TrackView>,
    collars: Seq<CollarView>,
    n: int,
    e: PresetEvent,
)
    requires
        0 <= n <= tracks.len(),
        all_of_tracks(tracks, collars, n).count(e) > 0,
    ensures
        exists|i: int, j: int| #[trigger] sent_by(tracks, collars, i, j, e),
    decreases n,
{
    let track = tracks[n - 1];
    let collar = collar_of(track, collars);
    if all_of_steps(track.steps, collar, track.steps.len() as int).count(e) > 0 {
        lemma_of_some_step(track.steps, collar, track.steps.len() as int, e);
        let j = choose|j: int|
            0 <= j < track.steps.len() && #[trigger] step_events(track.steps, collar, j).contains(
                e,
            );
        assert(sent_by(tracks, collars, n - 1, j, e));
    } else {
        lemma_of_some_track(tracks, collars, n - 1, e);
    }
}

proof fn lemma_step_is_among(steps: Seq<PresetStep>, collar: CollarView, n: int, j: int)
    requires
        0 <= j < n <= steps.len(),
    ensures
        step_events(steps, collar, j).to_multiset().subset_of(all_of_steps(steps, collar, n)),
    decreases n,
{
    if j < n - 1 {
        lemma_step_is_among(steps, collar, n - 1, j);
    }
}

proof fn lemma_track_is_among(tracks: Seq<TrackView>, collars: Seq<CollarView>, n: int, i: int)
    requires
        0 <= i < n <= tracks.len(),
    ensures
        all_of_steps(
            tracks[i].steps,
            collar_of(tracks[i], collars),
            tracks[i].steps.len() as int,
        ).subset_of(all_of_tracks(tracks, collars, n)),
    decreases n,
{
    if i < n - 1 {
        lemma_track_is_among(tracks, collars, n - 1, i);
    }
}

/// Where a preset can be scheduled, so can each of its steps, and each of its tracks names a
/// collar.
proof fn lemma_scheduled_step(p: PresetView, collars: Seq<CollarView>, i: int, j: int)
    requires
        schedule(p, collars) is Ok,
        0 <= i < p.tracks.len(),
        0 <= j < p.tracks[i].steps.len(),
    ensures
        crate::protocol::model::position(
            crate::protocol::model::collar_names(collars),
            p.tracks[i].collar_name,
        ) is Some,
        p.tracks[i].steps[j].mode.command() is Some ==> step_problem(
            total_ms(p.tracks[i].steps.take(j)),
            total_ms(p.tracks[i].steps.take(j)) + p.tracks[i].steps[j].duration_ms,
        ) is None,
{
    let track = p.tracks[i];
    let front = p.tracks.take(i + 1);
    lemma_tracks_plan_first(p.name, p.tracks, collars, i + 1);
    assert(front.last() == track);
    let steps = track.steps;
    lemma_steps_plan_first(p.name, i, collar_of(track, collars), steps, j + 1);
    assert(steps.take(j + 1).drop_last() =~= steps.take(j));
    assert(steps.take(j + 1).last() == steps[j]);
}

/// Whether a transmission can be sent: its mode and its intensity are those of a frame, and it
/// goes to one of the collars.
pub open spec fn sendable(e: PresetEvent, collars: Seq<CollarView>) -> bool {
    &&& 1 <= e.mode_byte <= 3
    &&& e.intensity <= crate::protocol::rf_codec::MAX_INTENSITY
    &&& exists|c: int|
        0 <= c < collars.len() && (#[trigger] collars[c]).collar_id == e.collar_id
            && collars[c].channel == e.channel
}

/// The schedule of a preset that passes its checks is not empty, and all of it can be sent.
pub proof fn lemma_valid_preset_can_be_sent(p: PresetView, collars: Seq<CollarView>)
    requires
        crate::validation::preset_problem(p, collars) is None,
        schedule(p, collars) is Ok,
    ensures
        schedule(p, collars)->Ok_0.len() >= 1,
        forall|k: int|
            0 <= k < schedule(p, collars)->Ok_0.len() ==> sendable(
                #[trigger] transmissions(schedule(p, collars)->Ok_0)[k],
                collars,
            ),
{
    broadcast use vstd::seq_lib::group_to_multiset_ensures;

    let v = transmissions(schedule(p, collars)->Ok_0);
    let all = all_of_tracks(p.tracks, collars, p.tracks.len() as int);
    crate::validation::lemma_preset_problem(p, collars);
    lemma_schedule_is_all_steps(p, collars);
    let (i, j) = choose|i: int, j: int|
        0 <= i < p.tracks.len() && 0 <= j < p.tracks[i].steps.len() && (
        #[trigger] p.tracks[i].steps[j]).mode.command() is Some;
    assert(crate::validation::track_valid(p.tracks[i], collars));
    assert(crate::validation::step_valid(p.tracks[i].steps[j]));
    lemma_scheduled_step(p, collars, i, j);
    let steps = p.tracks[i].steps;
    let collar = collar_of(p.tracks[i], collars);
    let start = total_ms(steps.take(j));
    lemma_step_sustained(start, start + steps[j].duration_ms);
    let own = step_events(steps, collar, j);
    let first = own[0];
    assert(own.to_multiset().count(first) > 0);
    lemma_step_is_among(steps, collar, steps.len() as int, j);
    lemma_track_is_among(p.tracks, collars, p.tracks.len() as int, i);
    assert(all.count(first) > 0);
    assert(v.contains(first));
    assert forall|k: int| 0 <= k < v.len() implies sendable(#[trigger] v[k], collars) by {
        assert(v.to_multiset().count(v[k]) > 0);
        lemma_of_some_track(p.tracks, collars, p.tracks.len() as int, v[k]);
        let (a, b) = choose|a: int, b: int| #[trigger] sent_by(p.tracks, collars, a, b, v[k]);
        assert(crate::validation::track_valid(p.tracks[a], collars));
        assert(crate::validation::step_valid(p.tracks[a].steps[b]));
        let names = crate::protocol::model::collar_names(collars);
        crate::protocol::model::lemma_position(names, p.tracks[a].collar_name);
        lemma_scheduled_step(p, collars, a, b);
        let c = crate::protocol::model::position(names, p.tracks[a].collar_name)->0;
        let sent = step_events(p.tracks[a].steps, collar_of(p.tracks[a], collars), b);
        let m = choose|m: int| 0 <= m < sent.len() && sent[m] == v[k];
        assert(sent[m] == v[k]);
        assert(collars[c].collar_id == v[k].collar_id);
    }
}

// ----- What can be scheduled -----

/// Whether a step that lasts from `start` to `end` starts its commands at `ts`: the first at its
/// start, each next one as late as it may be, that is 200 ms after the one before or so that it
/// just ends with the step, and none where at most 200 ms are left. No command overlaps the next.
pub open spec fn latest_starts(ts: Seq<int>, start: int, end: int) -> bool {
    &&& ts.len() > 0
    &&& ts[0] == start
    &&& forall|i: int|
        #![trigger ts[i]]
        0 < i < ts.len() ==> {
            &&& end - ts[i - 1] > 200
            &&& ts[i] - ts[i - 1] >= 130
            &&& ts[i] == if ts[i - 1] + 200 <= end - 130 {
                ts[i - 1] + 200
            } else {
                end - 130
            }
        }
    &&& end - ts.last() <= 200
    &&& ts.last() + 130 <= end
}

/// A step is accepted exactly when commands that start as late as possible sustain it to its end,
/// and those are the commands that it sends.
pub proof fn lemma_step_starts_as_late_as_possible(start: int, end: int, ts: Seq<int>)
    requires
        start < end,
    ensures
        step_problem(start, end) is None ==> latest_starts(step_times(start, end), start, end),
        latest_starts(ts, start, end) ==> step_problem(start, end) is None && step_times(start, end)
            == ts,
{
    if latest_starts(ts, start, end) {
        let last = ts.len() - 1;
        lemma_regular_starts(ts, start, end, last);
        if last > 0 {
            assert(ts[last] >= ts[last - 1] + 130);
        }
        let times = step_times(start, end);
        assert(times.len() == ts.len());
        assert forall|i: int| 0 <= i < ts.len() implies times[i] == ts[i] by {
            lemma_regular_starts(ts, start, end, i);
        }
        assert(times =~= ts);
    }
}

proof fn lemma_regular_starts(ts: Seq<int>, start: int, end: int, i: int)
    requires
        latest_starts(ts, start, end),
        0 <= i < ts.len(),
    ensures
        i < ts.len() - 1 ==> ts[i] == start + 200 * i,
        ts[i] <= start + 200 * i,
        i > 0 ==> ts[i - 1] == start + 200 * (i - 1),
    decreases i,
{
    if i > 0 {
        lemma_regular_starts(ts, start, end, i - 1);
        if i < ts.len() - 1 {
            assert(end - ts[i + 1 - 1] > 200) by {
                assert(ts[i + 1] - ts[i + 1 - 1] >= 130);
            }
        }
    }
}

/// Which durations can be sustained: a step takes at least one command, and what remains behind
/// the commands that start 200 ms apart is either short enough to need none or long enough for one
/// more.
pub proof fn lemma_step_lengths(start: int, end: int)
    ensures
        start >= end ==> step_problem(start, end) is None && step_times(start, end).len() == 0,
        start < end < start + 130 ==> step_problem(start, end) is Some,
        start + 130 <= end ==> (step_problem(start, end) is None) == ((end - start - 130) % 200
            <= 70 || (end - start - 130) % 200 >= 130),
{
}

/// The steps of a track follow each other: each takes the time that it says, pauses as well.
pub proof fn lemma_steps_follow_each_other(steps: Seq<PresetStep>, step: PresetStep)
    ensures
        total_ms(Seq::empty()) == 0,
        total_ms(steps.push(step)) == total_ms(steps) + step.duration_ms,
{
    assert(steps.push(step).drop_last() =~= steps);
}

/// Whether a transmission is one that a step of a preset asks for: it goes to the first collar that
/// has the name of the track, in the mode and with the intensity of the step, at one of the times at
/// which the step starts commands. The step begins when those before it in its track are over.
pub open spec fn asked_for(
    p: PresetView,
    collars: Seq<CollarView>,
    i: int,
    j: int,
    e: PresetEvent,
) -> bool {
    let track = p.tracks[i];
    let step = track.steps[j];
    let start = total_ms(track.steps.take(j));
    &&& 0 <= i < p.tracks.len()
    &&& 0 <= j < track.steps.len()
    &&& e.mode_byte == match step.mode {
        crate::protocol::model::PresetStepMode::Shock => 1u8,
        crate::protocol::model::PresetStepMode::Vibrate => 2u8,
        crate::protocol::model::PresetStepMode::Beep => 3u8,
        crate::protocol::model::PresetStepMode::Pause => 0u8,
    }
    &&& e.mode_byte != 0
    &&& e.intensity == step.intensity
    &&& exists|c: int| #[trigger]
        first_named(collars, track.collar_name, c) && collars[c].collar_id == e.collar_id
            && collars[c].channel == e.channel
    &&& exists|ts: Seq<int>| #[trigger]
        latest_starts(ts, start, start + step.duration_ms) && ts.contains(e.time_ms as int)
}

/// Whether the collar at `c` is the first of that name.
pub open spec fn first_named(collars: Seq<CollarView>, name: Seq<char>, c: int) -> bool {
    &&& 0 <= c < collars.len()
    &&& collars[c].name == name
    &&& forall|b: int| 0 <= b < c ==> (#[trigger] collars[b]).name != name
}

proof fn lemma_first_named(collars: Seq<CollarView>, name: Seq<char>, c: int)
    ensures
        first_named(collars, name, c) <==> crate::protocol::model::position(
            crate::protocol::model::collar_names(collars),
            name,
        ) == Some(c),
{
    let names = crate::protocol::model::collar_names(collars);
    crate::protocol::model::lemma_position(names, name);
    if first_named(collars, name, c) {
        assert forall|b: int| 0 <= b < c implies #[trigger] names[b] != name by {
            assert(collars[b].name != name);
        }
        crate::protocol::model::lemma_position_is(names, name, c);
    }
    if crate::protocol::model::position(names, name) == Some(c) {
        assert forall|b: int| 0 <= b < c implies (#[trigger] collars[b]).name != name by {
            assert(names[b] != name);
        }
    }
}

/// What a step sends is what it asks for.
proof fn lemma_step_events_asked_for(
    p: PresetView,
    collars: Seq<CollarView>,
    i: int,
    j: int,
    e: PresetEvent,
)
    requires
        fits(p, u64::MAX as int),
        0 <= i < p.tracks.len(),
        0 <= j < p.tracks[i].steps.len(),
        crate::protocol::model::position(
            crate::protocol::model::collar_names(collars),
            p.tracks[i].collar_name,
        ) is Some,
        p.tracks[i].steps[j].mode.command() is Some ==> step_problem(
            total_ms(p.tracks[i].steps.take(j)),
            total_ms(p.tracks[i].steps.take(j)) + p.tracks[i].steps[j].duration_ms,
        ) is None,
    ensures
        sent_by(p.tracks, collars, i, j, e) <==> asked_for(p, collars, i, j, e),
        sent_by(p.tracks, collars, i, j, e) ==> total_ms(p.tracks[i].steps.take(j)) <= e.time_ms
            && e.time_ms + RF_COMMAND_TRANSMIT_DURATION_MS <= total_ms(
            p.tracks[i].steps.take(j + 1),
        ),
{
    let track = p.tracks[i];
    let steps = track.steps;
    let step = steps[j];
    let start = total_ms(steps.take(j));
    let end = start + step.duration_ms;
    let times = step_times(start, end);
    let collar = collar_of(track, collars);
    let at = crate::protocol::model::position(
        crate::protocol::model::collar_names(collars),
        track.collar_name,
    )->0;
    lemma_first_named(collars, track.collar_name, at);
    assert(first_named(collars, track.collar_name, at));
    assert(steps.take(j + 1).drop_last() =~= steps.take(j));
    assert(total_ms(steps.take(j + 1)) == end);
    lemma_total_grows(steps, j);
    lemma_total_grows(steps, j + 1);
    assert(total_ms(steps) <= u64::MAX);
    let own = step_events(steps, collar, j);
    if sent_by(p.tracks, collars, i, j, e) {
        let m = choose|m: int| 0 <= m < own.len() && own[m] == e;
        assert(own[m] == e);
        lemma_step_times_within(start, end, m);
        assert(e.time_ms as int == times[m]);
        lemma_step_starts_as_late_as_possible(start, end, times);
        assert(latest_starts(times, start, start + step.duration_ms) && times.contains(
            e.time_ms as int,
        ));
        assert(asked_for(p, collars, i, j, e));
    }
    if asked_for(p, collars, i, j, e) {
        let c = choose|c: int| #[trigger]
            first_named(collars, track.collar_name, c) && collars[c].collar_id == e.collar_id
                && collars[c].channel == e.channel;
        lemma_first_named(collars, track.collar_name, c);
        let ts = choose|ts: Seq<int>| #[trigger]
            latest_starts(ts, start, start + step.duration_ms) && ts.contains(e.time_ms as int);
        assert(start < end) by {
            lemma_regular_starts(ts, start, end, ts.len() - 1);
            lemma_starts_grow(ts, start, end, ts.len() - 1);
        }
        lemma_step_starts_as_late_as_possible(start, end, ts);
        let m = choose|m: int| 0 <= m < ts.len() && ts[m] == e.time_ms as int;
        assert(own[m] == e);
    }
}

proof fn lemma_starts_grow(ts: Seq<int>, start: int, end: int, i: int)
    requires
        latest_starts(ts, start, end),
        0 <= i < ts.len(),
    ensures
        start <= ts[i],
    decreases i,
{
    if i > 0 {
        lemma_starts_grow(ts, start, end, i - 1);
        assert(ts[i] - ts[i - 1] >= 130);
    }
}

/// A schedule holds a transmission exactly if some step asks for it.
pub proof fn lemma_schedule_holds_what_steps_ask(
    p: PresetView,
    collars: Seq<CollarView>,
    e: PresetEvent,
)
    requires
        schedule(p, collars) is Ok,
        fits(p, u64::MAX as int),
    ensures
        transmissions(schedule(p, collars)->Ok_0).contains(e) <==> exists|i: int, j: int| #[trigger]
            asked_for(p, collars, i, j, e),
{
    broadcast use vstd::seq_lib::group_to_multiset_ensures;

    let v = transmissions(schedule(p, collars)->Ok_0);
    let all = all_of_tracks(p.tracks, collars, p.tracks.len() as int);
    lemma_schedule_is_all_steps(p, collars);
    if v.contains(e) {
        assert(all.count(e) > 0);
        lemma_of_some_track(p.tracks, collars, p.tracks.len() as int, e);
        let (i, j) = choose|i: int, j: int| #[trigger] sent_by(p.tracks, collars, i, j, e);
        lemma_scheduled_step(p, collars, i, j);
        lemma_step_events_asked_for(p, collars, i, j, e);
        assert(asked_for(p, collars, i, j, e));
    }
    if exists|i: int, j: int| #[trigger] asked_for(p, collars, i, j, e) {
        let (i, j) = choose|i: int, j: int| #[trigger] asked_for(p, collars, i, j, e);
        lemma_scheduled_step(p, collars, i, j);
        lemma_step_events_asked_for(p, collars, i, j, e);
        let steps = p.tracks[i].steps;
        let collar = collar_of(p.tracks[i], collars);
        assert(step_events(steps, collar, j).to_multiset().count(e) > 0);
        lemma_step_is_among(steps, collar, steps.len() as int, j);
        lemma_track_is_among(p.tracks, collars, p.tracks.len() as int, i);
        assert(all.count(e) > 0);
        assert(v.to_multiset().count(e) > 0);
    }
}

/// Whether a preset can be scheduled, track by track: each names a collar, and each of its steps
/// that sends anything can be sustained.
pub open spec fn tracks_can_be_sent(p: PresetView, collars: Seq<CollarView>) -> bool {
    &&& forall|i: int|
        0 <= i < p.tracks.len() ==> crate::protocol::model::collar_names(collars).contains(
            (#[trigger] p.tracks[i]).collar_name,
        )
    &&& forall|i: int, j: int|
        0 <= i < p.tracks.len() && 0 <= j < p.tracks[i].steps.len() && !((
        #[trigger] p.tracks[i].steps[j]).mode is Pause) ==> {
            let d = p.tracks[i].steps[j].duration_ms;
            d == 0 || (d >= 130 && ((d - 130) % 200 <= 70 || (d - 130) % 200 >= 130))
        }
}

/// Whether no transmission of one track is under way while one of another track begins.
pub open spec fn tracks_keep_apart(p: PresetView, collars: Seq<CollarView>) -> bool {
    forall|i: int, j: int, e: PresetEvent, k: int, l: int, f: PresetEvent|
        i != k && #[trigger] asked_for(p, collars, i, j, e) && #[trigger] asked_for(
            p,
            collars,
            k,
            l,
            f,
        ) ==> e.time_ms + 130 <= f.time_ms || f.time_ms + 130 <= e.time_ms
}

/// Whether any two of these transmissions can both be sent.
spec fn apart(s: Seq<ScheduledPresetEvent>) -> bool {
    forall|a: int, b: int|
        0 <= a < b < s.len() ==> far(#[trigger] s[a], #[trigger] s[b])
}

spec fn far(a: ScheduledPresetEvent, b: ScheduledPresetEvent) -> bool {
    a.event.time_ms + RF_COMMAND_TRANSMIT_DURATION_MS <= b.event.time_ms || b.event.time_ms
        + RF_COMMAND_TRANSMIT_DURATION_MS <= a.event.time_ms
}

spec fn far_from_all(s: Seq<ScheduledPresetEvent>, e: ScheduledPresetEvent) -> bool {
    forall|a: int| 0 <= a < s.len() ==> far(#[trigger] s[a], e)
}

proof fn lemma_insert_keeps_apart(s: Seq<ScheduledPresetEvent>, e: ScheduledPresetEvent)
    requires
        apart(s),
        far_from_all(s, e),
    ensures
        apart(insert_by_time(s, e)),
        forall|x: ScheduledPresetEvent| #[trigger]
            far_from_all(insert_by_time(s, e), x) <== far_from_all(s, x) && far(e, x),
    decreases s.len(),
{
    let r = insert_by_time(s, e);
    if s.len() == 0 || s.last().event.time_ms <= e.event.time_ms {
        assert forall|a: int, b: int| 0 <= a < b < r.len() implies far(
            #[trigger] r[a],
            #[trigger] r[b],
        ) by {
            assert(r[a] == s[a]);
            if b < s.len() {
                assert(r[b] == s[b]);
            }
        }
        assert forall|x: ScheduledPresetEvent| far_from_all(s, x) && far(e, x) implies
            #[trigger] far_from_all(r, x) by {
            assert forall|a: int| 0 <= a < r.len() implies far(#[trigger] r[a], x) by {
                if a < s.len() {
                    assert(r[a] == s[a]);
                }
            }
        }
    } else {
        let front = s.drop_last();
        let last = s.last();
        assert(s[s.len() - 1] == last);
        assert(apart(front)) by {
            assert forall|a: int, b: int| 0 <= a < b < front.len() implies far(
                #[trigger] front[a],
                #[trigger] front[b],
            ) by {
                assert(front[a] == s[a] && front[b] == s[b]);
            }
        }
        assert(far_from_all(front, e)) by {
            assert forall|a: int| 0 <= a < front.len() implies far(#[trigger] front[a], e) by {
                assert(front[a] == s[a]);
            }
        }
        assert(far_from_all(front, last)) by {
            assert forall|a: int| 0 <= a < front.len() implies far(#[trigger] front[a], last) by {
                assert(front[a] == s[a]);
            }
        }
        lemma_insert_keeps_apart(front, e);
        let q = insert_by_time(front, e);
        assert(far_from_all(q, last));
        assert forall|a: int, b: int| 0 <= a < b < r.len() implies far(
            #[trigger] r[a],
            #[trigger] r[b],
        ) by {
            assert(r[a] == q[a]);
            if b < q.len() {
                assert(r[b] == q[b]);
            }
        }
        assert forall|x: ScheduledPresetEvent| far_from_all(s, x) && far(e, x) implies
            #[trigger] far_from_all(r, x) by {
            assert(far_from_all(front, x)) by {
                assert forall|a: int| 0 <= a < front.len() implies far(#[trigger] front[a], x) by {
                    assert(front[a] == s[a]);
                }
            }
            assert(far_from_all(q, x));
            assert forall|a: int| 0 <= a < r.len() implies far(#[trigger] r[a], x) by {
                if a < q.len() {
                    assert(r[a] == q[a]);
                } else {
                    assert(far(s[s.len() - 1], x));
                }
            }
        }
    }
}

proof fn lemma_by_time_keeps_apart(s: Seq<ScheduledPresetEvent>)
    requires
        apart(s),
    ensures
        apart(by_time(s)),
        forall|x: ScheduledPresetEvent| #[trigger]
            far_from_all(by_time(s), x) <== far_from_all(s, x),
    decreases s.len(),
{
    if s.len() > 0 {
        let front = s.drop_last();
        let last = s.last();
        assert(s[s.len() - 1] == last);
        assert(apart(front)) by {
            assert forall|a: int, b: int| 0 <= a < b < front.len() implies far(
                #[trigger] front[a],
                #[trigger] front[b],
            ) by {
                assert(front[a] == s[a] && front[b] == s[b]);
            }
        }
        assert(far_from_all(front, last)) by {
            assert forall|a: int| 0 <= a < front.len() implies far(#[trigger] front[a], last) by {
                assert(front[a] == s[a]);
            }
        }
        lemma_by_time_keeps_apart(front);
        lemma_insert_keeps_apart(by_time(front), last);
        assert forall|x: ScheduledPresetEvent| far_from_all(s, x) implies #[trigger] far_from_all(
            by_time(s),
            x,
        ) by {
            assert(far_from_all(front, x)) by {
                assert forall|a: int| 0 <= a < front.len() implies far(#[trigger] front[a], x) by {
                    assert(front[a] == s[a]);
                }
            }
            assert(far(s[s.len() - 1], x));
        }
    }
}

/// The steps of one track can be planned if each of them can be sustained, and never get in each
/// other's way.
proof fn lemma_steps_can_be_planned(
    p: PresetView,
    collars: Seq<CollarView>,
    i: int,
    collar: CollarView,
    n: int,
)
    requires
        tracks_can_be_sent(p, collars),
        fits(p, u64::MAX as int),
        0 <= i < p.tracks.len(),
        0 <= n <= p.tracks[i].steps.len(),
    ensures
        ({
            let steps = p.tracks[i].steps.take(n);
            let plan = steps_plan(p.name, i, collar, steps);
            &&& plan is Ok
            &&& apart(plan->Ok_0)
            &&& forall|a: int|
                0 <= a < plan->Ok_0.len() ==> (#[trigger] plan->Ok_0[a]).event.time_ms
                    + RF_COMMAND_TRANSMIT_DURATION_MS <= total_ms(steps)
        }),
    decreases n,
{
    if n > 0 {
        let all = p.tracks[i].steps;
        let steps = all.take(n);
        let front = all.take(n - 1);
        lemma_steps_can_be_planned(p, collars, i, collar, n - 1);
        assert(steps.drop_last() =~= front);
        assert(steps.last() == all[n - 1]);
        let step = all[n - 1];
        let start = total_ms(front);
        let end = start + step.duration_ms;
        assert(total_ms(steps) == end);
        lemma_total_grows(all, n);
        lemma_total_grows(all, n - 1);
        assert(total_ms(all) <= u64::MAX);
        let before = steps_plan(p.name, i, collar, front)->Ok_0;
        if step.mode.command() is Some {
            assert(!(p.tracks[i].steps[n - 1].mode is Pause));
            lemma_step_lengths(start, end);
            assert(step_problem(start, end) is None);
            let plan = steps_plan(p.name, i, collar, steps)->Ok_0;
            let times = step_times(start, end);
            assert forall|a: int| before.len() <= a < plan.len() implies (
            #[trigger] plan[a]).event.time_ms == times[a - before.len()] && start
                <= plan[a].event.time_ms && plan[a].event.time_ms + RF_COMMAND_TRANSMIT_DURATION_MS
                <= end by {
                lemma_step_times_within(start, end, a - before.len());
            }
            assert forall|a: int, b: int| 0 <= a < b < plan.len() implies far(
                #[trigger] plan[a],
                #[trigger] plan[b],
            ) by {
                if b < before.len() {
                    assert(plan[a] == before[a] && plan[b] == before[b]);
                } else if a < before.len() {
                    assert(plan[a] == before[a]);
                } else {
                    lemma_times_apart(start, end, a - before.len(), b - before.len());
                }
            }
            assert forall|a: int| 0 <= a < plan.len() implies (#[trigger] plan[a]).event.time_ms
                + RF_COMMAND_TRANSMIT_DURATION_MS <= total_ms(steps) by {
                if a < before.len() {
                    assert(plan[a] == before[a]);
                }
            }
        }
    }
}

proof fn lemma_times_apart(start: int, end: int, a: int, b: int)
    requires
        0 <= a < b < step_times(start, end).len(),
    ensures
        step_times(start, end)[a] + RF_COMMAND_TRANSMIT_DURATION_MS <= step_times(start, end)[b],
{
}

proof fn lemma_tracks_can_be_planned(p: PresetView, collars: Seq<CollarView>, n: int)
    requires
        tracks_can_be_sent(p, collars),
        tracks_keep_apart(p, collars),
        fits(p, u64::MAX as int),
        0 <= n <= p.tracks.len(),
    ensures
        tracks_plan(p.name, p.tracks.take(n), collars) is Ok,
        apart(tracks_plan(p.name, p.tracks.take(n), collars)->Ok_0),
    decreases n,
{
    broadcast use vstd::seq_lib::group_to_multiset_ensures;

    if n > 0 {
        lemma_tracks_can_be_planned(p, collars, n - 1);
        let front = p.tracks.take(n - 1);
        let track = p.tracks[n - 1];
        assert(p.tracks.take(n).drop_last() =~= front);
        assert(p.tracks.take(n).last() == track);
        let names = crate::protocol::model::collar_names(collars);
        assert(names.contains(track.collar_name));
        crate::protocol::model::lemma_position(names, track.collar_name);
        let collar = collar_of(track, collars);
        let steps = track.steps;
        lemma_steps_can_be_planned(p, collars, n - 1, collar, steps.len() as int);
        assert(steps.take(steps.len() as int) =~= steps);
        let before = tracks_plan(p.name, front, collars)->Ok_0;
        let own = steps_plan(p.name, n - 1, collar, steps)->Ok_0;
        let plan = tracks_plan(p.name, p.tracks.take(n), collars)->Ok_0;
        assert(plan == before + own);
        lemma_tracks_plan_is_all(p.name, p.tracks, collars, n - 1);
        lemma_steps_plan_is_all(p.name, n - 1, collar, steps, steps.len() as int);
        assert forall|a: int, b: int| 0 <= a < b < plan.len() implies far(
            #[trigger] plan[a],
            #[trigger] plan[b],
        ) by {
            if b < before.len() {
                assert(plan[a] == before[a] && plan[b] == before[b]);
            } else if a >= before.len() {
                assert(plan[a] == own[a - before.len()] && plan[b] == own[b - before.len()]);
            } else {
                let e = before[a].event;
                let f = own[b - before.len()].event;
                assert(transmissions(before)[a] == e);
                assert(transmissions(own)[b - before.len()] == f);
                assert(transmissions(before).to_multiset().count(e) > 0);
                assert(transmissions(own).to_multiset().count(f) > 0);
                lemma_of_some_front_track(p.tracks, collars, n - 1, e);
                let (i, j) = choose|i: int, j: int|
                    i < n - 1 && #[trigger] sent_by(p.tracks, collars, i, j, e);
                lemma_of_some_step(steps, collar, steps.len() as int, f);
                let l = choose|l: int|
                    0 <= l < steps.len() && #[trigger] step_events(steps, collar, l).contains(f);
                assert(sent_by(p.tracks, collars, n - 1, l, f));
                lemma_sendable_step(p, collars, i, j);
                lemma_sendable_step(p, collars, n - 1, l);
                lemma_step_events_asked_for(p, collars, i, j, e);
                lemma_step_events_asked_for(p, collars, n - 1, l, f);
                assert(asked_for(p, collars, i, j, e) && asked_for(p, collars, n - 1, l, f));
            }
        }
    } else {
        assert(p.tracks.take(0) =~= Seq::empty());
    }
}

proof fn lemma_of_some_front_track(
    tracks: Seq<TrackView>,
    collars: Seq<CollarView>,
    n: int,
    e: PresetEvent,
)
    requires
        0 <= n <= tracks.len(),
        all_of_tracks(tracks, collars, n).count(e) > 0,
    ensures
        exists|i: int, j: int| i < n && #[trigger] sent_by(tracks, collars, i, j, e),
    decreases n,
{
    let track = tracks[n - 1];
    let collar = collar_of(track, collars);
    if all_of_steps(track.steps, collar, track.steps.len() as int).count(e) > 0 {
        lemma_of_some_step(track.steps, collar, track.steps.len() as int, e);
        let j = choose|j: int|
            0 <= j < track.steps.len() && #[trigger] step_events(track.steps, collar, j).contains(
                e,
            );
        assert(sent_by(tracks, collars, n - 1, j, e));
    } else {
        lemma_of_some_front_track(tracks, collars, n - 1, e);
    }
}

proof fn lemma_sendable_step(p: PresetView, collars: Seq<CollarView>, i: int, j: int)
    requires
        tracks_can_be_sent(p, collars),
        0 <= i < p.tracks.len(),
        0 <= j < p.tracks[i].steps.len(),
    ensures
        crate::protocol::model::position(
            crate::protocol::model::collar_names(collars),
            p.tracks[i].collar_name,
        ) is Some,
        p.tracks[i].steps[j].mode.command() is Some ==> step_problem(
            total_ms(p.tracks[i].steps.take(j)),
            total_ms(p.tracks[i].steps.take(j)) + p.tracks[i].steps[j].duration_ms,
        ) is None,
{
    let names = crate::protocol::model::collar_names(collars);
    crate::protocol::model::lemma_position(names, p.tracks[i].collar_name);
    let step = p.tracks[i].steps[j];
    let start = total_ms(p.tracks[i].steps.take(j));
    lemma_step_lengths(start, start + step.duration_ms);
    if step.mode.command() is Some {
        assert(!(p.tracks[i].steps[j].mode is Pause));
    }
}

/// A preset can be scheduled exactly when every track names a collar, every step that sends
/// anything can be sustained, and no two tracks need the transmitter at once.
pub proof fn lemma_what_can_be_scheduled(p: PresetView, collars: Seq<CollarView>)
    requires
        fits(p, u64::MAX as int),
    ensures
        schedule(p, collars) is Ok <==> tracks_can_be_sent(p, collars) && tracks_keep_apart(
            p,
            collars,
        ),
{
    let all = p.tracks.take(p.tracks.len() as int);
    assert(all =~= p.tracks);
    if tracks_can_be_sent(p, collars) && tracks_keep_apart(p, collars) {
        lemma_tracks_can_be_planned(p, collars, p.tracks.len() as int);
        let plan = tracks_plan(p.name, p.tracks, collars)->Ok_0;
        let s = by_time(plan);
        lemma_by_time_keeps_apart(plan);
        lemma_by_time_orders(plan);
        lemma_overlap_problem(p.name, s);
        assert(no_overlap(s)) by {
            assert forall|i: int, j: int| 0 <= i < j < s.len() implies (
            #[trigger] s[i]).event.time_ms + RF_COMMAND_TRANSMIT_DURATION_MS <= (
            #[trigger] s[j]).event.time_ms by {
                assert(far(s[i], s[j]));
                assert(s[i].event.time_ms <= s[j].event.time_ms);
            }
        }
    }
    if schedule(p, collars) is Ok {
        lemma_scheduled_preset(p, collars);
    }
}

proof fn lemma_scheduled_preset(p: PresetView, collars: Seq<CollarView>)
    requires
        fits(p, u64::MAX as int),
        schedule(p, collars) is Ok,
    ensures
        tracks_can_be_sent(p, collars),
        tracks_keep_apart(p, collars),
{
    broadcast use vstd::seq_lib::group_to_multiset_ensures;

    let names = crate::protocol::model::collar_names(collars);
    assert forall|i: int| 0 <= i < p.tracks.len() implies names.contains(
        (#[trigger] p.tracks[i]).collar_name,
    ) by {
        lemma_tracks_plan_first(p.name, p.tracks, collars, i + 1);
        assert(p.tracks.take(i + 1).last() == p.tracks[i]);
        crate::protocol::model::lemma_position(names, p.tracks[i].collar_name);
    }
    assert forall|i: int, j: int|
        0 <= i < p.tracks.len() && 0 <= j < p.tracks[i].steps.len() && !((
        #[trigger] p.tracks[i].steps[j]).mode is Pause) implies {
        let d = p.tracks[i].steps[j].duration_ms;
        d == 0 || (d >= 130 && ((d - 130) % 200 <= 70 || (d - 130) % 200 >= 130))
    } by {
        lemma_scheduled_step(p, collars, i, j);
        let start = total_ms(p.tracks[i].steps.take(j));
        lemma_step_lengths(start, start + p.tracks[i].steps[j].duration_ms);
    }
    lemma_schedule(p, collars);
    lemma_schedule_is_all_steps(p, collars);
    let s = schedule(p, collars)->Ok_0;
    let v = transmissions(s);
    let all = all_of_tracks(p.tracks, collars, p.tracks.len() as int);
    assert forall|i: int, j: int, e: PresetEvent, k: int, l: int, f: PresetEvent|
        i != k && #[trigger] asked_for(p, collars, i, j, e) && #[trigger] asked_for(
            p,
            collars,
            k,
            l,
            f,
        ) implies e.time_ms + 130 <= f.time_ms || f.time_ms + 130 <= e.time_ms by {
        lemma_scheduled_step(p, collars, i, j);
        lemma_scheduled_step(p, collars, k, l);
        lemma_step_events_asked_for(p, collars, i, j, e);
        lemma_step_events_asked_for(p, collars, k, l, f);
        if i < k {
            lemma_two_tracks_count(p.tracks, collars, p.tracks.len() as int, i, j, e, k, l, f);
        } else {
            lemma_two_tracks_count(p.tracks, collars, p.tracks.len() as int, k, l, f, i, j, e);
        }
        assert(v.to_multiset().count(e) > 0 && v.to_multiset().count(f) > 0);
        if e == f {
            lemma_occurs_twice(v, e);
            let (a, b) = choose|a: int, b: int| 0 <= a < b < v.len() && v[a] == e && v[b] == e;
            assert(s[a].event == e && s[b].event == e);
            assert(s[a].event.time_ms + RF_COMMAND_TRANSMIT_DURATION_MS <= s[b].event.time_ms);
        } else {
            assert(v.contains(e) && v.contains(f));
            let a = choose|a: int| 0 <= a < v.len() && v[a] == e;
            let b = choose|b: int| 0 <= b < v.len() && v[b] == f;
            assert(s[a].event == e && s[b].event == f);
            if a < b {
                assert(s[a].event.time_ms + RF_COMMAND_TRANSMIT_DURATION_MS <= s[b].event.time_ms);
            } else {
                assert(s[b].event.time_ms + RF_COMMAND_TRANSMIT_DURATION_MS <= s[a].event.time_ms);
            }
        }
    }
}

/// Two tracks that ask for the same transmission both get it.
proof fn lemma_two_tracks_count(
    tracks: Seq<TrackView>,
    collars: Seq<CollarView>,
    n: int,
    i: int,
    j: int,
    e: PresetEvent,
    k: int,
    l: int,
    f: PresetEvent,
)
    requires
        0 <= i < k < n <= tracks.len(),
        sent_by(tracks, collars, i, j, e),
        sent_by(tracks, collars, k, l, f),
    ensures
        all_of_tracks(tracks, collars, n).count(e) > 0,
        all_of_tracks(tracks, collars, n).count(f) > 0,
        e == f ==> all_of_tracks(tracks, collars, n).count(e) >= 2,
    decreases n,
{
    broadcast use vstd::seq_lib::group_to_multiset_ensures;

    let own_i = step_events(tracks[i].steps, collar_of(tracks[i], collars), j);
    let own_k = step_events(tracks[k].steps, collar_of(tracks[k], collars), l);
    assert(own_i.to_multiset().count(e) > 0);
    assert(own_k.to_multiset().count(f) > 0);
    if k == n - 1 {
        lemma_track_is_among(tracks, collars, n - 1, i);
        lemma_step_is_among(
            tracks[i].steps,
            collar_of(tracks[i], collars),
            tracks[i].steps.len() as int,
            j,
        );
        lemma_step_is_among(
            tracks[k].steps,
            collar_of(tracks[k], collars),
            tracks[k].steps.len() as int,
            l,
        );
        assert(all_of_tracks(tracks, collars, n - 1).count(e) > 0);
        assert(all_of_steps(
            tracks[k].steps,
            collar_of(tracks[k], collars),
            tracks[k].steps.len() as int,
        ).count(f) > 0);
    } else {
        lemma_two_tracks_count(tracks, collars, n - 1, i, j, e, k, l, f);
    }
}

proof fn lemma_occurs_twice(v: Seq<PresetEvent>, e: PresetEvent)
    requires
        v.to_multiset().count(e) >= 2,
    ensures
        exists|a: int, b: int| 0 <= a < b < v.len() && v[a] == e && v[b] == e,
    decreases v.len(),
{
    broadcast use vstd::seq_lib::group_to_multiset_ensures;

    if v.len() == 0 {
        assert(v.to_multiset().count(e) == 0);
    } else {
        let front = v.drop_last();
        assert(front.push(v.last()) =~= v);
        if v.last() == e {
            assert(front.to_multiset().count(e) >= 1);
            assert(front.contains(e));
            let a = choose|a: int| 0 <= a < front.len() && front[a] == e;
            assert(v[a] == e && v[v.len() - 1] == e);
        } else {
            lemma_occurs_twice(front, e);
            let (a, b) = choose|a: int, b: int|
                0 <= a < b < front.len() && front[a] == e && front[b] == e;
            assert(v[a] == e && v[b] == e);
        }
    }
}

proof fn lemma_steps_plan_labels(
    preset: Seq<char>,
    track: int,
    collar: CollarView,
    steps: Seq<PresetStep>,
    n: int,
)
    requires
        0 <= n <= steps.len() <= usize::MAX,
        0 <= track <= usize::MAX,
        steps_plan(preset, track, collar, steps.take(n)) is Ok,
    ensures
        ({
            let plan = steps_plan(preset, track, collar, steps.take(n))->Ok_0;
            forall|a: int|
                0 <= a < plan.len() ==> (#[trigger] plan[a]).track_index == track
                    && plan[a].step_index < n && step_events(
                    steps,
                    collar,
                    plan[a].step_index as int,
                ).contains(plan[a].event)
        }),
    decreases n,
{
    if n > 0 {
        let front = steps.take(n - 1);
        assert(steps.take(n).drop_last() =~= front);
        assert(steps.take(n).last() == steps[n - 1]);
        lemma_steps_plan_labels(preset, track, collar, steps, n - 1);
        let before = steps_plan(preset, track, collar, front)->Ok_0;
        let plan = steps_plan(preset, track, collar, steps.take(n))->Ok_0;
        let own = step_events(steps, collar, n - 1);
        if steps[n - 1].mode.command() is Some {
            let tagged = labelled(own, track, n - 1);
            assert(plan == before + tagged);
            assert forall|a: int| 0 <= a < plan.len() implies (#[trigger] plan[a]).track_index
                == track && plan[a].step_index < n && step_events(
                steps,
                collar,
                plan[a].step_index as int,
            ).contains(plan[a].event) by {
                if a < before.len() {
                    assert(plan[a] == before[a]);
                } else {
                    assert(plan[a] == tagged[a - before.len()]);
                    assert(own[a - before.len()] == plan[a].event);
                }
            }
        }
    }
}

proof fn lemma_tracks_plan_labels(
    preset: Seq<char>,
    tracks: Seq<TrackView>,
    collars: Seq<CollarView>,
    n: int,
)
    requires
        0 <= n <= tracks.len() <= usize::MAX,
        forall|i: int| 0 <= i < tracks.len() ==> (#[trigger] tracks[i]).steps.len() <= usize::MAX,
        tracks_plan(preset, tracks.take(n), collars) is Ok,
    ensures
        ({
            let plan = tracks_plan(preset, tracks.take(n), collars)->Ok_0;
            forall|a: int|
                0 <= a < plan.len() ==> sent_by(
                    tracks,
                    collars,
                    (#[trigger] plan[a]).track_index as int,
                    plan[a].step_index as int,
                    plan[a].event,
                )
        }),
    decreases n,
{
    if n > 0 {
        let front = tracks.take(n - 1);
        let track = tracks[n - 1];
        assert(tracks.take(n).drop_last() =~= front);
        assert(tracks.take(n).last() == track);
        lemma_tracks_plan_labels(preset, tracks, collars, n - 1);
        let before = tracks_plan(preset, front, collars)->Ok_0;
        let collar = collar_of(track, collars);
        let own = steps_plan(preset, n - 1, collar, track.steps)->Ok_0;
        assert(track.steps.take(track.steps.len() as int) =~= track.steps);
        lemma_steps_plan_labels(preset, n - 1, collar, track.steps, track.steps.len() as int);
        let plan = tracks_plan(preset, tracks.take(n), collars)->Ok_0;
        assert(plan == before + own);
        assert forall|a: int| 0 <= a < plan.len() implies sent_by(
            tracks,
            collars,
            (#[trigger] plan[a]).track_index as int,
            plan[a].step_index as int,
            plan[a].event,
        ) by {
            if a < before.len() {
                assert(plan[a] == before[a]);
            } else {
                assert(plan[a] == own[a - before.len()]);
            }
        }
    }
}

/// Every transmission of a schedule is labelled with the track and the step that ask for it.
pub proof fn lemma_schedule_labels(p: PresetView, collars: Seq<CollarView>, k: int)
    requires
        schedule(p, collars) is Ok,
        fits(p, u64::MAX as int),
        p.tracks.len() <= usize::MAX,
        forall|i: int|
            0 <= i < p.tracks.len() ==> (#[trigger] p.tracks[i]).steps.len() <= usize::MAX,
        0 <= k < schedule(p, collars)->Ok_0.len(),
    ensures
        ({
            let e = schedule(p, collars)->Ok_0[k];
            asked_for(p, collars, e.track_index as int, e.step_index as int, e.event)
        }),
{
    broadcast use vstd::seq_lib::group_to_multiset_ensures;

    let s = schedule(p, collars)->Ok_0;
    let plan = tracks_plan(p.name, p.tracks, collars)->Ok_0;
    assert(p.tracks.take(p.tracks.len() as int) =~= p.tracks);
    lemma_tracks_plan_labels(p.name, p.tracks, collars, p.tracks.len() as int);
    lemma_schedule(p, collars);
    assert(s.to_multiset().count(s[k]) > 0);
    assert(plan.contains(s[k]));
    let a = choose|a: int| 0 <= a < plan.len() && plan[a] == s[k];
    let e = plan[a];
    assert(sent_by(p.tracks, collars, e.track_index as int, e.step_index as int, e.event));
    lemma_scheduled_step(p, collars, e.track_index as int, e.step_index as int);
    lemma_step_events_asked_for(p, collars, e.track_index as int, e.step_index as int, e.event);
}

/// Whether two steps send the same.
pub open spec fn same_send(a: PresetStep, b: PresetStep) -> bool {
    a.mode == b.mode && a.duration_ms == b.duration_ms && a.intensity == b.intensity
}

/// Whether two tracks send the same.
pub open spec fn same_run(a: TrackView, b: TrackView) -> bool {
    &&& a.collar_name == b.collar_name
    &&& a.steps.len() == b.steps.len()
    &&& forall|j: int| 0 <= j < a.steps.len() ==> same_send(a.steps[j], #[trigger] b.steps[j])
}

proof fn lemma_same_steps(
    preset: Seq<char>,
    track: int,
    collar: CollarView,
    a: TrackView,
    b: TrackView,
    n: int,
)
    requires
        same_run(a, b),
        0 <= n <= a.steps.len(),
    ensures
        total_ms(a.steps.take(n)) == total_ms(b.steps.take(n)),
        steps_plan(preset, track, collar, a.steps.take(n)) == steps_plan(
            preset,
            track,
            collar,
            b.steps.take(n),
        ),
    decreases n,
{
    if n > 0 {
        lemma_same_steps(preset, track, collar, a, b, n - 1);
        assert(a.steps.take(n).drop_last() =~= a.steps.take(n - 1));
        assert(b.steps.take(n).drop_last() =~= b.steps.take(n - 1));
        assert(same_send(a.steps[n - 1], b.steps[n - 1]));
    }
}

proof fn lemma_same_tracks(p: PresetView, r: PresetView, collars: Seq<CollarView>, n: int)
    requires
        p.name == r.name,
        p.tracks.len() == r.tracks.len(),
        forall|i: int|
            0 <= i < p.tracks.len() ==> same_run(p.tracks[i], #[trigger] r.tracks[i]),
        0 <= n <= p.tracks.len(),
    ensures
        tracks_plan(p.name, p.tracks.take(n), collars) == tracks_plan(
            r.name,
            r.tracks.take(n),
            collars,
        ),
    decreases n,
{
    if n > 0 {
        lemma_same_tracks(p, r, collars, n - 1);
        assert(p.tracks.take(n).drop_last() =~= p.tracks.take(n - 1));
        assert(r.tracks.take(n).drop_last() =~= r.tracks.take(n - 1));
        let a = p.tracks[n - 1];
        let b = r.tracks[n - 1];
        assert(same_run(a, b));
        let collar = collar_of(a, collars);
        lemma_same_steps(p.name, n - 1, collar, a, b, a.steps.len() as int);
        assert(a.steps.take(a.steps.len() as int) =~= a.steps);
        assert(b.steps.take(b.steps.len() as int) =~= b.steps);
    } else {
        assert(p.tracks.take(0) =~= r.tracks.take(0));
    }
}

/// What a preset transmits depends on nothing but its names and the modes, durations and
/// intensities of its steps.
pub proof fn lemma_same_schedule(p: PresetView, r: PresetView, collars: Seq<CollarView>)
    requires
        p.name == r.name,
        p.tracks.len() == r.tracks.len(),
        forall|i: int|
            0 <= i < p.tracks.len() ==> same_run(p.tracks[i], #[trigger] r.tracks[i]),
    ensures
        schedule(r, collars) == schedule(p, collars),
        forall|limit: int| #[trigger] fits(r, limit) == fits(p, limit),
{
    let n = p.tracks.len() as int;
    lemma_same_tracks(p, r, collars, n);
    assert(p.tracks.take(n) =~= p.tracks);
    assert(r.tracks.take(n) =~= r.tracks);
    assert forall|i: int| 0 <= i < n implies total_ms((#[trigger] p.tracks[i]).steps) == total_ms(
        r.tracks[i].steps,
    ) by {
        let a = p.tracks[i];
        let b = r.tracks[i];
        assert(same_run(a, b));
        lemma_same_steps(
            p.name,
            i,
            CollarView { name: p.name, collar_id: 0, channel: 0 },
            a,
            b,
            a.steps.len() as int,
        );
        assert(a.steps.take(a.steps.len() as int) =~= a.steps);
        assert(b.steps.take(b.steps.len() as int) =~= b.steps);
    }
    assert forall|limit: int| #[trigger] fits(r, limit) == fits(p, limit) by {
        if fits(r, limit) {
            assert forall|i: int| 0 <= i < n implies total_ms((#[trigger] p.tracks[i]).steps)
                <= limit by {
                assert(total_ms(r.tracks[i].steps) <= limit);
            }
        }
        if fits(p, limit) {
            assert forall|i: int| 0 <= i < n implies total_ms((#[trigger] r.tracks[i]).steps)
                <= limit by {
                assert(total_ms(p.tracks[i].steps) <= limit);
            }
        }
    }
}

proof fn lemma_insert_at(s: Seq<ScheduledPresetEvent>, e: ScheduledPresetEvent, at: int)
    requires
        0 <= at <= s.len(),
        at > 0 ==> s[at - 1].event.time_ms <= e.event.time_ms,
        forall|j: int| at <= j < s.len() ==> (#[trigger] s[j]).event.time_ms > e.event.time_ms,
    ensures
        insert_by_time(s, e) == s.insert(at, e),
    decreases s.len(),
{
    if at == s.len() {
        assert(s.insert(at, e) =~= s.push(e));
        if s.len() > 0 {
            assert(s.last() == s[at - 1]);
        }
    } else {
        assert(s.last() == s[s.len() - 1]);
        let front = s.drop_last();
        lemma_insert_at(front, e, at);
        assert(s.insert(at, e) =~= front.insert(at, e).push(s.last()));
    }
}

/// Puts an event behind everything that is not later than it.
fn insert_event(events: &mut Vec<ScheduledPresetEvent>, e: ScheduledPresetEvent)
    ensures
        final(events)@ == insert_by_time(old(events)@, e),
{
    let mut at: usize = events.len();
    while at > 0 && events[at - 1].event.time_ms > e.event.time_ms
        invariant
            at <= events@.len(),
            events@ == old(events)@,
            forall|j: int|
                at <= j < events@.len() ==> (#[trigger] events@[j]).event.time_ms
                    > e.event.time_ms,
        decreases at,
    {
        at = at - 1;
    }
    proof {
        lemma_insert_at(events@, e, at as int);
    }
    events.insert(at, e);
}

/// The transmissions of the steps of one track.
fn plan_steps(preset: &str, track: usize, collar: &Collar, steps: &Vec<PresetStep>) -> (r: Result<
    Vec<ScheduledPresetEvent>,
    ScheduleError,
>)
    requires
        total_ms(steps@) <= u64::MAX,
    ensures
        match r {
            Ok(v) => steps_plan(preset@, track as int, collar.deep_view(), steps@) == Ok::<
                Seq<ScheduledPresetEvent>,
                Seq<char>,
            >(v@),
            Err(e) => steps_plan(preset@, track as int, collar.deep_view(), steps@) == Err::<
                Seq<ScheduledPresetEvent>,
                Seq<char>,
            >(e@),
        },
{
    let mut out: Vec<ScheduledPresetEvent> = Vec::new();
    let mut time_ms: u64 = 0;
    let mut i: usize = 0;
    while i < steps.len()
        invariant
            i <= steps@.len(),
            total_ms(steps@) <= u64::MAX,
            time_ms == total_ms(steps@.take(i as int)),
            steps_plan(preset@, track as int, collar.deep_view(), steps@.take(i as int)) == Ok::<
                Seq<ScheduledPresetEvent>,
                Seq<char>,
            >(out@),
        decreases steps@.len() - i,
    {
        proof {
            assert(steps@.take(i + 1).drop_last() =~= steps@.take(i as int));
            lemma_total_grows(steps@, i + 1);
            lemma_steps_plan_first(preset@, track as int, collar.deep_view(), steps@, i + 1);
        }
        let step = steps[i];
        let end_ms: u64 = time_ms + step.duration_ms as u64;
        if let Some(mode) = step.mode.to_command_mode() {
            let mut events: Vec<PresetEvent> = Vec::new();
            let result = schedule_step_events(
                &mut events,
                time_ms,
                end_ms,
                collar.collar_id,
                collar.channel,
                mode.to_rf_byte(),
                step.intensity,
            );
            let ghost planned = events_at(
                step_times(time_ms as int, end_ms as int),
                collar.collar_id,
                collar.channel,
                mode.rf_byte(),
                step.intensity,
            );
            assert(events@ =~= planned);
            if let Err(e) = result {
                let mut message = step_message(preset, track, i);
                push_text(&mut message, " is unschedulable: ");
                push_text(&mut message, e.message.as_str());
                return Err(ScheduleError { message });
            }
            let ghost before = out@;
            let ghost own = labelled(planned, track as int, i as int);
            let mut k: usize = 0;
            while k < events.len()
                invariant
                    k <= events@.len(),
                    events@ == planned,
                    own == labelled(planned, track as int, i as int),
                    out@ =~= before + own.take(k as int),
                decreases events@.len() - k,
            {
                out.push(
                    ScheduledPresetEvent { event: events[k], track_index: track, step_index: i },
                );
                assert(own.take(k + 1) =~= own.take(k as int).push(own[k as int]));
                k = k + 1;
            }
            assert(own.take(k as int) =~= own);
        }
        time_ms = end_ms;
        i = i + 1;
    }
    assert(steps@.take(i as int) =~= steps@);
    Ok(out)
}

/// The transmissions of all tracks, one track after the other.
fn plan_tracks(preset: &Preset, collars: &[Collar]) -> (r: Result<
    Vec<ScheduledPresetEvent>,
    ScheduleError,
>)
    requires
        fits(preset.deep_view(), u64::MAX as int),
    ensures
        match r {
            Ok(v) => tracks_plan(
                preset.name@,
                preset.deep_view().tracks,
                collars.deep_view(),
            ) == Ok::<Seq<ScheduledPresetEvent>, Seq<char>>(v@),
            Err(e) => tracks_plan(
                preset.name@,
                preset.deep_view().tracks,
                collars.deep_view(),
            ) == Err::<Seq<ScheduledPresetEvent>, Seq<char>>(e@),
        },
{
    let ghost tracks = preset.deep_view().tracks;
    let mut out: Vec<ScheduledPresetEvent> = Vec::new();
    let mut i: usize = 0;
    while i < preset.tracks.len()
        invariant
            i <= preset.tracks@.len(),
            tracks == preset.deep_view().tracks,
            fits(preset.deep_view(), u64::MAX as int),
            tracks_plan(preset.name@, tracks.take(i as int), collars.deep_view()) == Ok::<
                Seq<ScheduledPresetEvent>,
                Seq<char>,
            >(out@),
        decreases preset.tracks@.len() - i,
    {
        proof {
            assert(tracks.take(i + 1).drop_last() =~= tracks.take(i as int));
            assert(tracks[i as int] == preset.tracks@[i as int].deep_view());
            lemma_tracks_plan_first(preset.name@, tracks, collars.deep_view(), i + 1);
        }
        let track: &PresetTrack = &preset.tracks[i];
        let at = find_collar(collars, track.collar_name.as_str());
        match at {
            None => {
                let mut message = track_message(preset.name.as_str(), i);
                push_text(&mut message, " references unknown collar '");
                push_text(&mut message, track.collar_name.as_str());
                push_text(&mut message, "'");
                return Err(ScheduleError { message });
            },
            Some(at) => {
                assert(collars.deep_view()[at as int] == collars@[at as int].deep_view());
                match plan_steps(preset.name.as_str(), i, &collars[at], &track.steps) {
                    Err(e) => {
                        return Err(e);
                    },
                    Ok(events) => {
                        let ghost before = out@;
                        let mut k: usize = 0;
                        while k < events.len()
                            invariant
                                k <= events@.len(),
                                out@ =~= before + events@.take(k as int),
                            decreases events@.len() - k,
                        {
                            out.push(events[k]);
                            assert(events@.take(k + 1) =~= events@.take(k as int).push(
                                events@[k as int],
                            ));
                            k = k + 1;
                        }
                        assert(events@.take(k as int) =~= events@);
                    },
                }
            },
        }
        i = i + 1;
    }
    assert(tracks.take(i as int) =~= tracks);
    Ok(out)
}

/// Schedules a preset, and says which step each transmission is for.
pub fn schedule_steps(preset: &Preset, collars: &[Collar]) -> (r: Result<
    Vec<ScheduledPresetEvent>,
    ScheduleError,
>)
    requires
        fits(preset.deep_view(), u64::MAX as int),
    ensures
        match r {
            Ok(v) => schedule(preset.deep_view(), collars.deep_view()) == Ok::<
                Seq<ScheduledPresetEvent>,
                Seq<char>,
            >(v@),
            Err(e) => schedule(preset.deep_view(), collars.deep_view()) == Err::<
                Seq<ScheduledPresetEvent>,
                Seq<char>,
            >(e@),
        },
{
    let plan = match plan_tracks(preset, collars) {
        Ok(plan) => plan,
        Err(e) => {
            return Err(e);
        },
    };
    let mut events: Vec<ScheduledPresetEvent> = Vec::new();
    let mut i: usize = 0;
    while i < plan.len()
        invariant
            i <= plan@.len(),
            events@ == by_time(plan@.take(i as int)),
        decreases plan@.len() - i,
    {
        assert(plan@.take(i + 1).drop_last() =~= plan@.take(i as int));
        insert_event(&mut events, plan[i]);
        i = i + 1;
    }
    proof {
        assert(plan@.take(i as int) =~= plan@);
        assert(preset.tracks.len() == preset.deep_view().tracks.len());
        lemma_schedule_sound(preset.deep_view(), collars.deep_view(), u64::MAX as int);
        assert forall|k: int| 0 <= k < events@.len() implies (#[trigger] events@[k]).event.time_ms
            + RF_COMMAND_TRANSMIT_DURATION_MS <= u64::MAX by {
            assert(sound_event(
                events@[k],
                preset.deep_view().tracks.len() as int,
                u64::MAX as int,
            ));
        }
    }
    let mut k: usize = 1;
    while k < events.len()
        invariant
            1 <= k,
            events@.len() > 0 ==> k <= events@.len(),
            events@ == by_time(plan@),
            tracks_plan(preset.name@, preset.deep_view().tracks, collars.deep_view()) == Ok::<
                Seq<ScheduledPresetEvent>,
                Seq<char>,
            >(plan@),
            forall|j: int|
                0 <= j < events@.len() ==> (#[trigger] events@[j]).event.time_ms
                    + RF_COMMAND_TRANSMIT_DURATION_MS <= u64::MAX,
            k <= events@.len() ==> overlap_problem(preset.name@, events@.take(k as int)) is None,
        decreases events@.len() - k,
    {
        let previous = events[k - 1];
        let next = events[k];
        let previous_end_ms: u64 = previous.event.time_ms + RF_COMMAND_TRANSMIT_DURATION_MS;
        proof {
            assert(events@.take(k + 1).drop_last() =~= events@.take(k as int));
            lemma_overlap_first(preset.name@, events@, k + 1);
        }
        if next.event.time_ms < previous_end_ms {
            let mut message = "Preset '".to_owned();
            push_text(&mut message, preset.name.as_str());
            push_text(
                &mut message,
                "' cannot overlap RF transmissions on a single transmitter: track ",
            );
            push_decimal(&mut message, next.track_index as u64);
            push_text(&mut message, " step ");
            push_decimal(&mut message, next.step_index as u64);
            push_text(&mut message, " starts at ");
            push_decimal(&mut message, next.event.time_ms);
            push_text(&mut message, "ms before track ");
            push_decimal(&mut message, previous.track_index as u64);
            push_text(&mut message, " step ");
            push_decimal(&mut message, previous.step_index as u64);
            push_text(&mut message, " ends at ");
            push_decimal(&mut message, previous_end_ms);
            push_text(&mut message, "ms");
            return Err(ScheduleError { message });
        }
        k = k + 1;
    }
    proof {
        if events@.len() > 0 {
            assert(events@.take(k as int) =~= events@);
        }
    }
    Ok(events)
}

/// The transmissions that running a preset takes, in order of time.
pub fn schedule_preset_events(preset: &Preset, collars: &[Collar]) -> (r: Result<
    Vec<PresetEvent>,
    ScheduleError,
>)
    requires
        fits(preset.deep_view(), u64::MAX as int),
    ensures
        match r {
            Ok(v) => schedule(preset.deep_view(), collars.deep_view()) is Ok && v@ == transmissions(
                schedule(preset.deep_view(), collars.deep_view())->Ok_0,
            ),
            Err(e) => schedule(preset.deep_view(), collars.deep_view()) == Err::<
                Seq<ScheduledPresetEvent>,
                Seq<char>,
            >(e@),
        },
{
    let scheduled = match schedule_steps(preset, collars) {
        Ok(v) => v,
        Err(e) => {
            return Err(e);
        },
    };
    let ghost wanted = transmissions(scheduled@);
    let mut out: Vec<PresetEvent> = Vec::new();
    let mut i: usize = 0;
    while i < scheduled.len()
        invariant
            i <= scheduled@.len(),
            wanted == transmissions(scheduled@),
            out@ =~= wanted.take(i as int),
        decreases scheduled@.len() - i,
    {
        out.push(scheduled[i].event);
        i = i + 1;
    }
    assert(wanted.take(i as int) =~= wanted);
    Ok(out)
}

/// How long a run of steps takes.
pub fn steps_duration_ms(steps: &Vec<PresetStep>) -> (r: u64)
    requires
        total_ms(steps@) <= u64::MAX,
    ensures
        r == total_ms(steps@),
{
    let mut total: u64 = 0;
    let mut k: usize = 0;
    while k < steps.len()
        invariant
            k <= steps@.len(),
            total_ms(steps@) <= u64::MAX,
            total == total_ms(steps@.take(k as int)),
        decreases steps@.len() - k,
    {
        proof {
            assert(steps@.take(k + 1).drop_last() =~= steps@.take(k as int));
            lemma_total_grows(steps@, k + 1);
        }
        total = total + steps[k].duration_ms as u64;
        k = k + 1;
    }
    assert(steps@.take(k as int) =~= steps@);
    total
}

/// Whether no track of a preset takes longer than `limit`.
pub fn preset_fits(preset: &Preset, limit: u64) -> (r: bool)
    ensures
        r == fits(preset.deep_view(), limit as int),
{
    let ghost p = preset.deep_view();
    let mut i: usize = 0;
    while i < preset.tracks.len()
        invariant
            i <= preset.tracks@.len(),
            p == preset.deep_view(),
            forall|j: int|
                0 <= j < i ==> total_ms((#[trigger] p.tracks[j]).steps) <= limit,
        decreases preset.tracks@.len() - i,
    {
        let steps = &preset.tracks[i].steps;
        let mut total: u128 = 0;
        let mut k: usize = 0;
        while k < steps.len()
            invariant
                k <= steps@.len(),
                total == total_ms(steps@.take(k as int)),
                total <= k * 0xffff_ffff,
            decreases steps@.len() - k,
        {
            assert(steps@.take(k + 1).drop_last() =~= steps@.take(k as int));
            total = total + steps[k].duration_ms as u128;
            k = k + 1;
        }
        assert(steps@.take(k as int) =~= steps@);
        assert(p.tracks[i as int].steps == steps@);
        if total > limit as u128 {
            return false;
        }
        i = i + 1;
    }
    true
}

// ----- What is told of a preset that cannot be scheduled -----

/// A step that is shorter than one transmission is told with its length; one that cannot be
/// sustained is told as such.
pub proof fn lemma_why_a_step_cannot_be_sent(start: int, end: int)
    requires
        0 <= start < end,
        step_problem(start, end) is Some,
    ensures
        end - start < 130 ==> step_problem(start, end) == Some(
            "step duration "@ + crate::text::decimal((end - start) as nat)
                + "ms is shorter than RF transmit time "@ + crate::text::decimal(130) + "ms"@,
        ),
        end - start >= 130 ==> step_problem(start, end) == Some(
            "step cannot be sustained without overlapping transmissions"@,
        ),
{
}

/// A step that cannot be sent is told by its place, after all steps before it could be planned.
pub proof fn lemma_why_steps_cannot_be_planned(
    preset: Seq<char>,
    track: int,
    collar: CollarView,
    steps: Seq<PresetStep>,
    step: PresetStep,
)
    requires
        0 <= track,
    ensures
        steps_plan(preset, track, collar, steps) is Err ==> steps_plan(
            preset,
            track,
            collar,
            steps.push(step),
        ) == steps_plan(preset, track, collar, steps),
        steps_plan(preset, track, collar, steps) is Ok ==> {
            let start = total_ms(steps);
            let r = steps_plan(preset, track, collar, steps.push(step));
            let problem = step_problem(start, start + step.duration_ms);
            &&& r is Err <==> !(step.mode is Pause) && problem is Some
            &&& r is Err ==> r->Err_0 == "Preset '"@ + preset + "' track "@ + crate::text::decimal(
                track as nat,
            ) + " step "@ + crate::text::decimal(steps.len()) + " is unschedulable: "@
                + problem->0
        },
{
    assert(steps.push(step).drop_last() =~= steps);
}

/// A track whose collar does not exist is told by its place, after all tracks before it could be
/// planned.
pub proof fn lemma_why_tracks_cannot_be_planned(
    preset: Seq<char>,
    tracks: Seq<TrackView>,
    track: TrackView,
    collars: Seq<CollarView>,
)
    ensures
        tracks_plan(preset, tracks, collars) is Err ==> tracks_plan(
            preset,
            tracks.push(track),
            collars,
        ) == tracks_plan(preset, tracks, collars),
        tracks_plan(preset, tracks, collars) is Ok
            && !crate::protocol::model::collar_names(collars).contains(track.collar_name)
            ==> tracks_plan(preset, tracks.push(track), collars) == Err::<
            Seq<ScheduledPresetEvent>,
            Seq<char>,
        >(
            "Preset '"@ + preset + "' track "@ + crate::text::decimal(tracks.len())
                + " references unknown collar '"@ + track.collar_name + "'"@,
        ),
{
    assert(tracks.push(track).drop_last() =~= tracks);
    crate::protocol::model::lemma_position(
        crate::protocol::model::collar_names(collars),
        track.collar_name,
    );
}

/// Of transmissions that would overlap, the first two in order of time are told, by their tracks,
/// steps and times.
pub proof fn lemma_which_overlap_is_told(
    preset: Seq<char>,
    s: Seq<ScheduledPresetEvent>,
    k: int,
)
    requires
        0 < k < s.len(),
        forall|j: int|
            0 < j < k ==> (#[trigger] s[j]).event.time_ms >= s[j - 1].event.time_ms + 130,
        s[k].event.time_ms < s[k - 1].event.time_ms + 130,
    ensures
        overlap_problem(preset, s) == Some(
            "Preset '"@ + preset
                + "' cannot overlap RF transmissions on a single transmitter: track "@
                + crate::text::decimal(s[k].track_index as nat) + " step "@
                + crate::text::decimal(s[k].step_index as nat) + " starts at "@
                + crate::text::decimal(s[k].event.time_ms as nat) + "ms before track "@
                + crate::text::decimal(s[k - 1].track_index as nat) + " step "@
                + crate::text::decimal(s[k - 1].step_index as nat) + " ends at "@
                + crate::text::decimal((s[k - 1].event.time_ms + 130) as nat) + "ms"@,
        ),
    decreases s.len(),
{
    let front = s.drop_last();
    if k + 1 == s.len() {
        assert forall|j: int| 0 < j < front.len() implies (#[trigger] front[j]).event.time_ms
            >= front[j - 1].event.time_ms + 130 by {
            assert(front[j] == s[j] && front[j - 1] == s[j - 1]);
        }
        lemma_no_overlap_to_tell(preset, front);
    } else {
        assert forall|j: int| 0 < j < k implies (#[trigger] front[j]).event.time_ms
            >= front[j - 1].event.time_ms + 130 by {
            assert(front[j] == s[j] && front[j - 1] == s[j - 1]);
        }
        assert(front[k] == s[k] && front[k - 1] == s[k - 1]);
        lemma_which_overlap_is_told(preset, front, k);
    }
}

proof fn lemma_no_overlap_to_tell(preset: Seq<char>, s: Seq<ScheduledPresetEvent>)
    requires
        forall|j: int|
            0 < j < s.len() ==> (#[trigger] s[j]).event.time_ms >= s[j - 1].event.time_ms + 130,
    ensures
        overlap_problem(preset, s) is None,
    decreases s.len(),
{
    if s.len() >= 2 {
        let front = s.drop_last();
        let last = s.len() - 1;
        assert(s[last].event.time_ms >= s[last - 1].event.time_ms + 130);
        assert forall|j: int| 0 < j < front.len() implies (#[trigger] front[j]).event.time_ms
            >= front[j - 1].event.time_ms + 130 by {
            assert(front[j] == s[j] && front[j - 1] == s[j - 1]);
        }
        lemma_no_overlap_to_tell(preset, front);
    }
}

/// A preset that cannot be scheduled is told by what its tracks lack, or else by the overlap of
/// what they send.
pub proof fn lemma_why_a_preset_cannot_be_scheduled(p: PresetView, collars: Seq<CollarView>)
    ensures
        ({
            let plan = tracks_plan(p.name, p.tracks, collars);
            let r = schedule(p, collars);
            &&& plan is Err ==> r is Err && r->Err_0 == plan->Err_0
            &&& plan is Ok && r is Err ==> overlap_problem(p.name, by_time(plan->Ok_0)) == Some(
                r->Err_0,
            )
        }),
{
}

} // verus!
