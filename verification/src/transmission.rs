//! The worker that owns the transmitter: a preset runs to its schedule, and actions take turns in
//! the time that is left.

use vstd::prelude::*;

use crate::protocol::event_log::EventSource;
use crate::protocol::model::CommandMode;
use crate::rf_timing::RF_COMMAND_TRANSMIT_DURATION_US;
use crate::scheduling::PresetEvent;
use crate::session::{
    key_before, ActionKey, ActionOwner, ActiveActionHandle, KeyView, TransmissionCommand,
};

verus! {

/// How long the worker rests at most when there is nothing to send.
pub const WORKER_IDLE_TIMEOUT_US: u64 = 10_000;

/// A preset that is running.
#[derive(Debug)]
pub struct ActivePreset {
    pub events: Vec<PresetEvent>,
    pub preset_name: String,
    pub started_at_us: u64,
    pub event_index: usize,
}

pub struct ActivePresetView {
    pub events: Seq<PresetEvent>,
    pub preset_name: Seq<char>,
    pub started_at_us: u64,
    pub event_index: int,
}

impl DeepView for ActivePreset {
    type V = ActivePresetView;

    open spec fn deep_view(&self) -> ActivePresetView {
        ActivePresetView {
            events: self.events@,
            preset_name: self.preset_name@,
            started_at_us: self.started_at_us,
            event_index: self.event_index as int,
        }
    }
}

/// An action under its key.
#[derive(Debug)]
pub struct ActionEntry {
    pub key: ActionKey,
    pub handle: ActiveActionHandle,
}

pub struct EntryView {
    pub key: KeyView,
    pub handle: ActiveActionHandle,
}

impl DeepView for ActionEntry {
    type V = EntryView;

    open spec fn deep_view(&self) -> EntryView {
        EntryView { key: self.key@, handle: self.handle }
    }
}

/// What is being transmitted.
#[derive(Debug)]
pub struct Transmitter {
    pub preset: Option<ActivePreset>,
    pub actions: Vec<ActionEntry>,
    pub round_robin: usize,
}

#[verifier::ext_equal]
pub struct TransmitterView {
    pub preset: Option<ActivePresetView>,
    /// The actions in order of their keys.
    pub actions: Seq<EntryView>,
    /// Whose turn is next.
    pub round_robin: int,
}

impl DeepView for Transmitter {
    type V = TransmitterView;

    open spec fn deep_view(&self) -> TransmitterView {
        TransmitterView {
            preset: self.preset.deep_view(),
            actions: self.actions.deep_view(),
            round_robin: self.round_robin as int,
        }
    }
}

impl TransmitterView {
    /// What holds between commands: the actions stand in order of their keys, so each key occurs
    /// once.
    pub open spec fn wf(self) -> bool {
        in_key_order(self.actions)
    }
}

/// Whether entries stand in order of their keys, without a repeated key.
pub open spec fn in_key_order(es: Seq<EntryView>) -> bool {
    forall|i: int, j: int|
        0 <= i < j < es.len() ==> crate::session::key_less(
            (#[trigger] es[i]).key,
            (#[trigger] es[j]).key,
        )
}

/// The action under a key.
pub open spec fn lookup(es: Seq<EntryView>, key: KeyView) -> Option<ActiveActionHandle>
    decreases es.len(),
{
    if es.len() == 0 {
        None
    } else if es.last().key == key {
        Some(es.last().handle)
    } else {
        lookup(es.drop_last(), key)
    }
}

/// The entries with an action put under a key, in order of the keys; one that was there is
/// replaced.
pub open spec fn upserted(es: Seq<EntryView>, e: EntryView) -> Seq<EntryView>
    decreases es.len(),
{
    if es.len() == 0 || crate::session::key_less(es.last().key, e.key) {
        es.push(e)
    } else if es.last().key == e.key {
        es.drop_last().push(e)
    } else {
        upserted(es.drop_last(), e).push(es.last())
    }
}

/// Which actions end.
#[derive(Debug)]
pub enum Ending {
    /// Every action.
    All,
    /// Those that end with the connection of this owner.
    Owned(ActionOwner),
    /// Those whose time is up.
    Expired,
    /// The one under this key.
    Keyed(ActionKey),
}

impl Ending {
    /// Whether an action ends at `now_us`.
    pub open spec fn ends(self, e: EntryView, now_us: u64) -> bool {
        match self {
            Ending::All => true,
            Ending::Owned(owner) => e.handle.cancel_on_disconnect && e.handle.owner == Some(owner),
            Ending::Expired => e.handle.deadline_us matches Some(deadline) && now_us >= deadline,
            Ending::Keyed(key) => e.key == key@,
        }
    }

    fn check(&self, entry: &ActionEntry, now_us: u64) -> (r: bool)
        ensures
            r == self.ends(entry.deep_view(), now_us),
    {
        match self {
            Ending::All => true,
            Ending::Owned(owner) => entry.handle.cancel_on_disconnect && match entry.handle.owner {
                Some(other) => other == *owner,
                None => false,
            },
            Ending::Expired => match entry.handle.deadline_us {
                Some(deadline) => now_us >= deadline,
                None => false,
            },
            Ending::Keyed(key) => entry.key.same_as(key),
        }
    }
}

/// The actions that go on.
pub open spec fn going_on(es: Seq<EntryView>, ending: Ending, now_us: u64) -> Seq<EntryView>
    decreases es.len(),
{
    if es.len() == 0 {
        es
    } else if ending.ends(es.last(), now_us) {
        going_on(es.drop_last(), ending, now_us)
    } else {
        going_on(es.drop_last(), ending, now_us).push(es.last())
    }
}

/// The actions that end.
pub open spec fn ended(es: Seq<EntryView>, ending: Ending, now_us: u64) -> Seq<EntryView>
    decreases es.len(),
{
    if es.len() == 0 {
        es
    } else if ending.ends(es.last(), now_us) {
        ended(es.drop_last(), ending, now_us).push(es.last())
    } else {
        ended(es.drop_last(), ending, now_us)
    }
}

/// An action that ended, for the log.
#[derive(Debug)]
pub struct Completion {
    pub source: EventSource,
    pub collar_name: String,
    pub mode: CommandMode,
    pub intensity: Option<u8>,
    pub duration_ms: u32,
}

pub struct CompletionView {
    pub source: EventSource,
    pub collar_name: Seq<char>,
    pub mode: CommandMode,
    pub intensity: Option<u8>,
    pub duration_ms: u32,
}

impl DeepView for Completion {
    type V = CompletionView;

    open spec fn deep_view(&self) -> CompletionView {
        CompletionView {
            source: self.source,
            collar_name: self.collar_name@,
            mode: self.mode,
            intensity: self.intensity,
            duration_ms: self.duration_ms,
        }
    }
}

/// Microseconds since a moment; nothing if that moment is still to come.
pub open spec fn elapsed_us(since_us: u64, now_us: u64) -> u64 {
    if now_us >= since_us {
        (now_us - since_us) as u64
    } else {
        0
    }
}

fn elapsed(since_us: u64, now_us: u64) -> (r: u64)
    ensures
        r == elapsed_us(since_us, now_us),
{
    if now_us >= since_us {
        now_us - since_us
    } else {
        0
    }
}

/// What is logged of an action that ended at `now_us`.
pub open spec fn completion(e: EntryView, now_us: u64) -> CompletionView {
    CompletionView {
        source: e.handle.source,
        collar_name: e.key.collar_name,
        mode: e.key.mode,
        intensity: if e.key.mode.graded() {
            Some(e.handle.intensity)
        } else {
            None
        },
        duration_ms: {
            let ms = elapsed_us(e.handle.started_at_us, now_us) / 1000;
            if ms > u32::MAX {
                u32::MAX
            } else {
                ms as u32
            }
        },
    }
}

/// What is logged of actions that ended at `now_us`.
pub open spec fn completions(es: Seq<EntryView>, now_us: u64) -> Seq<CompletionView> {
    es.map_values(|e: EntryView| completion(e, now_us))
}

fn completion_of(key: &ActionKey, handle: &ActiveActionHandle, now_us: u64) -> (r: Completion)
    ensures
        r.deep_view() == completion((EntryView { key: key@, handle: *handle }), now_us),
{
    let ms: u64 = elapsed(handle.started_at_us, now_us) / 1000;
    let intensity = if key.mode.has_intensity() {
        Some(handle.intensity)
    } else {
        None
    };
    Completion {
        source: handle.source,
        collar_name: key.collar_name.clone(),
        mode: key.mode,
        intensity,
        duration_ms: if ms > 0xffff_ffff {
            0xffff_ffff
        } else {
            ms as u32
        },
    }
}

// ----- Commands -----

/// What is being transmitted after a command, and which actions ended by it.
pub open spec fn commanded(t: TransmitterView, command: TransmissionCommand, now_us: u64) -> (
    TransmitterView,
    Seq<EntryView>,
) {
    match command {
        TransmissionCommand::UpsertAction { key, handle } => (
            TransmitterView {
                actions: upserted(t.actions, EntryView { key: key@, handle }),
                ..t
            },
            match lookup(t.actions, key@) {
                Some(previous) => seq![EntryView { key: key@, handle: previous }],
                None => Seq::empty(),
            },
        ),
        TransmissionCommand::CancelAction { key } => without(t, Ending::Keyed(key), now_us),
        TransmissionCommand::CancelOwnedActions { owner } => without(
            t,
            Ending::Owned(owner),
            now_us,
        ),
        TransmissionCommand::CancelAllActions => without(t, Ending::All, now_us),
        TransmissionCommand::StartPreset { preset_name, events } => (
            TransmitterView {
                preset: Some(
                    ActivePresetView {
                        events: events@,
                        preset_name: preset_name@,
                        started_at_us: now_us,
                        event_index: 0,
                    },
                ),
                ..t
            },
            Seq::empty(),
        ),
        TransmissionCommand::StopPreset => (TransmitterView { preset: None, ..t }, Seq::empty()),
        TransmissionCommand::StopAll => without(
            TransmitterView { preset: None, ..t },
            Ending::All,
            now_us,
        ),
    }
}

/// What is being transmitted when some actions end.
pub open spec fn without(t: TransmitterView, ending: Ending, now_us: u64) -> (
    TransmitterView,
    Seq<EntryView>,
) {
    (
        TransmitterView { actions: going_on(t.actions, ending, now_us), ..t },
        ended(t.actions, ending, now_us),
    )
}

// ----- What to send next -----

/// What to do next.
#[derive(Debug)]
pub enum Next {
    /// Send a command of the preset; `completed` names the preset if that was its last.
    Preset { event: PresetEvent, completed: Option<String> },
    /// Send a command of an action.
    Action { key: ActionKey, handle: ActiveActionHandle },
    /// Wait for a command, but no longer than this.
    Wait { timeout_us: u64 },
}

pub enum NextView {
    Preset { event: PresetEvent, completed: Option<Seq<char>> },
    Action { entry: EntryView },
    Wait { timeout_us: int },
}

impl DeepView for Next {
    type V = NextView;

    open spec fn deep_view(&self) -> NextView {
        match self {
            Next::Preset { event, completed } => NextView::Preset {
                event: *event,
                completed: completed.deep_view(),
            },
            Next::Action { key, handle } => NextView::Action {
                entry: EntryView { key: key@, handle: *handle },
            },
            Next::Wait { timeout_us } => NextView::Wait { timeout_us: *timeout_us as int },
        }
    }
}

/// The actions with a turn taken: whose turn it was, and whose is next.
pub open spec fn turn(actions: nat, round_robin: int) -> (int, int) {
    let at = round_robin % (actions as int);
    (at, (at + 1) % (actions as int))
}

/// The next command of the actions, or a wait of at most `timeout_us`.
pub open spec fn action_or_wait(t: TransmitterView, timeout_us: int) -> (TransmitterView, NextView) {
    if t.actions.len() == 0 {
        (t, NextView::Wait { timeout_us })
    } else {
        let turn = turn(t.actions.len(), t.round_robin);
        (
            TransmitterView { round_robin: turn.1, ..t },
            NextView::Action { entry: t.actions[turn.0] },
        )
    }
}

/// When a transmission of a preset is due, from the start of the preset.
pub open spec fn due_us(event: PresetEvent) -> int {
    event.time_ms * 1000
}

/// What to do next at `now_us`: a command of the preset that is due comes first; before it an
/// action may take a turn if its command is over by then; otherwise the worker waits. A preset
/// without commands is over at once and is named in front.
pub open spec fn next_step(t: TransmitterView, now_us: u64) -> (
    TransmitterView,
    Option<Seq<char>>,
    NextView,
) {
    match t.preset {
        None => {
            let r = action_or_wait(t, WORKER_IDLE_TIMEOUT_US as int);
            (r.0, None, r.1)
        },
        Some(p) => if p.event_index >= p.events.len() {
            let r = action_or_wait(
                TransmitterView { preset: None, ..t },
                WORKER_IDLE_TIMEOUT_US as int,
            );
            (r.0, Some(p.preset_name), r.1)
        } else {
            let event = p.events[p.event_index];
            let since = elapsed_us(p.started_at_us, now_us);
            if since >= due_us(event) {
                if p.event_index + 1 >= p.events.len() {
                    (
                        TransmitterView { preset: None, ..t },
                        None,
                        NextView::Preset { event, completed: Some(p.preset_name) },
                    )
                } else {
                    (
                        TransmitterView {
                            preset: Some(
                                ActivePresetView { event_index: p.event_index + 1, ..p },
                            ),
                            ..t
                        },
                        None,
                        NextView::Preset { event, completed: None },
                    )
                }
            } else {
                let until = due_us(event) - since;
                let pause = if until < WORKER_IDLE_TIMEOUT_US {
                    until
                } else {
                    WORKER_IDLE_TIMEOUT_US as int
                };
                if until > RF_COMMAND_TRANSMIT_DURATION_US {
                    let r = action_or_wait(t, pause);
                    (r.0, None, r.1)
                } else {
                    (t, None, NextView::Wait { timeout_us: pause })
                }
            }
        },
    }
}

proof fn lemma_lookup_at(es: Seq<EntryView>, i: int)
    requires
        in_key_order(es),
        0 <= i < es.len(),
    ensures
        lookup(es, es[i].key) == Some(es[i].handle),
    decreases es.len(),
{
    if i < es.len() - 1 {
        crate::session::lemma_key_less_total(es[i].key, es[es.len() - 1].key);
        let front = es.drop_last();
        lemma_front_in_order(es);
        assert(front[i] == es[i]);
        lemma_lookup_at(front, i);
    }
}

proof fn lemma_front_in_order(es: Seq<EntryView>)
    requires
        in_key_order(es),
        es.len() > 0,
    ensures
        in_key_order(es.drop_last()),
{
    let front = es.drop_last();
    assert forall|i: int, j: int| 0 <= i < j < front.len() implies crate::session::key_less(
        (#[trigger] front[i]).key,
        (#[trigger] front[j]).key,
    ) by {
        assert(front[i] == es[i] && front[j] == es[j]);
    }
}

/// A key that is found nowhere has no action.
proof fn lemma_lookup_none(es: Seq<EntryView>, key: KeyView)
    requires
        forall|i: int| 0 <= i < es.len() ==> (#[trigger] es[i]).key != key,
    ensures
        lookup(es, key) is None,
    decreases es.len(),
{
    if es.len() > 0 {
        let front = es.drop_last();
        assert(es[es.len() - 1].key != key);
        assert forall|i: int| 0 <= i < front.len() implies (#[trigger] front[i]).key != key by {
            assert(front[i] == es[i]);
        }
        lemma_lookup_none(front, key);
    }
}

/// Where an entry goes.
proof fn lemma_upserted_at(es: Seq<EntryView>, e: EntryView, at: int)
    requires
        in_key_order(es),
        0 <= at <= es.len(),
        forall|j: int| 0 <= j < at ==> crate::session::key_less((#[trigger] es[j]).key, e.key),
        at < es.len() ==> !crate::session::key_less(es[at].key, e.key),
    ensures
        upserted(es, e) == if at < es.len() && es[at].key == e.key {
            es.update(at, e)
        } else {
            es.insert(at, e)
        },
        lookup(es, e.key) == if at < es.len() && es[at].key == e.key {
            Some(es[at].handle)
        } else {
            None
        },
    decreases es.len(),
{
    let found = at < es.len() && es[at].key == e.key;
    if found {
        lemma_lookup_at(es, at);
    } else {
        assert forall|i: int| 0 <= i < es.len() implies (#[trigger] es[i]).key != e.key by {
            crate::session::lemma_key_less_total(es[i].key, e.key);
            if i > at {
                crate::session::lemma_key_less_total(es[at].key, e.key);
                assert(crate::session::key_less(es[at].key, es[i].key));
                crate::session::lemma_key_less_total(es[at].key, es[i].key);
            }
        }
        lemma_lookup_none(es, e.key);
    }
    if at == es.len() {
        assert(es.insert(at, e) =~= es.push(e));
        if es.len() > 0 {
            assert(es.last() == es[at - 1]);
        }
    } else {
        let front = es.drop_last();
        let last = es[es.len() - 1];
        assert(!crate::session::key_less(last.key, e.key)) by {
            if at < es.len() - 1 {
                assert(crate::session::key_less(es[at].key, last.key));
                crate::session::lemma_key_less_total(es[at].key, e.key);
                if crate::session::key_less(last.key, e.key) {
                    crate::session::lemma_key_less_transitive(es[at].key, last.key, e.key);
                }
            }
        }
        if at == es.len() - 1 && found {
            assert(es.update(at, e) =~= front.push(e));
        } else {
            assert(last.key != e.key) by {
                if at < es.len() - 1 {
                    assert(crate::session::key_less(es[at].key, last.key));
                    crate::session::lemma_key_less_total(es[at].key, e.key);
                }
            }
            lemma_front_in_order(es);
            assert forall|j: int| 0 <= j < at implies crate::session::key_less(
                (#[trigger] front[j]).key,
                e.key,
            ) by {
                assert(front[j] == es[j]);
            }
            if at < front.len() {
                assert(front[at] == es[at]);
            }
            lemma_upserted_at(front, e, at);
            if found {
                assert(es.update(at, e) =~= front.update(at, e).push(last));
            } else {
                assert(es.insert(at, e) =~= front.insert(at, e).push(last));
            }
        }
    }
}

/// Putting an action under a key keeps the order of the keys.
proof fn lemma_upserted_in_order(es: Seq<EntryView>, e: EntryView, at: int)
    requires
        in_key_order(es),
        0 <= at <= es.len(),
        forall|j: int| 0 <= j < at ==> crate::session::key_less((#[trigger] es[j]).key, e.key),
        at < es.len() ==> !crate::session::key_less(es[at].key, e.key),
    ensures
        in_key_order(upserted(es, e)),
{
    lemma_upserted_at(es, e, at);
    let r = upserted(es, e);
    let found = at < es.len() && es[at].key == e.key;
    assert forall|i: int, j: int| 0 <= i < j < r.len() implies crate::session::key_less(
        (#[trigger] r[i]).key,
        (#[trigger] r[j]).key,
    ) by {
        if found {
            assert(r[i].key == es[i].key && r[j].key == es[j].key);
        } else {
            let si = if i < at {
                i
            } else {
                i - 1
            };
            let sj = if j < at {
                j
            } else {
                j - 1
            };
            if i != at && j != at {
                assert(r[i] == es[si] && r[j] == es[sj]);
            } else if j == at {
                assert(r[i] == es[i]);
            } else {
                assert(r[j] == es[sj]);
                crate::session::lemma_key_less_total(es[at].key, e.key);
                if at < sj {
                    assert(crate::session::key_less(es[at].key, es[sj].key));
                    crate::session::lemma_key_less_transitive(e.key, es[at].key, es[sj].key);
                }
            }
        }
    }
}

/// Ending some actions keeps the order of the keys; what goes on is what does not end.
pub proof fn lemma_going_on(es: Seq<EntryView>, ending: Ending, now_us: u64)
    requires
        in_key_order(es),
    ensures
        in_key_order(going_on(es, ending, now_us)),
        forall|e: EntryView| #[trigger]
            going_on(es, ending, now_us).contains(e) <==> es.contains(e) && !ending.ends(e, now_us),
        forall|e: EntryView| #[trigger]
            ended(es, ending, now_us).contains(e) <==> es.contains(e) && ending.ends(e, now_us),
    decreases es.len(),
{
    if es.len() > 0 {
        let front = es.drop_last();
        let last = es.last();
        lemma_front_in_order(es);
        lemma_going_on(front, ending, now_us);
        let kept = going_on(front, ending, now_us);
        let gone = ended(front, ending, now_us);
        assert(es =~= front.push(last));
        lemma_entry_pushed(front, last);
        lemma_entry_pushed(kept, last);
        lemma_entry_pushed(gone, last);
        if !ending.ends(last, now_us) {
            let r = kept.push(last);
            assert forall|i: int, j: int| 0 <= i < j < r.len() implies crate::session::key_less(
                (#[trigger] r[i]).key,
                (#[trigger] r[j]).key,
            ) by {
                if j < kept.len() {
                    assert(r[i] == kept[i] && r[j] == kept[j]);
                } else {
                    assert(r[i] == kept[i]);
                    assert(kept.contains(kept[i]));
                    assert(front.contains(kept[i]));
                    let k = choose|k: int| 0 <= k < front.len() && front[k] == kept[i];
                    assert(es[k] == kept[i]);
                    assert(es[es.len() - 1] == last);
                }
            }
        }
    }
}

proof fn lemma_entry_pushed(es: Seq<EntryView>, last: EntryView)
    ensures
        forall|e: EntryView| #[trigger]
            es.push(last).contains(e) <==> es.contains(e) || e == last,
{
    assert forall|e: EntryView| es.contains(e) || e == last implies #[trigger] es.push(
        last,
    ).contains(e) by {
        if es.contains(e) {
            let k = choose|k: int| 0 <= k < es.len() && es[k] == e;
            assert(es.push(last)[k] == e);
        } else {
            assert(es.push(last)[es.len() as int] == e);
        }
    }
    assert forall|e: EntryView| #[trigger] es.push(last).contains(e) implies es.contains(e) || e
        == last by {
        let k = choose|k: int| 0 <= k < es.push(last).len() && es.push(last)[k] == e;
        if k < es.len() {
            assert(es[k] == e);
        }
    }
}

impl Transmitter {
    pub fn new() -> (r: Self)
        ensures
            r.deep_view() == (TransmitterView {
                preset: None,
                actions: Seq::empty(),
                round_robin: 0,
            }),
            r.deep_view().wf(),
    {
        let r = Transmitter { preset: None, actions: Vec::new(), round_robin: 0 };
        assert(r.deep_view().actions =~= Seq::empty());
        r
    }

    /// Ends some actions.
    fn end_actions(&mut self, ending: Ending, now_us: u64) -> (r: Vec<Completion>)
        requires
            old(self).deep_view().wf(),
        ensures
            final(self).deep_view().wf(),
            final(self).deep_view() == without(old(self).deep_view(), ending, now_us).0,
            r.deep_view() == completions(
                without(old(self).deep_view(), ending, now_us).1,
                now_us,
            ),
    {
        let ghost es = self.actions.deep_view();
        let mut kept: Vec<ActionEntry> = Vec::new();
        let mut gone: Vec<Completion> = Vec::new();
        let mut i: usize = 0;
        assert(es.take(0) =~= Seq::empty());
        assert(kept.deep_view() =~= Seq::empty());
        assert(gone.deep_view() =~= completions(Seq::empty(), now_us));
        while i < self.actions.len()
            invariant
                i <= self.actions@.len(),
                *self == *old(self),
                es == self.actions.deep_view(),
                kept.deep_view() == going_on(es.take(i as int), ending, now_us),
                gone.deep_view() == completions(ended(es.take(i as int), ending, now_us), now_us),
            decreases self.actions@.len() - i,
        {
            let entry = &self.actions[i];
            let ghost e = entry.deep_view();
            proof {
                assert(es.take(i + 1).drop_last() =~= es.take(i as int));
                assert(es.take(i + 1).last() == e);
            }
            if ending.check(entry, now_us) {
                let ghost before = gone.deep_view();
                let done = completion_of(&entry.key, &entry.handle, now_us);
                gone.push(done);
                assert(gone.deep_view() =~= before.push(completion(e, now_us)));
                assert(completions(ended(es.take(i as int), ending, now_us).push(e), now_us)
                    =~= completions(ended(es.take(i as int), ending, now_us), now_us).push(
                    completion(e, now_us),
                ));
            } else {
                let ghost before = kept.deep_view();
                let copy = ActionEntry { key: entry.key.clone(), handle: entry.handle };
                kept.push(copy);
                assert(kept.deep_view() =~= before.push(e));
            }
            i = i + 1;
        }
        proof {
            assert(es.take(i as int) =~= es);
            lemma_going_on(es, ending, now_us);
        }
        self.actions = kept;
        gone
    }

    /// Ends the actions whose time is up.
    pub fn drain_expired_actions(&mut self, now_us: u64) -> (r: Vec<Completion>)
        requires
            old(self).deep_view().wf(),
        ensures
            final(self).deep_view().wf(),
            final(self).deep_view() == without(
                old(self).deep_view(),
                Ending::Expired,
                now_us,
            ).0,
            r.deep_view() == completions(
                without(old(self).deep_view(), Ending::Expired, now_us).1,
                now_us,
            ),
    {
        self.end_actions(Ending::Expired, now_us)
    }

    /// Puts an action under a key, and says which one ended by it.
    fn upsert(&mut self, key: ActionKey, handle: ActiveActionHandle, now_us: u64) -> (r: Vec<
        Completion,
    >)
        requires
            old(self).deep_view().wf(),
        ensures
            final(self).deep_view().wf(),
            final(self).deep_view() == commanded(
                old(self).deep_view(),
                TransmissionCommand::UpsertAction { key, handle },
                now_us,
            ).0,
            r.deep_view() == completions(
                commanded(
                    old(self).deep_view(),
                    TransmissionCommand::UpsertAction { key, handle },
                    now_us,
                ).1,
                now_us,
            ),
    {
        let ghost es = self.actions.deep_view();
        let ghost e = EntryView { key: key@, handle };
        let mut at: usize = 0;
        while at < self.actions.len() && key_before(&self.actions[at].key, &key)
            invariant
                at <= self.actions@.len(),
                *self == *old(self),
                es == self.actions.deep_view(),
                e == (EntryView { key: key@, handle }),
                forall|j: int|
                    0 <= j < at ==> crate::session::key_less((#[trigger] es[j]).key, e.key),
            decreases self.actions@.len() - at,
        {
            assert(es[at as int].key == self.actions@[at as int].key@);
            at = at + 1;
        }
        proof {
            if at < self.actions@.len() {
                assert(es[at as int].key == self.actions@[at as int].key@);
            }
            lemma_upserted_at(es, e, at as int);
            lemma_upserted_in_order(es, e, at as int);
        }
        let mut gone: Vec<Completion> = Vec::new();
        if at < self.actions.len() && self.actions[at].key.same_as(&key) {
            let previous = self.actions[at].handle;
            let done = completion_of(&key, &previous, now_us);
            gone.push(done);
            self.actions.set(at, ActionEntry { key, handle });
            assert(self.actions.deep_view() =~= es.update(at as int, e));
            assert(gone.deep_view() =~= completions(
                seq![EntryView { key: key@, handle: previous }],
                now_us,
            ));
        } else {
            self.actions.insert(at, ActionEntry { key, handle });
            assert(self.actions.deep_view() =~= es.insert(at as int, e));
            assert(gone.deep_view() =~= completions(Seq::empty(), now_us));
        }
        gone
    }

    /// Takes in a command, and says which actions ended by it.
    pub fn apply_command(&mut self, command: TransmissionCommand, now_us: u64) -> (r: Vec<
        Completion,
    >)
        requires
            old(self).deep_view().wf(),
        ensures
            final(self).deep_view().wf(),
            final(self).deep_view() == commanded(old(self).deep_view(), command, now_us).0,
            r.deep_view() == completions(
                commanded(old(self).deep_view(), command, now_us).1,
                now_us,
            ),
    {
        match command {
            TransmissionCommand::UpsertAction { key, handle } => self.upsert(key, handle, now_us),
            TransmissionCommand::CancelAction { key } => self.end_actions(
                Ending::Keyed(key),
                now_us,
            ),
            TransmissionCommand::CancelOwnedActions { owner } => self.end_actions(
                Ending::Owned(owner),
                now_us,
            ),
            TransmissionCommand::CancelAllActions => self.end_actions(Ending::All, now_us),
            TransmissionCommand::StartPreset { preset_name, events } => {
                self.preset = Some(
                    ActivePreset { events, preset_name, started_at_us: now_us, event_index: 0 },
                );
                let gone: Vec<Completion> = Vec::new();
                assert(gone.deep_view() =~= completions(Seq::empty(), now_us));
                gone
            },
            TransmissionCommand::StopPreset => {
                self.preset = None;
                let gone: Vec<Completion> = Vec::new();
                assert(gone.deep_view() =~= completions(Seq::empty(), now_us));
                gone
            },
            TransmissionCommand::StopAll => {
                self.preset = None;
                self.end_actions(Ending::All, now_us)
            },
        }
    }

    /// The action whose turn it is, or a wait.
    pub fn next_manual_action(&mut self, timeout_us: u64) -> (r: Next)
        ensures
            (final(self).deep_view(), r.deep_view()) == action_or_wait(
                old(self).deep_view(),
                timeout_us as int,
            ),
    {
        let n: usize = self.actions.len();
        assert(self.deep_view().actions.len() == n);
        if n == 0 {
            return Next::Wait { timeout_us };
        }
        let at: usize = self.round_robin % n;
        let entry = &self.actions[at];
        let key = entry.key.clone();
        let handle = entry.handle;
        assert(self.deep_view().actions[at as int] == (EntryView { key: key@, handle }));
        self.round_robin = (at + 1) % n;
        Next::Action { key, handle }
    }

    /// Decides what to do next; names a preset that turned out to be over.
    pub fn next(&mut self, now_us: u64) -> (r: (Option<String>, Next))
        ensures
            (final(self).deep_view(), r.0.deep_view(), r.1.deep_view()) == next_step(
                old(self).deep_view(),
                now_us,
            ),
    {
        let running = self.preset.take();
        let mut preset = match running {
            None => {
                return (None, self.next_manual_action(WORKER_IDLE_TIMEOUT_US));
            },
            Some(preset) => preset,
        };
        if preset.event_index >= preset.events.len() {
            return (Some(preset.preset_name), self.next_manual_action(WORKER_IDLE_TIMEOUT_US));
        }
        let event = preset.events[preset.event_index];
        let due: u128 = event.time_ms as u128 * 1000;
        let since: u64 = elapsed(preset.started_at_us, now_us);
        if since as u128 >= due {
            if preset.event_index + 1 >= preset.events.len() {
                return (None, Next::Preset { event, completed: Some(preset.preset_name) });
            }
            preset.event_index = preset.event_index + 1;
            self.preset = Some(preset);
            return (None, Next::Preset { event, completed: None });
        }
        let until: u128 = due - since as u128;
        let pause: u64 = if until < WORKER_IDLE_TIMEOUT_US as u128 {
            until as u64
        } else {
            WORKER_IDLE_TIMEOUT_US
        };
        self.preset = Some(preset);
        if until > RF_COMMAND_TRANSMIT_DURATION_US as u128 {
            return (None, self.next_manual_action(pause));
        }
        (None, Next::Wait { timeout_us: pause })
    }
}

// ----- Laws -----

/// Putting an action under a key changes what runs under that key and nothing else.
pub proof fn lemma_upsert_changes_one(es: Seq<EntryView>, e: EntryView, key: KeyView)
    requires
        in_key_order(es),
    ensures
        lookup(upserted(es, e), key) == if key == e.key {
            Some(e.handle)
        } else {
            lookup(es, key)
        },
    decreases es.len(),
{
    if es.len() == 0 {
        assert(es.push(e).drop_last() =~= es);
    } else {
        let front = es.drop_last();
        let last = es.last();
        lemma_front_in_order(es);
        if crate::session::key_less(last.key, e.key) {
            assert(es.push(e).drop_last() =~= es);
        } else if last.key == e.key {
            assert(front.push(e).drop_last() =~= front);
        } else {
            lemma_upsert_changes_one(front, e, key);
            assert(upserted(front, e).push(last).drop_last() =~= upserted(front, e));
        }
    }
}

/// When a connection ends, its held actions end, and no other action does.
pub proof fn lemma_disconnect_ends_held_actions(
    t: TransmitterView,
    owner: ActionOwner,
    now_us: u64,
)
    requires
        t.wf(),
    ensures
        ({
            let after = commanded(
                t,
                TransmissionCommand::CancelOwnedActions { owner },
                now_us,
            ).0;
            &&& after.preset == t.preset
            &&& forall|e: EntryView| #[trigger]
                after.actions.contains(e) <==> t.actions.contains(e) && !(
                e.handle.cancel_on_disconnect && e.handle.owner == Some(owner))
        }),
{
    lemma_going_on(t.actions, Ending::Owned(owner), now_us);
}

/// After an emergency stop nothing is being transmitted.
pub proof fn lemma_stop_all_stops_everything(t: TransmitterView, now_us: u64)
    requires
        t.wf(),
    ensures
        commanded(t, TransmissionCommand::StopAll, now_us).0.preset is None,
        commanded(t, TransmissionCommand::StopAll, now_us).0.actions.len() == 0,
        commanded(t, TransmissionCommand::StopAll, now_us).1 == t.actions,
{
    lemma_all_end(t.actions, now_us);
}

proof fn lemma_all_end(es: Seq<EntryView>, now_us: u64)
    ensures
        going_on(es, Ending::All, now_us).len() == 0,
        ended(es, Ending::All, now_us) == es,
    decreases es.len(),
{
    if es.len() > 0 {
        lemma_all_end(es.drop_last(), now_us);
        assert(es.drop_last().push(es.last()) =~= es);
    }
}

/// The turn after `k` turns.
pub open spec fn turn_after(actions: nat, round_robin: int, k: nat) -> int
    decreases k,
{
    if k == 0 {
        round_robin
    } else {
        turn(actions, turn_after(actions, round_robin, (k - 1) as nat)).1
    }
}

/// As long as the actions stay the same they take turns: every action is served exactly once in
/// as many turns as there are actions.
pub proof fn lemma_actions_take_turns(actions: nat, round_robin: int, at: int)
    requires
        actions > 0,
        0 <= round_robin,
        0 <= at < actions,
    ensures
        exists|k: nat|
            k < actions && #[trigger] turn(actions, turn_after(actions, round_robin, k)).0 == at,
        forall|j: nat, k: nat|
            j < k < actions ==> turn(
                actions,
                #[trigger] turn_after(actions, round_robin, j),
            ).0 != turn(actions, #[trigger] turn_after(actions, round_robin, k)).0,
{
    let n = actions as int;
    let start = round_robin % n;
    assert(0 <= start < n) by (nonlinear_arith)
        requires
            n > 0,
            start == round_robin % n,
    ;
    assert forall|k: nat| k < actions implies turn(
        actions,
        #[trigger] turn_after(actions, round_robin, k),
    ).0 == if start + k < n {
        start + k
    } else {
        start + k - n
    } by {
        lemma_turn_after(actions, round_robin, k);
    }
    let k = if at >= start {
        at - start
    } else {
        at - start + n
    };
    assert(turn(actions, turn_after(actions, round_robin, k as nat)).0 == at);
}

/// The actions that are served in `k` turns, and what is being transmitted after them.
pub open spec fn served(t: TransmitterView, timeout_us: int, k: nat) -> (
    TransmitterView,
    Seq<NextView>,
)
    decreases k,
{
    if k == 0 {
        (t, Seq::empty())
    } else {
        let before = served(t, timeout_us, (k - 1) as nat);
        let step = action_or_wait(before.0, timeout_us);
        (step.0, before.1.push(step.1))
    }
}

/// In as many turns as there are actions, each of them is served exactly once and as it stands, in
/// the order of their keys from the one whose turn it is, round and round. Nothing but the turn
/// changes, and it stays within the actions. Without actions there is only a wait.
pub proof fn lemma_round_serves_every_action(t: TransmitterView, timeout_us: int)
    requires
        t.wf(),
        0 <= t.round_robin,
    ensures
        t.actions.len() == 0 ==> action_or_wait(t, timeout_us) == (
            t,
            NextView::Wait { timeout_us },
        ),
        t.actions.len() > 0 ==> {
            let n = t.actions.len();
            let round = served(t, timeout_us, n);
            &&& round.0 == (TransmitterView { round_robin: round.0.round_robin, ..t })
            &&& 0 <= round.0.round_robin < n
            &&& round.1.len() == n
            &&& forall|k: int|
                0 <= k < n ==> #[trigger] round.1[k] == (NextView::Action {
                    entry: t.actions[cyclic(n, t.round_robin, k)],
                })
            &&& forall|at: int|
                0 <= at < n ==> round.1.contains(NextView::Action { entry: #[trigger] t.actions[at] })
            &&& forall|j: int, k: int|
                0 <= j < k < n ==> #[trigger] round.1[j] != #[trigger] round.1[k]
        },
{
    let n = t.actions.len();
    if n > 0 {
        lemma_served(t, timeout_us, n);
        let round = served(t, timeout_us, n);
        let start = t.round_robin % (n as int);
        assert(0 <= start < n) by (nonlinear_arith)
            requires
                n > 0,
                start == t.round_robin % (n as int),
        ;
        assert forall|at: int| 0 <= at < n implies round.1.contains(
            NextView::Action { entry: #[trigger] t.actions[at] },
        ) by {
            let k = if at >= start {
                at - start
            } else {
                at - start + n
            };
            assert(cyclic(n, t.round_robin, k) == at);
            assert(round.1[k] == (NextView::Action { entry: t.actions[at] }));
        }
        assert forall|j: int, k: int| 0 <= j < k < n implies #[trigger] round.1[j]
            != #[trigger] round.1[k] by {
            let a = cyclic(n, t.round_robin, j);
            let b = cyclic(n, t.round_robin, k);
            assert(a != b);
            if a < b {
                crate::session::lemma_key_less_total(t.actions[a].key, t.actions[b].key);
            } else {
                crate::session::lemma_key_less_total(t.actions[b].key, t.actions[a].key);
            }
        }
    }
}

/// The place that is served `k` turns from now, counted round and round.
pub open spec fn cyclic(actions: nat, round_robin: int, k: int) -> int {
    let start = round_robin % (actions as int);
    if start + k < actions {
        start + k
    } else {
        start + k - actions
    }
}

proof fn lemma_served(t: TransmitterView, timeout_us: int, k: nat)
    requires
        0 < k <= t.actions.len(),
        0 <= t.round_robin,
    ensures
        ({
            let n = t.actions.len();
            let r = served(t, timeout_us, k);
            &&& r.0 == (TransmitterView { round_robin: r.0.round_robin, ..t })
            &&& r.0.round_robin == turn_after(n, t.round_robin, k)
            &&& 0 <= r.0.round_robin < n
            &&& r.1.len() == k
            &&& forall|i: int|
                0 <= i < k ==> #[trigger] r.1[i] == (NextView::Action {
                    entry: t.actions[cyclic(n, t.round_robin, i)],
                })
        }),
    decreases k,
{
    let n = t.actions.len();
    let before = served(t, timeout_us, (k - 1) as nat);
    if k > 1 {
        lemma_served(t, timeout_us, (k - 1) as nat);
    } else {
        assert(before == (t, Seq::<NextView>::empty()));
    }
    lemma_turn_after(n, t.round_robin, (k - 1) as nat);
    let at = before.0.round_robin % (n as int);
    let next = (at + 1) % (n as int);
    assert(0 <= next < n) by (nonlinear_arith)
        requires
            n > 0,
            next == (at + 1) % (n as int),
    ;
}

proof fn lemma_turn_after(actions: nat, round_robin: int, k: nat)
    requires
        actions > 0,
        k < actions,
        0 <= round_robin,
    ensures
        ({
            let n = actions as int;
            let start = round_robin % n;
            &&& 0 <= start < n
            &&& turn(actions, turn_after(actions, round_robin, k)).0 == if start + k < n {
                start + k
            } else {
                start + k - n
            }
        }),
    decreases k,
{
    let n = actions as int;
    let start = round_robin % n;
    assert(0 <= start < n) by (nonlinear_arith)
        requires
            n > 0,
            start == round_robin % n,
    ;
    if k > 0 {
        lemma_turn_after(actions, round_robin, (k - 1) as nat);
        let before = turn_after(actions, round_robin, (k - 1) as nat);
        let at = turn(actions, before).0;
        let next = (at + 1) % n;
        assert(0 <= at < n);
        assert(next == if at + 1 < n {
            at + 1
        } else {
            0
        }) by (nonlinear_arith)
            requires
                0 <= at < n,
                next == (at + 1) % n,
        ;
        assert(next % n == next) by (nonlinear_arith)
            requires
                0 <= next < n,
        ;
    }
}

/// An action is given a turn only if its command is over before the next command of the preset is
/// due.
pub proof fn lemma_preset_is_not_delayed(t: TransmitterView, now_us: u64)
    requires
        t.preset is Some,
        0 <= t.preset->0.event_index < t.preset->0.events.len(),
        next_step(t, now_us).2 is Action,
    ensures
        ({
            let p = t.preset->0;
            elapsed_us(p.started_at_us, now_us) + RF_COMMAND_TRANSMIT_DURATION_US < due_us(
                p.events[p.event_index],
            )
        }),
{
}

// ----- Running a preset -----

/// What `next` gives when it is asked at each of these moments, and what is being transmitted
/// after that.
pub open spec fn asked(t: TransmitterView, moments: Seq<u64>) -> (
    TransmitterView,
    Seq<(Option<Seq<char>>, NextView)>,
)
    decreases moments.len(),
{
    if moments.len() == 0 {
        (t, Seq::empty())
    } else {
        let before = asked(t, moments.drop_last());
        let step = next_step(before.0, moments.last());
        (step.0, before.1.push((step.1, step.2)))
    }
}

/// The transmissions of presets among what `next` gave, in their order.
pub open spec fn handed_out(given: Seq<(Option<Seq<char>>, NextView)>) -> Seq<PresetEvent>
    decreases given.len(),
{
    if given.len() == 0 {
        Seq::empty()
    } else {
        match given.last().1 {
            NextView::Preset { event, .. } => handed_out(given.drop_last()).push(event),
            _ => handed_out(given.drop_last()),
        }
    }
}

/// However often and whenever `next` is asked, a preset that was started hands out its
/// transmissions in their order, each once, and goes on with the next one until none is left. A
/// transmission is handed out as soon as `next` is asked at or after the moment when it is due,
/// and not before. The preset is named as completed with its last transmission and never
/// otherwise. The actions stay as they are.
pub proof fn lemma_preset_is_sent_whole(
    t: TransmitterView,
    preset_name: String,
    events: Vec<PresetEvent>,
    start_us: u64,
    moments: Seq<u64>,
)
    requires
        events@.len() > 0,
        forall|k: int| 0 <= k < moments.len() ==> start_us <= #[trigger] moments[k],
    ensures
        ({
            let n = events@.len();
            let begun = commanded(
                t,
                TransmissionCommand::StartPreset { preset_name, events },
                start_us,
            ).0;
            let r = asked(begun, moments);
            let sent = handed_out(r.1);
            &&& r.1.len() == moments.len()
            &&& sent.len() <= n
            &&& sent == events@.take(sent.len() as int)
            &&& sent.len() < n ==> r.0.preset == Some(
                ActivePresetView {
                    events: events@,
                    preset_name: preset_name@,
                    started_at_us: start_us,
                    event_index: sent.len() as int,
                },
            )
            &&& sent.len() == n ==> r.0.preset is None
            &&& r.0.actions == t.actions
            &&& forall|k: int| 0 <= k < moments.len() ==> (#[trigger] r.1[k]).0 is None
            &&& forall|k: int|
                0 <= k < moments.len() ==> {
                    let place = handed_out(r.1.take(k)).len();
                    ((#[trigger] r.1[k]).1 is Preset) == (place < n && moments[k] - start_us
                        >= events@[place as int].time_ms * 1000)
                }
            &&& forall|k: int|
                0 <= k < moments.len() && (#[trigger] r.1[k]).1 is Preset ==> {
                    let place = handed_out(r.1.take(k)).len();
                    r.1[k].1 == (NextView::Preset {
                        event: events@[place as int],
                        completed: if place + 1 == n {
                            Some(preset_name@)
                        } else {
                            None
                        },
                    })
                }
        }),
    decreases moments.len(),
{
    let n = events@.len();
    let begun = commanded(
        t,
        TransmissionCommand::StartPreset { preset_name, events },
        start_us,
    ).0;
    let r = asked(begun, moments);
    if moments.len() == 0 {
        assert(events@.take(0) =~= Seq::empty());
    } else {
        let front = moments.drop_last();
        let last = moments.len() - 1;
        assert forall|k: int| 0 <= k < front.len() implies start_us <= #[trigger] front[k] by {
            assert(front[k] == moments[k]);
        }
        lemma_preset_is_sent_whole(t, preset_name, events, start_us, front);
        let before = asked(begun, front);
        let place = handed_out(before.1).len() as int;
        assert(r.1.drop_last() =~= before.1);
        assert(r.1.take(last) =~= before.1);
        assert(moments[last] == moments.last());
        if place < n {
            assert(events@.take(place + 1) =~= events@.take(place).push(events@[place]));
        }
        assert forall|k: int| 0 <= k < front.len() implies #[trigger] r.1[k] == before.1[k]
            && r.1.take(k) == before.1.take(k) && moments[k] == front[k] by {
            assert(r.1.take(k) =~= before.1.take(k));
        }
    }
}

/// A preset without transmissions is over when `next` is asked for the first time, and is named
/// then; what else is given is given as if there were no preset.
pub proof fn lemma_empty_preset_is_over_at_once(
    t: TransmitterView,
    preset_name: String,
    events: Vec<PresetEvent>,
    start_us: u64,
    now_us: u64,
)
    requires
        events@.len() == 0,
    ensures
        ({
            let begun = commanded(
                t,
                TransmissionCommand::StartPreset { preset_name, events },
                start_us,
            ).0;
            let idle = commanded(t, TransmissionCommand::StopPreset, start_us).0;
            &&& next_step(begun, now_us).1 == Some(preset_name@)
            &&& next_step(begun, now_us).0 == next_step(idle, now_us).0
            &&& next_step(begun, now_us).2 == next_step(idle, now_us).2
        }),
{
}

/// While a transmission of the preset is still to come, actions take turns exactly where one of
/// their commands is over before it is due. Otherwise the worker waits, at most 10 ms and never
/// beyond that moment.
pub proof fn lemma_actions_fill_the_gaps(t: TransmitterView, now_us: u64)
    requires
        t.preset is Some,
        0 <= t.preset->0.event_index < t.preset->0.events.len(),
        t.preset->0.started_at_us <= now_us,
        now_us < t.preset->0.started_at_us + t.preset->0.events[t.preset->0.event_index].time_ms
            * 1000,
    ensures
        ({
            let p = t.preset->0;
            let left = p.started_at_us + p.events[p.event_index].time_ms * 1000 - now_us;
            let r = next_step(t, now_us);
            &&& r.1 is None
            &&& r.0.preset == t.preset
            &&& r.0.actions == t.actions
            &&& (r.2 is Action) == (t.actions.len() > 0 && left > RF_COMMAND_TRANSMIT_DURATION_US)
            &&& r.2 matches NextView::Action { entry } ==> t.actions.contains(entry)
            &&& !(r.2 is Action) ==> r.0 == t && r.2 == (NextView::Wait {
                timeout_us: if left < 10_000 {
                    left
                } else {
                    10_000
                },
            })
        }),
{
    if t.actions.len() > 0 {
        lemma_turn_in_range(t.actions.len(), t.round_robin);
    }
}

/// Without a preset the actions take every turn; without actions too the worker waits 10 ms.
pub proof fn lemma_actions_alone(t: TransmitterView, now_us: u64)
    requires
        t.preset is None,
    ensures
        ({
            let r = next_step(t, now_us);
            &&& r.1 is None
            &&& r.0.preset is None
            &&& r.0.actions == t.actions
            &&& t.actions.len() > 0 ==> r.2 == (NextView::Action {
                entry: t.actions[t.round_robin % (t.actions.len() as int)],
            })
            &&& t.actions.len() > 0 ==> r.0.round_robin == (t.round_robin + 1) % (
            t.actions.len() as int)
            &&& t.actions.len() == 0 ==> r.0 == t && r.2 == (NextView::Wait { timeout_us: 10_000 })
        }),
{
    if t.actions.len() > 0 {
        let n = t.actions.len() as int;
        let i = t.round_robin;
        lemma_turn_in_range(t.actions.len(), i);
        assert((i % n + 1) % n == (i + 1) % n) by {
            vstd::arithmetic::div_mod::lemma_add_mod_noop_right(1, i, n);
        }
    }
}

proof fn lemma_turn_in_range(actions: nat, round_robin: int)
    requires
        actions > 0,
    ensures
        0 <= turn(actions, round_robin).0 < actions,
        turn(actions, round_robin).0 == round_robin % (actions as int),
{
    let n = actions as int;
    assert(0 <= round_robin % n < n) by (nonlinear_arith)
        requires
            n > 0,
    ;
}

// ----- What commands do -----

/// Putting an action under a key lets it run there in place of one that ran under it before, which
/// ends; every other action and the preset go on.
pub proof fn lemma_upsert_replaces_one(
    t: TransmitterView,
    key: ActionKey,
    handle: ActiveActionHandle,
    now_us: u64,
)
    requires
        t.wf(),
    ensures
        ({
            let r = commanded(t, TransmissionCommand::UpsertAction { key, handle }, now_us);
            &&& r.0.wf()
            &&& r.0.preset == t.preset
            &&& r.0.round_robin == t.round_robin
            &&& forall|e: EntryView| #[trigger]
                r.0.actions.contains(e) <==> e == (EntryView { key: key@, handle }) || (
                t.actions.contains(e) && e.key != key@)
            &&& forall|e: EntryView| #[trigger]
                r.1.contains(e) <==> t.actions.contains(e) && e.key == key@
            &&& r.1.len() <= 1
        }),
{
    let es = t.actions;
    let e = EntryView { key: key@, handle };
    let at = lemma_place_for(es, e.key);
    lemma_upserted_at(es, e, at);
    lemma_upserted_in_order(es, e, at);
    let r = commanded(t, TransmissionCommand::UpsertAction { key, handle }, now_us);
    let after = r.0.actions;
    let found = at < es.len() && es[at].key == e.key;
    assert forall|x: EntryView| #[trigger] after.contains(x) implies x == e || (es.contains(x)
        && x.key != e.key) by {
        let k = choose|k: int| 0 <= k < after.len() && after[k] == x;
        if found {
            if k != at {
                assert(es[k] == x);
                lemma_keys_differ(es, k, at);
            }
        } else if k != at {
            let j = if k < at {
                k
            } else {
                k - 1
            };
            assert(es[j] == x);
            if x.key == e.key {
                lemma_lookup_at(es, j);
            }
        }
    }
    assert forall|x: EntryView| x == e || (es.contains(x) && x.key != e.key) implies
        #[trigger] after.contains(x) by {
        if x == e {
            assert(after[at] == e);
        } else {
            let j = choose|j: int| 0 <= j < es.len() && es[j] == x;
            if found || j < at {
                assert(after[j] == x);
            } else {
                assert(after[j + 1] == x);
            }
        }
    }
    assert forall|x: EntryView| #[trigger] r.1.contains(x) <==> es.contains(x) && x.key == e.key by {
        if es.contains(x) && x.key == e.key {
            let j = choose|j: int| 0 <= j < es.len() && es[j] == x;
            lemma_lookup_at(es, j);
            assert(r.1[0] == x);
        }
        if r.1.contains(x) {
            assert(found);
            assert(x == es[at]);
        }
    }
}

proof fn lemma_keys_differ(es: Seq<EntryView>, i: int, j: int)
    requires
        in_key_order(es),
        0 <= i < es.len(),
        0 <= j < es.len(),
        i != j,
    ensures
        es[i].key != es[j].key,
{
    crate::session::lemma_key_less_total(es[i].key, es[j].key);
    crate::session::lemma_key_less_total(es[j].key, es[i].key);
    if i < j {
        assert(crate::session::key_less(es[i].key, es[j].key));
    } else {
        assert(crate::session::key_less(es[j].key, es[i].key));
    }
}

/// The place in front of the first entry whose key is not smaller.
proof fn lemma_place_for(es: Seq<EntryView>, key: KeyView) -> (at: int)
    requires
        in_key_order(es),
    ensures
        0 <= at <= es.len(),
        forall|j: int| 0 <= j < at ==> crate::session::key_less((#[trigger] es[j]).key, key),
        at < es.len() ==> !crate::session::key_less(es[at].key, key),
    decreases es.len(),
{
    if es.len() == 0 {
        0
    } else {
        let front = es.drop_last();
        lemma_front_in_order(es);
        let at = lemma_place_for(front, key);
        assert forall|j: int| 0 <= j < at implies crate::session::key_less(
            (#[trigger] es[j]).key,
            key,
        ) by {
            assert(front[j] == es[j]);
        }
        if at < front.len() {
            assert(front[at] == es[at]);
            at
        } else if crate::session::key_less(es.last().key, key) {
            es.len() as int
        } else {
            at
        }
    }
}

/// Cancelling the action under a key ends it; every other action and the preset go on.
pub proof fn lemma_cancel_ends_one(t: TransmitterView, key: ActionKey, now_us: u64)
    requires
        t.wf(),
    ensures
        ({
            let r = commanded(t, TransmissionCommand::CancelAction { key }, now_us);
            &&& r.0.wf()
            &&& r.0.preset == t.preset
            &&& r.0.round_robin == t.round_robin
            &&& forall|e: EntryView| #[trigger]
                r.0.actions.contains(e) <==> t.actions.contains(e) && e.key != key@
            &&& forall|e: EntryView| #[trigger]
                r.1.contains(e) <==> t.actions.contains(e) && e.key == key@
            &&& r.0.actions.len() + r.1.len() == t.actions.len()
        }),
{
    lemma_going_on(t.actions, Ending::Keyed(key), now_us);
    lemma_each_goes_on_or_ends(t.actions, Ending::Keyed(key), now_us);
}

/// Cancelling the actions ends all of them and leaves the preset running; stopping the preset ends
/// it and leaves the actions running.
pub proof fn lemma_cancel_all_and_stop_preset(t: TransmitterView, now_us: u64)
    ensures
        ({
            let cancelled = commanded(t, TransmissionCommand::CancelAllActions, now_us);
            let stopped = commanded(t, TransmissionCommand::StopPreset, now_us);
            &&& cancelled.0.actions.len() == 0
            &&& cancelled.0.preset == t.preset
            &&& cancelled.1 == t.actions
            &&& stopped.0.preset is None
            &&& stopped.0.actions == t.actions
            &&& stopped.1.len() == 0
        }),
{
    lemma_all_end(t.actions, now_us);
}

/// Starting a preset ends no action, and replaces a preset that was running.
pub proof fn lemma_start_preset_replaces(
    t: TransmitterView,
    preset_name: String,
    events: Vec<PresetEvent>,
    now_us: u64,
)
    ensures
        ({
            let r = commanded(t, TransmissionCommand::StartPreset { preset_name, events }, now_us);
            &&& r.0.actions == t.actions
            &&& r.0.round_robin == t.round_robin
            &&& r.1.len() == 0
            &&& r.0.preset is Some
            &&& r.0.preset->0.events == events@
            &&& r.0.preset->0.preset_name == preset_name@
            &&& r.0.preset->0.started_at_us == now_us
            &&& r.0.preset->0.event_index == 0
        }),
{
}

/// An action with a deadline ends when the deadline is reached and not before; one without goes on.
pub proof fn lemma_actions_end_at_their_deadline(t: TransmitterView, now_us: u64)
    requires
        t.wf(),
    ensures
        ({
            let r = without(t, Ending::Expired, now_us);
            &&& r.0.wf()
            &&& r.0.preset == t.preset
            &&& r.0.round_robin == t.round_robin
            &&& forall|e: EntryView| #[trigger]
                r.0.actions.contains(e) <==> t.actions.contains(e) && (e.handle.deadline_us is None
                    || now_us < e.handle.deadline_us->0)
            &&& forall|e: EntryView| #[trigger]
                r.1.contains(e) <==> t.actions.contains(e) && e.handle.deadline_us is Some
                    && e.handle.deadline_us->0 <= now_us
            &&& r.0.actions.len() + r.1.len() == t.actions.len()
        }),
{
    lemma_going_on(t.actions, Ending::Expired, now_us);
    lemma_each_goes_on_or_ends(t.actions, Ending::Expired, now_us);
}

proof fn lemma_each_goes_on_or_ends(es: Seq<EntryView>, ending: Ending, now_us: u64)
    ensures
        going_on(es, ending, now_us).len() + ended(es, ending, now_us).len() == es.len(),
    decreases es.len(),
{
    if es.len() > 0 {
        lemma_each_goes_on_or_ends(es.drop_last(), ending, now_us);
    }
}

/// The log says of each action that ended who asked for it, for which collar and in which mode, how
/// strong it was unless it beeped, and how many whole milliseconds it ran.
pub proof fn lemma_completions_tell_what_ended(es: Seq<EntryView>, now_us: u64, i: int)
    requires
        0 <= i < es.len(),
        es[i].handle.started_at_us <= now_us,
        (now_us - es[i].handle.started_at_us) / 1000 <= u32::MAX,
    ensures
        completions(es, now_us).len() == es.len(),
        completions(es, now_us)[i].source == es[i].handle.source,
        completions(es, now_us)[i].collar_name == es[i].key.collar_name,
        completions(es, now_us)[i].mode == es[i].key.mode,
        completions(es, now_us)[i].intensity == if es[i].key.mode is Beep {
            None
        } else {
            Some(es[i].handle.intensity)
        },
        completions(es, now_us)[i].duration_ms * 1000 <= now_us - es[i].handle.started_at_us,
        now_us - es[i].handle.started_at_us < completions(es, now_us)[i].duration_ms * 1000 + 1000,
{
}

} // verus!
