//! What the broker asks of the device.

use vstd::prelude::*;

use crate::mqtt::slug::slugify;
use crate::mqtt::state::{
    find_intensity, keep, set_intensity, MqttState, MqttStateView, Publication, PublicationView,
};
use crate::mqtt::texts::{action_duration_topic, intensity_topic};
use crate::protocol::messages::ClientMessage;
use crate::protocol::model::CommandMode;
use crate::text::{
    chars_of, decimal_text, parse_unsigned, push_text, same_text, split_text, string_of,
    strip_prefix, strip_suffix, trim, utf8_text,
};

verus! {

/// What follows from a message.
#[derive(Debug)]
pub enum Incoming {
    Nothing,
    /// A state to publish.
    Publish(Publication),
    /// A message to handle as one of a client.
    Dispatch(ClientMessage),
}

pub enum IncomingView {
    Nothing,
    Publish(PublicationView),
    RunAction { collar_name: Seq<char>, mode: CommandMode, intensity: u8, duration_ms: u32 },
    RunPreset { name: Seq<char> },
    /// Any other message.
    Other(ClientMessage),
}

impl DeepView for Incoming {
    type V = IncomingView;

    open spec fn deep_view(&self) -> IncomingView {
        match self {
            Incoming::Nothing => IncomingView::Nothing,
            Incoming::Publish(p) => IncomingView::Publish(p.deep_view()),
            Incoming::Dispatch(m) => asked(*m),
        }
    }
}

/// What a message asks for: a fixed action or a preset, where it is one of these.
pub open spec fn asked(m: ClientMessage) -> IncomingView {
    match m {
        ClientMessage::RunAction {
            collar_name,
            mode,
            intensity,
            duration_ms,
            intensity_max,
            duration_max_ms,
            intensity_distribution,
            duration_distribution,
        } => if intensity_max is None && duration_max_ms is None && intensity_distribution is None
            && duration_distribution is None {
            IncomingView::RunAction { collar_name: collar_name@, mode, intensity, duration_ms }
        } else {
            IncomingView::Other(m)
        },
        ClientMessage::RunPreset { name } => IncomingView::RunPreset { name: name@ },
        _ => IncomingView::Other(m),
    }
}

/// The last of the names that has the slug.
pub open spec fn named_by_slug(names: Seq<Seq<char>>, slug: Seq<char>) -> Option<Seq<char>>
    decreases names.len(),
{
    if names.len() == 0 {
        None
    } else if crate::mqtt::slug::slug(names.last()) == slug {
        Some(names.last())
    } else {
        named_by_slug(names.drop_last(), slug)
    }
}

/// The mode of a word in a topic.
pub open spec fn mode_named(word: Seq<char>) -> Option<CommandMode> {
    if word == "shock"@ {
        Some(CommandMode::Shock)
    } else if word == "vibrate"@ {
        Some(CommandMode::Vibrate)
    } else if word == "beep"@ {
        Some(CommandMode::Beep)
    } else {
        None
    }
}

/// The levels between the device's prefix and the word `set`, of a topic that has both.
pub open spec fn command_levels(d: Seq<char>, topic: Seq<char>) -> Option<Seq<Seq<char>>> {
    match crate::text::after_prefix(topic, "rusty_collars/"@ + d + "/"@) {
        Some(rest) => match crate::text::before_suffix(rest, "/set"@) {
            Some(inner) => Some(crate::text::split(inner, '/')),
            None => None,
        },
        None => None,
    }
}

/// The text of a payload; none, where it is no UTF-8.
pub open spec fn payload_text(payload: Seq<u8>) -> Seq<char> {
    if vstd::utf8::valid_utf8(payload) {
        vstd::utf8::decode_utf8(payload)
    } else {
        ""@
    }
}

/// A choice of a collar's intensity: a number from 0 to 255, of which those above 99 count as 99.
pub open spec fn intensity_chosen(
    s: MqttStateView,
    d: Seq<char>,
    slug: Seq<char>,
    payload: Seq<char>,
) -> (MqttStateView, IncomingView) {
    match (
        crate::text::unsigned_value(crate::text::trimmed(payload), 255),
        named_by_slug(s.collar_names, slug),
    ) {
        (Some(n), Some(name)) => {
            let intensity = if n < 99 {
                n as u8
            } else {
                99
            };
            (
                MqttStateView {
                    intensities: crate::mqtt::state::with_intensity(
                        s.intensities,
                        name,
                        intensity,
                    ),
                    ..s
                },
                IncomingView::Publish(
                    crate::mqtt::state::kept(
                        crate::mqtt::texts::intensity_topic_text(d, slug),
                        crate::text::decimal(intensity as nat),
                    ),
                ),
            )
        },
        _ => (s, IncomingView::Nothing),
    }
}

/// A choice of the duration of actions: a number, moved into 100 to 10000 milliseconds.
pub open spec fn duration_chosen(
    s: MqttStateView,
    d: Seq<char>,
    payload: Seq<char>,
) -> (MqttStateView, IncomingView) {
    match crate::text::unsigned_value(crate::text::trimmed(payload), u32::MAX as nat) {
        Some(n) => {
            let duration = if n < 100 {
                100u32
            } else if n > 10000 {
                10000u32
            } else {
                n as u32
            };
            (
                MqttStateView { action_duration_ms: duration, ..s },
                IncomingView::Publish(
                    crate::mqtt::state::kept(
                        crate::mqtt::texts::action_duration_topic_text(d),
                        crate::text::decimal(duration as nat),
                    ),
                ),
            )
        },
        None => (s, IncomingView::Nothing),
    }
}

/// A press of a collar's button: an action with what was chosen for intensity and duration.
pub open spec fn button_pressed(
    s: MqttStateView,
    slug: Seq<char>,
    word: Seq<char>,
) -> IncomingView {
    match (mode_named(word), named_by_slug(s.collar_names, slug)) {
        (Some(mode), Some(name)) => IncomingView::RunAction {
            collar_name: name,
            mode,
            intensity: crate::mqtt::state::intensity_of(s.intensities, name),
            duration_ms: s.action_duration_ms,
        },
        _ => IncomingView::Nothing,
    }
}

/// What follows from a message, and what the link knows after it.
pub open spec fn received(
    s: MqttStateView,
    d: Seq<char>,
    topic: Seq<char>,
    payload: Seq<u8>,
) -> (MqttStateView, IncomingView) {
    match command_levels(d, topic) {
        Some(levels) => if levels.len() == 3 && levels[0] == "collar"@ {
            if levels[2] == "intensity"@ {
                intensity_chosen(s, d, levels[1], payload_text(payload))
            } else {
                (s, button_pressed(s, levels[1], levels[2]))
            }
        } else if levels.len() == 2 && levels[0] == "preset"@ {
            (
                s,
                match named_by_slug(s.preset_names, levels[1]) {
                    Some(name) => IncomingView::RunPreset { name },
                    None => IncomingView::Nothing,
                },
            )
        } else if levels.len() == 1 && levels[0] == "action_duration"@ {
            duration_chosen(s, d, payload_text(payload))
        } else {
            (s, IncomingView::Nothing)
        },
        None => (s, IncomingView::Nothing),
    }
}

fn find_by_slug(names: &Vec<String>, slug: &str) -> (r: Option<String>)
    ensures
        r.deep_view() == named_by_slug(names.deep_view(), slug@),
{
    let ghost all = names.deep_view();
    let mut i: usize = names.len();
    assert(all.take(i as int) =~= all);
    while i > 0
        invariant
            i <= names@.len(),
            all == names.deep_view(),
            named_by_slug(all, slug@) == named_by_slug(all.take(i as int), slug@),
        decreases i,
    {
        assert(all.take(i as int).drop_last() =~= all.take(i - 1));
        i = i - 1;
        assert(all.take(i + 1).last() == names@[i as int]@);
        let s = slugify(names[i].as_str());
        if same_text(s.as_str(), slug) {
            return Some(names[i].clone());
        }
    }
    None
}

fn find_mode(word: &str) -> (r: Option<CommandMode>)
    ensures
        r == mode_named(word@),
{
    if same_text(word, "shock") {
        Some(CommandMode::Shock)
    } else if same_text(word, "vibrate") {
        Some(CommandMode::Vibrate)
    } else if same_text(word, "beep") {
        Some(CommandMode::Beep)
    } else {
        None
    }
}

fn read_levels(device_id: &str, topic: &str) -> (r: Option<Vec<String>>)
    ensures
        r.deep_view() == command_levels(device_id@, topic@),
{
    let mut prefix = "rusty_collars/".to_owned();
    push_text(&mut prefix, device_id);
    push_text(&mut prefix, "/");
    let chars = chars_of(topic);
    let rest = match strip_prefix(&chars, prefix.as_str()) {
        Some(rest) => rest,
        None => return None,
    };
    assert(rest.deep_view() =~= rest@);
    let inner = match strip_suffix(&rest, "/set") {
        Some(inner) => inner,
        None => return None,
    };
    assert(inner.deep_view() =~= inner@);
    let pieces = split_text(&inner, '/');
    let ghost all = pieces.deep_view();
    let mut levels: Vec<String> = Vec::new();
    let mut i: usize = 0;
    assert(levels.deep_view() =~= all.take(0));
    while i < pieces.len()
        invariant
            i <= pieces@.len(),
            all == pieces.deep_view(),
            levels.deep_view() == all.take(i as int),
        decreases pieces@.len() - i,
    {
        let ghost before = levels.deep_view();
        let level = string_of(&pieces[i], 0, pieces[i].len());
        assert(level@ =~= all[i as int]) by {
            assert(all[i as int] == pieces@[i as int].deep_view());
            assert(pieces@[i as int].deep_view() =~= pieces@[i as int]@);
        }
        levels.push(level);
        assert(levels.deep_view() =~= before.push(level@));
        assert(all.take(i + 1) =~= all.take(i as int).push(all[i as int]));
        i = i + 1;
    }
    assert(all.take(i as int) =~= all);
    Some(levels)
}

fn read_payload(payload: &Vec<u8>) -> (r: String)
    ensures
        r@ == payload_text(payload@),
{
    match utf8_text(payload.as_slice()) {
        Some(text) => text,
        None => "".to_owned(),
    }
}

fn choose_intensity(
    state: &mut MqttState,
    device_id: &str,
    slug: &str,
    payload: &str,
) -> (r: Incoming)
    ensures
        (final(state).deep_view(), r.deep_view()) == intensity_chosen(
            old(state).deep_view(),
            device_id@,
            slug@,
            payload@,
        ),
{
    let text = trim(payload);
    match (parse_unsigned(text.as_str(), 255), find_by_slug(&state.collar_names, slug)) {
        (Some(n), Some(name)) => {
            let intensity: u8 = if n < 99 {
                n as u8
            } else {
                99
            };
            set_intensity(&mut state.intensities, name.as_str(), intensity);
            Incoming::Publish(
                keep(intensity_topic(device_id, slug), decimal_text(intensity as u64)),
            )
        },
        _ => Incoming::Nothing,
    }
}

fn choose_duration(state: &mut MqttState, device_id: &str, payload: &str) -> (r: Incoming)
    ensures
        (final(state).deep_view(), r.deep_view()) == duration_chosen(
            old(state).deep_view(),
            device_id@,
            payload@,
        ),
{
    let text = trim(payload);
    match parse_unsigned(text.as_str(), u32::MAX) {
        Some(n) => {
            let duration: u32 = if n < 100 {
                100
            } else if n > 10000 {
                10000
            } else {
                n
            };
            state.action_duration_ms = duration;
            Incoming::Publish(
                keep(action_duration_topic(device_id), decimal_text(duration as u64)),
            )
        },
        None => Incoming::Nothing,
    }
}

fn press_button(state: &MqttState, slug: &str, word: &str) -> (r: Incoming)
    ensures
        r.deep_view() == button_pressed(state.deep_view(), slug@, word@),
{
    match (find_mode(word), find_by_slug(&state.collar_names, slug)) {
        (Some(mode), Some(collar_name)) => {
            let intensity: u8 = match find_intensity(&state.intensities, collar_name.as_str()) {
                Some(intensity) => intensity,
                None => 1,
            };
            Incoming::Dispatch(
                ClientMessage::RunAction {
                    collar_name,
                    mode,
                    intensity,
                    duration_ms: state.action_duration_ms,
                    intensity_max: None,
                    duration_max_ms: None,
                    intensity_distribution: None,
                    duration_distribution: None,
                },
            )
        },
        _ => Incoming::Nothing,
    }
}

/// Takes a message from the broker.
pub fn handle_incoming_message(
    state: &mut MqttState,
    device_id: &str,
    topic: &str,
    payload: &Vec<u8>,
) -> (r: Incoming)
    ensures
        (final(state).deep_view(), r.deep_view()) == received(
            old(state).deep_view(),
            device_id@,
            topic@,
            payload@,
        ),
{
    let levels = match read_levels(device_id, topic) {
        Some(levels) => levels,
        None => return Incoming::Nothing,
    };
    let ghost all = levels.deep_view();
    assert(forall|i: int| 0 <= i < all.len() ==> #[trigger] all[i] == levels@[i]@);
    if levels.len() == 3 && same_text(levels[0].as_str(), "collar") {
        if same_text(levels[2].as_str(), "intensity") {
            let text = read_payload(payload);
            choose_intensity(state, device_id, levels[1].as_str(), text.as_str())
        } else {
            press_button(state, levels[1].as_str(), levels[2].as_str())
        }
    } else if levels.len() == 2 && same_text(levels[0].as_str(), "preset") {
        match find_by_slug(&state.preset_names, levels[1].as_str()) {
            Some(name) => Incoming::Dispatch(ClientMessage::RunPreset { name }),
            None => Incoming::Nothing,
        }
    } else if levels.len() == 1 && same_text(levels[0].as_str(), "action_duration") {
        let text = read_payload(payload);
        choose_duration(state, device_id, text.as_str())
    } else {
        Incoming::Nothing
    }
}

// ----- What holds of the link -----

/// The topic on which a button of a collar is pressed.
pub open spec fn button_command_topic(d: Seq<char>, slug: Seq<char>, mode: CommandMode) -> Seq<char> {
    "rusty_collars/"@ + d + "/collar/"@ + slug + "/"@ + crate::mqtt::state::mode_word(mode)
        + "/set"@
}

/// The topic on which the intensity of a collar is chosen.
pub open spec fn intensity_command_topic(d: Seq<char>, slug: Seq<char>) -> Seq<char> {
    "rusty_collars/"@ + d + "/collar/"@ + slug + "/intensity/set"@
}

/// The topic on which a preset is started.
pub open spec fn preset_command_topic(d: Seq<char>, slug: Seq<char>) -> Seq<char> {
    "rusty_collars/"@ + d + "/preset/"@ + slug + "/set"@
}

/// The topic on which the duration of actions is chosen.
pub open spec fn duration_command_topic(d: Seq<char>) -> Seq<char> {
    "rusty_collars/"@ + d + "/action_duration/set"@
}

/// Whether `part` stands somewhere in `text`.
pub open spec fn holds(text: Seq<char>, part: Seq<char>) -> bool {
    exists|before: Seq<char>, after: Seq<char>| text == #[trigger] (before + part + after)
}

proof fn lemma_levels(d: Seq<char>, inner: Seq<char>)
    ensures
        command_levels(d, "rusty_collars/"@ + d + "/"@ + inner + "/set"@) == Some(
            crate::text::split(inner, '/'),
        ),
{
    let prefix = "rusty_collars/"@ + d + "/"@;
    assert(prefix + inner + "/set"@ =~= prefix + (inner + "/set"@));
    crate::text::lemma_after_prefix(prefix, inner + "/set"@);
    crate::text::lemma_before_suffix(inner, "/set"@);
}

proof fn lemma_slug_has_no_slash(name: Seq<char>)
    ensures
        !crate::mqtt::slug::slug(name).contains('/'),
{
    crate::mqtt::slug::lemma_slug_is_topic_level(name);
    let s = crate::mqtt::slug::slug(name);
    if s.contains('/') {
        let i = choose|i: int| 0 <= i < s.len() && s[i] == '/';
        assert(crate::mqtt::slug::is_slug_char(s[i]));
    }
}

proof fn lemma_words_have_no_slash(mode: CommandMode)
    ensures
        !"collar"@.contains('/'),
        !"preset"@.contains('/'),
        !"intensity"@.contains('/'),
        !"action_duration"@.contains('/'),
        !crate::mqtt::state::mode_word(mode).contains('/'),
        crate::mqtt::state::mode_word(mode) != "intensity"@,
        mode_named(crate::mqtt::state::mode_word(mode)) == Some(mode),
{
    reveal_strlit("collar");
    reveal_strlit("preset");
    reveal_strlit("intensity");
    reveal_strlit("action_duration");
    reveal_strlit("shock");
    reveal_strlit("vibrate");
    reveal_strlit("beep");
    assert("shock"@.len() == 5 && "vibrate"@.len() == 7 && "beep"@.len() == 4);
}

proof fn lemma_collar_levels(d: Seq<char>, slug: Seq<char>, word: Seq<char>)
    requires
        !slug.contains('/'),
        !word.contains('/'),
    ensures
        command_levels(d, "rusty_collars/"@ + d + "/collar/"@ + slug + "/"@ + word + "/set"@)
            == Some(seq!["collar"@, slug, word]),
{
    reveal_strlit("collar");
    reveal_strlit("/collar/");
    reveal_strlit("/");
    lemma_words_have_no_slash(CommandMode::Beep);
    let tail = slug + seq!['/'] + word;
    let inner = "collar"@ + seq!['/'] + tail;
    assert("rusty_collars/"@ + d + "/collar/"@ + slug + "/"@ + word + "/set"@
        =~= "rusty_collars/"@ + d + "/"@ + inner + "/set"@);
    lemma_levels(d, inner);
    crate::text::lemma_split_joined("collar"@, '/', tail);
    crate::text::lemma_split_joined(slug, '/', word);
    crate::text::lemma_split_joined(word, '/', Seq::empty());
    assert(seq!["collar"@] + (seq![slug] + seq![word]) =~= seq!["collar"@, slug, word]);
}

/// A text that goes on with `r`, `x` and `e` holds them joined.
proof fn lemma_holds_joined(
    front: Seq<char>,
    a: Seq<char>,
    r: Seq<char>,
    x: Seq<char>,
    e: Seq<char>,
    b: Seq<char>,
)
    ensures
        holds(front + (a + r) + x + (e + b), r + x + e),
{
    assert(front + (a + r) + x + (e + b) =~= (front + a) + (r + x + e) + b);
}

proof fn lemma_button_names_topic(d: Seq<char>, name: Seq<char>, mode: CommandMode)
    ensures
        holds(
            crate::mqtt::state::button(d, name, mode).payload,
            button_command_topic(d, crate::mqtt::slug::slug(name), mode),
        ),
{
    reveal_strlit("\",\"command_topic\":\"rusty_collars/");
    reveal_strlit("\",\"command_topic\":\"");
    reveal_strlit("rusty_collars/");
    reveal_strlit("/set\",\"payload_press\":\"PRESS\"}");
    reveal_strlit("/set");
    reveal_strlit("\",\"payload_press\":\"PRESS\"}");
    let slug = crate::mqtt::slug::slug(name);
    let word = crate::mqtt::state::mode_word(mode);
    let a = "\",\"command_topic\":\""@;
    let b = "\",\"payload_press\":\"PRESS\"}"@;
    assert("\",\"command_topic\":\"rusty_collars/"@ =~= a + "rusty_collars/"@);
    assert("/set\",\"payload_press\":\"PRESS\"}"@ =~= "/set"@ + b);
    let front = "{"@ + crate::mqtt::texts::device_block_text(d) + ","@
        + crate::mqtt::texts::availability_block_text(d) + ",\"name\":\""@ + name + " "@
        + crate::mqtt::state::mode_title(mode) + "\",\"unique_id\":\""@ + d + "_"@ + slug + "_"@
        + word;
    let x = d + "/collar/"@ + slug + "/"@ + word;
    lemma_holds_joined(front, a, "rusty_collars/"@, x, "/set"@, b);
    assert("rusty_collars/"@ + x + "/set"@ =~= button_command_topic(d, slug, mode));
    assert(front + (a + "rusty_collars/"@) + x + ("/set"@ + b) =~= front + (a + "rusty_collars/"@)
        + d + "/collar/"@ + slug + "/"@ + word + ("/set"@ + b));
}

proof fn lemma_intensity_names_topic(d: Seq<char>, name: Seq<char>)
    ensures
        holds(
            crate::mqtt::state::collar_announcements(d, name)[0].payload,
            intensity_command_topic(d, crate::mqtt::slug::slug(name)),
        ),
{
    reveal_strlit("/intensity/state\",\"command_topic\":\"rusty_collars/");
    reveal_strlit("/intensity/state\",\"command_topic\":\"");
    reveal_strlit("rusty_collars/");
    reveal_strlit(
        "/intensity/set\",\"min\":0,\"max\":99,\"step\":1,\"mode\":\"slider\"}",
    );
    reveal_strlit("/intensity/set");
    reveal_strlit("\",\"min\":0,\"max\":99,\"step\":1,\"mode\":\"slider\"}");
    let slug = crate::mqtt::slug::slug(name);
    let a = "/intensity/state\",\"command_topic\":\""@;
    let b = "\",\"min\":0,\"max\":99,\"step\":1,\"mode\":\"slider\"}"@;
    assert("/intensity/state\",\"command_topic\":\"rusty_collars/"@ =~= a + "rusty_collars/"@);
    assert("/intensity/set\",\"min\":0,\"max\":99,\"step\":1,\"mode\":\"slider\"}"@
        =~= "/intensity/set"@ + b);
    let front = "{"@ + crate::mqtt::texts::device_block_text(d) + ","@
        + crate::mqtt::texts::availability_block_text(d) + ",\"name\":\""@ + name
        + " Intensity\",\"unique_id\":\""@ + d + "_"@ + slug
        + "_intensity\",\"state_topic\":\"rusty_collars/"@ + d + "/collar/"@ + slug;
    let x = d + "/collar/"@ + slug;
    lemma_holds_joined(front, a, "rusty_collars/"@, x, "/intensity/set"@, b);
    assert("rusty_collars/"@ + x + "/intensity/set"@ =~= intensity_command_topic(d, slug));
    assert(front + (a + "rusty_collars/"@) + x + ("/intensity/set"@ + b) =~= front + (a
        + "rusty_collars/"@) + d + "/collar/"@ + slug + ("/intensity/set"@ + b));
}

proof fn lemma_preset_names_topic(d: Seq<char>, name: Seq<char>)
    ensures
        holds(
            crate::mqtt::state::preset_announcement(d, name).payload,
            preset_command_topic(d, crate::mqtt::slug::slug(name)),
        ),
{
    reveal_strlit("\",\"command_topic\":\"rusty_collars/");
    reveal_strlit("\",\"command_topic\":\"");
    reveal_strlit("rusty_collars/");
    reveal_strlit("/set\",\"payload_press\":\"PRESS\"}");
    reveal_strlit("/set");
    reveal_strlit("\",\"payload_press\":\"PRESS\"}");
    let slug = crate::mqtt::slug::slug(name);
    let a = "\",\"command_topic\":\""@;
    let b = "\",\"payload_press\":\"PRESS\"}"@;
    assert("\",\"command_topic\":\"rusty_collars/"@ =~= a + "rusty_collars/"@);
    assert("/set\",\"payload_press\":\"PRESS\"}"@ =~= "/set"@ + b);
    let front = "{"@ + crate::mqtt::texts::device_block_text(d) + ","@
        + crate::mqtt::texts::availability_block_text(d) + ",\"name\":\"Preset: "@ + name
        + "\",\"unique_id\":\""@ + d + "_preset_"@ + slug;
    let x = d + "/preset/"@ + slug;
    lemma_holds_joined(front, a, "rusty_collars/"@, x, "/set"@, b);
    assert("rusty_collars/"@ + x + "/set"@ =~= preset_command_topic(d, slug));
    assert(front + (a + "rusty_collars/"@) + x + ("/set"@ + b) =~= front + (a + "rusty_collars/"@)
        + d + "/preset/"@ + slug + ("/set"@ + b));
}

proof fn lemma_duration_names_topic(d: Seq<char>)
    ensures
        holds(
            crate::mqtt::texts::duration_config_text(
                crate::mqtt::texts::device_block_text(d),
                crate::mqtt::texts::availability_block_text(d),
                d,
            ),
            duration_command_topic(d),
        ),
{
    reveal_strlit("/action_duration/state\",\"command_topic\":\"rusty_collars/");
    reveal_strlit("/action_duration/state\",\"command_topic\":\"");
    reveal_strlit("rusty_collars/");
    reveal_strlit(
        "/action_duration/set\",\"min\":100,\"max\":10000,\"step\":100,\"unit_of_measurement\":\"ms\",\"mode\":\"slider\",\"icon\":\"mdi:timer-outline\"}",
    );
    reveal_strlit("/action_duration/set");
    reveal_strlit(
        "\",\"min\":100,\"max\":10000,\"step\":100,\"unit_of_measurement\":\"ms\",\"mode\":\"slider\",\"icon\":\"mdi:timer-outline\"}",
    );
    let a = "/action_duration/state\",\"command_topic\":\""@;
    let b =
        "\",\"min\":100,\"max\":10000,\"step\":100,\"unit_of_measurement\":\"ms\",\"mode\":\"slider\",\"icon\":\"mdi:timer-outline\"}"@;
    assert("/action_duration/state\",\"command_topic\":\"rusty_collars/"@ =~= a
        + "rusty_collars/"@);
    assert("/action_duration/set\",\"min\":100,\"max\":10000,\"step\":100,\"unit_of_measurement\":\"ms\",\"mode\":\"slider\",\"icon\":\"mdi:timer-outline\"}"@
        =~= "/action_duration/set"@ + b);
    let front = "{"@ + crate::mqtt::texts::device_block_text(d) + ","@
        + crate::mqtt::texts::availability_block_text(d)
        + ",\"name\":\"Action Duration\",\"unique_id\":\""@ + d
        + "_action_duration\",\"state_topic\":\"rusty_collars/"@ + d;
    lemma_holds_joined(front, a, "rusty_collars/"@, d, "/action_duration/set"@, b);
}

/// The one name that has a slug is found by it.
pub proof fn lemma_found_by_slug(names: Seq<Seq<char>>, name: Seq<char>)
    requires
        names.contains(name),
        forall|i: int|
            0 <= i < names.len() && crate::mqtt::slug::slug(#[trigger] names[i])
                == crate::mqtt::slug::slug(name) ==> names[i] == name,
    ensures
        named_by_slug(names, crate::mqtt::slug::slug(name)) == Some(name),
    decreases names.len(),
{
    let at = choose|i: int| 0 <= i < names.len() && names[i] == name;
    let front = names.drop_last();
    if names[names.len() - 1] != name {
        assert(front[at] == name);
        assert forall|i: int|
            0 <= i < front.len() && crate::mqtt::slug::slug(#[trigger] front[i])
                == crate::mqtt::slug::slug(name) implies front[i] == name by {
            assert(front[i] == names[i]);
        }
        lemma_found_by_slug(front, name);
    }
}

/// Pressing the announced button of a collar runs the action on that collar, with the intensity
/// and the duration that were chosen; the announcement names the topic.
pub proof fn lemma_button_runs_action(
    s: MqttStateView,
    d: Seq<char>,
    name: Seq<char>,
    mode: CommandMode,
    payload: Seq<u8>,
)
    requires
        named_by_slug(s.collar_names, crate::mqtt::slug::slug(name)) == Some(name),
    ensures
        received(s, d, button_command_topic(d, crate::mqtt::slug::slug(name), mode), payload) == (
            s,
            IncomingView::RunAction {
                collar_name: name,
                mode,
                intensity: crate::mqtt::state::intensity_of(s.intensities, name),
                duration_ms: s.action_duration_ms,
            },
        ),
        holds(
            crate::mqtt::state::button(d, name, mode).payload,
            button_command_topic(d, crate::mqtt::slug::slug(name), mode),
        ),
{
    let slug = crate::mqtt::slug::slug(name);
    lemma_slug_has_no_slash(name);
    lemma_words_have_no_slash(mode);
    lemma_collar_levels(d, slug, crate::mqtt::state::mode_word(mode));
    lemma_button_names_topic(d, name, mode);
}

/// A number on the announced topic of a collar is the intensity of its actions from then on; the
/// announcement names the topic.
pub proof fn lemma_intensity_is_taken(
    s: MqttStateView,
    d: Seq<char>,
    name: Seq<char>,
    n: u8,
    payload: Seq<u8>,
)
    requires
        named_by_slug(s.collar_names, crate::mqtt::slug::slug(name)) == Some(name),
        n <= 99,
        crate::text::unsigned_value(crate::text::trimmed(payload_text(payload)), 255) == Some(
            n as nat,
        ),
    ensures
        ({
            let (after, told) = received(
                s,
                d,
                intensity_command_topic(d, crate::mqtt::slug::slug(name)),
                payload,
            );
            &&& crate::mqtt::state::intensity_of(after.intensities, name) == n
            &&& forall|other: Seq<char>|
                other != name ==> #[trigger] crate::mqtt::state::intensity_of(
                    after.intensities,
                    other,
                ) == crate::mqtt::state::intensity_of(s.intensities, other)
            &&& after.collar_names == s.collar_names
            &&& after.preset_names == s.preset_names
            &&& after.action_duration_ms == s.action_duration_ms
            &&& told == IncomingView::Publish(
                crate::mqtt::state::kept(
                    crate::mqtt::texts::intensity_topic_text(d, crate::mqtt::slug::slug(name)),
                    crate::text::decimal(n as nat),
                ),
            )
        }),
        holds(
            crate::mqtt::state::collar_announcements(d, name)[0].payload,
            intensity_command_topic(d, crate::mqtt::slug::slug(name)),
        ),
{
    let slug = crate::mqtt::slug::slug(name);
    lemma_slug_has_no_slash(name);
    lemma_words_have_no_slash(CommandMode::Beep);
    lemma_collar_levels(d, slug, "intensity"@);
    reveal_strlit("/intensity/set");
    reveal_strlit("/");
    reveal_strlit("intensity");
    reveal_strlit("/set");
    assert(intensity_command_topic(d, slug) =~= "rusty_collars/"@ + d + "/collar/"@ + slug + "/"@
        + "intensity"@ + "/set"@);
    assert forall|other: Seq<char>| true implies #[trigger] crate::mqtt::state::chosen_intensity(
        crate::mqtt::state::with_intensity(s.intensities, name, n),
        other,
    ) == if other == name {
        Some(n)
    } else {
        crate::mqtt::state::chosen_intensity(s.intensities, other)
    } by {
        crate::mqtt::state::lemma_with_intensity(s.intensities, name, n, other);
    }
    lemma_intensity_names_topic(d, name);
}

/// Pressing the announced button of a preset starts that preset; the announcement names the topic.
pub proof fn lemma_preset_button_runs_preset(
    s: MqttStateView,
    d: Seq<char>,
    name: Seq<char>,
    payload: Seq<u8>,
)
    requires
        named_by_slug(s.preset_names, crate::mqtt::slug::slug(name)) == Some(name),
    ensures
        received(s, d, preset_command_topic(d, crate::mqtt::slug::slug(name)), payload) == (
            s,
            IncomingView::RunPreset { name },
        ),
        holds(
            crate::mqtt::state::preset_announcement(d, name).payload,
            preset_command_topic(d, crate::mqtt::slug::slug(name)),
        ),
{
    let slug = crate::mqtt::slug::slug(name);
    lemma_slug_has_no_slash(name);
    lemma_words_have_no_slash(CommandMode::Beep);
    reveal_strlit("/preset/");
    reveal_strlit("preset");
    reveal_strlit("/");
    let inner = "preset"@ + seq!['/'] + slug;
    assert(preset_command_topic(d, slug) =~= "rusty_collars/"@ + d + "/"@ + inner + "/set"@);
    lemma_levels(d, inner);
    crate::text::lemma_split_joined("preset"@, '/', slug);
    crate::text::lemma_split_joined(slug, '/', Seq::empty());
    assert(seq!["preset"@] + seq![slug] =~= seq!["preset"@, slug]);
    lemma_preset_names_topic(d, name);
}

/// A number from 100 to 10000 on the announced topic is the duration of actions from then on; the
/// announcement names the topic.
pub proof fn lemma_duration_is_taken(
    s: MqttStateView,
    d: Seq<char>,
    n: u32,
    payload: Seq<u8>,
)
    requires
        100 <= n <= 10000,
        crate::text::unsigned_value(
            crate::text::trimmed(payload_text(payload)),
            u32::MAX as nat,
        ) == Some(n as nat),
    ensures
        received(s, d, duration_command_topic(d), payload) == (
            MqttStateView { action_duration_ms: n, ..s },
            IncomingView::Publish(
                crate::mqtt::state::kept(
                    crate::mqtt::texts::action_duration_topic_text(d),
                    crate::text::decimal(n as nat),
                ),
            ),
        ),
        holds(
            crate::mqtt::texts::duration_config_text(
                crate::mqtt::texts::device_block_text(d),
                crate::mqtt::texts::availability_block_text(d),
                d,
            ),
            duration_command_topic(d),
        ),
{
    lemma_duration_names_topic(d);
    lemma_words_have_no_slash(CommandMode::Beep);
    reveal_strlit("/action_duration/set");
    reveal_strlit("action_duration");
    reveal_strlit("/");
    reveal_strlit("/set");
    let inner = "action_duration"@;
    assert(duration_command_topic(d) =~= "rusty_collars/"@ + d + "/"@ + inner + "/set"@);
    lemma_levels(d, inner);
    crate::text::lemma_split_joined(inner, '/', Seq::empty());
}

proof fn lemma_no_command(s: MqttStateView, d: Seq<char>, topic: Seq<char>, payload: Seq<u8>)
    requires
        topic.len() > 0,
        topic.last() != 't',
    ensures
        received(s, d, topic, payload) == (s, IncomingView::Nothing),
{
    reveal_strlit("/set");
    let prefix = "rusty_collars/"@ + d + "/"@;
    if prefix.is_prefix_of(topic) {
        let rest = topic.skip(prefix.len() as int);
        if "/set"@.is_suffix_of(rest) {
            let end = rest.subrange((rest.len() - 4) as int, rest.len() as int);
            assert(end[3] == "/set"@[3]);
            assert(end[3] == topic.last());
        }
    }
}

/// The device hears its own states and its own availability, and they change nothing.
pub proof fn lemma_own_states_change_nothing(
    s: MqttStateView,
    d: Seq<char>,
    slug: Seq<char>,
    payload: Seq<u8>,
)
    ensures
        received(s, d, crate::mqtt::texts::intensity_topic_text(d, slug), payload) == (
            s,
            IncomingView::Nothing,
        ),
        received(s, d, crate::mqtt::texts::preset_running_topic_text(d), payload) == (
            s,
            IncomingView::Nothing,
        ),
        received(s, d, crate::mqtt::texts::action_duration_topic_text(d), payload) == (
            s,
            IncomingView::Nothing,
        ),
        received(s, d, crate::mqtt::texts::availability_topic_text(d), payload) == (
            s,
            IncomingView::Nothing,
        ),
{
    reveal_strlit("/intensity/state");
    reveal_strlit("/preset_running/state");
    reveal_strlit("/action_duration/state");
    reveal_strlit("/availability");
    lemma_no_command(s, d, crate::mqtt::texts::intensity_topic_text(d, slug), payload);
    lemma_no_command(s, d, crate::mqtt::texts::preset_running_topic_text(d), payload);
    lemma_no_command(s, d, crate::mqtt::texts::action_duration_topic_text(d), payload);
    lemma_no_command(s, d, crate::mqtt::texts::availability_topic_text(d), payload);
}

/// What the link keeps to: intensities up to 99 and a duration from 100 to 10000 milliseconds.
pub open spec fn within_limits(s: MqttStateView) -> bool {
    &&& forall|i: int|
        0 <= i < s.intensities.len() ==> (#[trigger] s.intensities[i]).intensity <= 99
    &&& 100 <= s.action_duration_ms <= 10000
}

/// No message takes the link out of its limits.
pub proof fn lemma_messages_keep_limits(
    s: MqttStateView,
    d: Seq<char>,
    topic: Seq<char>,
    payload: Seq<u8>,
)
    requires
        within_limits(s),
    ensures
        within_limits(received(s, d, topic, payload).0),
{
    match command_levels(d, topic) {
        Some(levels) => {
            if levels.len() == 3 {
                match named_by_slug(s.collar_names, levels[1]) {
                    Some(name) => {
                        assert forall|intensity: u8| intensity <= 99 implies within_limits(
                            MqttStateView {
                                intensities: #[trigger] crate::mqtt::state::with_intensity(
                                    s.intensities,
                                    name,
                                    intensity,
                                ),
                                ..s
                            },
                        ) by {
                            lemma_with_intensity_limits(s.intensities, name, intensity);
                        }
                    },
                    None => {},
                }
            }
        },
        None => {},
    }
}

proof fn lemma_with_intensity_limits(
    all: Seq<crate::mqtt::state::IntensityView>,
    name: Seq<char>,
    intensity: u8,
)
    requires
        intensity <= 99,
        forall|i: int| 0 <= i < all.len() ==> (#[trigger] all[i]).intensity <= 99,
    ensures
        forall|i: int|
            0 <= i < crate::mqtt::state::with_intensity(all, name, intensity).len() ==> (
            #[trigger] crate::mqtt::state::with_intensity(all, name, intensity)[i]).intensity <= 99,
    decreases all.len(),
{
    if all.len() > 0 {
        let front = all.drop_last();
        assert forall|i: int| 0 <= i < front.len() implies (#[trigger] front[i]).intensity
            <= 99 by {
            assert(front[i] == all[i]);
        }
        lemma_with_intensity_limits(front, name, intensity);
        assert(all.last() == all[all.len() - 1]);
        let before = crate::mqtt::state::with_intensity(front, name, intensity);
        let r = crate::mqtt::state::with_intensity(all, name, intensity);
        assert forall|i: int| 0 <= i < r.len() implies (#[trigger] r[i]).intensity <= 99 by {
            if all.last().collar_name == name {
                assert(i < front.len() ==> r[i] == front[i]);
            } else {
                assert(i < before.len() ==> r[i] == before[i]);
            }
        }
    }
}

/// Reading collars and presets anew keeps the link within its limits, and it comes up within them.
pub proof fn lemma_updates_keep_limits(
    s: MqttStateView,
    collars: Seq<crate::protocol::model::CollarView>,
    presets: Seq<crate::protocol::model::PresetView>,
)
    ensures
        within_limits(s) ==> within_limits(
            crate::mqtt::state::entities_updated(s, collars, presets),
        ),
        within_limits(crate::mqtt::state::initial_state(collars, presets)),
{
    let names = crate::protocol::model::collar_names(collars);
    if within_limits(s) {
        lemma_intensities_for_limits(s.intensities, names);
    }
    lemma_intensities_for_limits(Seq::empty(), names);
}

proof fn lemma_intensities_for_limits(
    all: Seq<crate::mqtt::state::IntensityView>,
    names: Seq<Seq<char>>,
)
    requires
        forall|i: int| 0 <= i < all.len() ==> (#[trigger] all[i]).intensity <= 99,
    ensures
        forall|i: int|
            0 <= i < crate::mqtt::state::intensities_for(all, names).len() ==> (
            #[trigger] crate::mqtt::state::intensities_for(all, names)[i]).intensity <= 99,
    decreases names.len(),
{
    if names.len() > 0 {
        lemma_intensities_for_limits(all, names.drop_last());
        let before = crate::mqtt::state::intensities_for(all, names.drop_last());
        let r = crate::mqtt::state::intensities_for(all, names);
        assert forall|i: int| 0 <= i < r.len() implies (#[trigger] r[i]).intensity <= 99 by {
            assert(i < before.len() ==> r[i] == before[i]);
        }
    }
}

/// A slug stands for the last of the names that have it, and for nothing if no name has it.
pub proof fn lemma_slug_stands_for_last_name(names: Seq<Seq<char>>, slug: Seq<char>)
    ensures
        match named_by_slug(names, slug) {
            Some(name) => exists|i: int|
                0 <= i < names.len() && #[trigger] names[i] == name && crate::mqtt::slug::slug(name)
                    == slug && forall|j: int|
                    i < j < names.len() ==> crate::mqtt::slug::slug(#[trigger] names[j]) != slug,
            None => forall|j: int|
                0 <= j < names.len() ==> crate::mqtt::slug::slug(#[trigger] names[j]) != slug,
        },
    decreases names.len(),
{
    if names.len() > 0 {
        let last = names.len() - 1;
        let front = names.drop_last();
        lemma_slug_stands_for_last_name(front, slug);
        if crate::mqtt::slug::slug(names[last]) == slug {
            assert(names[last] == names.last());
        } else {
            match named_by_slug(front, slug) {
                Some(name) => {
                    let i = choose|i: int|
                        0 <= i < front.len() && #[trigger] front[i] == name
                            && crate::mqtt::slug::slug(name) == slug && forall|j: int|
                            i < j < front.len() ==> crate::mqtt::slug::slug(#[trigger] front[j])
                                != slug;
                    assert(names[i] == name);
                    assert forall|j: int| i < j < names.len() implies crate::mqtt::slug::slug(
                        #[trigger] names[j],
                    ) != slug by {
                        if j < last {
                            assert(front[j] == names[j]);
                        }
                    }
                },
                None => {
                    assert forall|j: int| 0 <= j < names.len() implies crate::mqtt::slug::slug(
                        #[trigger] names[j],
                    ) != slug by {
                        if j < last {
                            assert(front[j] == names[j]);
                        }
                    }
                },
            }
        }
    }
}

/// A number above 99 on the topic of a collar chooses 99; what is no number up to 255 changes
/// nothing.
pub proof fn lemma_intensity_is_capped(
    s: MqttStateView,
    d: Seq<char>,
    name: Seq<char>,
    payload: Seq<u8>,
)
    requires
        named_by_slug(s.collar_names, crate::mqtt::slug::slug(name)) == Some(name),
    ensures
        ({
            let (after, told) = received(
                s,
                d,
                intensity_command_topic(d, crate::mqtt::slug::slug(name)),
                payload,
            );
            match crate::text::unsigned_value(crate::text::trimmed(payload_text(payload)), 255) {
                Some(n) => {
                    let chosen = if n > 99 {
                        99
                    } else {
                        n
                    };
                    &&& crate::mqtt::state::intensity_of(after.intensities, name) == chosen
                    &&& told == IncomingView::Publish(
                        crate::mqtt::state::kept(
                            crate::mqtt::texts::intensity_topic_text(
                                d,
                                crate::mqtt::slug::slug(name),
                            ),
                            crate::text::decimal(chosen),
                        ),
                    )
                },
                None => after == s && told is Nothing,
            }
        }),
{
    let slug = crate::mqtt::slug::slug(name);
    lemma_slug_has_no_slash(name);
    lemma_words_have_no_slash(CommandMode::Beep);
    lemma_collar_levels(d, slug, "intensity"@);
    reveal_strlit("/intensity/set");
    reveal_strlit("/");
    reveal_strlit("intensity");
    reveal_strlit("/set");
    assert(intensity_command_topic(d, slug) =~= "rusty_collars/"@ + d + "/collar/"@ + slug + "/"@
        + "intensity"@ + "/set"@);
    match crate::text::unsigned_value(crate::text::trimmed(payload_text(payload)), 255) {
        Some(n) => {
            let chosen = if n < 99 {
                n as u8
            } else {
                99
            };
            crate::mqtt::state::lemma_with_intensity(s.intensities, name, chosen, name);
        },
        None => {},
    }
}

/// A number below 100 or above 10000 on the topic of the duration chooses the nearer of the two;
/// what is no number changes nothing.
pub proof fn lemma_duration_is_capped(s: MqttStateView, d: Seq<char>, payload: Seq<u8>)
    ensures
        ({
            let (after, told) = received(s, d, duration_command_topic(d), payload);
            match crate::text::unsigned_value(
                crate::text::trimmed(payload_text(payload)),
                0xffff_ffff,
            ) {
                Some(n) => {
                    let chosen = if n < 100 {
                        100
                    } else if n > 10000 {
                        10000
                    } else {
                        n
                    };
                    &&& after == (MqttStateView {
                        action_duration_ms: after.action_duration_ms,
                        ..s
                    })
                    &&& after.action_duration_ms == chosen
                    &&& told == IncomingView::Publish(
                        crate::mqtt::state::kept(
                            crate::mqtt::texts::action_duration_topic_text(d),
                            crate::text::decimal(chosen),
                        ),
                    )
                },
                None => after == s && told is Nothing,
            }
        }),
{
    lemma_words_have_no_slash(CommandMode::Beep);
    reveal_strlit("/action_duration/set");
    reveal_strlit("action_duration");
    reveal_strlit("/");
    reveal_strlit("/set");
    let inner = "action_duration"@;
    assert(duration_command_topic(d) =~= "rusty_collars/"@ + d + "/"@ + inner + "/set"@);
    lemma_levels(d, inner);
    crate::text::lemma_split_joined(inner, '/', Seq::empty());
}

/// Buttons, intensities and presets of which the link does not know a name are ignored.
pub proof fn lemma_unknown_names_are_ignored(
    s: MqttStateView,
    d: Seq<char>,
    name: Seq<char>,
    mode: CommandMode,
    payload: Seq<u8>,
)
    ensures
        named_by_slug(s.collar_names, crate::mqtt::slug::slug(name)) is None ==> {
            &&& received(
                s,
                d,
                button_command_topic(d, crate::mqtt::slug::slug(name), mode),
                payload,
            ) == (s, IncomingView::Nothing)
            &&& received(
                s,
                d,
                intensity_command_topic(d, crate::mqtt::slug::slug(name)),
                payload,
            ) == (s, IncomingView::Nothing)
        },
        named_by_slug(s.preset_names, crate::mqtt::slug::slug(name)) is None ==> received(
            s,
            d,
            preset_command_topic(d, crate::mqtt::slug::slug(name)),
            payload,
        ) == (s, IncomingView::Nothing),
{
    let slug = crate::mqtt::slug::slug(name);
    lemma_slug_has_no_slash(name);
    lemma_words_have_no_slash(mode);
    lemma_collar_levels(d, slug, crate::mqtt::state::mode_word(mode));
    lemma_collar_levels(d, slug, "intensity"@);
    reveal_strlit("/intensity/set");
    reveal_strlit("/");
    reveal_strlit("intensity");
    reveal_strlit("/set");
    assert(intensity_command_topic(d, slug) =~= "rusty_collars/"@ + d + "/collar/"@ + slug + "/"@
        + "intensity"@ + "/set"@);
    reveal_strlit("/preset/");
    reveal_strlit("preset");
    let inner = "preset"@ + seq!['/'] + slug;
    assert(preset_command_topic(d, slug) =~= "rusty_collars/"@ + d + "/"@ + inner + "/set"@);
    lemma_levels(d, inner);
    crate::text::lemma_split_joined("preset"@, '/', slug);
    crate::text::lemma_split_joined(slug, '/', Seq::empty());
    assert(seq!["preset"@] + seq![slug] =~= seq!["preset"@, slug]);
}

/// Whether a topic is one of the device's own that asks for something.
pub open spec fn is_own_command(d: Seq<char>, inner: Seq<char>, topic: Seq<char>) -> bool {
    topic == "rusty_collars/"@ + d + "/"@ + inner + "/set"@
}

/// Nothing follows from a message on a topic that is not one of the device's own and ends in `set`;
/// a message never makes the link forget a name, and only the topics of intensity and duration
/// change what it knows.
pub proof fn lemma_only_own_commands_count(
    s: MqttStateView,
    d: Seq<char>,
    topic: Seq<char>,
    payload: Seq<u8>,
)
    ensures
        ({
            let (after, told) = received(s, d, topic, payload);
            &&& after.collar_names == s.collar_names
            &&& after.preset_names == s.preset_names
            &&& after != s ==> told is Publish
            &&& !(told is Nothing) ==> exists|inner: Seq<char>| #[trigger]
                is_own_command(d, inner, topic)
        }),
{
    let prefix = "rusty_collars/"@ + d + "/"@;
    let (after, told) = received(s, d, topic, payload);
    if !(told is Nothing) {
        let rest = crate::text::after_prefix(topic, prefix)->0;
        let inner = crate::text::before_suffix(rest, "/set"@)->0;
        crate::text::lemma_stripped_front(topic, prefix);
        crate::text::lemma_stripped_back(rest, "/set"@);
        assert(topic =~= prefix + inner + "/set"@);
        assert(is_own_command(d, inner, topic));
    }
}

/// A message from the broker asks for a fixed action or a preset by what it holds; an action with
/// any range or distribution is none of the broker's.
pub proof fn lemma_what_the_broker_asks(
    collar_name: String,
    mode: CommandMode,
    intensity: u8,
    duration_ms: u32,
    name: String,
)
    ensures
        asked(
            ClientMessage::RunAction {
                collar_name,
                mode,
                intensity,
                duration_ms,
                intensity_max: None,
                duration_max_ms: None,
                intensity_distribution: None,
                duration_distribution: None,
            },
        ) == (IncomingView::RunAction { collar_name: collar_name@, mode, intensity, duration_ms }),
        asked(ClientMessage::RunPreset { name }) == (IncomingView::RunPreset { name: name@ }),
        forall|m: ClientMessage|
            (#[trigger] asked(m)) is RunAction ==> m is RunAction && m->RunAction_intensity_max is None
                && m->RunAction_duration_max_ms is None && m->RunAction_intensity_distribution is None
                && m->RunAction_duration_distribution is None,
{
}

/// A payload is read as UTF-8; one that is not counts as no text.
pub proof fn lemma_payloads_are_read(payload: Seq<u8>)
    ensures
        vstd::utf8::valid_utf8(payload) ==> payload_text(payload) == vstd::utf8::decode_utf8(
            payload,
        ),
        !vstd::utf8::valid_utf8(payload) ==> payload_text(payload).len() == 0,
{
    reveal_strlit("");
}

} // verus!
