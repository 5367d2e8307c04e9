//! What the broker is told of collars and presets, and what it may ask.

use vstd::prelude::*;

use crate::mqtt::slug::slugify;
use crate::mqtt::texts::{
    action_duration_topic, activity_config, activity_config_topic, availability_block,
    button_config, button_config_topic, device_block, duration_config, duration_config_topic,
    intensity_config, intensity_config_topic, intensity_topic,
    preset_config, preset_config_topic, preset_running_topic, running_config,
    running_config_topic,
};
use crate::protocol::model::{Collar, CollarView, CommandMode, Preset, PresetView};
use crate::text::{decimal_text, same_text};

verus! {

/// How surely a message is delivered.
#[derive(Debug, Clone, Copy, PartialEq, Eq, Structural)]
pub enum Qos {
    AtMostOnce,
    AtLeastOnce,
}

/// A message for the broker.
#[derive(Debug)]
pub struct Publication {
    pub topic: String,
    pub payload: String,
    pub qos: Qos,
    pub retain: bool,
}

pub struct PublicationView {
    pub topic: Seq<char>,
    pub payload: Seq<char>,
    pub qos: Qos,
    pub retain: bool,
}

impl DeepView for Publication {
    type V = PublicationView;

    open spec fn deep_view(&self) -> PublicationView {
        PublicationView {
            topic: self.topic@,
            payload: self.payload@,
            qos: self.qos,
            retain: self.retain,
        }
    }
}

/// A message that is delivered surely and kept by the broker.
pub open spec fn kept(topic: Seq<char>, payload: Seq<char>) -> PublicationView {
    PublicationView { topic, payload, qos: Qos::AtLeastOnce, retain: true }
}

pub(crate) fn keep(topic: String, payload: String) -> (r: Publication)
    ensures
        r.deep_view() == kept(topic@, payload@),
{
    Publication { topic, payload, qos: Qos::AtLeastOnce, retain: true }
}

pub(crate) fn push_publication(out: &mut Vec<Publication>, p: Publication)
    ensures
        final(out).deep_view() == old(out).deep_view().push(p.deep_view()),
{
    let ghost before = out.deep_view();
    out.push(p);
    assert(out.deep_view() =~= before.push(p.deep_view()));
}

pub(crate) fn push_all(out: &mut Vec<Publication>, more: Vec<Publication>)
    ensures
        final(out).deep_view() == old(out).deep_view() + more.deep_view(),
{
    let ghost before = out.deep_view();
    let ghost added = more.deep_view();
    let mut more = more;
    out.append(&mut more);
    assert(out.deep_view() =~= before + added);
}

// ----- Announcements -----

/// The name of a mode in topics.
pub open spec fn mode_word(mode: CommandMode) -> Seq<char> {
    match mode {
        CommandMode::Shock => "shock"@,
        CommandMode::Vibrate => "vibrate"@,
        CommandMode::Beep => "beep"@,
    }
}

/// The name of a mode for people.
pub open spec fn mode_title(mode: CommandMode) -> Seq<char> {
    match mode {
        CommandMode::Shock => "Shock"@,
        CommandMode::Vibrate => "Vibrate"@,
        CommandMode::Beep => "Beep"@,
    }
}

pub(crate) fn mode_str(mode: CommandMode) -> (r: &'static str)
    ensures
        r@ == mode_word(mode),
{
    match mode {
        CommandMode::Shock => "shock",
        CommandMode::Vibrate => "vibrate",
        CommandMode::Beep => "beep",
    }
}

fn display_name(mode: CommandMode) -> (r: &'static str)
    ensures
        r@ == mode_title(mode),
{
    match mode {
        CommandMode::Shock => "Shock",
        CommandMode::Vibrate => "Vibrate",
        CommandMode::Beep => "Beep",
    }
}

/// The announcement of a button for a collar.
pub open spec fn button(d: Seq<char>, name: Seq<char>, mode: CommandMode) -> PublicationView {
    let slug = crate::mqtt::slug::slug(name);
    kept(
        crate::mqtt::texts::button_config_topic_text(d, slug, mode_word(mode)),
        crate::mqtt::texts::button_config_text(
            crate::mqtt::texts::device_block_text(d),
            crate::mqtt::texts::availability_block_text(d),
            name,
            mode_title(mode),
            d,
            slug,
            mode_word(mode),
        ),
    )
}

/// The announcements for a collar: a slider, three buttons and its activity.
pub open spec fn collar_announcements(d: Seq<char>, name: Seq<char>) -> Seq<PublicationView> {
    let slug = crate::mqtt::slug::slug(name);
    let device = crate::mqtt::texts::device_block_text(d);
    let availability = crate::mqtt::texts::availability_block_text(d);
    seq![
        kept(
            crate::mqtt::texts::intensity_config_topic_text(d, slug),
            crate::mqtt::texts::intensity_config_text(device, availability, name, d, slug),
        ),
        button(d, name, CommandMode::Shock),
        button(d, name, CommandMode::Vibrate),
        button(d, name, CommandMode::Beep),
        kept(
            crate::mqtt::texts::activity_config_topic_text(d, slug),
            crate::mqtt::texts::activity_config_text(device, availability, name, d, slug),
        ),
    ]
}

/// The announcement of a preset.
pub open spec fn preset_announcement(d: Seq<char>, name: Seq<char>) -> PublicationView {
    let slug = crate::mqtt::slug::slug(name);
    kept(
        crate::mqtt::texts::preset_config_topic_text(d, slug),
        crate::mqtt::texts::preset_config_text(
            crate::mqtt::texts::device_block_text(d),
            crate::mqtt::texts::availability_block_text(d),
            name,
            d,
            slug,
        ),
    )
}

/// The announcements for collars, each name once.
pub open spec fn collars_announced(d: Seq<char>, names: Seq<Seq<char>>) -> Seq<PublicationView>
    decreases names.len(),
{
    if names.len() == 0 {
        Seq::empty()
    } else if names.drop_last().contains(names.last()) {
        collars_announced(d, names.drop_last())
    } else {
        collars_announced(d, names.drop_last()) + collar_announcements(d, names.last())
    }
}

/// The announcements for presets, each name once.
pub open spec fn presets_announced(d: Seq<char>, names: Seq<Seq<char>>) -> Seq<PublicationView>
    decreases names.len(),
{
    if names.len() == 0 {
        Seq::empty()
    } else if names.drop_last().contains(names.last()) {
        presets_announced(d, names.drop_last())
    } else {
        presets_announced(d, names.drop_last()).push(preset_announcement(d, names.last()))
    }
}

fn button_publication(device_id: &str, name: &str, slug: &str, mode: CommandMode) -> (r: Publication)
    requires
        slug@ == crate::mqtt::slug::slug(name@),
    ensures
        r.deep_view() == button(device_id@, name@, mode),
{
    let device = device_block(device_id);
    let availability = availability_block(device_id);
    keep(
        button_config_topic(device_id, slug, mode_str(mode)),
        button_config(
            device.as_str(),
            availability.as_str(),
            name,
            display_name(mode),
            device_id,
            slug,
            mode_str(mode),
        ),
    )
}

/// The announcements for a collar.
pub fn collar_discovery(device_id: &str, name: &str) -> (r: Vec<Publication>)
    ensures
        r.deep_view() == collar_announcements(device_id@, name@),
{
    let slug = slugify(name);
    let device = device_block(device_id);
    let availability = availability_block(device_id);
    let mut out: Vec<Publication> = Vec::new();
    out.push(
        keep(
            intensity_config_topic(device_id, slug.as_str()),
            intensity_config(
                device.as_str(),
                availability.as_str(),
                name,
                device_id,
                slug.as_str(),
            ),
        ),
    );
    out.push(button_publication(device_id, name, slug.as_str(), CommandMode::Shock));
    out.push(button_publication(device_id, name, slug.as_str(), CommandMode::Vibrate));
    out.push(button_publication(device_id, name, slug.as_str(), CommandMode::Beep));
    out.push(
        keep(
            activity_config_topic(device_id, slug.as_str()),
            activity_config(
                device.as_str(),
                availability.as_str(),
                name,
                device_id,
                slug.as_str(),
            ),
        ),
    );
    assert(out.deep_view() =~= collar_announcements(device_id@, name@));
    out
}

/// The announcement of a preset.
pub fn preset_discovery(device_id: &str, name: &str) -> (r: Publication)
    ensures
        r.deep_view() == preset_announcement(device_id@, name@),
{
    let slug = slugify(name);
    let device = device_block(device_id);
    let availability = availability_block(device_id);
    keep(
        preset_config_topic(device_id, slug.as_str()),
        preset_config(device.as_str(), availability.as_str(), name, device_id, slug.as_str()),
    )
}

/// Whether a name stands among the first `n` of a list.
fn named_before(names: &Vec<String>, n: usize, name: &str) -> (r: bool)
    requires
        n <= names@.len(),
    ensures
        r == names.deep_view().take(n as int).contains(name@),
{
    let ghost front = names.deep_view().take(n as int);
    let mut i: usize = 0;
    while i < n
        invariant
            i <= n <= names@.len(),
            front == names.deep_view().take(n as int),
            forall|j: int| 0 <= j < i ==> #[trigger] front[j] != name@,
        decreases n - i,
    {
        assert(front[i as int] == names@[i as int]@);
        if same_text(names[i].as_str(), name) {
            return true;
        }
        i = i + 1;
    }
    false
}

fn discover_collars(device_id: &str, names: &Vec<String>) -> (r: Vec<Publication>)
    ensures
        r.deep_view() == collars_announced(device_id@, names.deep_view()),
{
    let ghost all = names.deep_view();
    let mut out: Vec<Publication> = Vec::new();
    let mut i: usize = 0;
    assert(out.deep_view() =~= Seq::empty());
    assert(all.take(0) =~= Seq::empty());
    while i < names.len()
        invariant
            i <= names@.len(),
            all == names.deep_view(),
            out.deep_view() == collars_announced(device_id@, all.take(i as int)),
        decreases names@.len() - i,
    {
        assert(all.take(i + 1).drop_last() =~= all.take(i as int));
        assert(all.take(i + 1).last() == names@[i as int]@);
        if !named_before(names, i, names[i].as_str()) {
            push_all(&mut out, collar_discovery(device_id, names[i].as_str()));
        }
        i = i + 1;
    }
    assert(all.take(i as int) =~= all);
    out
}

fn discover_presets(device_id: &str, names: &Vec<String>) -> (r: Vec<Publication>)
    ensures
        r.deep_view() == presets_announced(device_id@, names.deep_view()),
{
    let ghost all = names.deep_view();
    let mut out: Vec<Publication> = Vec::new();
    let mut i: usize = 0;
    assert(out.deep_view() =~= Seq::empty());
    assert(all.take(0) =~= Seq::empty());
    while i < names.len()
        invariant
            i <= names@.len(),
            all == names.deep_view(),
            out.deep_view() == presets_announced(device_id@, all.take(i as int)),
        decreases names@.len() - i,
    {
        assert(all.take(i + 1).drop_last() =~= all.take(i as int));
        assert(all.take(i + 1).last() == names@[i as int]@);
        if !named_before(names, i, names[i].as_str()) {
            push_publication(&mut out, preset_discovery(device_id, names[i].as_str()));
        }
        i = i + 1;
    }
    assert(all.take(i as int) =~= all);
    out
}

// ----- What the link keeps -----

/// The intensity that the actions of a collar have.
#[derive(Debug)]
pub struct CollarIntensity {
    pub collar_name: String,
    pub intensity: u8,
}

pub struct IntensityView {
    pub collar_name: Seq<char>,
    pub intensity: u8,
}

impl DeepView for CollarIntensity {
    type V = IntensityView;

    open spec fn deep_view(&self) -> IntensityView {
        IntensityView { collar_name: self.collar_name@, intensity: self.intensity }
    }
}

/// What the link knows of collars, presets and the choices made over it.
#[derive(Debug)]
pub struct MqttState {
    pub collar_names: Vec<String>,
    pub preset_names: Vec<String>,
    pub intensities: Vec<CollarIntensity>,
    pub action_duration_ms: u32,
}

#[verifier::ext_equal]
pub struct MqttStateView {
    pub collar_names: Seq<Seq<char>>,
    pub preset_names: Seq<Seq<char>>,
    pub intensities: Seq<IntensityView>,
    pub action_duration_ms: u32,
}

impl DeepView for MqttState {
    type V = MqttStateView;

    open spec fn deep_view(&self) -> MqttStateView {
        MqttStateView {
            collar_names: self.collar_names.deep_view(),
            preset_names: self.preset_names.deep_view(),
            intensities: self.intensities.deep_view(),
            action_duration_ms: self.action_duration_ms,
        }
    }
}

pub const DEFAULT_ACTION_DURATION_MS: u32 = 500;

/// The intensity that was chosen for a collar.
pub open spec fn chosen_intensity(all: Seq<IntensityView>, name: Seq<char>) -> Option<u8>
    decreases all.len(),
{
    if all.len() == 0 {
        None
    } else if all.last().collar_name == name {
        Some(all.last().intensity)
    } else {
        chosen_intensity(all.drop_last(), name)
    }
}

/// The intensity that the actions of a collar have: one, where none was chosen.
pub open spec fn intensity_of(all: Seq<IntensityView>, name: Seq<char>) -> u8 {
    match chosen_intensity(all, name) {
        Some(i) => i,
        None => 1,
    }
}

/// The intensities with one chosen for a collar.
pub open spec fn with_intensity(
    all: Seq<IntensityView>,
    name: Seq<char>,
    intensity: u8,
) -> Seq<IntensityView>
    decreases all.len(),
{
    if all.len() == 0 {
        seq![IntensityView { collar_name: name, intensity }]
    } else if all.last().collar_name == name {
        all.drop_last().push(IntensityView { collar_name: name, intensity })
    } else {
        with_intensity(all.drop_last(), name, intensity).push(all.last())
    }
}

/// The intensities with one for every collar.
pub open spec fn intensities_for(
    all: Seq<IntensityView>,
    names: Seq<Seq<char>>,
) -> Seq<IntensityView>
    decreases names.len(),
{
    if names.len() == 0 {
        all
    } else {
        let before = intensities_for(all, names.drop_last());
        if chosen_intensity(before, names.last()) is Some {
            before
        } else {
            before.push(IntensityView { collar_name: names.last(), intensity: 1 })
        }
    }
}

/// Choosing an intensity for a collar changes that intensity and no other.
pub proof fn lemma_with_intensity(
    all: Seq<IntensityView>,
    name: Seq<char>,
    intensity: u8,
    other: Seq<char>,
)
    ensures
        chosen_intensity(with_intensity(all, name, intensity), other) == if other == name {
            Some(intensity)
        } else {
            chosen_intensity(all, other)
        },
    decreases all.len(),
{
    let r = with_intensity(all, name, intensity);
    if all.len() == 0 {
        assert(chosen_intensity(r.drop_last(), other) is None);
    } else if all.last().collar_name == name {
        assert(r.drop_last() =~= all.drop_last());
    } else {
        lemma_with_intensity(all.drop_last(), name, intensity, other);
        assert(r.drop_last() =~= with_intensity(all.drop_last(), name, intensity));
    }
}

proof fn lemma_with_intensity_at(
    all: Seq<IntensityView>,
    name: Seq<char>,
    intensity: u8,
    at: int,
)
    requires
        0 <= at < all.len(),
        all[at].collar_name == name,
        forall|j: int| at < j < all.len() ==> (#[trigger] all[j]).collar_name != name,
    ensures
        with_intensity(all, name, intensity) == all.update(
            at,
            IntensityView { collar_name: name, intensity },
        ),
        chosen_intensity(all, name) == Some(all[at].intensity),
    decreases all.len(),
{
    let e = IntensityView { collar_name: name, intensity };
    let front = all.drop_last();
    if at == all.len() - 1 {
        assert(all.update(at, e) =~= front.push(e));
    } else {
        assert(all[all.len() - 1].collar_name != name);
        assert forall|j: int| at < j < front.len() implies (#[trigger] front[j]).collar_name
            != name by {
            assert(front[j] == all[j]);
        }
        lemma_with_intensity_at(front, name, intensity, at);
        assert(all.update(at, e) =~= front.update(at, e).push(all.last()));
    }
}

proof fn lemma_with_intensity_new(all: Seq<IntensityView>, name: Seq<char>, intensity: u8)
    requires
        forall|j: int| 0 <= j < all.len() ==> (#[trigger] all[j]).collar_name != name,
    ensures
        chosen_intensity(all, name) is None,
        with_intensity(all, name, intensity) == seq![
            IntensityView { collar_name: name, intensity },
        ] + all,
    decreases all.len(),
{
    let e = IntensityView { collar_name: name, intensity };
    if all.len() == 0 {
        assert(seq![e] + all =~= seq![e]);
    } else {
        let front = all.drop_last();
        assert(all[all.len() - 1].collar_name != name);
        assert forall|j: int| 0 <= j < front.len() implies (#[trigger] front[j]).collar_name
            != name by {
            assert(front[j] == all[j]);
        }
        lemma_with_intensity_new(front, name, intensity);
        assert(seq![e] + all =~= (seq![e] + front).push(all.last()));
    }
}

/// The last place that holds an intensity for a collar.
fn intensity_place(all: &Vec<CollarIntensity>, name: &str) -> (r: Option<usize>)
    ensures
        match r {
            Some(at) => at < all@.len() && all.deep_view()[at as int].collar_name == name@
                && forall|j: int|
                at < j < all@.len() ==> (#[trigger] all.deep_view()[j]).collar_name != name@,
            None => forall|j: int|
                0 <= j < all@.len() ==> (#[trigger] all.deep_view()[j]).collar_name != name@,
        },
{
    let mut i: usize = all.len();
    while i > 0
        invariant
            i <= all@.len(),
            forall|j: int|
                i <= j < all@.len() ==> (#[trigger] all.deep_view()[j]).collar_name != name@,
        decreases i,
    {
        i = i - 1;
        assert(all.deep_view()[i as int].collar_name == all@[i as int].collar_name@);
        if same_text(all[i].collar_name.as_str(), name) {
            return Some(i);
        }
    }
    None
}

/// The intensity that was chosen for a collar.
pub(crate) fn find_intensity(all: &Vec<CollarIntensity>, name: &str) -> (r: Option<u8>)
    ensures
        r == chosen_intensity(all.deep_view(), name@),
{
    match intensity_place(all, name) {
        Some(at) => {
            proof {
                lemma_with_intensity_at(all.deep_view(), name@, 0, at as int);
            }
            Some(all[at].intensity)
        },
        None => {
            proof {
                lemma_with_intensity_new(all.deep_view(), name@, 0);
            }
            None
        },
    }
}

/// Chooses an intensity for a collar.
pub(crate) fn set_intensity(all: &mut Vec<CollarIntensity>, name: &str, intensity: u8)
    ensures
        final(all).deep_view() == with_intensity(old(all).deep_view(), name@, intensity),
{
    let ghost before = all.deep_view();
    let ghost e = IntensityView { collar_name: name@, intensity };
    match intensity_place(all, name) {
        Some(at) => {
            proof {
                lemma_with_intensity_at(before, name@, intensity, at as int);
            }
            all.set(at, CollarIntensity { collar_name: name.to_owned(), intensity });
            assert(all.deep_view() =~= before.update(at as int, e));
        },
        None => {
            proof {
                lemma_with_intensity_new(before, name@, intensity);
            }
            all.insert(0, CollarIntensity { collar_name: name.to_owned(), intensity });
            assert(all.deep_view() =~= seq![e] + before);
        },
    }
}

/// What the link knows after collars and presets were read anew.
pub open spec fn entities_updated(
    s: MqttStateView,
    collars: Seq<CollarView>,
    presets: Seq<PresetView>,
) -> MqttStateView {
    MqttStateView {
        collar_names: crate::protocol::model::collar_names(collars),
        preset_names: crate::protocol::model::preset_names(presets),
        intensities: intensities_for(
            s.intensities,
            crate::protocol::model::collar_names(collars),
        ),
        ..s
    }
}

/// What the link knows when it comes up.
pub open spec fn initial_state(
    collars: Seq<CollarView>,
    presets: Seq<PresetView>,
) -> MqttStateView {
    entities_updated(
        MqttStateView {
            collar_names: Seq::empty(),
            preset_names: Seq::empty(),
            intensities: Seq::empty(),
            action_duration_ms: DEFAULT_ACTION_DURATION_MS,
        },
        collars,
        presets,
    )
}

fn names_of_collars(collars: &Vec<Collar>) -> (r: Vec<String>)
    ensures
        r.deep_view() == crate::protocol::model::collar_names(collars.deep_view()),
{
    let ghost all = crate::protocol::model::collar_names(collars.deep_view());
    let mut r: Vec<String> = Vec::new();
    let mut i: usize = 0;
    assert(r.deep_view() =~= all.take(0));
    while i < collars.len()
        invariant
            i <= collars@.len(),
            all == crate::protocol::model::collar_names(collars.deep_view()),
            r.deep_view() == all.take(i as int),
        decreases collars@.len() - i,
    {
        let ghost before = r.deep_view();
        let name = collars[i].name.clone();
        assert(name@ == all[i as int]);
        r.push(name);
        assert(r.deep_view() =~= before.push(name@));
        assert(all.take(i + 1) =~= all.take(i as int).push(all[i as int]));
        i = i + 1;
    }
    assert(all.take(i as int) =~= all);
    r
}

fn names_of_presets(presets: &Vec<Preset>) -> (r: Vec<String>)
    ensures
        r.deep_view() == crate::protocol::model::preset_names(presets.deep_view()),
{
    let ghost all = crate::protocol::model::preset_names(presets.deep_view());
    let mut r: Vec<String> = Vec::new();
    let mut i: usize = 0;
    assert(r.deep_view() =~= all.take(0));
    while i < presets.len()
        invariant
            i <= presets@.len(),
            all == crate::protocol::model::preset_names(presets.deep_view()),
            r.deep_view() == all.take(i as int),
        decreases presets@.len() - i,
    {
        let ghost before = r.deep_view();
        let name = presets[i].name.clone();
        assert(name@ == all[i as int]);
        r.push(name);
        assert(r.deep_view() =~= before.push(name@));
        assert(all.take(i + 1) =~= all.take(i as int).push(all[i as int]));
        i = i + 1;
    }
    assert(all.take(i as int) =~= all);
    r
}

fn same_names(a: &Vec<String>, b: &Vec<String>) -> (r: bool)
    ensures
        r == (a.deep_view() == b.deep_view()),
{
    let ghost x = a.deep_view();
    let ghost y = b.deep_view();
    if a.len() != b.len() {
        assert(x.len() != y.len());
        return false;
    }
    let mut i: usize = 0;
    while i < a.len()
        invariant
            i <= a@.len(),
            a@.len() == b@.len(),
            x == a.deep_view(),
            y == b.deep_view(),
            forall|j: int| 0 <= j < i ==> #[trigger] x[j] == y[j],
        decreases a@.len() - i,
    {
        assert(x[i as int] == a@[i as int]@ && y[i as int] == b@[i as int]@);
        if !same_text(a[i].as_str(), b[i].as_str()) {
            assert(x[i as int] != y[i as int]);
            return false;
        }
        i = i + 1;
    }
    assert(x =~= y);
    true
}

fn intensity_states(
    all: &Vec<CollarIntensity>,
    device_id: &str,
    names: &Vec<String>,
) -> (r: Vec<Publication>)
    ensures
        r.deep_view() == intensities_told(all.deep_view(), device_id@, names.deep_view()),
{
    let ghost told = names.deep_view();
    let mut out: Vec<Publication> = Vec::new();
    let mut i: usize = 0;
    assert(out.deep_view() =~= Seq::empty());
    assert(told.take(0) =~= Seq::empty());
    while i < names.len()
        invariant
            i <= names@.len(),
            told == names.deep_view(),
            out.deep_view() == intensities_told(
                all.deep_view(),
                device_id@,
                told.take(i as int),
            ),
        decreases names@.len() - i,
    {
        assert(told.take(i + 1).drop_last() =~= told.take(i as int));
        assert(told.take(i + 1).last() == names@[i as int]@);
        if !named_before(names, i, names[i].as_str()) {
            let intensity: u8 = match find_intensity(all, names[i].as_str()) {
                Some(intensity) => intensity,
                None => 1,
            };
            let slug = slugify(names[i].as_str());
            push_publication(
                &mut out,
                keep(
                    intensity_topic(device_id, slug.as_str()),
                    decimal_text(intensity as u64),
                ),
            );
        }
        i = i + 1;
    }
    assert(told.take(i as int) =~= told);
    out
}

impl MqttState {
    pub fn new(collars: &Vec<Collar>, presets: &Vec<Preset>) -> (r: Self)
        ensures
            r.deep_view() == initial_state(collars.deep_view(), presets.deep_view()),
    {
        let mut state = MqttState {
            collar_names: Vec::new(),
            preset_names: Vec::new(),
            intensities: Vec::new(),
            action_duration_ms: DEFAULT_ACTION_DURATION_MS,
        };
        proof {
            assert(state.deep_view().collar_names =~= Seq::empty());
            assert(state.deep_view().preset_names =~= Seq::empty());
            assert(state.deep_view().intensities =~= Seq::empty());
        }
        state.update_entities(collars, presets);
        state
    }

    /// Reads collars and presets anew; choices that were made are kept.
    pub fn update_entities(&mut self, collars: &Vec<Collar>, presets: &Vec<Preset>)
        ensures
            final(self).deep_view() == entities_updated(
                old(self).deep_view(),
                collars.deep_view(),
                presets.deep_view(),
            ),
    {
        let names = names_of_collars(collars);
        let ghost all = names.deep_view();
        let ghost before = self.deep_view();
        let mut i: usize = 0;
        assert(all.take(0) =~= Seq::empty());
        while i < names.len()
            invariant
                i <= names@.len(),
                all == names.deep_view(),
                before == old(self).deep_view(),
                self.collar_names == old(self).collar_names,
                self.preset_names == old(self).preset_names,
                self.action_duration_ms == old(self).action_duration_ms,
                self.deep_view().intensities == intensities_for(
                    before.intensities,
                    all.take(i as int),
                ),
            decreases names@.len() - i,
        {
            assert(all.take(i + 1).drop_last() =~= all.take(i as int));
            assert(all.take(i + 1).last() == names@[i as int]@);
            if find_intensity(&self.intensities, names[i].as_str()).is_none() {
                let ghost sofar = self.intensities.deep_view();
                let entry = CollarIntensity { collar_name: names[i].clone(), intensity: 1 };
                self.intensities.push(entry);
                assert(self.intensities.deep_view() =~= sofar.push(entry.deep_view()));
            }
            i = i + 1;
        }
        assert(all.take(i as int) =~= all);
        self.collar_names = names;
        self.preset_names = names_of_presets(presets);
    }

    pub fn collars_changed(&self, collars: &Vec<Collar>) -> (r: bool)
        ensures
            r == (crate::protocol::model::collar_names(collars.deep_view())
                != self.deep_view().collar_names),
    {
        !same_names(&names_of_collars(collars), &self.collar_names)
    }

    pub fn presets_changed(&self, presets: &Vec<Preset>) -> (r: bool)
        ensures
            r == (crate::protocol::model::preset_names(presets.deep_view())
                != self.deep_view().preset_names),
    {
        !same_names(&names_of_presets(presets), &self.preset_names)
    }

    /// The slug of a collar that the link knows.
    pub fn collar_slug(&self, name: &str) -> (r: Option<String>)
        ensures
            r.deep_view() == if self.deep_view().collar_names.contains(name@) {
                Some(crate::mqtt::slug::slug(name@))
            } else {
                None
            },
    {
        let n: usize = self.collar_names.len();
        assert(self.deep_view().collar_names.take(n as int) =~= self.deep_view().collar_names);
        if named_before(&self.collar_names, n, name) {
            Some(slugify(name))
        } else {
            None
        }
    }

    /// All announcements.
    pub fn all_discovery(&self, device_id: &str) -> (r: Vec<Publication>)
        ensures
            r.deep_view() == discovery(self.deep_view(), device_id@),
    {
        let mut out = discover_collars(device_id, &self.collar_names);
        push_all(&mut out, discover_presets(device_id, &self.preset_names));
        let device = device_block(device_id);
        let availability = availability_block(device_id);
        push_publication(
            &mut out,
            keep(
                running_config_topic(device_id),
                running_config(device.as_str(), availability.as_str(), device_id),
            ),
        );
        push_publication(
            &mut out,
            keep(
                duration_config_topic(device_id),
                duration_config(device.as_str(), availability.as_str(), device_id),
            ),
        );
        out
    }

    /// All states when the link comes up.
    pub fn all_states(&self, device_id: &str) -> (r: Vec<Publication>)
        ensures
            r.deep_view() == states(self.deep_view(), device_id@),
    {
        let mut out = intensity_states(&self.intensities, device_id, &self.collar_names);
        push_publication(&mut out, keep(preset_running_topic(device_id), "OFF".to_owned()));
        push_publication(
            &mut out,
            keep(
                action_duration_topic(device_id),
                decimal_text(self.action_duration_ms as u64),
            ),
        );
        out
    }
}

/// All announcements: collars, presets, whether a preset runs, and the duration of actions.
pub open spec fn discovery(s: MqttStateView, d: Seq<char>) -> Seq<PublicationView> {
    let device = crate::mqtt::texts::device_block_text(d);
    let availability = crate::mqtt::texts::availability_block_text(d);
    (collars_announced(d, s.collar_names) + presets_announced(d, s.preset_names)).push(
        kept(
            crate::mqtt::texts::running_config_topic_text(d),
            crate::mqtt::texts::running_config_text(device, availability, d),
        ),
    ).push(
        kept(
            crate::mqtt::texts::duration_config_topic_text(d),
            crate::mqtt::texts::duration_config_text(device, availability, d),
        ),
    )
}

/// The intensities of collars, each name once.
pub open spec fn intensities_told(
    all: Seq<IntensityView>,
    d: Seq<char>,
    names: Seq<Seq<char>>,
) -> Seq<PublicationView>
    decreases names.len(),
{
    if names.len() == 0 {
        Seq::empty()
    } else if names.drop_last().contains(names.last()) {
        intensities_told(all, d, names.drop_last())
    } else {
        intensities_told(all, d, names.drop_last()).push(
            kept(
                crate::mqtt::texts::intensity_topic_text(
                    d,
                    crate::mqtt::slug::slug(names.last()),
                ),
                crate::text::decimal(intensity_of(all, names.last()) as nat),
            ),
        )
    }
}

/// All states when the link comes up: no preset counts as running until the device says so.
pub open spec fn states(s: MqttStateView, d: Seq<char>) -> Seq<PublicationView> {
    intensities_told(s.intensities, d, s.collar_names).push(
        kept(crate::mqtt::texts::preset_running_topic_text(d), "OFF"@),
    ).push(
        kept(
            crate::mqtt::texts::action_duration_topic_text(d),
            crate::text::decimal(s.action_duration_ms as nat),
        ),
    )
}

// ----- Announcing anew -----

/// What takes a collar's announcements back: nothing, on each of their topics.
pub open spec fn collar_withdrawals(d: Seq<char>, slug: Seq<char>) -> Seq<PublicationView> {
    seq![
        kept(crate::mqtt::texts::intensity_config_topic_text(d, slug), Seq::empty()),
        kept(crate::mqtt::texts::button_config_topic_text(d, slug, "shock"@), Seq::empty()),
        kept(crate::mqtt::texts::button_config_topic_text(d, slug, "vibrate"@), Seq::empty()),
        kept(crate::mqtt::texts::button_config_topic_text(d, slug, "beep"@), Seq::empty()),
        kept(crate::mqtt::texts::activity_config_topic_text(d, slug), Seq::empty()),
    ]
}

/// What takes a preset's announcement back.
pub open spec fn preset_withdrawal(d: Seq<char>, slug: Seq<char>) -> PublicationView {
    kept(crate::mqtt::texts::preset_config_topic_text(d, slug), Seq::empty())
}

/// Whether a name among `names` has the slug.
pub open spec fn slug_used(names: Seq<Seq<char>>, slug: Seq<char>) -> bool {
    exists|i: int|
        0 <= i < names.len() && crate::mqtt::slug::slug(#[trigger] names[i]) == slug
}

/// The withdrawals for collars whose slug is no longer used.
pub open spec fn collars_withdrawn(
    d: Seq<char>,
    old_names: Seq<Seq<char>>,
    new_names: Seq<Seq<char>>,
) -> Seq<PublicationView>
    decreases old_names.len(),
{
    if old_names.len() == 0 {
        Seq::empty()
    } else {
        let before = collars_withdrawn(d, old_names.drop_last(), new_names);
        let slug = crate::mqtt::slug::slug(old_names.last());
        if old_names.drop_last().contains(old_names.last()) || slug_used(new_names, slug) {
            before
        } else {
            before + collar_withdrawals(d, slug)
        }
    }
}

/// The withdrawals for presets whose slug is no longer used.
pub open spec fn presets_withdrawn(
    d: Seq<char>,
    old_names: Seq<Seq<char>>,
    new_names: Seq<Seq<char>>,
) -> Seq<PublicationView>
    decreases old_names.len(),
{
    if old_names.len() == 0 {
        Seq::empty()
    } else {
        let before = presets_withdrawn(d, old_names.drop_last(), new_names);
        let slug = crate::mqtt::slug::slug(old_names.last());
        if old_names.drop_last().contains(old_names.last()) || slug_used(new_names, slug) {
            before
        } else {
            before.push(preset_withdrawal(d, slug))
        }
    }
}

/// What is published when the collars or presets are others than before: withdrawals for slugs
/// that are no longer used, then all collars and presets, then the intensities of the collars.
pub open spec fn rediscovery(
    s: MqttStateView,
    d: Seq<char>,
    collar_names: Seq<Seq<char>>,
    preset_names: Seq<Seq<char>>,
) -> Seq<PublicationView> {
    collars_withdrawn(d, s.collar_names, collar_names) + presets_withdrawn(
        d,
        s.preset_names,
        preset_names,
    ) + collars_announced(d, collar_names) + presets_announced(d, preset_names)
        + intensities_told(s.intensities, d, collar_names)
}

/// Where the link already knows the new names, nothing is withdrawn.
pub proof fn lemma_known_names_are_not_withdrawn(
    d: Seq<char>,
    names: Seq<Seq<char>>,
)
    ensures
        collars_withdrawn(d, names, names) == Seq::<PublicationView>::empty(),
        presets_withdrawn(d, names, names) == Seq::<PublicationView>::empty(),
{
    lemma_front_is_not_withdrawn(d, names, names.len() as int);
    assert(names.take(names.len() as int) =~= names);
}

proof fn lemma_front_is_not_withdrawn(d: Seq<char>, names: Seq<Seq<char>>, n: int)
    requires
        0 <= n <= names.len(),
    ensures
        collars_withdrawn(d, names.take(n), names) == Seq::<PublicationView>::empty(),
        presets_withdrawn(d, names.take(n), names) == Seq::<PublicationView>::empty(),
    decreases n,
{
    if n > 0 {
        lemma_front_is_not_withdrawn(d, names, n - 1);
        assert(names.take(n).drop_last() =~= names.take(n - 1));
        assert(names.take(n).last() == names[n - 1]);
        assert(slug_used(names, crate::mqtt::slug::slug(names[n - 1])));
    }
}

/// Every announcement of a collar is taken back on its own topic.
pub proof fn lemma_withdrawals_match(d: Seq<char>, name: Seq<char>, i: int)
    requires
        0 <= i < 5,
    ensures
        collar_announcements(d, name).len() == 5,
        collar_withdrawals(d, crate::mqtt::slug::slug(name)).len() == 5,
        collar_withdrawals(d, crate::mqtt::slug::slug(name))[i] == kept(
            collar_announcements(d, name)[i].topic,
            Seq::empty(),
        ),
        preset_withdrawal(d, crate::mqtt::slug::slug(name)) == kept(
            preset_announcement(d, name).topic,
            Seq::empty(),
        ),
{
}

fn withdraw(topic: String) -> (r: Publication)
    ensures
        r.deep_view() == kept(topic@, Seq::empty()),
{
    let p = keep(topic, String::new());
    assert(p.payload@ =~= Seq::empty());
    p
}

fn remove_collar_discovery(device_id: &str, slug: &str) -> (r: Vec<Publication>)
    ensures
        r.deep_view() == collar_withdrawals(device_id@, slug@),
{
    let mut out: Vec<Publication> = Vec::new();
    out.push(withdraw(intensity_config_topic(device_id, slug)));
    out.push(withdraw(button_config_topic(device_id, slug, "shock")));
    out.push(withdraw(button_config_topic(device_id, slug, "vibrate")));
    out.push(withdraw(button_config_topic(device_id, slug, "beep")));
    out.push(withdraw(activity_config_topic(device_id, slug)));
    assert(out.deep_view() =~= collar_withdrawals(device_id@, slug@));
    out
}

fn uses_slug(names: &Vec<String>, slug: &str) -> (r: bool)
    ensures
        r == slug_used(names.deep_view(), slug@),
{
    let ghost all = names.deep_view();
    let mut i: usize = 0;
    while i < names.len()
        invariant
            i <= names@.len(),
            all == names.deep_view(),
            forall|j: int|
                0 <= j < i ==> crate::mqtt::slug::slug(#[trigger] all[j]) != slug@,
        decreases names@.len() - i,
    {
        assert(all[i as int] == names@[i as int]@);
        let s = slugify(names[i].as_str());
        if same_text(s.as_str(), slug) {
            return true;
        }
        i = i + 1;
    }
    false
}

fn withdraw_collars(
    device_id: &str,
    old_names: &Vec<String>,
    new_names: &Vec<String>,
) -> (r: Vec<Publication>)
    ensures
        r.deep_view() == collars_withdrawn(
            device_id@,
            old_names.deep_view(),
            new_names.deep_view(),
        ),
{
    let ghost all = old_names.deep_view();
    let mut out: Vec<Publication> = Vec::new();
    let mut i: usize = 0;
    assert(out.deep_view() =~= Seq::empty());
    assert(all.take(0) =~= Seq::empty());
    while i < old_names.len()
        invariant
            i <= old_names@.len(),
            all == old_names.deep_view(),
            out.deep_view() == collars_withdrawn(
                device_id@,
                all.take(i as int),
                new_names.deep_view(),
            ),
        decreases old_names@.len() - i,
    {
        assert(all.take(i + 1).drop_last() =~= all.take(i as int));
        assert(all.take(i + 1).last() == old_names@[i as int]@);
        let slug = slugify(old_names[i].as_str());
        if !named_before(old_names, i, old_names[i].as_str()) && !uses_slug(
            new_names,
            slug.as_str(),
        ) {
            push_all(&mut out, remove_collar_discovery(device_id, slug.as_str()));
        }
        i = i + 1;
    }
    assert(all.take(i as int) =~= all);
    out
}

fn withdraw_presets(
    device_id: &str,
    old_names: &Vec<String>,
    new_names: &Vec<String>,
) -> (r: Vec<Publication>)
    ensures
        r.deep_view() == presets_withdrawn(
            device_id@,
            old_names.deep_view(),
            new_names.deep_view(),
        ),
{
    let ghost all = old_names.deep_view();
    let mut out: Vec<Publication> = Vec::new();
    let mut i: usize = 0;
    assert(out.deep_view() =~= Seq::empty());
    assert(all.take(0) =~= Seq::empty());
    while i < old_names.len()
        invariant
            i <= old_names@.len(),
            all == old_names.deep_view(),
            out.deep_view() == presets_withdrawn(
                device_id@,
                all.take(i as int),
                new_names.deep_view(),
            ),
        decreases old_names@.len() - i,
    {
        assert(all.take(i + 1).drop_last() =~= all.take(i as int));
        assert(all.take(i + 1).last() == old_names@[i as int]@);
        let slug = slugify(old_names[i].as_str());
        if !named_before(old_names, i, old_names[i].as_str()) && !uses_slug(
            new_names,
            slug.as_str(),
        ) {
            push_publication(
                &mut out,
                withdraw(preset_config_topic(device_id, slug.as_str())),
            );
        }
        i = i + 1;
    }
    assert(all.take(i as int) =~= all);
    out
}

impl MqttState {
    /// What is published when the collars or presets are others than before.
    pub fn republish_discovery(
        &self,
        device_id: &str,
        collars: &Vec<Collar>,
        presets: &Vec<Preset>,
    ) -> (r: Vec<Publication>)
        ensures
            r.deep_view() == rediscovery(
                self.deep_view(),
                device_id@,
                crate::protocol::model::collar_names(collars.deep_view()),
                crate::protocol::model::preset_names(presets.deep_view()),
            ),
    {
        let collar_names = names_of_collars(collars);
        let preset_names = names_of_presets(presets);
        let mut out = withdraw_collars(device_id, &self.collar_names, &collar_names);
        push_all(&mut out, withdraw_presets(device_id, &self.preset_names, &preset_names));
        push_all(&mut out, discover_collars(device_id, &collar_names));
        push_all(&mut out, discover_presets(device_id, &preset_names));
        push_all(&mut out, intensity_states(&self.intensities, device_id, &collar_names));
        out
    }
}

// ----- Laws -----

proof fn lemma_intensities_for(all: Seq<IntensityView>, names: Seq<Seq<char>>, name: Seq<char>)
    ensures
        chosen_intensity(intensities_for(all, names), name) == match chosen_intensity(all, name) {
            Some(i) => Some(i),
            None => if names.contains(name) {
                Some(1u8)
            } else {
                None
            },
        },
    decreases names.len(),
{
    if names.len() > 0 {
        let front = names.drop_last();
        let last = names.last();
        lemma_intensities_for(all, front, name);
        lemma_intensities_for(all, front, last);
        let before = intensities_for(all, front);
        let e = IntensityView { collar_name: last, intensity: 1 };
        assert(before.push(e).drop_last() =~= before);
        assert(names[names.len() - 1] == last);
        if front.contains(name) {
            let k = choose|k: int| 0 <= k < front.len() && front[k] == name;
            assert(names[k] == name);
        }
        if names.contains(name) && name != last {
            let k = choose|k: int| 0 <= k < names.len() && names[k] == name;
            assert(front[k] == name);
        }
    }
}

/// Reading collars and presets anew keeps every choice, of the intensity of a collar as well as of
/// the duration of actions. A collar for which nothing was chosen has the intensity one; no other
/// choice appears. The names are those of the collars and presets.
pub proof fn lemma_reading_anew_keeps_choices(
    s: MqttStateView,
    collars: Seq<CollarView>,
    presets: Seq<PresetView>,
    name: Seq<char>,
)
    ensures
        ({
            let r = entities_updated(s, collars, presets);
            let is_collar = exists|i: int|
                0 <= i < collars.len() && (#[trigger] collars[i]).name == name;
            &&& r.action_duration_ms == s.action_duration_ms
            &&& chosen_intensity(s.intensities, name) is Some ==> chosen_intensity(
                r.intensities,
                name,
            ) == chosen_intensity(s.intensities, name)
            &&& chosen_intensity(s.intensities, name) is None && is_collar ==> chosen_intensity(
                r.intensities,
                name,
            ) == Some(1u8)
            &&& chosen_intensity(s.intensities, name) is None && !is_collar ==> chosen_intensity(
                r.intensities,
                name,
            ) is None
            &&& r.collar_names.len() == collars.len()
            &&& forall|i: int|
                0 <= i < collars.len() ==> #[trigger] r.collar_names[i] == collars[i].name
            &&& r.preset_names.len() == presets.len()
            &&& forall|i: int|
                0 <= i < presets.len() ==> #[trigger] r.preset_names[i] == presets[i].name
        }),
{
    let names = crate::protocol::model::collar_names(collars);
    lemma_intensities_for(s.intensities, names, name);
    if names.contains(name) {
        let k = choose|k: int| 0 <= k < names.len() && names[k] == name;
        assert(collars[k].name == name);
    }
    if exists|i: int| 0 <= i < collars.len() && (#[trigger] collars[i]).name == name {
        let k = choose|k: int| 0 <= k < collars.len() && (#[trigger] collars[k]).name == name;
        assert(names[k] == name);
    }
}

/// When the link comes up every collar has the intensity one, and actions last half a second.
pub proof fn lemma_first_choices(collars: Seq<CollarView>, presets: Seq<PresetView>, i: int)
    requires
        0 <= i < collars.len(),
    ensures
        intensity_of(initial_state(collars, presets).intensities, collars[i].name) == 1,
        initial_state(collars, presets).action_duration_ms == 500,
{
    let none = MqttStateView {
        collar_names: Seq::empty(),
        preset_names: Seq::empty(),
        intensities: Seq::empty(),
        action_duration_ms: DEFAULT_ACTION_DURATION_MS,
    };
    lemma_reading_anew_keeps_choices(none, collars, presets, collars[i].name);
}

proof fn lemma_joined(a: Seq<PublicationView>, b: Seq<PublicationView>)
    ensures
        forall|x: PublicationView| #[trigger]
            (a + b).contains(x) <==> a.contains(x) || b.contains(x),
{
    assert forall|x: PublicationView| a.contains(x) || b.contains(x) implies #[trigger] (a
        + b).contains(x) by {
        if a.contains(x) {
            let k = choose|k: int| 0 <= k < a.len() && a[k] == x;
            assert((a + b)[k] == x);
        } else {
            let k = choose|k: int| 0 <= k < b.len() && b[k] == x;
            assert((a + b)[a.len() + k] == x);
        }
    }
    assert forall|x: PublicationView| #[trigger] (a + b).contains(x) implies a.contains(x)
        || b.contains(x) by {
        let k = choose|k: int| 0 <= k < (a + b).len() && (a + b)[k] == x;
        if k < a.len() {
            assert(a[k] == x);
        } else {
            assert(b[k - a.len()] == x);
        }
    }
}

proof fn lemma_pushed(a: Seq<PublicationView>, p: PublicationView)
    ensures
        forall|x: PublicationView| #[trigger] a.push(p).contains(x) <==> a.contains(x) || x == p,
{
    assert(a.push(p) =~= a + seq![p]);
    lemma_joined(a, seq![p]);
    assert forall|x: PublicationView| seq![p].contains(x) <==> x == p by {
        assert(seq![p][0] == p);
    }
}

/// Whether a message is one of the announcements of a collar among `names`.
pub open spec fn announces_collar(d: Seq<char>, names: Seq<Seq<char>>, x: PublicationView) -> bool {
    exists|i: int|
        0 <= i < names.len() && collar_announcements(d, #[trigger] names[i]).contains(x)
}

/// Whether a message is the announcement of a preset among `names`.
pub open spec fn announces_preset(d: Seq<char>, names: Seq<Seq<char>>, x: PublicationView) -> bool {
    exists|i: int| 0 <= i < names.len() && preset_announcement(d, #[trigger] names[i]) == x
}

/// Whether a message tells the intensity of a collar among `names`.
pub open spec fn tells_intensity(
    all: Seq<IntensityView>,
    d: Seq<char>,
    names: Seq<Seq<char>>,
    x: PublicationView,
) -> bool {
    exists|i: int|
        0 <= i < names.len() && x == kept(
            crate::mqtt::texts::intensity_topic_text(
                d,
                crate::mqtt::slug::slug(#[trigger] names[i]),
            ),
            crate::text::decimal(
                match chosen_intensity(all, names[i]) {
                    Some(intensity) => intensity as nat,
                    None => 1,
                },
            ),
        )
}

/// What a function gives for names, each name once.
spec fn gathered(
    names: Seq<Seq<char>>,
    f: spec_fn(Seq<char>) -> Seq<PublicationView>,
) -> Seq<PublicationView>
    decreases names.len(),
{
    if names.len() == 0 {
        Seq::empty()
    } else if names.drop_last().contains(names.last()) {
        gathered(names.drop_last(), f)
    } else {
        gathered(names.drop_last(), f) + f(names.last())
    }
}

proof fn lemma_gathered(
    names: Seq<Seq<char>>,
    f: spec_fn(Seq<char>) -> Seq<PublicationView>,
    x: PublicationView,
)
    ensures
        gathered(names, f).contains(x) <==> exists|i: int|
            0 <= i < names.len() && f(#[trigger] names[i]).contains(x),
    decreases names.len(),
{
    if names.len() > 0 {
        let front = names.drop_last();
        let last = names.last();
        assert(names[names.len() - 1] == last);
        lemma_gathered(front, f, x);
        lemma_joined(gathered(front, f), f(last));
        if exists|i: int| 0 <= i < front.len() && f(#[trigger] front[i]).contains(x) {
            let i = choose|i: int| 0 <= i < front.len() && f(#[trigger] front[i]).contains(x);
            assert(f(names[i]).contains(x));
        }
        if exists|i: int| 0 <= i < names.len() && f(#[trigger] names[i]).contains(x) {
            let i = choose|i: int| 0 <= i < names.len() && f(#[trigger] names[i]).contains(x);
            if i < front.len() {
                assert(f(front[i]).contains(x));
            } else if front.contains(last) {
                let k = choose|k: int| 0 <= k < front.len() && front[k] == last;
                assert(f(front[k]).contains(x));
            }
        }
    }
}

proof fn lemma_announced_is_gathered(
    d: Seq<char>,
    names: Seq<Seq<char>>,
    f: spec_fn(Seq<char>) -> Seq<PublicationView>,
    g: spec_fn(Seq<char>) -> Seq<PublicationView>,
)
    requires
        forall|name: Seq<char>| #[trigger] f(name) == collar_announcements(d, name),
        forall|name: Seq<char>| #[trigger] g(name) == seq![preset_announcement(d, name)],
    ensures
        collars_announced(d, names) == gathered(names, f),
        presets_announced(d, names) == gathered(names, g),
    decreases names.len(),
{
    if names.len() > 0 {
        lemma_announced_is_gathered(d, names.drop_last(), f, g);
        assert(f(names.last()) == collar_announcements(d, names.last()));
        let before = gathered(names.drop_last(), g);
        let own = preset_announcement(d, names.last());
        assert(g(names.last()) == seq![own]);
        assert(before.push(own) =~= before + seq![own]);
    }
}

/// What is announced of names is what is announced of each of them, however often it occurs.
pub proof fn lemma_every_name_is_announced(d: Seq<char>, names: Seq<Seq<char>>, x: PublicationView)
    ensures
        collars_announced(d, names).contains(x) <==> announces_collar(d, names, x),
        presets_announced(d, names).contains(x) <==> announces_preset(d, names, x),
{
    let f = |name: Seq<char>| collar_announcements(d, name);
    let g = |name: Seq<char>| seq![preset_announcement(d, name)];
    lemma_announced_is_gathered(d, names, f, g);
    lemma_gathered(names, f, x);
    lemma_gathered(names, g, x);
    if announces_collar(d, names, x) {
        let i = choose|i: int|
            0 <= i < names.len() && collar_announcements(d, #[trigger] names[i]).contains(x);
        assert(f(names[i]).contains(x));
    }
    if exists|i: int| 0 <= i < names.len() && f(#[trigger] names[i]).contains(x) {
        let i = choose|i: int| 0 <= i < names.len() && f(#[trigger] names[i]).contains(x);
        assert(collar_announcements(d, names[i]).contains(x));
    }
    if announces_preset(d, names, x) {
        let i = choose|i: int|
            0 <= i < names.len() && preset_announcement(d, #[trigger] names[i]) == x;
        assert(g(names[i])[0] == x);
        assert(g(names[i]).contains(x));
    }
    if exists|i: int| 0 <= i < names.len() && g(#[trigger] names[i]).contains(x) {
        let i = choose|i: int| 0 <= i < names.len() && g(#[trigger] names[i]).contains(x);
        assert(preset_announcement(d, names[i]) == x);
    }
}

/// Every collar has its intensity told: the one that was chosen for it, or one.
pub proof fn lemma_every_intensity_is_told(
    all: Seq<IntensityView>,
    d: Seq<char>,
    names: Seq<Seq<char>>,
    x: PublicationView,
)
    ensures
        intensities_told(all, d, names).contains(x) <==> tells_intensity(all, d, names, x),
    decreases names.len(),
{
    if names.len() > 0 {
        let front = names.drop_last();
        let last = names.last();
        assert(names[names.len() - 1] == last);
        lemma_every_intensity_is_told(all, d, front, x);
        let own = kept(
            crate::mqtt::texts::intensity_topic_text(d, crate::mqtt::slug::slug(last)),
            crate::text::decimal(intensity_of(all, last) as nat),
        );
        lemma_pushed(intensities_told(all, d, front), own);
        if front.contains(last) {
            let k = choose|k: int| 0 <= k < front.len() && front[k] == last;
            if x == own {
                assert(tells_intensity(all, d, front, x)) by {
                    assert(front[k] == last);
                }
            }
        }
        if tells_intensity(all, d, front, x) {
            let i = choose|i: int|
                0 <= i < front.len() && x == kept(
                    crate::mqtt::texts::intensity_topic_text(
                        d,
                        crate::mqtt::slug::slug(#[trigger] front[i]),
                    ),
                    crate::text::decimal(
                        match chosen_intensity(all, front[i]) {
                            Some(intensity) => intensity as nat,
                            None => 1,
                        },
                    ),
                );
            assert(names[i] == front[i]);
        }
        if tells_intensity(all, d, names, x) {
            let i = choose|i: int|
                0 <= i < names.len() && x == kept(
                    crate::mqtt::texts::intensity_topic_text(
                        d,
                        crate::mqtt::slug::slug(#[trigger] names[i]),
                    ),
                    crate::text::decimal(
                        match chosen_intensity(all, names[i]) {
                            Some(intensity) => intensity as nat,
                            None => 1,
                        },
                    ),
                );
            if i < front.len() {
                assert(front[i] == names[i]);
                assert(tells_intensity(all, d, front, x));
            } else {
                assert(x == own);
            }
        }
        if x == own {
            assert(tells_intensity(all, d, names, x)) by {
                assert(names[names.len() - 1] == last);
            }
        }
    }
}

/// When the link comes up it announces every collar, every preset, whether a preset runs and the
/// duration of actions, and nothing else.
pub proof fn lemma_discovery_announces_everything(
    s: MqttStateView,
    d: Seq<char>,
    x: PublicationView,
)
    ensures
        discovery(s, d).contains(x) <==> announces_collar(d, s.collar_names, x) || announces_preset(
            d,
            s.preset_names,
            x,
        ) || x == kept(
            crate::mqtt::texts::running_config_topic_text(d),
            crate::mqtt::texts::running_config_text(
                crate::mqtt::texts::device_block_text(d),
                crate::mqtt::texts::availability_block_text(d),
                d,
            ),
        ) || x == kept(
            crate::mqtt::texts::duration_config_topic_text(d),
            crate::mqtt::texts::duration_config_text(
                crate::mqtt::texts::device_block_text(d),
                crate::mqtt::texts::availability_block_text(d),
                d,
            ),
        ),
{
    let running = kept(
        crate::mqtt::texts::running_config_topic_text(d),
        crate::mqtt::texts::running_config_text(
            crate::mqtt::texts::device_block_text(d),
            crate::mqtt::texts::availability_block_text(d),
            d,
        ),
    );
    let duration = kept(
        crate::mqtt::texts::duration_config_topic_text(d),
        crate::mqtt::texts::duration_config_text(
            crate::mqtt::texts::device_block_text(d),
            crate::mqtt::texts::availability_block_text(d),
            d,
        ),
    );
    let both = collars_announced(d, s.collar_names) + presets_announced(d, s.preset_names);
    lemma_every_name_is_announced(d, s.collar_names, x);
    lemma_every_name_is_announced(d, s.preset_names, x);
    lemma_joined(collars_announced(d, s.collar_names), presets_announced(d, s.preset_names));
    lemma_pushed(both, running);
    lemma_pushed(both.push(running), duration);
}

/// When the link comes up it tells the intensity of every collar, that no preset runs, and the
/// duration of actions, and nothing else.
pub proof fn lemma_states_tell_choices(s: MqttStateView, d: Seq<char>, x: PublicationView)
    ensures
        states(s, d).contains(x) <==> tells_intensity(s.intensities, d, s.collar_names, x) || x
            == kept(crate::mqtt::texts::preset_running_topic_text(d), "OFF"@) || x == kept(
            crate::mqtt::texts::action_duration_topic_text(d),
            crate::text::decimal(s.action_duration_ms as nat),
        ),
{
    let told = intensities_told(s.intensities, d, s.collar_names);
    let off = kept(crate::mqtt::texts::preset_running_topic_text(d), "OFF"@);
    let duration = kept(
        crate::mqtt::texts::action_duration_topic_text(d),
        crate::text::decimal(s.action_duration_ms as nat),
    );
    lemma_every_intensity_is_told(s.intensities, d, s.collar_names, x);
    lemma_pushed(told, off);
    lemma_pushed(told.push(off), duration);
}

/// Whether a message takes back an announcement of a collar that was known and whose slug no new
/// collar has.
pub open spec fn withdraws_collar(
    d: Seq<char>,
    old_names: Seq<Seq<char>>,
    new_names: Seq<Seq<char>>,
    x: PublicationView,
) -> bool {
    exists|i: int|
        0 <= i < old_names.len() && !slug_used(
            new_names,
            crate::mqtt::slug::slug(#[trigger] old_names[i]),
        ) && collar_withdrawals(d, crate::mqtt::slug::slug(old_names[i])).contains(x)
}

/// Whether a message takes back the announcement of a preset that was known and whose slug no new
/// preset has.
pub open spec fn withdraws_preset(
    d: Seq<char>,
    old_names: Seq<Seq<char>>,
    new_names: Seq<Seq<char>>,
    x: PublicationView,
) -> bool {
    exists|i: int|
        0 <= i < old_names.len() && !slug_used(
            new_names,
            crate::mqtt::slug::slug(#[trigger] old_names[i]),
        ) && preset_withdrawal(d, crate::mqtt::slug::slug(old_names[i])) == x
}

/// What is withdrawn is every announcement of a name whose slug is no longer used, and no other.
pub proof fn lemma_stale_names_are_withdrawn(
    d: Seq<char>,
    old_names: Seq<Seq<char>>,
    new_names: Seq<Seq<char>>,
    x: PublicationView,
)
    ensures
        collars_withdrawn(d, old_names, new_names).contains(x) <==> withdraws_collar(
            d,
            old_names,
            new_names,
            x,
        ),
        presets_withdrawn(d, old_names, new_names).contains(x) <==> withdraws_preset(
            d,
            old_names,
            new_names,
            x,
        ),
    decreases old_names.len(),
{
    if old_names.len() > 0 {
        let front = old_names.drop_last();
        let last = old_names.last();
        let slug = crate::mqtt::slug::slug(last);
        assert(old_names[old_names.len() - 1] == last);
        lemma_stale_names_are_withdrawn(d, front, new_names, x);
        lemma_joined(collars_withdrawn(d, front, new_names), collar_withdrawals(d, slug));
        lemma_pushed(presets_withdrawn(d, front, new_names), preset_withdrawal(d, slug));
        assert forall|i: int| 0 <= i < front.len() implies front[i] == #[trigger] old_names[i] by {}
        if withdraws_collar(d, front, new_names, x) {
            let i = choose|i: int|
                0 <= i < front.len() && !slug_used(
                    new_names,
                    crate::mqtt::slug::slug(#[trigger] front[i]),
                ) && collar_withdrawals(d, crate::mqtt::slug::slug(front[i])).contains(x);
            assert(old_names[i] == front[i]);
            assert(withdraws_collar(d, old_names, new_names, x));
        }
        if withdraws_preset(d, front, new_names, x) {
            let i = choose|i: int|
                0 <= i < front.len() && !slug_used(
                    new_names,
                    crate::mqtt::slug::slug(#[trigger] front[i]),
                ) && preset_withdrawal(d, crate::mqtt::slug::slug(front[i])) == x;
            assert(old_names[i] == front[i]);
            assert(withdraws_preset(d, old_names, new_names, x));
        }
        let again = front.contains(last);
        let k = choose|k: int| 0 <= k < front.len() && front[k] == last;
        if withdraws_collar(d, old_names, new_names, x) {
            let i = choose|i: int|
                0 <= i < old_names.len() && !slug_used(
                    new_names,
                    crate::mqtt::slug::slug(#[trigger] old_names[i]),
                ) && collar_withdrawals(d, crate::mqtt::slug::slug(old_names[i])).contains(x);
            if i < front.len() {
                assert(front[i] == old_names[i]);
                assert(withdraws_collar(d, front, new_names, x));
            } else if again {
                assert(front[k] == last);
                assert(withdraws_collar(d, front, new_names, x));
            }
        }
        if withdraws_preset(d, old_names, new_names, x) {
            let i = choose|i: int|
                0 <= i < old_names.len() && !slug_used(
                    new_names,
                    crate::mqtt::slug::slug(#[trigger] old_names[i]),
                ) && preset_withdrawal(d, crate::mqtt::slug::slug(old_names[i])) == x;
            if i < front.len() {
                assert(front[i] == old_names[i]);
                assert(withdraws_preset(d, front, new_names, x));
            } else if again {
                assert(front[k] == last);
                assert(withdraws_preset(d, front, new_names, x));
            }
        }
    }
}

/// When the collars or presets are others than before, what is no longer used is withdrawn, every
/// collar and preset is announced, and the intensity of every collar is told as it was chosen;
/// nothing else is published.
pub proof fn lemma_rediscovery_announces_everything(
    s: MqttStateView,
    d: Seq<char>,
    collar_names: Seq<Seq<char>>,
    preset_names: Seq<Seq<char>>,
    x: PublicationView,
)
    ensures
        rediscovery(s, d, collar_names, preset_names).contains(x) <==> withdraws_collar(
            d,
            s.collar_names,
            collar_names,
            x,
        ) || withdraws_preset(d, s.preset_names, preset_names, x) || announces_collar(
            d,
            collar_names,
            x,
        ) || announces_preset(d, preset_names, x) || tells_intensity(
            s.intensities,
            d,
            collar_names,
            x,
        ),
{
    let a = collars_withdrawn(d, s.collar_names, collar_names);
    let b = presets_withdrawn(d, s.preset_names, preset_names);
    let c = collars_announced(d, collar_names);
    let e = presets_announced(d, preset_names);
    let f = intensities_told(s.intensities, d, collar_names);
    lemma_stale_names_are_withdrawn(d, s.collar_names, collar_names, x);
    lemma_stale_names_are_withdrawn(d, s.preset_names, preset_names, x);
    lemma_every_name_is_announced(d, collar_names, x);
    lemma_every_name_is_announced(d, preset_names, x);
    lemma_every_intensity_is_told(s.intensities, d, collar_names, x);
    lemma_joined(a, b);
    lemma_joined(a + b, c);
    lemma_joined(a + b + c, e);
    lemma_joined(a + b + c + e, f);
}

} // verus!
