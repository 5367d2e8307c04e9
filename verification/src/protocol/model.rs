//! Collars, presets and the reports of the device.

use vstd::prelude::*;

use crate::text::same_text;

verus! {

/// What a command makes a collar do.
#[derive(Debug, Clone, Copy, PartialEq, Eq, Hash, Structural)]
pub enum CommandMode {
    Shock,
    Vibrate,
    Beep,
}

impl CommandMode {
    /// The number that stands for the mode in a radio frame.
    pub open spec fn rf_byte(self) -> u8 {
        match self {
            CommandMode::Shock => 1,
            CommandMode::Vibrate => 2,
            CommandMode::Beep => 3,
        }
    }

    /// Whether a command of this mode has a strength.
    pub open spec fn graded(self) -> bool {
        self != CommandMode::Beep
    }

    /// The mode that a number in a radio frame stands for.
    pub open spec fn of_rf_byte(mode: u8) -> Option<CommandMode> {
        if mode == 1 {
            Some(CommandMode::Shock)
        } else if mode == 2 {
            Some(CommandMode::Vibrate)
        } else if mode == 3 {
            Some(CommandMode::Beep)
        } else {
            None
        }
    }

    pub fn to_rf_byte(self) -> (r: u8)
        ensures
            r == self.rf_byte(),
    {
        match self {
            CommandMode::Shock => 1,
            CommandMode::Vibrate => 2,
            CommandMode::Beep => 3,
        }
    }

    pub fn from_rf_byte(mode: u8) -> (r: Option<Self>)
        ensures
            r == CommandMode::of_rf_byte(mode),
    {
        match mode {
            1 => Some(CommandMode::Shock),
            2 => Some(CommandMode::Vibrate),
            3 => Some(CommandMode::Beep),
            _ => None,
        }
    }

    pub fn has_intensity(self) -> (r: bool)
        ensures
            r == self.graded(),
    {
        match self {
            CommandMode::Beep => false,
            _ => true,
        }
    }
}

/// A number stands for a mode exactly when it is the number of that mode.
pub proof fn lemma_rf_byte_tells_mode(mode: CommandMode, byte: u8)
    ensures
        CommandMode::of_rf_byte(byte) == Some(mode) <==> mode.rf_byte() == byte,
{
}

#[derive(Debug, Clone, Copy, PartialEq, Eq, Structural)]
pub enum ButtonAction {
    Press,
    Release,
}

/// How a random value is spread over its range.
#[derive(Debug, Clone, Copy, PartialEq, Eq, Structural)]
pub enum Distribution {
    Uniform,
    Gaussian,
}

impl Default for Distribution {
    fn default() -> (r: Self)
        ensures
            r == Distribution::Uniform,
    {
        Distribution::Uniform
    }
}

/// A collar that the device can command, under the name its owner gave it.
#[derive(Debug, PartialEq, Eq)]
pub struct Collar {
    pub name: String,
    pub collar_id: u16,
    pub channel: u8,
}

pub struct CollarView {
    pub name: Seq<char>,
    pub collar_id: u16,
    pub channel: u8,
}

impl DeepView for Collar {
    type V = CollarView;

    open spec fn deep_view(&self) -> CollarView {
        CollarView { name: self.name@, collar_id: self.collar_id, channel: self.channel }
    }
}

impl Clone for Collar {
    fn clone(&self) -> (r: Self)
        ensures
            r == *self,
    {
        Collar { name: self.name.clone(), collar_id: self.collar_id, channel: self.channel }
    }
}

/// The names of a list of collars.
pub open spec fn collar_names(collars: Seq<CollarView>) -> Seq<Seq<char>> {
    collars.map_values(|c: CollarView| c.name)
}

/// Where `name` first stands in a list of names.
pub open spec fn position(names: Seq<Seq<char>>, name: Seq<char>) -> Option<int>
    decreases names.len(),
{
    if names.len() == 0 {
        None
    } else {
        match position(names.drop_last(), name) {
            Some(i) => Some(i),
            None => if names.last() == name {
                Some(names.len() - 1)
            } else {
                None
            },
        }
    }
}

/// `position` gives the first place that holds the name, and nothing if none does.
pub proof fn lemma_position(names: Seq<Seq<char>>, name: Seq<char>)
    ensures
        match position(names, name) {
            Some(i) => 0 <= i < names.len() && names[i] == name && forall|j: int|
                0 <= j < i ==> #[trigger] names[j] != name,
            None => !names.contains(name),
        },
    decreases names.len(),
{
    if names.len() > 0 {
        let front = names.drop_last();
        lemma_position(front, name);
        match position(front, name) {
            Some(i) => {
                assert(names[i] == front[i]);
                assert forall|j: int| 0 <= j < i implies #[trigger] names[j] != name by {
                    assert(names[j] == front[j]);
                }
            },
            None => {
                assert forall|j: int| 0 <= j < names.len() - 1 implies #[trigger] names[j] != name by {
                    assert(names[j] == front[j]);
                }
            },
        }
    }
}

/// A place that holds the name, with no earlier one, is the one that `position` gives.
pub proof fn lemma_position_is(names: Seq<Seq<char>>, name: Seq<char>, i: int)
    requires
        0 <= i < names.len(),
        names[i] == name,
        forall|j: int| 0 <= j < i ==> #[trigger] names[j] != name,
    ensures
        position(names, name) == Some(i),
{
    lemma_position(names, name);
    match position(names, name) {
        Some(k) => {
            if k < i {
                assert(names[k] != name);
            } else if i < k {
                assert(names[i] != name);
            }
        },
        None => {
            assert(names.contains(names[i]));
        },
    }
}

/// The first collar of that name.
pub fn find_collar(collars: &[Collar], name: &str) -> (r: Option<usize>)
    ensures
        match r {
            Some(i) => position(collar_names(collars.deep_view()), name@) == Some(i as int),
            None => position(collar_names(collars.deep_view()), name@) is None,
        },
        r is Some ==> r->0 < collars@.len() && collars@[r->0 as int].name@ == name@,
{
    let ghost names = collar_names(collars.deep_view());
    let mut i: usize = 0;
    while i < collars.len()
        invariant
            i <= collars@.len(),
            names == collar_names(collars.deep_view()),
            forall|j: int| 0 <= j < i ==> #[trigger] names[j] != name@,
        decreases collars@.len() - i,
    {
        assert(names[i as int] == collars@[i as int].name@);
        if same_text(collars[i].name.as_str(), name) {
            proof {
                lemma_position_is(names, name@, i as int);
            }
            return Some(i);
        }
        i = i + 1;
    }
    proof {
        lemma_position(names, name@);
    }
    None
}

/// A copy of a list of collars.
pub fn clone_collars(collars: &Vec<Collar>) -> (r: Vec<Collar>)
    ensures
        r@ == collars@,
        r.deep_view() == collars.deep_view(),
{
    let r = collars.clone();
    assert(r@ =~= collars@);
    r
}

#[derive(Debug, Clone, Copy, PartialEq, Eq, Structural)]
pub enum PresetStepMode {
    Shock,
    Vibrate,
    Beep,
    Pause,
}

impl PresetStepMode {
    /// The command that a step of this mode sends, if it sends any.
    pub open spec fn command(self) -> Option<CommandMode> {
        match self {
            PresetStepMode::Shock => Some(CommandMode::Shock),
            PresetStepMode::Vibrate => Some(CommandMode::Vibrate),
            PresetStepMode::Beep => Some(CommandMode::Beep),
            PresetStepMode::Pause => None,
        }
    }

    /// Whether a step of this mode has a strength.
    pub open spec fn graded(self) -> bool {
        self == PresetStepMode::Shock || self == PresetStepMode::Vibrate
    }

    pub fn to_command_mode(self) -> (r: Option<CommandMode>)
        ensures
            r == self.command(),
    {
        match self {
            PresetStepMode::Shock => Some(CommandMode::Shock),
            PresetStepMode::Vibrate => Some(CommandMode::Vibrate),
            PresetStepMode::Beep => Some(CommandMode::Beep),
            PresetStepMode::Pause => None,
        }
    }

    pub fn has_intensity(self) -> (r: bool)
        ensures
            r == self.graded(),
    {
        match self.to_command_mode() {
            Some(mode) => mode.has_intensity(),
            None => false,
        }
    }
}

/// One step of a preset. A `_max` above its lower bound makes that value random.
#[derive(Debug, Clone, Copy, PartialEq, Eq, Structural)]
pub struct PresetStep {
    pub mode: PresetStepMode,
    pub intensity: u8,
    pub duration_ms: u32,
    pub intensity_max: Option<u8>,
    pub duration_max_ms: Option<u32>,
    pub intensity_distribution: Option<Distribution>,
    pub duration_distribution: Option<Distribution>,
}

impl PresetStep {
    /// Whether the duration is drawn at random.
    pub open spec fn random_duration(self) -> bool {
        self.duration_max_ms matches Some(max) && max > self.duration_ms
    }

    /// Whether the intensity is drawn at random.
    pub open spec fn random_intensity(self) -> bool {
        self.intensity_max matches Some(max) && max > self.intensity
    }

    /// The middle of the range of durations.
    pub open spec fn duration_midpoint(self) -> int {
        if self.random_duration() {
            (self.duration_ms + self.duration_max_ms->0) / 2
        } else {
            self.duration_ms as int
        }
    }

    /// The middle of the range of intensities.
    pub open spec fn intensity_midpoint(self) -> int {
        if self.random_intensity() {
            (self.intensity + self.intensity_max->0) / 2
        } else {
            self.intensity as int
        }
    }

    /// The step with nothing said of a strength that its mode does not have.
    pub open spec fn normalized(self) -> PresetStep {
        if self.mode.graded() {
            self
        } else {
            PresetStep { intensity: 0, intensity_max: None, intensity_distribution: None, ..self }
        }
    }

    pub fn midpoint_duration(&self) -> (r: u32)
        ensures
            r == self.duration_midpoint(),
    {
        match self.duration_max_ms {
            Some(max) => if max > self.duration_ms {
                self.duration_ms + (max - self.duration_ms) / 2
            } else {
                self.duration_ms
            },
            None => self.duration_ms,
        }
    }

    pub fn midpoint_intensity(&self) -> (r: u8)
        ensures
            r == self.intensity_midpoint(),
    {
        match self.intensity_max {
            Some(max) => if max > self.intensity {
                ((self.intensity as u16 + max as u16) / 2) as u8
            } else {
                self.intensity
            },
            None => self.intensity,
        }
    }

    pub fn has_random(&self) -> (r: bool)
        ensures
            r == (self.random_intensity() || self.random_duration()),
    {
        let intensity = match self.intensity_max {
            Some(max) => max > self.intensity,
            None => false,
        };
        let duration = match self.duration_max_ms {
            Some(max) => max > self.duration_ms,
            None => false,
        };
        intensity || duration
    }
}

/// The steps that one collar goes through.
#[derive(Debug, PartialEq, Eq)]
pub struct PresetTrack {
    pub collar_name: String,
    pub steps: Vec<PresetStep>,
}

#[verifier::ext_equal]
pub struct TrackView {
    pub collar_name: Seq<char>,
    pub steps: Seq<PresetStep>,
}

impl DeepView for PresetTrack {
    type V = TrackView;

    open spec fn deep_view(&self) -> TrackView {
        TrackView { collar_name: self.collar_name@, steps: self.steps@ }
    }
}

impl Clone for PresetTrack {
    fn clone(&self) -> (r: Self)
        ensures
            r.deep_view() == self.deep_view(),
    {
        let steps = self.steps.clone();
        assert(steps@ =~= self.steps@);
        PresetTrack { collar_name: self.collar_name.clone(), steps }
    }
}

/// A sequence of commands to run under one name, track by track.
#[derive(Debug, PartialEq, Eq)]
pub struct Preset {
    pub name: String,
    pub tracks: Vec<PresetTrack>,
}

#[verifier::ext_equal]
pub struct PresetView {
    pub name: Seq<char>,
    pub tracks: Seq<TrackView>,
}

impl DeepView for Preset {
    type V = PresetView;

    open spec fn deep_view(&self) -> PresetView {
        PresetView { name: self.name@, tracks: self.tracks.deep_view() }
    }
}

impl Clone for Preset {
    fn clone(&self) -> (r: Self)
        ensures
            r.deep_view() == self.deep_view(),
    {
        let tracks = self.tracks.clone();
        assert(tracks.deep_view() =~= self.tracks.deep_view());
        Preset { name: self.name.clone(), tracks }
    }
}

/// The names of a list of presets.
pub open spec fn preset_names(presets: Seq<PresetView>) -> Seq<Seq<char>> {
    presets.map_values(|p: PresetView| p.name)
}

/// The first preset of that name.
pub fn find_preset(presets: &[Preset], name: &str) -> (r: Option<usize>)
    ensures
        match r {
            Some(i) => position(preset_names(presets.deep_view()), name@) == Some(i as int),
            None => position(preset_names(presets.deep_view()), name@) is None,
        },
        r is Some ==> r->0 < presets@.len() && presets@[r->0 as int].name@ == name@,
{
    let ghost names = preset_names(presets.deep_view());
    let mut i: usize = 0;
    while i < presets.len()
        invariant
            i <= presets@.len(),
            names == preset_names(presets.deep_view()),
            forall|j: int| 0 <= j < i ==> #[trigger] names[j] != name@,
        decreases presets@.len() - i,
    {
        assert(names[i as int] == presets@[i as int].name@);
        if same_text(presets[i].name.as_str(), name) {
            proof {
                lemma_position_is(names, name@, i as int);
            }
            return Some(i);
        }
        i = i + 1;
    }
    proof {
        lemma_position(names, name@);
    }
    None
}

/// A copy of a list of presets.
pub fn clone_presets(presets: &Vec<Preset>) -> (r: Vec<Preset>)
    ensures
        r.deep_view() == presets.deep_view(),
{
    let r = presets.clone();
    assert(r.deep_view() =~= presets.deep_view());
    r
}

impl TrackView {
    /// The track with every step normalized.
    pub open spec fn normalized(self) -> TrackView {
        TrackView {
            collar_name: self.collar_name,
            steps: self.steps.map_values(|s: PresetStep| s.normalized()),
        }
    }
}

impl PresetView {
    /// The preset with every step normalized.
    pub open spec fn normalized(self) -> PresetView {
        PresetView {
            name: self.name,
            tracks: self.tracks.map_values(|t: TrackView| t.normalized()),
        }
    }
}

impl PresetTrack {
    fn normalize(&mut self)
        ensures
            final(self).deep_view() == old(self).deep_view().normalized(),
    {
        let ghost before = self.steps@;
        let mut i: usize = 0;
        while i < self.steps.len()
            invariant
                i <= self.steps@.len(),
                self.collar_name == old(self).collar_name,
                before == old(self).steps@,
                self.steps@.len() == before.len(),
                forall|j: int| 0 <= j < i ==> self.steps@[j] == (#[trigger] before[j]).normalized(),
                forall|j: int| i <= j < before.len() ==> self.steps@[j] == #[trigger] before[j],
            decreases before.len() - i,
        {
            let mut step = self.steps[i];
            if !step.mode.has_intensity() {
                step.intensity = 0;
                step.intensity_max = None;
                step.intensity_distribution = None;
            }
            self.steps[i] = step;
            i = i + 1;
        }
        assert(self.steps@ =~= before.map_values(|s: PresetStep| s.normalized()));
    }
}

impl Preset {
    /// Drops what a step says of a strength that its mode does not have.
    pub fn normalize(&mut self)
        ensures
            final(self).deep_view() == old(self).deep_view().normalized(),
    {
        let ghost before = self.tracks@;
        let mut i: usize = 0;
        while i < self.tracks.len()
            invariant
                i <= self.tracks@.len(),
                self.name == old(self).name,
                before == old(self).tracks@,
                self.tracks@.len() == before.len(),
                forall|j: int|
                    0 <= j < i ==> self.tracks@[j].deep_view() == (#[trigger] before[j]).deep_view().normalized(),
                forall|j: int| i <= j < before.len() ==> self.tracks@[j] == #[trigger] before[j],
            decreases before.len() - i,
        {
            self.tracks[i].normalize();
            i = i + 1;
        }
        assert(self.deep_view().tracks =~= old(self).deep_view().normalized().tracks);
    }
}

/// Normalizing a preset that was normalized changes nothing.
pub proof fn lemma_normalize_twice(p: PresetView)
    ensures
        p.normalized().normalized() == p.normalized(),
{
    assert forall|i: int| 0 <= i < p.tracks.len() implies #[trigger] p.tracks[i].normalized().normalized()
        == p.tracks[i].normalized() by {
        assert(p.tracks[i].normalized().normalized().steps =~= p.tracks[i].normalized().steps);
    }
    assert(p.normalized().normalized().tracks =~= p.normalized().tracks);
}

/// Normalizing a preset drops what its beeps and pauses say of a strength and changes nothing else.
pub proof fn lemma_normalize_drops_only_strengths(p: PresetView, i: int, j: int)
    requires
        0 <= i < p.tracks.len(),
        0 <= j < p.tracks[i].steps.len(),
    ensures
        p.normalized().name == p.name,
        p.normalized().tracks.len() == p.tracks.len(),
        p.normalized().tracks[i].collar_name == p.tracks[i].collar_name,
        p.normalized().tracks[i].steps.len() == p.tracks[i].steps.len(),
        ({
            let before = p.tracks[i].steps[j];
            let after = p.normalized().tracks[i].steps[j];
            &&& after.mode == before.mode
            &&& after.duration_ms == before.duration_ms
            &&& after.duration_max_ms == before.duration_max_ms
            &&& after.duration_distribution == before.duration_distribution
            &&& before.mode is Shock || before.mode is Vibrate ==> after == before
            &&& before.mode is Beep || before.mode is Pause ==> after.intensity == 0
                && after.intensity_max is None && after.intensity_distribution is None
        }),
{
}

/// The middle of a range is as far from its ends as whole numbers allow, and rounded down; without
/// a range it is the value itself.
pub proof fn lemma_midpoints(s: PresetStep)
    ensures
        match s.duration_max_ms {
            Some(max) if max > s.duration_ms => 2 * s.duration_midpoint() <= s.duration_ms + max < 2
                * s.duration_midpoint() + 2,
            _ => s.duration_midpoint() == s.duration_ms,
        },
        match s.intensity_max {
            Some(max) if max > s.intensity => 2 * s.intensity_midpoint() <= s.intensity + max < 2
                * s.intensity_midpoint() + 2,
            _ => s.intensity_midpoint() == s.intensity,
        },
{
}

/// The modes of steps are those of commands, and a pause, which sends nothing; in a frame they are
/// numbered from one. Only a shock and a vibration have a strength.
pub proof fn lemma_modes()
    ensures
        CommandMode::Shock.rf_byte() == 1,
        CommandMode::Vibrate.rf_byte() == 2,
        CommandMode::Beep.rf_byte() == 3,
        CommandMode::Shock.graded() && CommandMode::Vibrate.graded() && !CommandMode::Beep.graded(),
        PresetStepMode::Shock.command() == Some(CommandMode::Shock),
        PresetStepMode::Vibrate.command() == Some(CommandMode::Vibrate),
        PresetStepMode::Beep.command() == Some(CommandMode::Beep),
        PresetStepMode::Pause.command() is None,
        PresetStepMode::Shock.graded() && PresetStepMode::Vibrate.graded(),
        !PresetStepMode::Beep.graded() && !PresetStepMode::Pause.graded(),
{
}

// ----- Reports -----

#[derive(Debug, Clone, PartialEq, Eq)]
pub struct MemoryRegion {
    pub name: String,
    pub total_bytes: u32,
    pub free_bytes: u32,
}

#[derive(Debug, Clone, PartialEq, Eq)]
pub struct InterfaceStatus {
    pub available: bool,
    pub enabled: bool,
    pub mac: String,
    pub ip: String,
    pub connected: bool,
}

#[derive(Debug, Clone, PartialEq, Eq)]
pub struct ApStatus {
    pub available: bool,
    pub enabled: bool,
    pub mac: String,
    pub ip: String,
    pub clients: Vec<ApClientInfo>,
}

#[derive(Debug, Clone, PartialEq, Eq)]
pub struct ApClientInfo {
    pub mac: String,
    pub ip: String,
}

/// How the link to the remote control server stands.
#[derive(Debug, PartialEq, Eq)]
pub struct RemoteControlStatus {
    pub enabled: bool,
    pub connected: bool,
    pub url: String,
    pub validate_cert: bool,
    pub rtt_ms: Option<u32>,
    pub status_text: String,
}

pub struct RemoteControlStatusView {
    pub enabled: bool,
    pub connected: bool,
    pub url: Seq<char>,
    pub validate_cert: bool,
    pub rtt_ms: Option<u32>,
    pub status_text: Seq<char>,
}

impl DeepView for RemoteControlStatus {
    type V = RemoteControlStatusView;

    open spec fn deep_view(&self) -> RemoteControlStatusView {
        RemoteControlStatusView {
            enabled: self.enabled,
            connected: self.connected,
            url: self.url@,
            validate_cert: self.validate_cert,
            rtt_ms: self.rtt_ms,
            status_text: self.status_text@,
        }
    }
}

impl Clone for RemoteControlStatus {
    fn clone(&self) -> (r: Self)
        ensures
            r == *self,
    {
        RemoteControlStatus {
            enabled: self.enabled,
            connected: self.connected,
            url: self.url.clone(),
            validate_cert: self.validate_cert,
            rtt_ms: self.rtt_ms,
            status_text: self.status_text.clone(),
        }
    }
}

impl Default for RemoteControlStatus {
    fn default() -> (r: Self)
        ensures
            r.deep_view() == (RemoteControlStatusView {
                enabled: false,
                connected: false,
                url: Seq::empty(),
                validate_cert: true,
                rtt_ms: None,
                status_text: "Off"@,
            }),
    {
        RemoteControlStatus {
            enabled: false,
            connected: false,
            url: String::new(),
            validate_cert: true,
            rtt_ms: None,
            status_text: "Off".to_owned(),
        }
    }
}

impl RemoteControlStatus {
    /// Whether two reports say the same.
    pub fn same_as(&self, other: &Self) -> (r: bool)
        ensures
            r == (self.deep_view() == other.deep_view()),
    {
        self.enabled == other.enabled && self.connected == other.connected && self.url == other.url
            && self.validate_cert == other.validate_cert && self.rtt_ms == other.rtt_ms
            && self.status_text == other.status_text
    }
}

/// How the link to the MQTT broker stands.
#[derive(Debug, PartialEq, Eq)]
pub struct MqttStatus {
    pub enabled: bool,
    pub connected: bool,
    pub server: String,
    pub status_text: String,
}

pub struct MqttStatusView {
    pub enabled: bool,
    pub connected: bool,
    pub server: Seq<char>,
    pub status_text: Seq<char>,
}

impl DeepView for MqttStatus {
    type V = MqttStatusView;

    open spec fn deep_view(&self) -> MqttStatusView {
        MqttStatusView {
            enabled: self.enabled,
            connected: self.connected,
            server: self.server@,
            status_text: self.status_text@,
        }
    }
}

impl Clone for MqttStatus {
    fn clone(&self) -> (r: Self)
        ensures
            r == *self,
    {
        MqttStatus {
            enabled: self.enabled,
            connected: self.connected,
            server: self.server.clone(),
            status_text: self.status_text.clone(),
        }
    }
}

impl Default for MqttStatus {
    fn default() -> (r: Self)
        ensures
            r.deep_view() == (MqttStatusView {
                enabled: false,
                connected: false,
                server: Seq::empty(),
                status_text: "Off"@,
            }),
    {
        MqttStatus {
            enabled: false,
            connected: false,
            server: String::new(),
            status_text: "Off".to_owned(),
        }
    }
}

impl MqttStatus {
    /// Whether two reports say the same.
    pub fn same_as(&self, other: &Self) -> (r: bool)
        ensures
            r == (self.deep_view() == other.deep_view()),
    {
        self.enabled == other.enabled && self.connected == other.connected && self.server
            == other.server && self.status_text == other.status_text
    }
}

/// Everything that an export holds.
#[derive(Debug, PartialEq, Eq)]
pub struct ExportData {
    pub collars: Vec<Collar>,
    pub presets: Vec<Preset>,
}

#[verifier::ext_equal]
pub struct ExportDataView {
    pub collars: Seq<CollarView>,
    pub presets: Seq<PresetView>,
}

impl DeepView for ExportData {
    type V = ExportDataView;

    open spec fn deep_view(&self) -> ExportDataView {
        ExportDataView { collars: self.collars.deep_view(), presets: self.presets.deep_view() }
    }
}

impl Clone for ExportData {
    fn clone(&self) -> (r: Self)
        ensures
            r.deep_view() == self.deep_view(),
    {
        ExportData { collars: clone_collars(&self.collars), presets: clone_presets(&self.presets) }
    }
}

/// Normalizes every preset of a list.
pub fn normalize_presets(presets: &mut Vec<Preset>)
    ensures
        final(presets).deep_view() == old(presets).deep_view().map_values(
            |p: PresetView| p.normalized(),
        ),
{
    let ghost before = presets@;
    let mut i: usize = 0;
    while i < presets.len()
        invariant
            i <= presets@.len(),
            before == old(presets)@,
            presets@.len() == before.len(),
            forall|j: int|
                0 <= j < i ==> presets@[j].deep_view() == (#[trigger] before[j]).deep_view().normalized(),
            forall|j: int| i <= j < before.len() ==> presets@[j] == #[trigger] before[j],
        decreases before.len() - i,
    {
        presets[i].normalize();
        i = i + 1;
    }
    assert(presets.deep_view() =~= old(presets).deep_view().map_values(
        |p: PresetView| p.normalized(),
    ));
}

/// What running a preset would transmit.
#[derive(Debug, PartialEq, Eq)]
pub struct PresetPreview {
    pub total_duration_us: u64,
    pub events: Vec<PresetPreviewEvent>,
}

#[derive(Debug, PartialEq, Eq)]
pub struct PresetPreviewEvent {
    pub requested_time_us: u64,
    pub actual_time_us: u64,
    pub track_index: usize,
    pub step_index: usize,
    pub transmit_duration_us: u64,
    pub collar_name: String,
    pub collar_id: u16,
    pub channel: u8,
    pub mode: CommandMode,
    pub mode_byte: u8,
    pub intensity: u8,
    pub raw_hex: String,
}

#[verifier::ext_equal]
pub struct PresetPreviewView {
    pub total_duration_us: u64,
    pub events: Seq<PresetPreviewEventView>,
}

pub struct PresetPreviewEventView {
    pub requested_time_us: u64,
    pub actual_time_us: u64,
    pub track_index: usize,
    pub step_index: usize,
    pub transmit_duration_us: u64,
    pub collar_name: Seq<char>,
    pub collar_id: u16,
    pub channel: u8,
    pub mode: CommandMode,
    pub mode_byte: u8,
    pub intensity: u8,
    pub raw_hex: Seq<char>,
}

impl DeepView for PresetPreviewEvent {
    type V = PresetPreviewEventView;

    open spec fn deep_view(&self) -> PresetPreviewEventView {
        PresetPreviewEventView {
            requested_time_us: self.requested_time_us,
            actual_time_us: self.actual_time_us,
            track_index: self.track_index,
            step_index: self.step_index,
            transmit_duration_us: self.transmit_duration_us,
            collar_name: self.collar_name@,
            collar_id: self.collar_id,
            channel: self.channel,
            mode: self.mode,
            mode_byte: self.mode_byte,
            intensity: self.intensity,
            raw_hex: self.raw_hex@,
        }
    }
}

impl DeepView for PresetPreview {
    type V = PresetPreviewView;

    open spec fn deep_view(&self) -> PresetPreviewView {
        PresetPreviewView {
            total_duration_us: self.total_duration_us,
            events: self.events.deep_view(),
        }
    }
}

/// A radio frame that the receiver heard.
#[derive(Debug, PartialEq, Eq)]
pub struct RfDebugFrame {
    pub received_at_ms: u64,
    pub raw_hex: String,
    pub collar_id: u16,
    pub channel: u8,
    pub mode_raw: u8,
    pub mode: Option<CommandMode>,
    pub intensity: u8,
    pub checksum_ok: bool,
}

pub struct RfDebugFrameView {
    pub received_at_ms: u64,
    pub raw_hex: Seq<char>,
    pub collar_id: u16,
    pub channel: u8,
    pub mode_raw: u8,
    pub mode: Option<CommandMode>,
    pub intensity: u8,
    pub checksum_ok: bool,
}

impl DeepView for RfDebugFrame {
    type V = RfDebugFrameView;

    open spec fn deep_view(&self) -> RfDebugFrameView {
        RfDebugFrameView {
            received_at_ms: self.received_at_ms,
            raw_hex: self.raw_hex@,
            collar_id: self.collar_id,
            channel: self.channel,
            mode_raw: self.mode_raw,
            mode: self.mode,
            intensity: self.intensity,
            checksum_ok: self.checksum_ok,
        }
    }
}

impl Clone for RfDebugFrame {
    fn clone(&self) -> (r: Self)
        ensures
            r == *self,
    {
        RfDebugFrame {
            received_at_ms: self.received_at_ms,
            raw_hex: self.raw_hex.clone(),
            collar_id: self.collar_id,
            channel: self.channel,
            mode_raw: self.mode_raw,
            mode: self.mode,
            intensity: self.intensity,
            checksum_ok: self.checksum_ok,
        }
    }
}

/// One browser that is connected to the device.
#[derive(Debug, PartialEq, Eq)]
pub struct ClientInfo {
    pub ip: String,
    pub forwarded_for: Option<String>,
    pub user_agent: Option<String>,
}

/// A value is left to chance exactly if it has an upper bound that lies above it.
pub proof fn lemma_what_is_left_to_chance(s: PresetStep)
    ensures
        s.random_duration() <==> s.duration_max_ms is Some && s.duration_ms
            < s.duration_max_ms->0,
        s.random_intensity() <==> s.intensity_max is Some && s.intensity < s.intensity_max->0,
{
}

} // verus!
