//! Where settings, collars and presets are kept.

use vstd::prelude::*;

use crate::error::ControlError;
use crate::protocol::model::{Collar, CollarView, Preset, PresetView};
use crate::protocol::settings::{DeviceSettings, DeviceSettingsView};

verus! {

/// Why a repository failed.
#[derive(Debug)]
pub struct RepositoryError {
    pub message: String,
}

// ----- What a repository is asked for -----

/// Something that is to be kept.
pub enum Write {
    Settings(DeviceSettingsView),
    Collars(Seq<CollarView>),
    Presets(Seq<PresetView>),
}

impl Write {
    /// What keeping it is called.
    pub open spec fn operation(self) -> Seq<char> {
        match self {
            Write::Settings(_) => "save settings"@,
            Write::Collars(_) => "save collars"@,
            Write::Presets(_) => "save presets"@,
        }
    }
}

/// A call of a repository, and what came of it. Failures are given by their message.
pub enum Call {
    EnsureDeviceId {
        before: DeviceSettingsView,
        after: DeviceSettingsView,
        failure: Option<Seq<char>>,
    },
    LoadSettings(Result<DeviceSettingsView, Seq<char>>),
    LoadCollars(Result<Seq<CollarView>, Seq<char>>),
    LoadPresets(Result<Seq<PresetView>, Seq<char>>),
    Save { write: Write, failure: Option<Seq<char>> },
}

/// What was called so far. A repository keeps no record unless it says so; of one that keeps none
/// this says nothing.
pub trait CallRecord {
    open spec fn keeps_record(&self) -> bool {
        false
    }

    open spec fn calls(&self) -> Seq<Call> {
        Seq::empty()
    }
}

/// Whether a repository was called once, in this way, as far as it keeps a record.
pub open spec fn called<R: CallRecord>(before: R, after: R, call: Call) -> bool {
    before.keeps_record() ==> after.keeps_record() && after.calls() == before.calls().push(call)
}

/// Why an operation failed, if it did.
pub open spec fn failure<T>(r: Result<T, RepositoryError>) -> Option<Seq<char>> {
    match r {
        Ok(_) => None,
        Err(e) => Some(e.message@),
    }
}

/// What was loaded, or why nothing was.
pub open spec fn loaded<T: DeepView>(r: Result<T, RepositoryError>) -> Result<T::V, Seq<char>> {
    match r {
        Ok(value) => Ok(value.deep_view()),
        Err(e) => Err(e.message@),
    }
}

pub trait SettingsRepository: CallRecord + Sized {
    fn ensure_device_id(&mut self, settings: &mut DeviceSettings) -> (r: Result<
        (),
        RepositoryError,
    >)
        ensures
            called(
                *old(self),
                *final(self),
                Call::EnsureDeviceId {
                    before: old(settings).deep_view(),
                    after: final(settings).deep_view(),
                    failure: failure(r),
                },
            ),
    ;

    fn load_settings(&mut self) -> (r: Result<DeviceSettings, RepositoryError>)
        ensures
            called(*old(self), *final(self), Call::LoadSettings(loaded(r))),
    ;

    fn save_settings(&mut self, settings: &DeviceSettings) -> (r: Result<(), RepositoryError>)
        ensures
            called(
                *old(self),
                *final(self),
                Call::Save { write: Write::Settings(settings.deep_view()), failure: failure(r) },
            ),
    ;
}

pub trait CollarRepository: CallRecord + Sized {
    fn load_collars(&mut self) -> (r: Result<Vec<Collar>, RepositoryError>)
        ensures
            called(*old(self), *final(self), Call::LoadCollars(loaded(r))),
    ;

    fn save_collars(&mut self, collars: &[Collar]) -> (r: Result<(), RepositoryError>)
        ensures
            called(
                *old(self),
                *final(self),
                Call::Save { write: Write::Collars(collars.deep_view()), failure: failure(r) },
            ),
    ;
}

pub trait PresetRepository: CallRecord + Sized {
    fn load_presets(&mut self) -> (r: Result<Vec<Preset>, RepositoryError>)
        ensures
            called(*old(self), *final(self), Call::LoadPresets(loaded(r))),
    ;

    fn save_presets(&mut self, presets: &[Preset]) -> (r: Result<(), RepositoryError>)
        ensures
            called(
                *old(self),
                *final(self),
                Call::Save { write: Write::Presets(presets.deep_view()), failure: failure(r) },
            ),
    ;
}

pub trait AppRepository: SettingsRepository + CollarRepository + PresetRepository {

}

impl<T: SettingsRepository + CollarRepository + PresetRepository> AppRepository for T {

}

// ----- Operations -----

/// What a caller is told of an operation on a repository: its value, or a persistence error that
/// names the operation and keeps the cause.
pub open spec fn outcome<T>(
    r: Result<T, ControlError>,
    operation: Seq<char>,
    inner: Result<T, RepositoryError>,
) -> bool {
    match (inner, r) {
        (Ok(value), Ok(got)) => got == value,
        (Err(source), Err(ControlError::Persistence { operation: o, source: s })) => o@ == operation
            && s == source,
        _ => false,
    }
}

/// Tells a caller of an operation on a repository how it went.
pub fn persisted<T>(operation: &'static str, result: Result<T, RepositoryError>) -> (r: Result<
    T,
    ControlError,
>)
    ensures
        outcome(r, operation@, result),
{
    match result {
        Ok(value) => Ok(value),
        Err(source) => Err(ControlError::Persistence { operation, source }),
    }
}

/// The operations on a repository, with errors that say which one failed.
pub struct RepositoryServices<R> {
    pub repository: R,
}

/// Why an operation could not be carried out by the repository, if it could not.
pub open spec fn not_persisted<T>(r: Result<T, ControlError>) -> Option<Seq<char>> {
    match r {
        Err(ControlError::Persistence { source, .. }) => Some(source.message@),
        _ => None,
    }
}

/// Whether an operation succeeded, or failed in the repository.
pub open spec fn ran<T>(r: Result<T, ControlError>, operation: Seq<char>) -> bool {
    match r {
        Ok(_) => true,
        Err(ControlError::Persistence { operation: o, .. }) => o@ == operation,
        Err(_) => false,
    }
}

/// What was loaded, or why nothing was.
pub open spec fn fetched<T: DeepView>(r: Result<T, ControlError>) -> Result<T::V, Seq<char>> {
    match r {
        Ok(value) => Ok(value.deep_view()),
        Err(ControlError::Persistence { source, .. }) => Err(source.message@),
        Err(_) => Err(Seq::empty()),
    }
}

impl<R: AppRepository> RepositoryServices<R> {
    pub fn new(repository: R) -> (r: Self)
        ensures
            r.repository == repository,
    {
        RepositoryServices { repository }
    }

    pub fn ensure_device_id(&mut self, settings: &mut DeviceSettings) -> (r: Result<
        (),
        ControlError,
    >)
        ensures
            ran(r, "ensure device id"@),
            called(
                old(self).repository,
                final(self).repository,
                Call::EnsureDeviceId {
                    before: old(settings).deep_view(),
                    after: final(settings).deep_view(),
                    failure: not_persisted(r),
                },
            ),
    {
        persisted("ensure device id", self.repository.ensure_device_id(settings))
    }

    pub fn load_settings(&mut self) -> (r: Result<DeviceSettings, ControlError>)
        ensures
            ran(r, "load settings"@),
            called(
                old(self).repository,
                final(self).repository,
                Call::LoadSettings(fetched(r)),
            ),
    {
        persisted("load settings", self.repository.load_settings())
    }

    pub fn save_settings(&mut self, settings: &DeviceSettings) -> (r: Result<(), ControlError>)
        ensures
            ran(r, "save settings"@),
            called(
                old(self).repository,
                final(self).repository,
                Call::Save {
                    write: Write::Settings(settings.deep_view()),
                    failure: not_persisted(r),
                },
            ),
    {
        persisted("save settings", self.repository.save_settings(settings))
    }

    pub fn load_collars(&mut self) -> (r: Result<Vec<Collar>, ControlError>)
        ensures
            ran(r, "load collars"@),
            called(old(self).repository, final(self).repository, Call::LoadCollars(fetched(r))),
    {
        persisted("load collars", self.repository.load_collars())
    }

    pub fn save_collars(&mut self, collars: &[Collar]) -> (r: Result<(), ControlError>)
        ensures
            ran(r, "save collars"@),
            called(
                old(self).repository,
                final(self).repository,
                Call::Save {
                    write: Write::Collars(collars.deep_view()),
                    failure: not_persisted(r),
                },
            ),
    {
        persisted("save collars", self.repository.save_collars(collars))
    }

    pub fn load_presets(&mut self) -> (r: Result<Vec<Preset>, ControlError>)
        ensures
            ran(r, "load presets"@),
            called(old(self).repository, final(self).repository, Call::LoadPresets(fetched(r))),
    {
        persisted("load presets", self.repository.load_presets())
    }

    pub fn save_presets(&mut self, presets: &[Preset]) -> (r: Result<(), ControlError>)
        ensures
            ran(r, "save presets"@),
            called(
                old(self).repository,
                final(self).repository,
                Call::Save {
                    write: Write::Presets(presets.deep_view()),
                    failure: not_persisted(r),
                },
            ),
    {
        persisted("save presets", self.repository.save_presets(presets))
    }
}

/// An operation hands on what the repository returned. Where the repository failed, the error says
/// which operation it was and keeps the cause.
pub proof fn lemma_outcome_is_passed_on<T>(
    r: Result<T, ControlError>,
    operation: Seq<char>,
    inner: Result<T, RepositoryError>,
)
    requires
        outcome(r, operation, inner),
    ensures
        r is Ok <==> inner is Ok,
        inner is Ok ==> r->Ok_0 == inner->Ok_0,
        inner matches Err(source) ==> (r->Err_0 matches ControlError::Persistence {
            operation: o,
            source: s,
        } && o@ == operation && s == source),
        not_persisted(r) == match inner {
            Ok(_) => None,
            Err(source) => Some(source.message@),
        },
        ran(r, operation),
{
}

/// A repository that keeps a record shows one call more, as the last one, after a call.
pub proof fn lemma_a_call_is_recorded<R: CallRecord>(before: R, after: R, call: Call)
    requires
        called(before, after, call),
        before.keeps_record(),
    ensures
        after.keeps_record(),
        after.calls().len() == before.calls().len() + 1,
        after.calls().last() == call,
        after.calls().drop_last() == before.calls(),
{
    assert(before.calls().push(call).drop_last() =~= before.calls());
}

/// What a repository returned is recorded as it was: the value that was loaded, or the cause of
/// the failure.
pub proof fn lemma_returns_are_recorded<T: DeepView>(r: Result<T, RepositoryError>)
    ensures
        failure(r) is None <==> r is Ok,
        failure(r) matches Some(message) ==> message == r->Err_0.message@,
        r is Ok ==> loaded(r) == Ok::<T::V, Seq<char>>(r->Ok_0.deep_view()),
        r is Err ==> loaded(r) == Err::<T::V, Seq<char>>(r->Err_0.message@),
{
}

/// What the kinds of data are called when they cannot be kept.
pub proof fn lemma_what_could_not_be_kept(w: Write)
    ensures
        w.operation() == match w {
            Write::Settings(_) => "save settings"@,
            Write::Collars(_) => "save collars"@,
            Write::Presets(_) => "save presets"@,
        },
{
}

} // verus!
