//! Where a bank is kept: in a file, in the system's keyring, or in whichever of the two works.

use vstd::prelude::*;
use vstd::string::StringExecFns;

use crate::auth::bank::LoadedBank;
use crate::auth::bank::LoadedModel;
use crate::text::maybe;

verus! {

/// How credentials are to be kept.
#[derive(Clone, Copy, Debug, PartialEq, Eq, Structural)]
pub enum StoreMode {
    File,
    Keyring,
    /// In the keyring where it works, else in a file.
    Auto,
    /// In memory alone.
    Ephemeral,
}

/// How the keyring keeps credentials.
#[derive(Clone, Copy, Debug, PartialEq, Eq, Structural)]
pub enum KeyringKind {
    /// As they are.
    Direct,
    /// In an encrypted file whose key it keeps.
    Secrets,
}

/// The storage that a way of keeping credentials uses.
#[derive(Clone, Copy, Debug, PartialEq, Eq, Structural)]
pub enum Backend {
    File,
    Keyring(KeyringKind),
    Auto(KeyringKind),
    Ephemeral,
}

/// The storage that a way of keeping credentials uses.
pub open spec fn backend_of(mode: StoreMode, keyring: KeyringKind) -> Backend {
    match mode {
        StoreMode::File => Backend::File,
        StoreMode::Keyring => Backend::Keyring(keyring),
        StoreMode::Auto => Backend::Auto(keyring),
        StoreMode::Ephemeral => Backend::Ephemeral,
    }
}

/// The storage that a way of keeping credentials uses.
pub fn backend(mode: StoreMode, keyring: KeyringKind) -> (r: Backend)
    ensures
        r == backend_of(mode, keyring),
{
    match mode {
        StoreMode::File => Backend::File,
        StoreMode::Keyring => Backend::Keyring(keyring),
        StoreMode::Auto => Backend::Auto(keyring),
        StoreMode::Ephemeral => Backend::Ephemeral,
    }
}

/// Whether changes are serialized by a lock file, rather than in memory.
pub fn locks_on_disk(mode: StoreMode) -> (r: bool)
    ensures
        r == (mode != StoreMode::Ephemeral),
{
    match mode {
        StoreMode::Ephemeral => false,
        _ => true,
    }
}

/// What failed in a storage.
#[derive(Clone, Copy, Debug, PartialEq, Eq, Structural)]
pub enum StorageFailure {
    KeyringLoad,
    KeyringSave,
    KeyringDelete,
    EncryptedLoad,
    EncryptedRead,
    EncryptedSave,
    EncryptedDelete,
}

/// What a failure in a storage is introduced with.
pub open spec fn failure_lead(failure: StorageFailure) -> Seq<char> {
    match failure {
        StorageFailure::KeyringLoad => "failed to load CLI auth from keyring: "@,
        StorageFailure::KeyringSave => "failed to write OAuth tokens to keyring: "@,
        StorageFailure::KeyringDelete => "failed to delete auth from keyring: "@,
        StorageFailure::EncryptedLoad => "failed to load CLI auth from encrypted auth storage: "@,
        StorageFailure::EncryptedRead =>
            "failed to deserialize CLI auth from encrypted auth storage: "@,
        StorageFailure::EncryptedSave =>
            "failed to write OAuth tokens to encrypted auth storage: "@,
        StorageFailure::EncryptedDelete => "failed to delete auth from encrypted auth storage: "@,
    }
}

impl StorageFailure {
    /// What is reported of a failure in a storage.
    pub fn message(self, error: &str) -> (text: String)
        ensures
            text@ == failure_lead(self) + error@,
    {
        let mut text = match self {
            StorageFailure::KeyringLoad => "failed to load CLI auth from keyring: ".to_string(),
            StorageFailure::KeyringSave => "failed to write OAuth tokens to keyring: ".to_string(),
            StorageFailure::KeyringDelete => "failed to delete auth from keyring: ".to_string(),
            StorageFailure::EncryptedLoad =>
                "failed to load CLI auth from encrypted auth storage: ".to_string(),
            StorageFailure::EncryptedRead =>
                "failed to deserialize CLI auth from encrypted auth storage: ".to_string(),
            StorageFailure::EncryptedSave =>
                "failed to write OAuth tokens to encrypted auth storage: ".to_string(),
            StorageFailure::EncryptedDelete =>
                "failed to delete auth from encrypted auth storage: ".to_string(),
        };
        text.append(error);
        text
    }
}

/// A place where a bank can be kept.
#[derive(Clone, Copy, Debug, PartialEq, Eq, Structural)]
pub enum Place {
    File,
    /// The keyring itself.
    Keyring,
    /// The encrypted file whose key the keyring keeps.
    Encrypted,
    Memory,
}

/// The place where a storage looks first.
pub open spec fn first_place(backend: Backend) -> Place {
    match backend {
        Backend::File => Place::File,
        Backend::Keyring(KeyringKind::Direct) => Place::Keyring,
        Backend::Keyring(KeyringKind::Secrets) => Place::Encrypted,
        Backend::Auto(KeyringKind::Direct) => Place::Keyring,
        Backend::Auto(KeyringKind::Secrets) => Place::Encrypted,
        Backend::Ephemeral => Place::Memory,
    }
}

/// The storage makes do with the file where the keyring does not work.
pub open spec fn falls_back(backend: Backend) -> bool {
    backend is Auto
}

/// Whether the storage makes do with the file where the keyring does not work.
fn is_auto(backend: Backend) -> (r: bool)
    ensures
        r == falls_back(backend),
{
    match backend {
        Backend::Auto(_) => true,
        _ => false,
    }
}

impl Backend {
    /// The place where the storage looks first.
    pub fn first(self) -> (r: Place)
        ensures
            r == first_place(self),
    {
        match self {
            Backend::File => Place::File,
            Backend::Keyring(KeyringKind::Direct) => Place::Keyring,
            Backend::Keyring(KeyringKind::Secrets) => Place::Encrypted,
            Backend::Auto(KeyringKind::Direct) => Place::Keyring,
            Backend::Auto(KeyringKind::Secrets) => Place::Encrypted,
            Backend::Ephemeral => Place::Memory,
        }
    }
}

/// What reading one place came to.
#[derive(PartialEq, Eq)]
pub enum PlaceRead {
    /// A text was there, and this is what it comes to.
    Text(LoadedBank),
    Missing,
    /// The place cannot be read.
    Failed(String),
}

/// What is said of a place that was read. What cannot be made sense of in the encrypted file is a
/// failure of it, whatever form it has.
pub open spec fn reported(place: Place, read: PlaceRead) -> LoadedModel {
    match (place, read) {
        (_, PlaceRead::Missing) => LoadedModel::Missing,
        (Place::Keyring, PlaceRead::Failed(error)) => LoadedModel::Failed(
            failure_lead(StorageFailure::KeyringLoad) + error@,
        ),
        (Place::Encrypted, PlaceRead::Failed(error)) => LoadedModel::Failed(
            failure_lead(StorageFailure::EncryptedLoad) + error@,
        ),
        (_, PlaceRead::Failed(error)) => LoadedModel::Failed(error@),
        (Place::Encrypted, PlaceRead::Text(LoadedBank::InvalidLegacy(error))) =>
            LoadedModel::Failed(failure_lead(StorageFailure::EncryptedRead) + error@),
        (Place::Encrypted, PlaceRead::Text(LoadedBank::Failed(error))) => LoadedModel::Failed(
            failure_lead(StorageFailure::EncryptedRead) + error@,
        ),
        (_, PlaceRead::Text(loaded)) => loaded@,
    }
}

/// What is said of a place that was read.
fn report(place: Place, read: PlaceRead) -> (r: LoadedBank)
    ensures
        r@ == reported(place, read),
{
    match (place, read) {
        (_, PlaceRead::Missing) => LoadedBank::Missing,
        (Place::Keyring, PlaceRead::Failed(error)) => LoadedBank::Failed(
            StorageFailure::KeyringLoad.message(error.as_str()),
        ),
        (Place::Encrypted, PlaceRead::Failed(error)) => LoadedBank::Failed(
            StorageFailure::EncryptedLoad.message(error.as_str()),
        ),
        (_, PlaceRead::Failed(error)) => LoadedBank::Failed(error),
        (Place::Encrypted, PlaceRead::Text(LoadedBank::InvalidLegacy(error))) =>
            LoadedBank::Failed(StorageFailure::EncryptedRead.message(error.as_str())),
        (Place::Encrypted, PlaceRead::Text(LoadedBank::Failed(error))) => LoadedBank::Failed(
            StorageFailure::EncryptedRead.message(error.as_str()),
        ),
        (_, PlaceRead::Text(loaded)) => loaded,
    }
}

/// What loading a bank asks for next, or comes to.
#[derive(PartialEq, Eq)]
pub enum BankLoad {
    Read(Place),
    Loaded(LoadedBank),
}

/// What loading a bank asks for next, or comes to, with its texts as sequences of characters.
pub enum BankLoadModel {
    Read(Place),
    Loaded(LoadedModel),
}

impl View for BankLoad {
    type V = BankLoadModel;

    open spec fn view(&self) -> BankLoadModel {
        match *self {
            BankLoad::Read(place) => BankLoadModel::Read(place),
            BankLoad::Loaded(loaded) => BankLoadModel::Loaded(loaded@),
        }
    }
}

/// What loading asks for next once a place was read: the file, where the keyring brought nothing
/// and the storage makes do with the file.
pub open spec fn load_stepped(backend: Backend, place: Place, read: PlaceRead) -> BankLoadModel {
    let loaded = reported(place, read);
    if falls_back(backend) && place != Place::File && !(loaded is Bank) {
        BankLoadModel::Read(Place::File)
    } else {
        BankLoadModel::Loaded(loaded)
    }
}

impl BankLoad {
    /// A load that starts where the storage looks first.
    pub fn start(backend: Backend) -> (load: Self)
        ensures
            load@ == BankLoadModel::Read(first_place(backend)),
    {
        BankLoad::Read(backend.first())
    }

    /// What the load asks for next, now that the place was read. One that has come to an end stays
    /// as it is.
    pub fn next(self, backend: Backend, read: PlaceRead) -> (load: Self)
        ensures
            load@ == match self@ {
                BankLoadModel::Read(place) => load_stepped(backend, place, read),
                ended => ended,
            },
    {
        match self {
            BankLoad::Loaded(loaded) => BankLoad::Loaded(loaded),
            BankLoad::Read(place) => {
                let loaded = report(place, read);
                let found = match &loaded {
                    LoadedBank::Bank(_) => true,
                    _ => false,
                };
                if is_auto(backend) && place != Place::File && !found {
                    return BankLoad::Read(Place::File);
                }
                BankLoad::Loaded(loaded)
            },
        }
    }
}

/// What saving a bank asks for next.
#[derive(Clone, Copy, Debug, PartialEq, Eq, Structural)]
pub enum SaveWork {
    Put(Place),
    /// Take the file away, now that the keyring holds the bank.
    DropFile,
    /// The bank is saved, or the save has failed.
    Finish,
}

/// How an outside step of a storage ended.
#[derive(Debug, PartialEq, Eq)]
pub enum StepEnd {
    Done,
    Failed(String),
}

/// A save on its way: the step being taken, and what went wrong.
#[derive(Debug, PartialEq, Eq)]
pub struct BankSave {
    pub doing: SaveWork,
    pub failure: Option<String>,
}

/// A save on its way, with its text as a sequence of characters.
#[verifier::ext_equal]
pub struct BankSaveModel {
    pub doing: SaveWork,
    pub failure: Option<Seq<char>>,
}

impl View for BankSave {
    type V = BankSaveModel;

    open spec fn view(&self) -> BankSaveModel {
        BankSaveModel { doing: self.doing, failure: maybe(self.failure) }
    }
}

/// What is reported of a place that cannot be written.
pub open spec fn put_failure(place: Place, error: Seq<char>) -> Seq<char> {
    match place {
        Place::Keyring => failure_lead(StorageFailure::KeyringSave) + error,
        Place::Encrypted => failure_lead(StorageFailure::EncryptedSave) + error,
        _ => error,
    }
}

/// The place belongs to the keyring.
pub open spec fn in_keyring(place: Place) -> bool {
    place == Place::Keyring || place == Place::Encrypted
}

/// What a save does next. That the file cannot be taken away is passed over.
pub open spec fn save_stepped(backend: Backend, save: BankSaveModel, end: StepEnd) -> BankSaveModel {
    match (save.doing, end) {
        (SaveWork::Finish, _) => save,
        (SaveWork::DropFile, _) => BankSaveModel { doing: SaveWork::Finish, ..save },
        (SaveWork::Put(place), StepEnd::Done) => BankSaveModel {
            doing: if in_keyring(place) {
                SaveWork::DropFile
            } else {
                SaveWork::Finish
            },
            ..save
        },
        (SaveWork::Put(place), StepEnd::Failed(error)) => if in_keyring(place) && falls_back(
            backend,
        ) {
            BankSaveModel { doing: SaveWork::Put(Place::File), ..save }
        } else {
            BankSaveModel {
                doing: SaveWork::Finish,
                failure: Some(put_failure(place, error@)),
            }
        },
    }
}

/// Whether the place belongs to the keyring.
fn is_in_keyring(place: Place) -> (r: bool)
    ensures
        r == in_keyring(place),
{
    match place {
        Place::Keyring => true,
        Place::Encrypted => true,
        _ => false,
    }
}

impl BankSave {
    /// A save that starts where the storage looks first.
    pub fn start(backend: Backend) -> (save: Self)
        ensures
            save@ == (BankSaveModel { doing: SaveWork::Put(first_place(backend)), failure: None }),
    {
        BankSave { doing: SaveWork::Put(backend.first()), failure: None }
    }

    /// What the save does next, now that its step ended.
    pub fn next(self, backend: Backend, end: StepEnd) -> (save: Self)
        ensures
            save@ == save_stepped(backend, self@, end),
    {
        let mut save = self;
        match (save.doing, end) {
            (SaveWork::Finish, _) => {},
            (SaveWork::DropFile, _) => {
                save.doing = SaveWork::Finish;
            },
            (SaveWork::Put(place), StepEnd::Done) => {
                save.doing = if is_in_keyring(place) {
                    SaveWork::DropFile
                } else {
                    SaveWork::Finish
                };
            },
            (SaveWork::Put(place), StepEnd::Failed(error)) => {
                if is_in_keyring(place) && is_auto(backend) {
                    save.doing = SaveWork::Put(Place::File);
                } else {
                    save.doing = SaveWork::Finish;
                    save.failure = Some(
                        match place {
                            Place::Keyring => StorageFailure::KeyringSave.message(error.as_str()),
                            Place::Encrypted => StorageFailure::EncryptedSave.message(
                                error.as_str(),
                            ),
                            _ => error,
                        },
                    );
                }
            },
        }
        save
    }
}

/// The places that deleting a bank clears, in order.
pub open spec fn cleared_places(backend: Backend) -> Seq<Place> {
    match first_place(backend) {
        Place::Keyring => seq![Place::Keyring, Place::File],
        Place::Encrypted => seq![Place::Encrypted, Place::File, Place::Keyring, Place::File],
        place => seq![place],
    }
}

/// How clearing a place ended.
#[derive(Debug, PartialEq, Eq)]
pub enum ClearEnd {
    /// Whether something was there.
    Cleared(bool),
    Failed(String),
}

/// A deletion on its way: how many places were cleared, whether something was there, and what went
/// wrong.
#[derive(Debug, PartialEq, Eq)]
pub struct BankDelete {
    pub cleared: usize,
    pub removed: bool,
    pub failure: Option<String>,
}

/// A deletion on its way, with its text as a sequence of characters.
#[verifier::ext_equal]
pub struct BankDeleteModel {
    pub cleared: int,
    pub removed: bool,
    pub failure: Option<Seq<char>>,
}

impl View for BankDelete {
    type V = BankDeleteModel;

    open spec fn view(&self) -> BankDeleteModel {
        BankDeleteModel {
            cleared: self.cleared as int,
            removed: self.removed,
            failure: maybe(self.failure),
        }
    }
}

/// The place that a deletion clears next; none once it has failed or has cleared them all.
pub open spec fn clearing(backend: Backend, delete: BankDeleteModel) -> Option<Place> {
    if delete.failure is None && 0 <= delete.cleared < cleared_places(backend).len() {
        Some(cleared_places(backend)[delete.cleared])
    } else {
        None
    }
}

/// What is reported of a place that cannot be cleared.
pub open spec fn clear_failure(place: Place, error: Seq<char>) -> Seq<char> {
    match place {
        Place::Keyring => failure_lead(StorageFailure::KeyringDelete) + error,
        Place::Encrypted => failure_lead(StorageFailure::EncryptedDelete) + error,
        _ => error,
    }
}

/// What a deletion does next.
pub open spec fn delete_stepped(
    backend: Backend,
    delete: BankDeleteModel,
    end: ClearEnd,
) -> BankDeleteModel {
    match (clearing(backend, delete), end) {
        (None, _) => delete,
        (Some(_), ClearEnd::Cleared(there)) => BankDeleteModel {
            cleared: delete.cleared + 1,
            removed: delete.removed || there,
            ..delete
        },
        (Some(place), ClearEnd::Failed(error)) => BankDeleteModel {
            failure: Some(clear_failure(place, error@)),
            ..delete
        },
    }
}

impl BankDelete {
    /// A deletion that has cleared nothing yet.
    pub fn start() -> (delete: Self)
        ensures
            delete@ == (BankDeleteModel { cleared: 0, removed: false, failure: None }),
    {
        BankDelete { cleared: 0, removed: false, failure: None }
    }

    /// The place that the deletion clears next.
    pub fn clearing(&self, backend: Backend) -> (r: Option<Place>)
        ensures
            r == clearing(backend, self@),
    {
        if self.failure.is_some() {
            return None;
        }
        match (backend.first(), self.cleared) {
            (Place::Keyring, 0) => Some(Place::Keyring),
            (Place::Keyring, 1) => Some(Place::File),
            (Place::Encrypted, 0) => Some(Place::Encrypted),
            (Place::Encrypted, 1) => Some(Place::File),
            (Place::Encrypted, 2) => Some(Place::Keyring),
            (Place::Encrypted, 3) => Some(Place::File),
            (Place::File, 0) => Some(Place::File),
            (Place::Memory, 0) => Some(Place::Memory),
            _ => None,
        }
    }

    /// What the deletion does next, now that the place was cleared, or was not.
    pub fn next(self, backend: Backend, end: ClearEnd) -> (delete: Self)
        ensures
            delete@ == delete_stepped(backend, self@, end),
    {
        let mut delete = self;
        if let Some(place) = delete.clearing(backend) {
            match end {
                ClearEnd::Cleared(there) => {
                    delete.cleared = delete.cleared + 1;
                    delete.removed = delete.removed || there;
                },
                ClearEnd::Failed(error) => {
                    delete.failure = Some(
                        match place {
                            Place::Keyring => StorageFailure::KeyringDelete.message(
                                error.as_str(),
                            ),
                            Place::Encrypted => StorageFailure::EncryptedDelete.message(
                                error.as_str(),
                            ),
                            _ => error,
                        },
                    );
                },
            }
        }
        delete
    }
}

/// A deletion that has cleared all its places has cleared every place that a load of the same
/// storage reads and every place that a save of it writes.
pub proof fn deletion_clears_what_is_loaded_and_saved(
    backend: Backend,
    delete: BankDeleteModel,
    place: Place,
    read: PlaceRead,
    save: BankSaveModel,
    end: StepEnd,
)
    requires
        delete.failure is None,
        delete.cleared >= 0,
        clearing(backend, delete) is None,
    ensures
        delete.cleared >= cleared_places(backend).len(),
        cleared_places(backend).contains(first_place(backend)),
        load_stepped(backend, place, read) matches BankLoadModel::Read(next)
            ==> cleared_places(backend).contains(next),
        !(save.doing is Put) ==> !(save_stepped(backend, save, end).doing is Put),
        save_stepped(backend, save, end).doing matches SaveWork::Put(next)
            ==> cleared_places(backend).contains(next),
{
    let places = cleared_places(backend);
    assert(places[0] == first_place(backend));
    if falls_back(backend) {
        assert(places[1] == Place::File);
    }
}

/// Credentials that were put into the keyring do not stay in the file: a save ends well only after
/// it put the bank into the file, into memory, or into the keyring and then took the file away.
pub proof fn keyring_saves_take_the_file_away(
    backend: Backend,
    save: BankSaveModel,
    end: StepEnd,
)
    requires
        save.doing != SaveWork::Finish,
        save.failure is None,
        save_stepped(backend, save, end).doing == SaveWork::Finish,
        save_stepped(backend, save, end).failure is None,
    ensures
        save.doing == SaveWork::DropFile || (end is Done && save.doing is Put && !in_keyring(
            save.doing->Put_0,
        )),
{
}

} // verus!
