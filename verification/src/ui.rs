//! The decisions of the front end: from the state it holds and a message
//! to the next state and to what the caller must do, which is to load or
//! to save the container.

use crate::codec::{enc_folder, keys_distinct};
use crate::encryption::{AgeEncryptor, Encryptor};
use crate::errors::StoreError;
use crate::forms::{
    record_ui_step, DecryptForm, DecryptFormMessage, RecordUi, RecordUiMessage, RecordUiModel,
};
use crate::models::{
    distinct_keys, fields_view, lemma_folder_view, records_view, Folder, FolderModel, Record,
    RecordModel,
};
use crate::storage::{fresh_name, open_file, or_fresh, ReadFailure};
use vstd::prelude::*;

verus! {

#[derive(Debug, PartialEq, Eq)]
pub enum MainState {
    /// The store is open.
    Decrypted(Folder),
    /// The store is closed and the passphrase form is shown.
    Encrypted(DecryptForm),
}

#[derive(Debug, PartialEq, Eq)]
pub enum MainMessage {
    DecryptFormMessage(DecryptFormMessage),
    /// Start editing the subfolder at this index.
    EditFolder(usize),
    /// Rename the subfolder at this index.
    ChangeFolder(usize, String),
    Save,
    /// A message for the form of the record at this index.
    RecordUiMessage(usize, RecordUiMessage),
}

/// What the caller does after a message.
#[derive(Debug, Clone, Copy, PartialEq, Eq, Structural)]
pub enum Action {
    Nothing,
    /// Read the container, open it with the passphrase in `key`, and hand
    /// the tree to `loaded`.
    Load,
    /// Seal the open tree with the passphrase in `key` and write it.
    Save,
}

#[derive(Debug, PartialEq, Eq)]
pub struct NordstoneUi {
    pub state: MainState,
    pub subfolder_to_edit: Option<usize>,
    pub record_to_edit: Option<usize>,
    pub key: Option<String>,
    pub records: Vec<RecordUi>,
}

pub enum StateModel {
    Decrypted(FolderModel),
    Encrypted(Seq<char>),
}

pub struct UiModel {
    pub state: StateModel,
    pub subfolder_to_edit: Option<usize>,
    pub record_to_edit: Option<usize>,
    pub key: Option<Seq<char>>,
    pub records: Seq<RecordUiModel>,
}

pub open spec fn forms_view(forms: Seq<RecordUi>) -> Seq<RecordUiModel> {
    Seq::new(forms.len(), |i: int| forms[i]@)
}

impl View for NordstoneUi {
    type V = UiModel;

    open spec fn view(&self) -> UiModel {
        UiModel {
            state: match self.state {
                MainState::Decrypted(data) => StateModel::Decrypted(data@),
                MainState::Encrypted(form) => StateModel::Encrypted(form.key@),
            },
            subfolder_to_edit: self.subfolder_to_edit,
            record_to_edit: self.record_to_edit,
            key: match self.key {
                Some(key) => Some(key@),
                None => None,
            },
            records: forms_view(self.records@),
        }
    }
}

/// The form that edits the fields of `r`.
pub open spec fn editing_form(r: RecordModel) -> RecordUiModel {
    RecordUiModel {
        editing: true,
        fields: r.fields,
        key_to_add: Seq::empty(),
        value_to_add: Seq::empty(),
    }
}

/// One editing form for each record of the folder; with no record, the
/// forms stay as they are.
pub open spec fn forms_for(data: FolderModel, current: Seq<RecordUiModel>) -> Seq<RecordUiModel> {
    if data.records.len() == 0 {
        current
    } else {
        Seq::new(data.records.len(), |i: int| editing_form(data.records[i]))
    }
}

/// The folder with the subfolder at `index` renamed; with no subfolder
/// there, the folder as it is.
pub open spec fn renamed(data: FolderModel, index: usize, name: Seq<char>) -> FolderModel {
    match data.subfolders {
        Some(subs) if index < subs.len() => FolderModel {
            subfolders: Some(
                subs.update(
                    index as int,
                    FolderModel {
                        records: subs[index as int].records,
                        subfolders: subs[index as int].subfolders,
                        name,
                    },
                ),
            ),
            ..data
        },
        _ => data,
    }
}

/// The folder with `fields` stored: as its first record where it has none,
/// else in the record at `index`, which keeps its files; with no record
/// there, the folder as it is.
pub open spec fn stored(data: FolderModel, index: usize, fields: Seq<(Seq<char>, Seq<char>)>) -> FolderModel {
    if data.records.len() == 0 {
        FolderModel { records: seq![RecordModel { fields, files: None }], ..data }
    } else if index < data.records.len() {
        FolderModel {
            records: data.records.update(
                index as int,
                RecordModel { fields, files: data.records[index as int].files },
            ),
            ..data
        }
    } else {
        data
    }
}

/// The form at `index` after `message`; with no form there, the forms as
/// they are.
pub open spec fn forms_step(forms: Seq<RecordUiModel>, index: usize, message: RecordUiMessage) -> Seq<
    RecordUiModel,
> {
    if index < forms.len() {
        forms.update(index as int, record_ui_step(forms[index as int], message))
    } else {
        forms
    }
}

/// The next state and the caller's part. While the store is closed only
/// the passphrase form is heard; once it is open, only the editing
/// messages. Fields that name a field twice are not stored.
pub open spec fn step(m: UiModel, message: MainMessage) -> (UiModel, Action) {
    match m.state {
        StateModel::Encrypted(_) => match message {
            MainMessage::DecryptFormMessage(DecryptFormMessage::KeyChanged(key)) => (
                UiModel { state: StateModel::Encrypted(key@), ..m },
                Action::Nothing,
            ),
            MainMessage::DecryptFormMessage(DecryptFormMessage::Decrypt(key)) => (
                UiModel { key: Some(key@), ..m },
                Action::Load,
            ),
            _ => (m, Action::Nothing),
        },
        StateModel::Decrypted(data) => match message {
            MainMessage::DecryptFormMessage(_) => (m, Action::Nothing),
            MainMessage::EditFolder(index) => (
                UiModel {
                    subfolder_to_edit: Some(index),
                    records: forms_for(data, m.records),
                    ..m
                },
                Action::Nothing,
            ),
            MainMessage::ChangeFolder(index, name) => (
                UiModel { state: StateModel::Decrypted(renamed(data, index, name@)), ..m },
                Action::Nothing,
            ),
            MainMessage::Save => (UiModel { subfolder_to_edit: None, ..m }, Action::Save),
            MainMessage::RecordUiMessage(index, RecordUiMessage::Save(fields)) => if distinct_keys(
                fields_view(fields@),
            ) {
                (
                    UiModel {
                        state: StateModel::Decrypted(stored(data, index, fields_view(fields@))),
                        ..m
                    },
                    Action::Save,
                )
            } else {
                (m, Action::Nothing)
            },
            MainMessage::RecordUiMessage(index, other) => (
                UiModel { records: forms_step(m.records, index, other), ..m },
                Action::Nothing,
            ),
        },
    }
}

fn copy_fields(fields: &Vec<(String, String)>) -> (r: Vec<(String, String)>)
    ensures
        fields_view(r@) == fields_view(fields@),
{
    let mut out: Vec<(String, String)> = Vec::new();
    let mut i: usize = 0;
    while i < fields.len()
        invariant
            i <= fields.len(),
            out@.len() == i,
            forall|k: int| 0 <= k < i ==> fields_view(out@)[k] == fields_view(fields@)[k],
        decreases fields.len() - i,
    {
        let name = fields[i].0.clone();
        let value = fields[i].1.clone();
        out.push((name, value));
        i += 1;
    }
    assert(fields_view(out@) =~= fields_view(fields@));
    out
}

fn editing_forms(data: &Folder, current: Vec<RecordUi>) -> (r: Vec<RecordUi>)
    ensures
        forms_view(r@) == forms_for(data@, forms_view(current@)),
{
    proof {
        lemma_folder_view(*data);
    }
    if data.records.len() == 0 {
        return current;
    }
    let mut out: Vec<RecordUi> = Vec::new();
    let mut i: usize = 0;
    while i < data.records.len()
        invariant
            i <= data.records.len(),
            out@.len() == i,
            forall|k: int|
                0 <= k < i ==> (#[trigger] out@[k])@ == editing_form(records_view(data.records@)[k]),
        decreases data.records.len() - i,
    {
        out.push(RecordUi::editing(copy_fields(&data.records[i].fields)));
        i += 1;
    }
    assert(forms_view(out@) =~= forms_for(data@, forms_view(current@)));
    out
}

fn store_fields(data: &mut Folder, index: usize, fields: Vec<(String, String)>)
    ensures
        final(data)@ == stored(old(data)@, index, fields_view(fields@)),
        old(data)@.wf() && distinct_keys(fields_view(fields@)) ==> final(data)@.wf(),
{
    proof {
        lemma_folder_view(*old(data));
    }
    let ghost before = records_view(data.records@);
    if data.records.len() == 0 {
        data.records.push(Record { fields, files: None });
        proof {
            lemma_folder_view(*data);
            assert(data@.records =~= seq![RecordModel { fields: fields_view(fields@), files: None }]);
        }
    } else if index < data.records.len() {
        let mut record = data.records.remove(index);
        let ghost was = record@;
        record.fields = fields;
        data.records.insert(index, record);
        proof {
            lemma_folder_view(*data);
            let now = RecordModel { fields: fields_view(fields@), files: was.files };
            assert(data@.records =~= before.update(index as int, now));
            if old(data)@.wf() && distinct_keys(fields_view(fields@)) {
                assert forall|i: int| 0 <= i < data@.records.len() implies (
                #[trigger] data@.records[i]).wf() by {
                    if i != index {
                        assert(before[i].wf());
                    }
                }
            }
        }
    }
}

fn step_form(forms: &mut Vec<RecordUi>, index: usize, message: RecordUiMessage)
    ensures
        forms_view(final(forms)@) == forms_step(forms_view(old(forms)@), index, message),
{
    if index < forms.len() {
        let ghost before = forms_view(forms@);
        let mut form = forms.remove(index);
        form.update(message);
        forms.insert(index, form);
        assert(forms_view(forms@) =~= before.update(
            index as int,
            record_ui_step(before[index as int], message),
        ));
    }
}

impl NordstoneUi {
    /// The front end at its start: the store closed, an empty passphrase
    /// form, and one empty form in editing state.
    pub fn new() -> (r: Self)
        ensures
            r@ == (UiModel {
                state: StateModel::Encrypted(Seq::empty()),
                subfolder_to_edit: None,
                record_to_edit: None,
                key: None,
                records: seq![
                    RecordUiModel {
                        editing: true,
                        fields: Seq::empty(),
                        key_to_add: Seq::empty(),
                        value_to_add: Seq::empty(),
                    },
                ],
            }),
    {
        let mut records: Vec<RecordUi> = Vec::new();
        let empty: Vec<(String, String)> = Vec::new();
        assert(fields_view(empty@) =~= Seq::empty());
        records.push(RecordUi::editing(empty));
        let r = Self {
            state: MainState::Encrypted(DecryptForm::new()),
            subfolder_to_edit: None,
            record_to_edit: None,
            key: None,
            records,
        };
        assert(r@.records =~= seq![
            RecordUiModel {
                editing: true,
                fields: Seq::empty(),
                key_to_add: Seq::empty(),
                value_to_add: Seq::empty(),
            },
        ]);
        r
    }

    pub fn title(&self) -> (r: String)
        ensures
            r@ == "NORDSTONE"@,
    {
        "NORDSTONE".to_string()
    }

    /// Opens the store on the tree that loading gave.
    pub fn loaded(&mut self, data: Folder)
        ensures
            final(self)@ == (UiModel { state: StateModel::Decrypted(data@), ..old(self)@ }),
    {
        self.state = MainState::Decrypted(data);
    }

    /// Opens the store with `key` on what reading the container gave. The
    /// passphrase is kept whatever comes. Where no container exists yet,
    /// the store opens on a fresh empty folder; where one was read, on the
    /// tree in it. On a failure the store stays as it was.
    pub fn decrypt(&mut self, key: String, file: Result<Vec<u8>, ReadFailure>) -> (r: Result<
        (),
        StoreError,
    >)
        ensures
            final(self)@.key == Some(key@),
            final(self)@.subfolder_to_edit == old(self)@.subfolder_to_edit,
            final(self)@.record_to_edit == old(self)@.record_to_edit,
            final(self)@.records == old(self)@.records,
            r is Err ==> final(self)@.state == old(self)@.state,
            r is Ok ==> final(self).state is Decrypted && final(self).state->Decrypted_0@.wf(),
            match file {
                Err(ReadFailure::NotFound) => r is Ok && final(self)@.state
                    == StateModel::Decrypted(
                    FolderModel { records: Seq::empty(), subfolders: None, name: fresh_name() },
                ),
                Err(ReadFailure::Other) => r == Err::<(), StoreError>(StoreError::Io),
                Ok(_) => r is Err ==> r->Err_0 is Crypto || r->Err_0 is Serialization,
            },
    {
        let encryptor = AgeEncryptor::new(key.clone());
        self.key = Some(key);
        match or_fresh(open_file(&encryptor, file)) {
            Ok(data) => {
                self.state = MainState::Decrypted(data);
                Ok(())
            },
            Err(e) => Err(e),
        }
    }

    /// The bytes to write for the open tree, sealed with the passphrase:
    /// none while the store is closed or no passphrase was given.
    pub fn encrypt(&self) -> (r: Option<Vec<u8>>)
        ensures
            r is Some <==> self.key is Some && self.state is Decrypted,
            r is Some ==> r->0@.len() > enc_folder(self.state->Decrypted_0@).len(),
    {
        match self.pending_save() {
            Some((key, data)) => match AgeEncryptor::new(key.clone()).encrypt(data) {
                Ok(blob) => Some(blob),
                Err(_) => None,
            },
            None => None,
        }
    }

    /// What a save seals: the passphrase and the open tree. There is
    /// nothing to save while the store is closed or no passphrase was given.
    pub fn pending_save(&self) -> (r: Option<(&String, &Folder)>)
        ensures
            match r {
                Some((key, data)) => self.key == Some(*key) && self.state == MainState::Decrypted(
                    *data,
                ),
                None => !(self.key is Some && self.state is Decrypted),
            },
    {
        match (&self.key, &self.state) {
            (Some(key), MainState::Decrypted(data)) => Some((key, data)),
            _ => None,
        }
    }

    /// Takes one message: moves to the next state and says what the
    /// caller must do.
    pub fn update(&mut self, message: MainMessage) -> (action: Action)
        ensures
            (final(self)@, action) == step(old(self)@, message),
            old(self).state is Decrypted && old(self).state->Decrypted_0@.wf() ==> final(
                self
            ).state is Decrypted && final(self).state->Decrypted_0@.wf(),
    {
        let mut state = MainState::Encrypted(DecryptForm::new());
        core::mem::swap(&mut self.state, &mut state);
        match state {
            MainState::Encrypted(mut form) => match message {
                MainMessage::DecryptFormMessage(DecryptFormMessage::KeyChanged(key)) => {
                    form.update(DecryptFormMessage::KeyChanged(key));
                    self.state = MainState::Encrypted(form);
                    Action::Nothing
                },
                MainMessage::DecryptFormMessage(DecryptFormMessage::Decrypt(key)) => {
                    self.key = Some(key);
                    self.state = MainState::Encrypted(form);
                    Action::Load
                },
                _ => {
                    self.state = MainState::Encrypted(form);
                    Action::Nothing
                },
            },
            MainState::Decrypted(mut data) => match message {
                MainMessage::DecryptFormMessage(_) => {
                    self.state = MainState::Decrypted(data);
                    Action::Nothing
                },
                MainMessage::EditFolder(index) => {
                    self.subfolder_to_edit = Some(index);
                    let mut current: Vec<RecordUi> = Vec::new();
                    core::mem::swap(&mut self.records, &mut current);
                    self.records = editing_forms(&data, current);
                    self.state = MainState::Decrypted(data);
                    Action::Nothing
                },
                MainMessage::ChangeFolder(index, name) => {
                    let _ = data.rename(index, name);
                    self.state = MainState::Decrypted(data);
                    Action::Nothing
                },
                MainMessage::Save => {
                    self.subfolder_to_edit = None;
                    self.state = MainState::Decrypted(data);
                    Action::Save
                },
                MainMessage::RecordUiMessage(index, RecordUiMessage::Save(fields)) => {
                    if keys_distinct(&fields) {
                        store_fields(&mut data, index, fields);
                        self.state = MainState::Decrypted(data);
                        Action::Save
                    } else {
                        self.state = MainState::Decrypted(data);
                        Action::Nothing
                    }
                },
                MainMessage::RecordUiMessage(index, other) => {
                    step_form(&mut self.records, index, other);
                    self.state = MainState::Decrypted(data);
                    Action::Nothing
                },
            },
        }
    }
}

} // verus!
