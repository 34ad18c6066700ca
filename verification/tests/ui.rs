use nordstone::codec::encode;
use nordstone::encryption::{AgeEncryptor, Encryptor};
use nordstone::errors::{CryptoError, StoreError};
use nordstone::forms::{DecryptForm, DecryptFormMessage, RecordUi, RecordUiMessage};
use nordstone::storage::ReadFailure;
use nordstone::models::{Folder, Record};
use nordstone::ui::{Action, MainMessage, MainState, NordstoneUi};

fn pair(k: &str, v: &str) -> (String, String) {
    (k.to_string(), v.to_string())
}

fn open_ui() -> NordstoneUi {
    let mut record = Record::new();
    record.add_field("user".into(), "bob".into()).unwrap();
    record.add_file(Some(b"a.txt".to_vec()), Some(b"txt".to_vec()), Some(vec![1])).unwrap();
    let mut root = Folder::named("root".to_string());
    root.add_record(record);
    root.add_record(Record::new());
    root.add_folder(Folder::named("a".to_string()));
    root.add_folder(Folder::named("b".to_string()));
    let mut ui = NordstoneUi::new();
    ui.loaded(root);
    ui
}

fn data(ui: &NordstoneUi) -> &Folder {
    match &ui.state {
        MainState::Decrypted(data) => data,
        MainState::Encrypted(_) => panic!("the store is closed"),
    }
}

#[test]
fn ui_starts_closed() {
    let ui = NordstoneUi::new();
    assert_eq!(ui.state, MainState::Encrypted(DecryptForm::new()));
    assert_eq!(ui.subfolder_to_edit, None);
    assert_eq!(ui.record_to_edit, None);
    assert_eq!(ui.key, None);
    assert_eq!(ui.records, vec![RecordUi::editing(vec![])]);
    assert_eq!(ui.title(), "NORDSTONE");
}

#[test]
fn closed_ui_hears_the_passphrase_form() {
    let mut ui = NordstoneUi::new();
    let typed = MainMessage::DecryptFormMessage(DecryptFormMessage::KeyChanged("pw".to_string()));
    assert_eq!(ui.update(typed), Action::Nothing);
    assert_eq!(ui.state, MainState::Encrypted(DecryptForm { key: "pw".to_string() }));
    assert_eq!(ui.key, None);
    let open = MainMessage::DecryptFormMessage(DecryptFormMessage::Decrypt("pw".to_string()));
    assert_eq!(ui.update(open), Action::Load);
    assert_eq!(ui.key, Some("pw".to_string()));
    assert_eq!(ui.state, MainState::Encrypted(DecryptForm { key: "pw".to_string() }));
}

#[test]
fn closed_ui_ignores_editing() {
    let mut ui = NordstoneUi::new();
    assert_eq!(ui.update(MainMessage::Save), Action::Nothing);
    assert_eq!(ui.update(MainMessage::EditFolder(0)), Action::Nothing);
    assert_eq!(ui.update(MainMessage::ChangeFolder(0, "x".to_string())), Action::Nothing);
    let save = MainMessage::RecordUiMessage(0, RecordUiMessage::Save(vec![pair("a", "b")]));
    assert_eq!(ui.update(save), Action::Nothing);
    assert_eq!(ui, NordstoneUi::new());
}

#[test]
fn open_ui_ignores_the_passphrase_form() {
    let mut ui = open_ui();
    let open = MainMessage::DecryptFormMessage(DecryptFormMessage::Decrypt("pw".to_string()));
    assert_eq!(ui.update(open), Action::Nothing);
    assert_eq!(ui, open_ui());
}

#[test]
fn edit_folder_builds_a_form_for_each_record() {
    let mut ui = open_ui();
    assert_eq!(ui.update(MainMessage::EditFolder(1)), Action::Nothing);
    assert_eq!(ui.subfolder_to_edit, Some(1));
    assert_eq!(
        ui.records,
        vec![RecordUi::editing(vec![pair("user", "bob")]), RecordUi::editing(vec![])]
    );
    let mut bare = NordstoneUi::new();
    bare.loaded(Folder::new());
    assert_eq!(bare.update(MainMessage::EditFolder(0)), Action::Nothing);
    assert_eq!(bare.records, vec![RecordUi::editing(vec![])]);
    assert_eq!(bare.subfolder_to_edit, Some(0));
}

#[test]
fn change_folder_renames_within_range() {
    let mut ui = open_ui();
    assert_eq!(ui.update(MainMessage::ChangeFolder(1, "beta".to_string())), Action::Nothing);
    assert_eq!(data(&ui).subfolders.as_ref().unwrap()[1].name, "beta");
    assert_eq!(data(&ui).subfolders.as_ref().unwrap()[0].name, "a");
    assert_eq!(ui.update(MainMessage::ChangeFolder(2, "gamma".to_string())), Action::Nothing);
    assert_eq!(data(&ui).subfolders.as_ref().unwrap().len(), 2);
    assert_eq!(data(&ui).subfolders.as_ref().unwrap()[1].name, "beta");
}

#[test]
fn save_asks_for_a_save_and_ends_the_edit() {
    let mut ui = open_ui();
    ui.update(MainMessage::EditFolder(0));
    assert_eq!(ui.update(MainMessage::Save), Action::Save);
    assert_eq!(ui.subfolder_to_edit, None);
}

#[test]
fn saved_fields_replace_those_of_the_record() {
    let mut ui = open_ui();
    let save = MainMessage::RecordUiMessage(0, RecordUiMessage::Save(vec![pair("user", "eve")]));
    assert_eq!(ui.update(save), Action::Save);
    assert_eq!(data(&ui).records[0].fields, vec![pair("user", "eve")]);
    assert_eq!(data(&ui).records[0].files.as_ref().unwrap().len(), 1);
    assert_eq!(data(&ui).records.len(), 2);
    let beyond = MainMessage::RecordUiMessage(2, RecordUiMessage::Save(vec![pair("x", "y")]));
    assert_eq!(ui.update(beyond), Action::Save);
    assert_eq!(data(&ui).records.len(), 2);
    assert_eq!(data(&ui).records[1].fields, vec![]);
}

#[test]
fn saved_fields_become_the_first_record() {
    let mut ui = NordstoneUi::new();
    ui.loaded(Folder::new());
    let save = MainMessage::RecordUiMessage(5, RecordUiMessage::Save(vec![pair("k", "v")]));
    assert_eq!(ui.update(save), Action::Save);
    assert_eq!(data(&ui).records.len(), 1);
    assert_eq!(data(&ui).records[0].fields, vec![pair("k", "v")]);
    assert_eq!(data(&ui).records[0].files, None);
}

#[test]
fn fields_with_a_repeated_name_are_not_stored() {
    let mut ui = open_ui();
    let save = MainMessage::RecordUiMessage(
        0,
        RecordUiMessage::Save(vec![pair("k", "v1"), pair("k", "v2")]),
    );
    assert_eq!(ui.update(save), Action::Nothing);
    assert_eq!(ui, open_ui());
}

#[test]
fn other_record_messages_reach_the_form() {
    let mut ui = open_ui();
    let edit = MainMessage::RecordUiMessage(0, RecordUiMessage::Edit("k".to_string(), "v".to_string()));
    assert_eq!(ui.update(edit), Action::Nothing);
    assert_eq!(ui.records[0].key_to_add, "k");
    assert_eq!(ui.records[0].value_to_add, "v");
    let beyond = MainMessage::RecordUiMessage(1, RecordUiMessage::Change(vec![pair("a", "b")]));
    assert_eq!(ui.update(beyond), Action::Nothing);
    assert_eq!(ui.records.len(), 1);
}

#[test]
fn pending_save_needs_a_key_and_an_open_store() {
    let mut ui = NordstoneUi::new();
    assert_eq!(ui.pending_save(), None);
    ui.update(MainMessage::DecryptFormMessage(DecryptFormMessage::Decrypt("pw".to_string())));
    assert_eq!(ui.pending_save(), None);
    ui.loaded(Folder::named("x".to_string()));
    assert_eq!(ui.pending_save(), Some((&"pw".to_string(), &Folder::named("x".to_string()))));
    assert_eq!(open_ui().pending_save(), None);
}

#[test]
fn decrypt_with_no_container_starts_from_a_fresh_folder() {
    let mut ui = NordstoneUi::new();
    assert_eq!(ui.decrypt("pw".to_string(), Err(ReadFailure::NotFound)), Ok(()));
    assert_eq!(ui.key, Some("pw".to_string()));
    assert_eq!(data(&ui).name, "NEW FOLDER");
    assert!(data(&ui).records.is_empty());
    assert_eq!(data(&ui).subfolders, None);
    assert_eq!(ui.records, NordstoneUi::new().records);
}

#[test]
fn decrypt_of_an_unreadable_container_stays_closed() {
    let mut ui = NordstoneUi::new();
    assert_eq!(ui.decrypt("pw".to_string(), Err(ReadFailure::Other)), Err(StoreError::Io));
    assert_eq!(ui.key, Some("pw".to_string()));
    assert_eq!(ui.state, MainState::Encrypted(DecryptForm::new()));
}

#[test]
fn decrypt_opens_the_tree_of_the_container() {
    let mut folder = Folder::named("A".to_string());
    folder.add_folder(Folder::named("B".to_string()));
    let blob = AgeEncryptor::new("pw".to_string()).encrypt(&folder).unwrap();
    let mut ui = NordstoneUi::new();
    assert_eq!(
        ui.decrypt("other".to_string(), Ok(blob.clone())),
        Err(StoreError::Crypto(CryptoError::WrongPassphraseOrCorruptedData))
    );
    assert_eq!(ui.state, MainState::Encrypted(DecryptForm::new()));
    assert_eq!(ui.key, Some("other".to_string()));
    assert_eq!(
        ui.decrypt("pw".to_string(), Ok(Vec::new())),
        Err(StoreError::Crypto(CryptoError::MalformedBlob))
    );
    assert_eq!(ui.decrypt("pw".to_string(), Ok(blob)), Ok(()));
    assert_eq!(data(&ui), &folder);
    assert_eq!(ui.key, Some("pw".to_string()));
}

#[test]
fn encrypt_seals_the_open_tree() {
    assert_eq!(NordstoneUi::new().encrypt(), None);
    assert_eq!(open_ui().encrypt(), None);
    let mut ui = NordstoneUi::new();
    ui.decrypt("pw".to_string(), Err(ReadFailure::NotFound)).unwrap();
    ui.update(MainMessage::RecordUiMessage(0, RecordUiMessage::Save(vec![pair("k", "v")])));
    let blob = ui.encrypt().unwrap();
    assert!(blob.len() > encode(data(&ui)).len());
    let back = AgeEncryptor::new("pw".to_string()).decrypt(blob).unwrap();
    assert_eq!(&back, data(&ui));
}
