use nordstone::forms::{DecryptForm, DecryptFormMessage, RecordUi, RecordUiMessage, RecordUiState};

fn pair(k: &str, v: &str) -> (String, String) {
    (k.to_string(), v.to_string())
}

#[test]
fn decrypt_form_starts_empty() {
    assert_eq!(DecryptForm::new().key, "");
}

#[test]
fn decrypt_form_keeps_the_typed_key() {
    let mut form = DecryptForm::new();
    form.update(DecryptFormMessage::KeyChanged("hun".to_string()));
    form.update(DecryptFormMessage::KeyChanged("hunter2".to_string()));
    assert_eq!(form.key, "hunter2");
    form.update(DecryptFormMessage::Decrypt("other".to_string()));
    assert_eq!(form.key, "hunter2");
}

#[test]
fn record_form_starts_in_display() {
    let form = RecordUi::new(vec![pair("a", "1")]);
    assert_eq!(form.state, RecordUiState::Display(vec![pair("a", "1")]));
    assert_eq!(form.key_to_add, "");
    assert_eq!(form.value_to_add, "");
}

#[test]
fn displayed_record_form_ignores_messages() {
    let mut form = RecordUi::new(vec![pair("a", "1")]);
    form.update(RecordUiMessage::Change(vec![pair("b", "2")]));
    form.update(RecordUiMessage::Edit("k".to_string(), "v".to_string()));
    form.update(RecordUiMessage::Save(vec![]));
    assert_eq!(form, RecordUi::new(vec![pair("a", "1")]));
}

#[test]
fn edited_record_form_follows_messages() {
    let mut form = RecordUi::editing(vec![pair("a", "1")]);
    form.update(RecordUiMessage::Edit("k".to_string(), "v".to_string()));
    assert_eq!(form.key_to_add, "k");
    assert_eq!(form.value_to_add, "v");
    assert_eq!(form.state, RecordUiState::Edit(vec![pair("a", "1")]));
    form.update(RecordUiMessage::Change(vec![pair("a", "1"), pair("b", "2")]));
    assert_eq!(form.state, RecordUiState::Edit(vec![pair("a", "1"), pair("b", "2")]));
    assert_eq!(form.key_to_add, "k");
    form.update(RecordUiMessage::Save(vec![]));
    assert_eq!(form.state, RecordUiState::Edit(vec![pair("a", "1"), pair("b", "2")]));
}

#[test]
fn save_sends_the_fields_with_the_added_one() {
    let mut form = RecordUi::editing(vec![pair("a", "1"), pair("b", "2")]);
    form.update(RecordUiMessage::Edit("c".to_string(), "3".to_string()));
    assert_eq!(form.fields_to_save(), vec![pair("a", "1"), pair("b", "2"), pair("c", "3")]);
    assert_eq!(form.state, RecordUiState::Edit(vec![pair("a", "1"), pair("b", "2")]));
}

#[test]
fn save_sets_a_field_that_is_there_already() {
    let mut form = RecordUi::editing(vec![pair("a", "1"), pair("b", "2"), pair("c", "3")]);
    form.update(RecordUiMessage::Edit("b".to_string(), "two".to_string()));
    assert_eq!(form.fields_to_save(), vec![pair("a", "1"), pair("c", "3"), pair("b", "two")]);
}

#[test]
fn save_of_a_fresh_form_sends_the_empty_pair() {
    assert_eq!(RecordUi::editing(vec![]).fields_to_save(), vec![pair("", "")]);
    assert_eq!(RecordUi::new(vec![pair("a", "1")]).fields_to_save(), vec![pair("a", "1"), pair("", "")]);
    assert_eq!(RecordUi::new(vec![pair("", "x")]).fields_to_save(), vec![pair("", "")]);
}
