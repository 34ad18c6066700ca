use nordstone::errors::ModelsError;
use nordstone::models::{Folder, Record, RecordFile};

fn create_record() -> Record {
    let mut record = Record::new();
    record.add_field("domain".into(), "yandex.ru".into()).unwrap();
    record
        .add_file(
            Some(b"testfile.test".to_vec()),
            Some(b"test".to_vec()),
            Some(b"attached bytes".to_vec()),
        )
        .unwrap();
    record
}

#[test]
fn test_create_record() {
    create_record();
}

#[test]
fn test_create_folder() {
    let mut folder = Folder::new();
    let record = create_record();
    folder.add_record(record);
    let mut subfolder = Folder::new();
    let record = create_record();
    subfolder.add_record(record);
    folder.add_folder(subfolder);
}

#[test]
fn new_record_is_empty() {
    let record = Record::new();
    assert!(record.fields.is_empty());
    assert_eq!(record.files, None);
}

#[test]
fn add_field_keeps_earlier_fields_in_order() {
    let mut record = Record::new();
    assert_eq!(record.add_field("user".into(), "bob".into()), Ok(()));
    assert_eq!(record.add_field("site".into(), "example.org".into()), Ok(()));
    assert_eq!(
        record.fields,
        vec![
            ("user".to_string(), "bob".to_string()),
            ("site".to_string(), "example.org".to_string())
        ]
    );
    assert_eq!(record.get_field(&"user".to_string()), Some(&"bob".to_string()));
    assert_eq!(record.get_field(&"site".to_string()), Some(&"example.org".to_string()));
    assert_eq!(record.get_field(&"none".to_string()), None);
    assert_eq!(record.find_field(&"site".to_string()), Some(1));
}

#[test]
fn duplicate_field_is_refused_and_first_value_stays() {
    let mut record = Record::new();
    assert_eq!(record.add_field("k".into(), "v1".into()), Ok(()));
    assert_eq!(
        record.add_field("k".into(), "v2".into()),
        Err(ModelsError::FieldAlreadyExist)
    );
    assert_eq!(record.fields.len(), 1);
    assert_eq!(record.get_field(&"k".to_string()), Some(&"v1".to_string()));
}

#[test]
fn add_file_starts_and_extends_the_list() {
    let mut record = Record::new();
    assert_eq!(
        record.add_file(Some(vec![b'a', 0xff]), Some(vec![b'x']), Some(vec![0, 1, 2])),
        Ok(())
    );
    assert_eq!(
        record.add_file(Some(b"b.bin".to_vec()), Some(b"bin".to_vec()), Some(vec![])),
        Ok(())
    );
    assert_eq!(
        record.files,
        Some(vec![
            RecordFile { filename: vec![b'a', 0xff], extension: vec![b'x'], content: vec![0, 1, 2] },
            RecordFile { filename: b"b.bin".to_vec(), extension: b"bin".to_vec(), content: vec![] },
        ])
    );
}

#[test]
fn add_file_reports_unreadable_file_first() {
    let mut record = Record::new();
    assert_eq!(record.add_file(None, None, None), Err(ModelsError::FileReadError));
    assert_eq!(
        record.add_file(Some(b"a.txt".to_vec()), Some(b"txt".to_vec()), None),
        Err(ModelsError::FileReadError)
    );
    assert_eq!(record.files, None);
}

#[test]
fn add_file_refuses_missing_name_or_extension() {
    let mut record = Record::new();
    assert_eq!(
        record.add_file(None, Some(b"txt".to_vec()), Some(vec![1])),
        Err(ModelsError::GetFilenameError)
    );
    assert_eq!(
        record.add_file(Some(b"README".to_vec()), None, Some(vec![1])),
        Err(ModelsError::GetFilenameError)
    );
    assert_eq!(record.files, None);
    assert!(record.fields.is_empty());
}

#[test]
fn new_folder_is_empty_and_unnamed() {
    let folder = Folder::new();
    assert!(folder.records.is_empty());
    assert_eq!(folder.subfolders, None);
    assert_eq!(folder.name, "");
    let named = Folder::named("vault".to_string());
    assert_eq!(named.name, "vault");
    assert_eq!(named.subfolders, None);
}

#[test]
fn add_record_appends() {
    let mut folder = Folder::new();
    let mut first = Record::new();
    first.add_field("n".into(), "1".into()).unwrap();
    let mut second = Record::new();
    second.add_field("n".into(), "2".into()).unwrap();
    folder.add_record(first.clone());
    folder.add_record(second.clone());
    assert_eq!(folder.records, vec![first, second]);
    assert_eq!(folder.subfolders, None);
}

#[test]
fn add_folder_starts_and_extends_the_list() {
    let mut folder = Folder::named("root".to_string());
    folder.add_folder(Folder::named("a".to_string()));
    folder.add_folder(Folder::named("b".to_string()));
    let subs = folder.subfolders.as_ref().unwrap();
    assert_eq!(subs.len(), 2);
    assert_eq!(subs[0].name, "a");
    assert_eq!(subs[1].name, "b");
    assert_eq!(folder.name, "root");
}

#[test]
fn rename_changes_only_the_named_subfolder() {
    let mut folder = Folder::named("root".to_string());
    let mut a = Folder::named("a".to_string());
    a.add_record(Record::new());
    folder.add_folder(a);
    folder.add_folder(Folder::named("b".to_string()));
    assert_eq!(folder.rename(0, "alpha".to_string()), Ok(()));
    let subs = folder.subfolders.as_ref().unwrap();
    assert_eq!(subs[0].name, "alpha");
    assert_eq!(subs[0].records.len(), 1);
    assert_eq!(subs[1].name, "b");
    assert_eq!(folder.name, "root");
}

#[test]
fn rename_out_of_range_is_refused() {
    let mut folder = Folder::named("root".to_string());
    assert_eq!(folder.rename(0, "x".to_string()), Err(ModelsError::IndexOutOfRange));
    assert_eq!(folder.subfolders, None);
    folder.add_folder(Folder::named("a".to_string()));
    assert_eq!(folder.rename(1, "x".to_string()), Err(ModelsError::IndexOutOfRange));
    assert_eq!(folder.subfolders.as_ref().unwrap()[0].name, "a");
}

#[test]
fn each_refusal_has_its_message() {
    assert_eq!(ModelsError::FieldAlreadyExist.message(), "Field already exists");
    assert_eq!(ModelsError::FileReadError.message(), "Error opening file");
    assert_eq!(ModelsError::GetFilenameError.message(), "Error retrieving filename");
    assert_eq!(ModelsError::IndexOutOfRange.message(), "No subfolder at that index");
}

#[test]
fn extension_can_be_optional() {
    let mut record = Record::new();
    assert_eq!(
        record.add_file_with(Some(b"README".to_vec()), None, Some(vec![1, 2]), false),
        Ok(())
    );
    assert_eq!(
        record.files,
        Some(vec![RecordFile { filename: b"README".to_vec(), extension: vec![], content: vec![1, 2] }])
    );
    assert_eq!(
        record.add_file_with(Some(b"README".to_vec()), None, Some(vec![1, 2]), true),
        Err(ModelsError::GetFilenameError)
    );
    assert_eq!(
        record.add_file_with(None, None, Some(vec![1, 2]), false),
        Err(ModelsError::GetFilenameError)
    );
    assert_eq!(record.add_file_with(None, None, None, false), Err(ModelsError::FileReadError));
    assert_eq!(record.files.as_ref().unwrap().len(), 1);
}
