//! The tree of folders, records and attached files, with the mathematical
//! model of each and the edits that the store offers.

use crate::errors::ModelsError;
use vstd::prelude::*;

verus! {

/// A file attached to a record: raw name, raw extension, raw content.
#[derive(Debug, Clone, PartialEq, Eq)]
pub struct RecordFile {
    pub filename: Vec<u8>,
    pub extension: Vec<u8>,
    pub content: Vec<u8>,
}

/// Named text fields in insertion order, plus attached files; an absent
/// file list differs from an empty one.
#[derive(Debug, Clone, PartialEq, Eq)]
pub struct Record {
    pub fields: Vec<(String, String)>,
    pub files: Option<Vec<RecordFile>>,
}

/// A folder: its records, its subfolders (absent differs from empty) and
/// its display name.
#[derive(Debug, PartialEq, Eq)]
pub struct Folder {
    pub records: Vec<Record>,
    pub subfolders: Option<Vec<Folder>>,
    pub name: String,
}

/// What a file is: three byte strings.
pub struct FileModel {
    pub filename: Seq<u8>,
    pub extension: Seq<u8>,
    pub content: Seq<u8>,
}

/// What a record is: its fields as pairs of name and value, in insertion
/// order, and its files, if it has a list of them.
pub struct RecordModel {
    pub fields: Seq<(Seq<char>, Seq<char>)>,
    pub files: Option<Seq<FileModel>>,
}

/// What a folder is: the models of its records and of its subfolders, if
/// it has a list of them, and its name.
pub struct FolderModel {
    pub records: Seq<RecordModel>,
    pub subfolders: Option<Seq<FolderModel>>,
    pub name: Seq<char>,
}

impl View for RecordFile {
    type V = FileModel;

    open spec fn view(&self) -> FileModel {
        FileModel { filename: self.filename@, extension: self.extension@, content: self.content@ }
    }
}

/// The fields as pairs of texts.
pub open spec fn fields_view(fields: Seq<(String, String)>) -> Seq<(Seq<char>, Seq<char>)> {
    Seq::new(fields.len(), |i: int| (fields[i].0@, fields[i].1@))
}

/// The models of the files, in their order.
pub open spec fn files_view(files: Seq<RecordFile>) -> Seq<FileModel> {
    Seq::new(files.len(), |i: int| files[i]@)
}

/// The models of the records, in their order.
pub open spec fn records_view(records: Seq<Record>) -> Seq<RecordModel> {
    Seq::new(records.len(), |i: int| records[i]@)
}

impl View for Record {
    type V = RecordModel;

    open spec fn view(&self) -> RecordModel {
        RecordModel {
            fields: fields_view(self.fields@),
            files: match self.files {
                Some(files) => Some(files_view(files@)),
                None => None,
            },
        }
    }
}

impl View for Folder {
    type V = FolderModel;

    open spec fn view(&self) -> FolderModel {
        folder_model(*self)
    }
}

/// The model of a folder: the models of its records and of its subfolders,
/// in their order, and its name.
pub open spec fn folder_model(f: Folder) -> FolderModel
    decreases f,
{
    FolderModel {
        records: records_view(f.records@),
        subfolders: match f.subfolders {
            Some(subs) => Some(folder_models(subs@, subs@.len())),
            None => None,
        },
        name: f.name@,
    }
}

/// The models of the first `n` of `folders`.
pub open spec fn folder_models(folders: Seq<Folder>, n: nat) -> Seq<FolderModel>
    decreases folders, n,
{
    if n == 0 || n > folders.len() {
        Seq::empty()
    } else {
        folder_models(folders, (n - 1) as nat).push(folder_model(folders[n - 1]))
    }
}

/// The models of the folders, in their order.
pub open spec fn folders_view(folders: Seq<Folder>) -> Seq<FolderModel> {
    Seq::new(folders.len(), |i: int| folders[i]@)
}

proof fn lemma_folder_models(folders: Seq<Folder>, n: nat)
    requires
        n <= folders.len(),
    ensures
        folder_models(folders, n) == folders_view(folders.take(n as int)),
    decreases n,
{
    if n > 0 {
        lemma_folder_models(folders, (n - 1) as nat);
    }
    assert(folder_models(folders, n) =~= folders_view(folders.take(n as int)));
}

/// The model of a folder, one level unfolded.
pub proof fn lemma_folder_view(f: Folder)
    ensures
        f@.records == records_view(f.records@),
        f@.name == f.name@,
        f@.subfolders == match f.subfolders {
            Some(subs) => Some(folders_view(subs@)),
            None => None,
        },
{
    match f.subfolders {
        Some(subs) => {
            lemma_folder_models(subs@, subs@.len());
            assert(subs@.take(subs@.len() as int) =~= subs@);
        },
        None => {},
    }
}

/// Whether `name` is the name of one of `fields`.
pub open spec fn has_key(fields: Seq<(Seq<char>, Seq<char>)>, name: Seq<char>) -> bool {
    exists|i: int| 0 <= i < fields.len() && (#[trigger] fields[i]).0 == name
}

/// No two fields share a name.
pub open spec fn distinct_keys(fields: Seq<(Seq<char>, Seq<char>)>) -> bool {
    forall|i: int, j: int|
        0 <= i < j < fields.len() ==> (#[trigger] fields[i]).0 != (#[trigger] fields[j]).0
}

impl RecordModel {
    /// No two fields of the record share a name.
    pub open spec fn wf(self) -> bool {
        distinct_keys(self.fields)
    }
}

impl FolderModel {
    /// Every record of the tree has distinct field names.
    pub open spec fn wf(self) -> bool
        decreases self,
    {
        &&& forall|i: int| 0 <= i < self.records.len() ==> (#[trigger] self.records[i]).wf()
        &&& match self.subfolders {
            Some(subs) => forall|i: int| 0 <= i < subs.len() ==> (#[trigger] subs[i]).wf(),
            None => true,
        }
    }
}

/// The bytes, where there are any.
pub open spec fn bytes_view(bytes: Option<Vec<u8>>) -> Option<Seq<u8>> {
    match bytes {
        Some(b) => Some(b@),
        None => None,
    }
}

/// The file that the parts of a path and what was read make, or why they
/// make none: an unreadable file first, then a missing name, then, where
/// one is required, a missing extension.
pub open spec fn file_of(
    filename: Option<Seq<u8>>,
    extension: Option<Seq<u8>>,
    content: Option<Seq<u8>>,
    extension_required: bool,
) -> Result<FileModel, ModelsError> {
    if content is None {
        Err(ModelsError::FileReadError)
    } else if filename is None {
        Err(ModelsError::GetFilenameError)
    } else if extension is None && extension_required {
        Err(ModelsError::GetFilenameError)
    } else {
        Ok(
            FileModel {
                filename: filename->0,
                extension: match extension {
                    Some(e) => e,
                    None => Seq::empty(),
                },
                content: content->0,
            },
        )
    }
}

/// The record with `file` after the files it has, if any.
pub open spec fn with_file(r: RecordModel, file: FileModel) -> RecordModel {
    RecordModel {
        fields: r.fields,
        files: Some(
            (match r.files {
                Some(files) => files,
                None => Seq::empty(),
            }).push(file),
        ),
    }
}

impl Record {
    /// A record with no field and no file list.
    pub fn new() -> (r: Self)
        ensures
            r@.fields == Seq::<(Seq<char>, Seq<char>)>::empty(),
            r@.files is None,
            r@.wf(),
    {
        let r = Record { fields: Vec::new(), files: None };
        assert(r@.fields =~= Seq::empty());
        r
    }

    /// The position of the field called `name`, if there is one.
    pub fn find_field(&self, name: &String) -> (r: Option<usize>)
        ensures
            match r {
                Some(i) => i < self@.fields.len() && self@.fields[i as int].0 == name@,
                None => !has_key(self@.fields, name@),
            },
    {
        let mut i: usize = 0;
        while i < self.fields.len()
            invariant
                i <= self.fields.len(),
                forall|k: int| 0 <= k < i ==> (#[trigger] self@.fields[k]).0 != name@,
            decreases self.fields.len() - i,
        {
            if self.fields[i].0 == *name {
                return Some(i);
            }
            i += 1;
        }
        None
    }

    /// The value of the field called `name`, if there is one.
    pub fn get_field(&self, name: &String) -> (r: Option<&String>)
        ensures
            r is Some <==> has_key(self@.fields, name@),
            r is Some ==> exists|i: int|
                0 <= i < self@.fields.len() && (#[trigger] self@.fields[i]) == (name@, r->0@),
    {
        match self.find_field(name) {
            Some(i) => Some(&self.fields[i].1),
            None => None,
        }
    }

    /// Adds a field unless one of that name is there already; a refused
    /// call leaves the record as it was.
    pub fn add_field(&mut self, field_name: String, value: String) -> (r: Result<(), ModelsError>)
        ensures
            has_key(old(self)@.fields, field_name@) ==> r == Err::<(), ModelsError>(
                ModelsError::FieldAlreadyExist,
            ) && *final(self) == *old(self),
            !has_key(old(self)@.fields, field_name@) ==> r is Ok && final(self)@ == (RecordModel {
                fields: old(self)@.fields.push((field_name@, value@)),
                files: old(self)@.files,
            }),
            old(self)@.wf() ==> final(self)@.wf(),
    {
        if self.find_field(&field_name).is_some() {
            return Err(ModelsError::FieldAlreadyExist);
        }
        self.fields.push((field_name, value));
        assert(self@.fields =~= old(self)@.fields.push((field_name@, value@)));
        Ok(())
    }

    /// Attaches a file from what was read of it, refusing a path without
    /// an extension. See `add_file_with`.
    pub fn add_file(
        &mut self,
        filename: Option<Vec<u8>>,
        extension: Option<Vec<u8>>,
        content: Option<Vec<u8>>,
    ) -> (r: Result<(), ModelsError>)
        ensures
            match file_of(bytes_view(filename), bytes_view(extension), bytes_view(content), true) {
                Ok(file) => r is Ok && final(self)@ == with_file(old(self)@, file),
                Err(e) => r == Err::<(), ModelsError>(e) && *final(self) == *old(self),
            },
            old(self)@.wf() ==> final(self)@.wf(),
    {
        self.add_file_with(filename, extension, content, true)
    }

    /// Attaches a file from what was read of it: `content` is `None` where
    /// the file could not be read, `filename` or `extension` where the path
    /// has none. An unreadable file is reported before a missing name.
    /// With `extension_required` unset, a path without an extension gives a
    /// file with an empty one. A refused call leaves the record as it was.
    pub fn add_file_with(
        &mut self,
        filename: Option<Vec<u8>>,
        extension: Option<Vec<u8>>,
        content: Option<Vec<u8>>,
        extension_required: bool,
    ) -> (r: Result<(), ModelsError>)
        ensures
            match file_of(
                bytes_view(filename),
                bytes_view(extension),
                bytes_view(content),
                extension_required,
            ) {
                Ok(file) => r is Ok && final(self)@ == with_file(old(self)@, file),
                Err(e) => r == Err::<(), ModelsError>(e) && *final(self) == *old(self),
            },
            old(self)@.wf() ==> final(self)@.wf(),
    {
        let content = match content {
            Some(c) => c,
            None => { return Err(ModelsError::FileReadError); },
        };
        let filename = match filename {
            Some(n) => n,
            None => { return Err(ModelsError::GetFilenameError); },
        };
        let extension = match extension {
            Some(e) => e,
            None => {
                if extension_required {
                    return Err(ModelsError::GetFilenameError);
                }
                Vec::new()
            },
        };
        let file = RecordFile { filename, extension, content };
        let mut files = match self.files.take() {
            Some(files) => files,
            None => Vec::new(),
        };
        let ghost before = files_view(files@);
        assert(before =~= match old(self)@.files {
            Some(files) => files,
            None => Seq::empty(),
        });
        files.push(file);
        assert(files_view(files@) =~= before.push(file@));
        self.files = Some(files);
        Ok(())
    }
}

impl Folder {
    /// An empty, unnamed folder: no record, no subfolder list.
    pub fn new() -> (r: Self)
        ensures
            r@ == (FolderModel { records: Seq::empty(), subfolders: None, name: Seq::empty() }),
            r@.wf(),
    {
        let r = Folder { records: Vec::new(), subfolders: None, name: String::new() };
        assert(r@.records =~= Seq::empty());
        r
    }

    /// An empty folder called `name`.
    pub fn named(name: String) -> (r: Self)
        ensures
            r@ == (FolderModel { records: Seq::empty(), subfolders: None, name: name@ }),
            r@.wf(),
    {
        let r = Folder { records: Vec::new(), subfolders: None, name };
        assert(r@.records =~= Seq::empty());
        r
    }

    /// Appends a record after those already there.
    pub fn add_record(&mut self, record: Record)
        ensures
            final(self)@ == (FolderModel {
                records: old(self)@.records.push(record@),
                subfolders: old(self)@.subfolders,
                name: old(self)@.name,
            }),
            old(self)@.wf() && record@.wf() ==> final(self)@.wf(),
    {
        self.records.push(record);
        proof {
            lemma_folder_view(*self);
            lemma_folder_view(*old(self));
        }
        assert(self@.records =~= old(self)@.records.push(record@));
    }

    /// Appends a subfolder, starting the list where there was none.
    pub fn add_folder(&mut self, folder: Self)
        ensures
            final(self)@ == (FolderModel {
                records: old(self)@.records,
                subfolders: Some(
                    (match old(self)@.subfolders {
                        Some(subs) => subs,
                        None => Seq::empty(),
                    }).push(folder@),
                ),
                name: old(self)@.name,
            }),
            old(self)@.wf() && folder@.wf() ==> final(self)@.wf(),
    {
        let mut subs = match self.subfolders.take() {
            Some(subs) => subs,
            None => Vec::new(),
        };
        let ghost before = folders_view(subs@);
        proof {
            lemma_folder_view(*old(self));
        }
        assert(before =~= match old(self)@.subfolders {
            Some(subs) => subs,
            None => Seq::empty(),
        });
        subs.push(folder);
        assert(folders_view(subs@) =~= before.push(folder@));
        self.subfolders = Some(subs);
        proof {
            lemma_folder_view(*self);
        }
    }

    /// Gives the subfolder at `index` a new name; with no subfolder there,
    /// nothing changes.
    pub fn rename(&mut self, index: usize, new_name: String) -> (r: Result<(), ModelsError>)
        ensures
            match old(self)@.subfolders {
                Some(subs) if index < subs.len() => r is Ok && final(self)@ == (FolderModel {
                    records: old(self)@.records,
                    subfolders: Some(
                        subs.update(
                            index as int,
                            FolderModel {
                                records: subs[index as int].records,
                                subfolders: subs[index as int].subfolders,
                                name: new_name@,
                            },
                        ),
                    ),
                    name: old(self)@.name,
                }),
                _ => r == Err::<(), ModelsError>(ModelsError::IndexOutOfRange) && *final(self)
                    == *old(self),
            },
            old(self)@.wf() ==> final(self)@.wf(),
    {
        proof {
            lemma_folder_view(*old(self));
        }
        let mut subs = match self.subfolders.take() {
            Some(subs) => subs,
            None => { return Err(ModelsError::IndexOutOfRange); },
        };
        if index >= subs.len() {
            self.subfolders = Some(subs);
            return Err(ModelsError::IndexOutOfRange);
        }
        let ghost before = folders_view(subs@);
        assert(before =~= old(self)@.subfolders->0);
        let mut child = subs.remove(index);
        let ghost was = child@;
        child.name = new_name;
        subs.insert(index, child);
        assert(folders_view(subs@) =~= before.update(
            index as int,
            FolderModel { records: was.records, subfolders: was.subfolders, name: new_name@ },
        ));
        self.subfolders = Some(subs);
        proof {
            lemma_folder_view(*self);
            if old(self)@.wf() {
                let now = self@.subfolders->0;
                assert(before[index as int].wf());
                assert(now[index as int].wf());
                assert forall|i: int| 0 <= i < now.len() implies (#[trigger] now[i]).wf() by {
                    if i != index {
                        assert(before[i].wf());
                    }
                }
            }
        }
        Ok(())
    }
}

} // verus!
