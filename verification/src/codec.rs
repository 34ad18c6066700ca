//! The container layout of a folder tree: every sequence is its count and
//! then its items, every byte string and text its length and then its
//! bytes, every optional sequence a marker byte and then, if present, the
//! sequence.

use crate::errors::SerializationError;
use crate::models::{
    distinct_keys, fields_view, files_view, folders_view, lemma_folder_view, records_view,
    FileModel, Folder, FolderModel, Record, RecordFile, RecordModel,
};
use crate::wire::{
    enc_bytes, enc_seq, enc_str, enc_u64, enc_vec, inverts, lemma_parse_bytes, lemma_parse_str,
    lemma_parse_tag, lemma_parse_u64, lemma_parse_vec, parse_bytes, parse_seq, parse_str,
    parse_tag, parse_u64, parse_vec, put_bytes, put_str, put_u64, take_bytes, take_str, take_tag,
    take_u64, Parsed,
};
use vstd::prelude::*;
use vstd::utf8::*;

verus! {

/// A file: its name, its extension and its content, each a byte string.
pub open spec fn enc_file(f: FileModel) -> Seq<u8> {
    enc_bytes(f.filename) + enc_bytes(f.extension) + enc_bytes(f.content)
}

/// Reads a file from the front of `b`.
pub open spec fn parse_file(b: Seq<u8>) -> Parsed<FileModel> {
    match parse_bytes(b) {
        Some((filename, r1)) => match parse_bytes(r1) {
            Some((extension, r2)) => match parse_bytes(r2) {
                Some((content, r3)) => Some((FileModel { filename, extension, content }, r3)),
                None => None,
            },
            None => None,
        },
        None => None,
    }
}

/// `enc_file` as a value, for the sequences of files.
pub open spec fn file_enc() -> spec_fn(FileModel) -> Seq<u8> {
    |f: FileModel| enc_file(f)
}

/// `parse_file` as a value.
pub open spec fn file_parse() -> spec_fn(Seq<u8>) -> Parsed<FileModel> {
    |b: Seq<u8>| parse_file(b)
}

/// A field: its name and its value, each as text.
pub open spec fn enc_field(p: (Seq<char>, Seq<char>)) -> Seq<u8> {
    enc_str(p.0) + enc_str(p.1)
}

/// Reads a field from the front of `b`.
pub open spec fn parse_field(b: Seq<u8>) -> Parsed<(Seq<char>, Seq<char>)> {
    match parse_str(b) {
        Some((name, r1)) => match parse_str(r1) {
            Some((value, r2)) => Some(((name, value), r2)),
            None => None,
        },
        None => None,
    }
}

/// `enc_field` as a value.
pub open spec fn field_enc() -> spec_fn((Seq<char>, Seq<char>)) -> Seq<u8> {
    |p: (Seq<char>, Seq<char>)| enc_field(p)
}

/// `parse_field` as a value.
pub open spec fn field_parse() -> spec_fn(Seq<u8>) -> Parsed<(Seq<char>, Seq<char>)> {
    |b: Seq<u8>| parse_field(b)
}

/// A record: its fields as a sequence, then the marker of its file list
/// and, where there is one, the files as a sequence.
pub open spec fn enc_record(r: RecordModel) -> Seq<u8> {
    enc_vec(r.fields, field_enc()) + match r.files {
        Some(files) => seq![1u8] + enc_vec(files, file_enc()),
        None => seq![0u8],
    }
}

/// Reads a record from the front of `b`. A record whose bytes name a
/// field twice is refused.
pub open spec fn parse_record(b: Seq<u8>) -> Parsed<RecordModel> {
    match parse_vec(b, field_parse()) {
        Some((fields, r1)) => if !distinct_keys(fields) {
            None
        } else {
            match parse_tag(r1) {
                Some((tag, r2)) => if tag == 0 {
                    Some((RecordModel { fields, files: None }, r2))
                } else if tag == 1 {
                    match parse_vec(r2, file_parse()) {
                        Some((files, r3)) => Some((RecordModel { fields, files: Some(files) }, r3)),
                        None => None,
                    }
                } else {
                    None
                },
                None => None,
            }
        },
        None => None,
    }
}

/// `enc_record` as a value.
pub open spec fn record_enc() -> spec_fn(RecordModel) -> Seq<u8> {
    |r: RecordModel| enc_record(r)
}

/// `parse_record` as a value.
pub open spec fn record_parse() -> spec_fn(Seq<u8>) -> Parsed<RecordModel> {
    |b: Seq<u8>| parse_record(b)
}

/// A folder: its records as a sequence, then the marker of its subfolder
/// list and, where there is one, their count and the subfolders, then its
/// name.
pub open spec fn enc_folder(f: FolderModel) -> Seq<u8>
    decreases f,
{
    enc_vec(f.records, record_enc()) + (match f.subfolders {
        Some(subs) => seq![1u8] + enc_u64(subs.len() as u64) + enc_folders(subs, subs.len()),
        None => seq![0u8],
    }) + enc_str(f.name)
}

/// The first `n` of `folders`, encoded one after the other.
pub open spec fn enc_folders(folders: Seq<FolderModel>, n: nat) -> Seq<u8>
    decreases folders, n,
{
    if n == 0 || n > folders.len() {
        Seq::empty()
    } else {
        enc_folders(folders, (n - 1) as nat) + enc_folder(folders[n - 1])
    }
}

/// Reads a folder from the front of `b`.
pub open spec fn parse_folder(b: Seq<u8>) -> Parsed<FolderModel>
    decreases b.len(), 0nat,
{
    match parse_vec(b, record_parse()) {
        Some((records, r1)) => match parse_tag(r1) {
            Some((tag, r2)) => if tag == 0 {
                match parse_str(r2) {
                    Some((name, r3)) => Some((FolderModel { records, subfolders: None, name }, r3)),
                    None => None,
                }
            } else if tag == 1 {
                match parse_u64(r2) {
                    Some((n, r3)) => if r3.len() < b.len() {
                        match parse_folders(r3, n as nat, Seq::empty()) {
                            Some((subs, r4)) => match parse_str(r4) {
                                Some((name, r5)) => Some(
                                    (FolderModel { records, subfolders: Some(subs), name }, r5),
                                ),
                                None => None,
                            },
                            None => None,
                        }
                    } else {
                        None
                    },
                    None => None,
                }
            } else {
                None
            },
            None => None,
        },
        None => None,
    }
}

/// Reads `n` folders after those in `acc`.
pub open spec fn parse_folders(b: Seq<u8>, n: nat, acc: Seq<FolderModel>) -> Parsed<
    Seq<FolderModel>,
>
    decreases b.len(), n,
{
    if n == 0 {
        Some((acc, b))
    } else {
        match parse_folder(b) {
            Some((f, rest)) => if rest.len() < b.len() {
                parse_folders(rest, (n - 1) as nat, acc.push(f))
            } else {
                None
            },
            None => None,
        }
    }
}

/// The tree that `bytes` hold, if they are exactly the layout of one.
pub open spec fn decoded(bytes: Seq<u8>) -> Option<FolderModel> {
    match parse_folder(bytes) {
        Some((m, rest)) => if rest.len() == 0 {
            Some(m)
        } else {
            None
        },
        None => None,
    }
}

/// Every length of the file fits the eight bytes that frame it.
pub open spec fn file_fits(f: FileModel) -> bool {
    f.filename.len() <= u64::MAX && f.extension.len() <= u64::MAX && f.content.len() <= u64::MAX
}

/// The name and the value fit their frames.
pub open spec fn field_fits(p: (Seq<char>, Seq<char>)) -> bool {
    encode_utf8(p.0).len() <= u64::MAX && encode_utf8(p.1).len() <= u64::MAX
}

/// Every count and length of the record fits its frame.
pub open spec fn record_fits(r: RecordModel) -> bool {
    &&& r.fields.len() <= u64::MAX
    &&& forall|i: int| 0 <= i < r.fields.len() ==> field_fits(#[trigger] r.fields[i])
    &&& match r.files {
        Some(files) => files.len() <= u64::MAX && forall|i: int|
            0 <= i < files.len() ==> file_fits(#[trigger] files[i]),
        None => true,
    }
}

/// Every count, length and name of the tree fits its frame; this holds of
/// every tree in memory.
pub open spec fn folder_fits(f: FolderModel) -> bool
    decreases f,
{
    &&& f.records.len() <= u64::MAX
    &&& forall|i: int| 0 <= i < f.records.len() ==> record_fits(#[trigger] f.records[i])
    &&& encode_utf8(f.name).len() <= u64::MAX
    &&& match f.subfolders {
        Some(subs) => subs.len() <= u64::MAX && forall|i: int|
            0 <= i < subs.len() ==> folder_fits(#[trigger] subs[i]),
        None => true,
    }
}

/// The record can be written and read back: its lengths fit their frames
/// and no field name occurs twice.
pub open spec fn record_valid(r: RecordModel) -> bool {
    record_fits(r) && r.wf()
}

/// The tree can be written and read back: its lengths fit their frames
/// and no record of it names a field twice.
pub open spec fn folder_valid(f: FolderModel) -> bool {
    folder_fits(f) && f.wf()
}

/// `enc_folder` as a value.
pub open spec fn folder_enc() -> spec_fn(FolderModel) -> Seq<u8> {
    |f: FolderModel| enc_folder(f)
}

/// `parse_folder` as a value.
pub open spec fn folder_parse() -> spec_fn(Seq<u8>) -> Parsed<FolderModel> {
    |b: Seq<u8>| parse_folder(b)
}

/// A file reads back from its bytes, whatever follows them.
pub proof fn lemma_file(f: FileModel, rest: Seq<u8>)
    requires
        file_fits(f),
    ensures
        parse_file(enc_file(f) + rest) == Some((f, rest)),
        enc_file(f).len() > 0,
{
    let b = enc_bytes(f.extension);
    let c = enc_bytes(f.content);
    lemma_parse_u64(f.filename.len() as u64, Seq::empty());
    lemma_parse_bytes(f.filename, b + (c + rest));
    lemma_parse_bytes(f.extension, c + rest);
    lemma_parse_bytes(f.content, rest);
    assert(enc_file(f) + rest =~= enc_bytes(f.filename) + (b + (c + rest)));
}

/// A field reads back from its bytes, whatever follows them.
pub proof fn lemma_field(p: (Seq<char>, Seq<char>), rest: Seq<u8>)
    requires
        field_fits(p),
    ensures
        parse_field(enc_field(p) + rest) == Some((p, rest)),
        enc_field(p).len() > 0,
{
    lemma_parse_u64(encode_utf8(p.0).len() as u64, Seq::empty());
    lemma_parse_str(p.0, enc_str(p.1) + rest);
    lemma_parse_str(p.1, rest);
    assert(enc_field(p) + rest =~= enc_str(p.0) + (enc_str(p.1) + rest));
}

/// A valid record reads back from its bytes, whatever follows them.
#[verifier::rlimit(50)]
pub proof fn lemma_record(r: RecordModel, rest: Seq<u8>)
    requires
        record_valid(r),
    ensures
        parse_record(enc_record(r) + rest) == Some((r, rest)),
        enc_record(r).len() > 0,
{
    assert forall|i: int| 0 <= i < r.fields.len() implies inverts(
        #[trigger] r.fields[i],
        field_enc(),
        field_parse(),
    ) by {
        let p = r.fields[i];
        lemma_field(p, Seq::empty());
        assert forall|tail: Seq<u8>| #[trigger]
            field_parse()(field_enc()(p) + tail) == Some((p, tail)) by {
            lemma_field(p, tail);
        }
    }
    match r.files {
        Some(files) => {
            assert forall|i: int| 0 <= i < files.len() implies inverts(
                #[trigger] files[i],
                file_enc(),
                file_parse(),
            ) by {
                let f = files[i];
                lemma_file(f, Seq::empty());
                assert forall|tail: Seq<u8>| #[trigger]
                    file_parse()(file_enc()(f) + tail) == Some((f, tail)) by {
                    lemma_file(f, tail);
                }
            }
            let after = seq![1u8] + (enc_vec(files, file_enc()) + rest);
            lemma_parse_vec(r.fields, field_enc(), field_parse(), after);
            lemma_parse_tag(1u8, enc_vec(files, file_enc()) + rest);
            lemma_parse_vec(files, file_enc(), file_parse(), rest);
            assert(enc_record(r) + rest =~= enc_vec(r.fields, field_enc()) + after);
        },
        None => {
            let after = seq![0u8] + rest;
            lemma_parse_vec(r.fields, field_enc(), field_parse(), after);
            lemma_parse_tag(0u8, rest);
            assert(enc_record(r) + rest =~= enc_vec(r.fields, field_enc()) + after);
        },
    }
}

proof fn lemma_enc_folders(folders: Seq<FolderModel>, n: nat)
    ensures
        enc_folders(folders, n) == enc_seq(folders, folder_enc(), n),
    decreases n,
{
    if n > 0 && n <= folders.len() {
        lemma_enc_folders(folders, (n - 1) as nat);
    }
}

proof fn lemma_parse_folders(b: Seq<u8>, n: nat, acc: Seq<FolderModel>)
    ensures
        parse_folders(b, n, acc) == parse_seq(b, n, acc, folder_parse()),
    decreases n,
{
    if n > 0 {
        match parse_folder(b) {
            Some((f, rest)) => {
                lemma_parse_folders(rest, (n - 1) as nat, acc.push(f));
            },
            None => {},
        }
    }
}

proof fn lemma_subfolders(subs: Seq<FolderModel>, tail: Seq<u8>)
    requires
        subs.len() <= u64::MAX,
        forall|i: int| 0 <= i < subs.len() ==> inverts(#[trigger] subs[i], folder_enc(), folder_parse()),
    ensures
        parse_folders(enc_folders(subs, subs.len()) + tail, subs.len(), Seq::empty()) == Some(
            (subs, tail),
        ),
{
    let body = enc_folders(subs, subs.len());
    lemma_parse_u64(subs.len() as u64, body + tail);
    lemma_enc_folders(subs, subs.len());
    lemma_parse_folders(body + tail, subs.len(), Seq::empty());
    lemma_parse_vec(subs, folder_enc(), folder_parse(), tail);
    assert(enc_vec(subs, folder_enc()) + tail =~= enc_u64(subs.len() as u64) + (body + tail));
}

#[verifier::rlimit(50)]
proof fn lemma_folder_frame(f: FolderModel, rest: Seq<u8>)
    requires
        folder_valid(f),
        match f.subfolders {
            Some(subs) => forall|tail: Seq<u8>|
                parse_folders(#[trigger] (enc_folders(subs, subs.len()) + tail), subs.len(), Seq::empty())
                    == Some((subs, tail)),
            None => true,
        },
    ensures
        parse_folder(enc_folder(f) + rest) == Some((f, rest)),
        enc_folder(f).len() > 0,
{
    assert forall|i: int| 0 <= i < f.records.len() implies inverts(
        #[trigger] f.records[i],
        record_enc(),
        record_parse(),
    ) by {
        let r = f.records[i];
        lemma_record(r, Seq::empty());
        assert forall|tail: Seq<u8>| #[trigger]
            record_parse()(record_enc()(r) + tail) == Some((r, tail)) by {
            lemma_record(r, tail);
        }
    }
    let name = enc_str(f.name) + rest;
    lemma_parse_str(f.name, rest);
    match f.subfolders {
        Some(subs) => {
            let body = enc_folders(subs, subs.len());
            let listed = enc_u64(subs.len() as u64) + (body + name);
            let after = seq![1u8] + listed;
            lemma_parse_vec(f.records, record_enc(), record_parse(), after);
            lemma_parse_tag(1u8, listed);
            lemma_parse_u64(subs.len() as u64, body + name);
            assert(parse_folders(body + name, subs.len(), Seq::empty()) == Some((subs, name)));
            assert(enc_folder(f) + rest =~= enc_vec(f.records, record_enc()) + after);
        },
        None => {
            let after = seq![0u8] + name;
            lemma_parse_vec(f.records, record_enc(), record_parse(), after);
            lemma_parse_tag(0u8, name);
            assert(enc_folder(f) + rest =~= enc_vec(f.records, record_enc()) + after);
        },
    }
}

/// A valid tree reads back from its bytes, whatever follows them.
pub proof fn lemma_folder(f: FolderModel, rest: Seq<u8>)
    requires
        folder_valid(f),
    ensures
        parse_folder(enc_folder(f) + rest) == Some((f, rest)),
        enc_folder(f).len() > 0,
    decreases f,
{
    match f.subfolders {
        Some(subs) => {
            assert forall|i: int| 0 <= i < subs.len() implies inverts(
                #[trigger] subs[i],
                folder_enc(),
                folder_parse(),
            ) by {
                let c = subs[i];
                lemma_folder(c, Seq::empty());
                assert forall|tail: Seq<u8>| #[trigger]
                    folder_parse()(folder_enc()(c) + tail) == Some((c, tail)) by {
                    lemma_folder(c, tail);
                }
            }
            assert forall|tail: Seq<u8>|
                parse_folders(#[trigger] (enc_folders(subs, subs.len()) + tail), subs.len(), Seq::empty())
                    == Some((subs, tail)) by {
                lemma_subfolders(subs, tail);
            }
        },
        None => {},
    }
    lemma_folder_frame(f, rest);
}

/// Reading what was written gives the tree back: for every valid tree,
/// the bytes of its layout hold exactly that tree, absent and empty
/// sequences and raw file bytes included.
pub proof fn lemma_decode_encode(m: FolderModel)
    requires
        folder_valid(m),
    ensures
        decoded(enc_folder(m)) == Some(m),
{
    lemma_folder(m, Seq::empty());
    assert(enc_folder(m) + Seq::<u8>::empty() =~= enc_folder(m));
}

/// The layout loses nothing: two valid trees with the same bytes are the
/// same tree.
pub proof fn lemma_encoding_injective(a: FolderModel, b: FolderModel)
    requires
        folder_valid(a),
        folder_valid(b),
        enc_folder(a) == enc_folder(b),
    ensures
        a == b,
{
    lemma_decode_encode(a);
    lemma_decode_encode(b);
}

fn put_file(out: &mut Vec<u8>, f: &RecordFile)
    ensures
        final(out)@ == old(out)@ + enc_file(f@),
        file_fits(f@),
{
    put_bytes(out, f.filename.as_slice());
    put_bytes(out, f.extension.as_slice());
    put_bytes(out, f.content.as_slice());
    assert(out@ =~= old(out)@ + enc_file(f@));
}

fn put_files(out: &mut Vec<u8>, files: &Vec<RecordFile>)
    ensures
        final(out)@ == old(out)@ + enc_vec(files_view(files@), file_enc()),
        files@.len() <= u64::MAX,
        forall|i: int| 0 <= i < files@.len() ==> file_fits(#[trigger] files_view(files@)[i]),
{
    put_u64(out, files.len() as u64);
    let ghost head = out@;
    let ghost items = files_view(files@);
    let mut i: usize = 0;
    while i < files.len()
        invariant
            i <= files.len(),
            items == files_view(files@),
            out@ == head + enc_seq(items, file_enc(), i as nat),
            forall|k: int| 0 <= k < i ==> file_fits(#[trigger] items[k]),
        decreases files.len() - i,
    {
        put_file(out, &files[i]);
        assert(out@ =~= head + enc_seq(items, file_enc(), (i + 1) as nat));
        i += 1;
    }
    assert(out@ =~= old(out)@ + enc_vec(items, file_enc()));
}

fn put_fields(out: &mut Vec<u8>, fields: &Vec<(String, String)>)
    ensures
        final(out)@ == old(out)@ + enc_vec(fields_view(fields@), field_enc()),
        fields@.len() <= u64::MAX,
        forall|i: int| 0 <= i < fields@.len() ==> field_fits(#[trigger] fields_view(fields@)[i]),
{
    put_u64(out, fields.len() as u64);
    let ghost head = out@;
    let ghost items = fields_view(fields@);
    let mut i: usize = 0;
    while i < fields.len()
        invariant
            i <= fields.len(),
            items == fields_view(fields@),
            out@ == head + enc_seq(items, field_enc(), i as nat),
            forall|k: int| 0 <= k < i ==> field_fits(#[trigger] items[k]),
        decreases fields.len() - i,
    {
        let ghost before = out@;
        put_str(out, fields[i].0.as_str());
        put_str(out, fields[i].1.as_str());
        assert(out@ =~= before + enc_field(items[i as int]));
        assert(out@ =~= head + enc_seq(items, field_enc(), (i + 1) as nat));
        i += 1;
    }
    assert(out@ =~= old(out)@ + enc_vec(items, field_enc()));
}

fn put_record(out: &mut Vec<u8>, r: &Record)
    ensures
        final(out)@ == old(out)@ + enc_record(r@),
        record_fits(r@),
{
    put_fields(out, &r.fields);
    match &r.files {
        Some(files) => {
            out.push(1u8);
            put_files(out, files);
            assert(out@ =~= old(out)@ + enc_record(r@));
        },
        None => {
            out.push(0u8);
            assert(out@ =~= old(out)@ + enc_record(r@));
        },
    }
}

fn put_records(out: &mut Vec<u8>, records: &Vec<Record>)
    ensures
        final(out)@ == old(out)@ + enc_vec(records_view(records@), record_enc()),
        records@.len() <= u64::MAX,
        forall|i: int| 0 <= i < records@.len() ==> record_fits(#[trigger] records_view(records@)[i]),
{
    put_u64(out, records.len() as u64);
    let ghost head = out@;
    let ghost items = records_view(records@);
    let mut i: usize = 0;
    while i < records.len()
        invariant
            i <= records.len(),
            items == records_view(records@),
            out@ == head + enc_seq(items, record_enc(), i as nat),
            forall|k: int| 0 <= k < i ==> record_fits(#[trigger] items[k]),
        decreases records.len() - i,
    {
        put_record(out, &records[i]);
        assert(out@ =~= head + enc_seq(items, record_enc(), (i + 1) as nat));
        i += 1;
    }
    assert(out@ =~= old(out)@ + enc_vec(items, record_enc()));
}

#[verifier::rlimit(50)]
fn put_folder(out: &mut Vec<u8>, f: &Folder)
    ensures
        final(out)@ == old(out)@ + enc_folder(f@),
        folder_fits(f@),
    decreases f,
{
    proof {
        lemma_folder_view(*f);
    }
    put_records(out, &f.records);
    match &f.subfolders {
        Some(subs) => {
            out.push(1u8);
            put_u64(out, subs.len() as u64);
            let ghost head = out@;
            let ghost items = folders_view(subs@);
            let mut i: usize = 0;
            while i < subs.len()
                invariant
                    i <= subs.len(),
                    f.subfolders == Some(*subs),
                    items == folders_view(subs@),
                    out@ == head + enc_folders(items, i as nat),
                    forall|k: int| 0 <= k < i ==> folder_fits(#[trigger] items[k]),
                decreases subs.len() - i,
            {
                proof {
                    assert(decreases_to!(f.subfolders => f.subfolders->0));
                    assert(decreases_to!(subs@ => subs@[i as int]));
                }
                put_folder(out, &subs[i]);
                assert(out@ =~= head + enc_folders(items, (i + 1) as nat));
                i += 1;
            }
            put_str(out, f.name.as_str());
            assert(out@ =~= old(out)@ + enc_folder(f@));
        },
        None => {
            out.push(0u8);
            put_str(out, f.name.as_str());
            assert(out@ =~= old(out)@ + enc_folder(f@));
        },
    }
}

/// Writes the tree in the container layout. The bytes of a tree whose
/// records name no field twice hold exactly that tree.
pub fn encode(folder: &Folder) -> (bytes: Vec<u8>)
    ensures
        bytes@ == enc_folder(folder@),
        folder_fits(folder@),
        folder@.wf() ==> decoded(bytes@) == Some(folder@),
{
    let mut out: Vec<u8> = Vec::new();
    put_folder(&mut out, folder);
    assert(out@ =~= enc_folder(folder@));
    proof {
        if folder@.wf() {
            lemma_decode_encode(folder@);
        }
    }
    out
}

fn take_file(bytes: &[u8], pos: usize) -> (r: Option<(RecordFile, usize)>)
    requires
        pos <= bytes.len(),
    ensures
        match r {
            Some((x, next)) => pos < next <= bytes.len() && parse_file(bytes@.skip(pos as int))
                == Some((x@, bytes@.skip(next as int))),
            None => parse_file(bytes@.skip(pos as int)) is None,
        },
{
    let (filename, at1) = match take_bytes(bytes, pos) {
        Some(p) => p,
        None => { return None; },
    };
    let (extension, at2) = match take_bytes(bytes, at1) {
        Some(p) => p,
        None => { return None; },
    };
    let (content, at3) = match take_bytes(bytes, at2) {
        Some(p) => p,
        None => { return None; },
    };
    Some((RecordFile { filename, extension, content }, at3))
}

fn take_field(bytes: &[u8], pos: usize) -> (r: Option<((String, String), usize)>)
    requires
        pos <= bytes.len(),
    ensures
        match r {
            Some((x, next)) => pos < next <= bytes.len() && parse_field(bytes@.skip(pos as int))
                == Some(((x.0@, x.1@), bytes@.skip(next as int))),
            None => parse_field(bytes@.skip(pos as int)) is None,
        },
{
    let (name, at1) = match take_str(bytes, pos) {
        Some(p) => p,
        None => { return None; },
    };
    let (value, at2) = match take_str(bytes, at1) {
        Some(p) => p,
        None => { return None; },
    };
    Some(((name, value), at2))
}

fn take_files(bytes: &[u8], pos: usize) -> (r: Option<(Vec<RecordFile>, usize)>)
    requires
        pos <= bytes.len(),
    ensures
        match r {
            Some((x, next)) => pos < next <= bytes.len() && parse_vec(
                bytes@.skip(pos as int),
                file_parse(),
            ) == Some((files_view(x@), bytes@.skip(next as int))),
            None => parse_vec(bytes@.skip(pos as int), file_parse()) is None,
        },
{
    let (n, start) = match take_u64(bytes, pos) {
        Some(p) => p,
        None => { return None; },
    };
    let ghost whole = parse_vec(bytes@.skip(pos as int), file_parse());
    let mut items: Vec<RecordFile> = Vec::new();
    let mut at: usize = start;
    let mut i: u64 = 0;
    assert(files_view(items@) =~= Seq::empty());
    while i < n
        invariant
            i <= n,
            start <= at <= bytes.len(),
            whole == parse_vec(bytes@.skip(pos as int), file_parse()),
            parse_seq(
                bytes@.skip(at as int),
                (n - i) as nat,
                files_view(items@),
                file_parse(),
            ) == whole,
        decreases n - i,
    {
        let ghost before = files_view(items@);
        assert(file_parse()(bytes@.skip(at as int)) == parse_file(bytes@.skip(at as int)));
        match take_file(bytes, at) {
            Some((x, next)) => {
                items.push(x);
                assert(files_view(items@) =~= before.push(x@));
                at = next;
            },
            None => { return None; },
        }
        i += 1;
    }
    Some((items, at))
}

fn take_fields(bytes: &[u8], pos: usize) -> (r: Option<(Vec<(String, String)>, usize)>)
    requires
        pos <= bytes.len(),
    ensures
        match r {
            Some((x, next)) => pos < next <= bytes.len() && parse_vec(
                bytes@.skip(pos as int),
                field_parse(),
            ) == Some((fields_view(x@), bytes@.skip(next as int))),
            None => parse_vec(bytes@.skip(pos as int), field_parse()) is None,
        },
{
    let (n, start) = match take_u64(bytes, pos) {
        Some(p) => p,
        None => { return None; },
    };
    let ghost whole = parse_vec(bytes@.skip(pos as int), field_parse());
    let mut items: Vec<(String, String)> = Vec::new();
    let mut at: usize = start;
    let mut i: u64 = 0;
    assert(fields_view(items@) =~= Seq::empty());
    while i < n
        invariant
            i <= n,
            start <= at <= bytes.len(),
            whole == parse_vec(bytes@.skip(pos as int), field_parse()),
            parse_seq(
                bytes@.skip(at as int),
                (n - i) as nat,
                fields_view(items@),
                field_parse(),
            ) == whole,
        decreases n - i,
    {
        let ghost before = fields_view(items@);
        assert(field_parse()(bytes@.skip(at as int)) == parse_field(bytes@.skip(at as int)));
        match take_field(bytes, at) {
            Some((x, next)) => {
                let ghost pair = (x.0@, x.1@);
                items.push(x);
                assert(fields_view(items@) =~= before.push(pair));
                at = next;
            },
            None => { return None; },
        }
        i += 1;
    }
    Some((items, at))
}

/// Whether no two of the fields share a name.
pub fn keys_distinct(fields: &Vec<(String, String)>) -> (b: bool)
    ensures
        b == distinct_keys(fields_view(fields@)),
{
    let ghost items = fields_view(fields@);
    let mut j: usize = 0;
    while j < fields.len()
        invariant
            j <= fields.len(),
            items == fields_view(fields@),
            forall|a: int, c: int|
                0 <= a < c < j ==> (#[trigger] items[a]).0 != (#[trigger] items[c]).0,
        decreases fields.len() - j,
    {
        let mut i: usize = 0;
        while i < j
            invariant
                i <= j < fields.len(),
                items == fields_view(fields@),
                forall|a: int| 0 <= a < i ==> (#[trigger] items[a]).0 != items[j as int].0,
            decreases j - i,
        {
            if fields[i].0 == fields[j].0 {
                assert(items[i as int].0 == items[j as int].0);
                return false;
            }
            i += 1;
        }
        j += 1;
    }
    true
}

fn take_record(bytes: &[u8], pos: usize) -> (r: Option<(Record, usize)>)
    requires
        pos <= bytes.len(),
    ensures
        match r {
            Some((x, next)) => pos < next <= bytes.len() && parse_record(bytes@.skip(pos as int))
                == Some((x@, bytes@.skip(next as int))) && x@.wf(),
            None => parse_record(bytes@.skip(pos as int)) is None,
        },
{
    let (fields, at1) = match take_fields(bytes, pos) {
        Some(p) => p,
        None => { return None; },
    };
    if !keys_distinct(&fields) {
        return None;
    }
    let (tag, at2) = match take_tag(bytes, at1) {
        Some(p) => p,
        None => { return None; },
    };
    if tag == 0 {
        Some((Record { fields, files: None }, at2))
    } else if tag == 1 {
        match take_files(bytes, at2) {
            Some((files, at3)) => Some((Record { fields, files: Some(files) }, at3)),
            None => None,
        }
    } else {
        None
    }
}

fn take_records(bytes: &[u8], pos: usize) -> (r: Option<(Vec<Record>, usize)>)
    requires
        pos <= bytes.len(),
    ensures
        match r {
            Some((x, next)) => pos < next <= bytes.len() && parse_vec(
                bytes@.skip(pos as int),
                record_parse(),
            ) == Some((records_view(x@), bytes@.skip(next as int))) && forall|k: int|
                0 <= k < x@.len() ==> (#[trigger] records_view(x@)[k]).wf(),
            None => parse_vec(bytes@.skip(pos as int), record_parse()) is None,
        },
{
    let (n, start) = match take_u64(bytes, pos) {
        Some(p) => p,
        None => { return None; },
    };
    let ghost whole = parse_vec(bytes@.skip(pos as int), record_parse());
    let mut items: Vec<Record> = Vec::new();
    let mut at: usize = start;
    let mut i: u64 = 0;
    assert(records_view(items@) =~= Seq::empty());
    while i < n
        invariant
            i <= n,
            start <= at <= bytes.len(),
            whole == parse_vec(bytes@.skip(pos as int), record_parse()),
            forall|k: int| 0 <= k < items@.len() ==> (#[trigger] records_view(items@)[k]).wf(),
            parse_seq(
                bytes@.skip(at as int),
                (n - i) as nat,
                records_view(items@),
                record_parse(),
            ) == whole,
        decreases n - i,
    {
        let ghost before = records_view(items@);
        assert(record_parse()(bytes@.skip(at as int)) == parse_record(bytes@.skip(at as int)));
        match take_record(bytes, at) {
            Some((x, next)) => {
                items.push(x);
                assert(records_view(items@) =~= before.push(x@));
                at = next;
            },
            None => { return None; },
        }
        i += 1;
    }
    Some((items, at))
}

#[verifier::rlimit(50)]
fn take_folder(bytes: &[u8], pos: usize) -> (r: Option<(Folder, usize)>)
    requires
        pos <= bytes.len(),
    ensures
        match r {
            Some((x, next)) => pos < next <= bytes.len() && parse_folder(bytes@.skip(pos as int))
                == Some((x@, bytes@.skip(next as int))) && x@.wf(),
            None => parse_folder(bytes@.skip(pos as int)) is None,
        },
    decreases bytes.len() - pos,
{
    let (records, at1) = match take_records(bytes, pos) {
        Some(p) => p,
        None => { return None; },
    };
    let (tag, at2) = match take_tag(bytes, at1) {
        Some(p) => p,
        None => { return None; },
    };
    if tag == 0 {
        let (name, at3) = match take_str(bytes, at2) {
            Some(p) => p,
            None => { return None; },
        };
        let folder = Folder { records, subfolders: None, name };
        proof {
            lemma_folder_view(folder);
        }
        Some((folder, at3))
    } else if tag == 1 {
        let (n, start) = match take_u64(bytes, at2) {
            Some(p) => p,
            None => { return None; },
        };
        let ghost whole = parse_folders(bytes@.skip(start as int), n as nat, Seq::empty());
        let ghost recs = records_view(records@);
        let ghost outcome = match whole {
            Some((subs, r4)) => match parse_str(r4) {
                Some((name, r5)) => Some(
                    (FolderModel { records: recs, subfolders: Some(subs), name }, r5),
                ),
                None => None,
            },
            None => None,
        };
        assert(parse_folder(bytes@.skip(pos as int)) == outcome);
        let mut items: Vec<Folder> = Vec::new();
        let mut at: usize = start;
        let mut i: u64 = 0;
        assert(folders_view(items@) =~= Seq::empty());
        while i < n
            invariant
                i <= n,
                pos < start <= at <= bytes.len(),
                parse_folder(bytes@.skip(pos as int)) == outcome,
                outcome == match whole {
                    Some((subs, r4)) => match parse_str(r4) {
                        Some((name, r5)) => Some(
                            (FolderModel { records: recs, subfolders: Some(subs), name }, r5),
                        ),
                        None => None,
                    },
                    None => None,
                },
                recs == records_view(records@),
                forall|k: int| 0 <= k < items@.len() ==> (#[trigger] folders_view(items@)[k]).wf(),
                parse_folders(bytes@.skip(at as int), (n - i) as nat, folders_view(items@))
                    == whole,
            decreases n - i,
        {
            let ghost before = folders_view(items@);
            match take_folder(bytes, at) {
                Some((x, next)) => {
                    items.push(x);
                    assert(folders_view(items@) =~= before.push(x@));
                    at = next;
                },
                None => { return None; },
            }
            i += 1;
        }
        let (name, at4) = match take_str(bytes, at) {
            Some(p) => p,
            None => { return None; },
        };
        let folder = Folder { records, subfolders: Some(items), name };
        proof {
            lemma_folder_view(folder);
        }
        Some((folder, at4))
    } else {
        None
    }
}

/// Reads a tree from bytes that are exactly its layout: bytes cut short,
/// framed inconsistently or followed by anything else are refused, and so
/// is a record that names a field twice.
pub fn decode(bytes: &[u8]) -> (r: Result<Folder, SerializationError>)
    ensures
        match r {
            Ok(folder) => decoded(bytes@) == Some(folder@) && folder@.wf(),
            Err(_) => decoded(bytes@) is None,
        },
{
    assert(bytes@.skip(0) =~= bytes@);
    match take_folder(bytes, 0) {
        Some((folder, next)) => {
            if next == bytes.len() {
                Ok(folder)
            } else {
                Err(SerializationError)
            }
        },
        None => Err(SerializationError),
    }
}

} // verus!
