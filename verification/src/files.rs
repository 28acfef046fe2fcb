//! The file store's data model: upload results, listings, deletions.
//!
//! The transport lives outside the library; what stands here are the plain
//! record types and the verified readers that turn the store's JSON replies
//! into them.

use vstd::assert_by_contradiction;
use vstd::prelude::*;
use vstd::string::StringExecFns;

use crate::batch::{field, field_str, str_or_empty};
use crate::chat_completions::OpenAiError;
use crate::json::{view_list, Json, JsonV};
use crate::json::lemma_view_list;

verus! {

/// What an uploaded file is for.
#[derive(Debug, Clone, Copy, PartialEq, Eq, Structural)]
pub enum FilePurpose {
    /// Fine-tuning input.
    FineTune,
    /// Assistant attachments.
    Assistants,
    /// Batch job content.
    Batch,
    /// User data.
    UserData,
    /// Vision input.
    Vision,
    /// Evaluation input.
    Evals,
}

impl FilePurpose {
    /// The purpose's name on the wire.
    pub fn wire_name(&self) -> (r: String)
        ensures
            r@ == (match *self {
                FilePurpose::FineTune => "fine-tune"@,
                FilePurpose::Assistants => "assistants"@,
                FilePurpose::Batch => "batch"@,
                FilePurpose::UserData => "user_data"@,
                FilePurpose::Vision => "vision"@,
                FilePurpose::Evals => "evals"@,
            }),
    {
        match self {
            FilePurpose::FineTune => String::from_str("fine-tune"),
            FilePurpose::Assistants => String::from_str("assistants"),
            FilePurpose::Batch => String::from_str("batch"),
            FilePurpose::UserData => String::from_str("user_data"),
            FilePurpose::Vision => String::from_str("vision"),
            FilePurpose::Evals => String::from_str("evals"),
        }
    }
}

/// A stored file, as the store describes it. Parsing requires the
/// identifier; other fields default when absent or ill-typed.
#[derive(Debug)]
pub struct FileObject {
    /// The file's identifier.
    pub id: String,
    /// The object tag, `file`.
    pub object: String,
    /// The file's size in bytes.
    pub bytes: u64,
    /// When the file was created, in seconds.
    pub created_at: u64,
    /// The name the file was uploaded under.
    pub filename: String,
    /// What the file is for.
    pub purpose: String,
}

/// A listing of stored files.
#[derive(Debug)]
pub struct FileList {
    /// The listed files.
    pub data: Vec<FileObject>,
    /// The object tag, `list`.
    pub object: String,
}

/// The acknowledgement of a deletion.
#[derive(Debug)]
pub struct DeletedFile {
    /// The deleted file's identifier.
    pub id: String,
    /// The object tag, `file`.
    pub object: String,
    /// Whether the file was deleted.
    pub deleted: bool,
}

/// Errors of the file store.
#[derive(Debug)]
pub enum FilesError {
    /// The transport failed; holds its report.
    RequestError(String),
    /// The store's reply could not be read; holds the reply and a report.
    ApiParseError(String, String),
    /// The store reported an error.
    ApiError(OpenAiError),
    /// Reading a local file failed; holds the report.
    IoError(String),
    /// The given path has no usable file name.
    InvalidFilePath,
}

/// Every element is a readable file record.
pub open spec fn file_objects_ok(l: Seq<JsonV>) -> bool
    decreases l.len(),
{
    if l.len() == 0 {
        true
    } else {
        file_objects_ok(l.drop_last()) && file_object_ok(l.last())
    }
}

/// A readable file listing: a `data` array whose every element is a
/// readable file record.
pub open spec fn file_list_ok(j: JsonV) -> bool {
    match field(j, "data"@) {
        Some(JsonV::Arr(l)) => file_objects_ok(l),
        _ => false,
    }
}

/// Element-wise readings of a readable list.
pub proof fn lemma_file_objects_ok_elt(l: Seq<JsonV>, i: int)
    requires
        file_objects_ok(l),
        0 <= i < l.len(),
    ensures
        file_object_ok(l[i]),
    decreases l.len(),
{
    if i == l.len() - 1 {
        assert(l.last() == l[i]);
    } else {
        lemma_file_objects_ok_elt(l.drop_last(), i);
        assert(l.drop_last()[i] == l[i]);
    }
}

/// A list of readable records is a readable list.
pub proof fn lemma_file_objects_ok_all(l: Seq<JsonV>)
    requires
        forall|i: int| 0 <= i < l.len() ==> file_object_ok(#[trigger] l[i]),
    ensures
        file_objects_ok(l),
    decreases l.len(),
{
    if l.len() != 0 {
        assert(forall|i: int| 0 <= i < l.drop_last().len() ==> #[trigger] l.drop_last()[i] == l[i]);
        lemma_file_objects_ok_all(l.drop_last());
        assert(l[l.len() - 1] == l.last());
    }
}

/// A readable file record: an `id` string.
pub open spec fn file_object_ok(j: JsonV) -> bool {
    field_str(j, "id"@) is Some
}

/// What a parsed file record's fields are, given its JSON form.
pub open spec fn file_object_matches(j: JsonV, f: FileObject) -> bool {
    &&& field_str(j, "id"@) == Some(f.id@)
    &&& f.object@ == str_or_empty(field_str(j, "object"@))
    &&& f.filename@ == str_or_empty(field_str(j, "filename"@))
    &&& f.purpose@ == str_or_empty(field_str(j, "purpose"@))
}

/// Reads a file record out of a JSON value.
pub fn parse_file_object(j: &Json) -> (r: Option<FileObject>)
    ensures
        r is Some <==> file_object_ok(j@),
        r matches Some(f) ==> file_object_matches(j@, f),
{
    let id = match crate::batch::field_opt_string(j, "id") {
        Some(s) => s,
        None => {
            return None;
        },
    };
    Some(
        FileObject {
            id,
            object: crate::batch::field_string_or_empty(j, "object"),
            bytes: crate::batch::field_u64_or_zero(j, "bytes"),
            created_at: crate::batch::field_u64_or_zero(j, "created_at"),
            filename: crate::batch::field_string_or_empty(j, "filename"),
            purpose: crate::batch::field_string_or_empty(j, "purpose"),
        },
    )
}

/// Reads a deletion acknowledgement out of a JSON value.
pub fn parse_deleted_file(j: &Json) -> (r: Option<DeletedFile>)
    ensures
        r is Some <==> (field_str(j@, "id"@) is Some && field(j@, "deleted"@) matches Some(
            JsonV::Bool(_),
        )),
        r matches Some(d) ==> field_str(j@, "id"@) == Some(d.id@) && field(j@, "deleted"@) == Some(
            JsonV::Bool(d.deleted),
        ) && d.object@ == str_or_empty(field_str(j@, "object"@)),
{
    let id = match crate::batch::field_opt_string(j, "id") {
        Some(s) => s,
        None => {
            return None;
        },
    };
    let deleted = match j.get("deleted") {
        Some(v) => match v {
            Json::Bool(b) => *b,
            _ => {
                return None;
            },
        },
        None => {
            return None;
        },
    };
    Some(DeletedFile { id, object: crate::batch::field_string_or_empty(j, "object"), deleted })
}

/// Reads a file listing out of a JSON value: every listed record must be
/// readable.
pub fn parse_file_list(j: &Json) -> (r: Option<FileList>)
    ensures
        r matches Some(fl) ==> {
            let l = (match field(j@, "data"@) {
                Some(JsonV::Arr(l)) => l,
                _ => Seq::empty(),
            });
            &&& field(j@, "data"@) matches Some(JsonV::Arr(_))
            &&& fl.data@.len() == l.len()
            &&& (forall|i: int|
                0 <= i < l.len() ==> file_object_matches(#[trigger] l[i], fl.data@[i]))
            &&& fl.object@ == str_or_empty(field_str(j@, "object"@))
        },
        r is Some <==> file_list_ok(j@),
{
    let arr = match j.get("data") {
        Some(v) => v,
        None => {
            return None;
        },
    };
    let items = match arr {
        Json::Arr(items) => items,
        _ => {
            return None;
        },
    };
    proof {
        lemma_view_list(items@);
    }
    let ghost l = view_list(items@);
    let n = items.len();
    let mut data: Vec<FileObject> = Vec::new();
    let mut i: usize = 0;
    while i < n
        invariant
            i <= n,
            n == items@.len(),
            l == view_list(items@),
            field(j@, "data"@) == Some(JsonV::Arr(l)),
            l.len() == n,
            forall|t: int| 0 <= t < n ==> #[trigger] l[t] == items@[t]@,
            data@.len() == i,
            forall|t: int| 0 <= t < i ==> file_object_matches(#[trigger] l[t], data@[t]),
            forall|t: int| 0 <= t < i ==> file_object_ok(#[trigger] l[t]),
        decreases n - i,
    {
        match parse_file_object(&items[i]) {
            Some(f) => {
                data.push(f);
            },
            None => {
                proof {
                    assert(!file_object_ok(l[i as int]));
                    assert(field(j@, "data"@) == Some(JsonV::Arr(l)));
                    assert_by_contradiction!(!file_list_ok(j@), {
                        lemma_file_objects_ok_elt(l, i as int);
                    });
                }
                return None;
            },
        }
        i = i + 1;
    }
    proof {
        lemma_file_objects_ok_all(l);
    }
    Some(FileList { data, object: crate::batch::field_string_or_empty(j, "object") })
}

} // verus!
