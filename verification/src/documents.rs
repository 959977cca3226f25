//! The JSON documents that the mount writes itself: messages of streams, and the files
//! that describe the mount.

use vstd::prelude::*;
use vstd::utf8::{decode_utf8, encode_utf8, valid_utf8};

use crate::json::{document_complaint, document_error};
use crate::jsonl::copy_bytes;
use crate::path::{MetadataFile, ROOT_DIRECTORIES};
use crate::text::{join, join_text, string_texts, texts, Text};
use crate::upkeep::{errors_with, with_errors};

verus! {

/// A value of a field.
pub enum FieldValue<S = String, L = Vec<String>> {
    Text(S),
    Flag(bool),
    Number(u64),
    Texts(L),
}

/// The model of a value of a field.
pub type FieldModel = FieldValue<Text, Seq<Text>>;

impl View for FieldValue<String, Vec<String>> {
    type V = FieldModel;

    open spec fn view(&self) -> FieldModel {
        match *self {
            FieldValue::Text(text) => FieldValue::Text(text@),
            FieldValue::Flag(flag) => FieldValue::Flag(flag),
            FieldValue::Number(number) => FieldValue::Number(number),
            FieldValue::Texts(texts) => FieldValue::Texts(string_texts(texts@)),
        }
    }
}

/// A field of a JSON object.
pub struct Field {
    pub name: String,
    pub value: FieldValue,
}

/// The models of fields.
pub open spec fn field_models(fields: Seq<Field>) -> Seq<(Text, FieldModel)> {
    fields.map_values(|field: Field| (field.name@, field.value@))
}

// ---------------------------------------------------------------------------
// Rendering
// ---------------------------------------------------------------------------

/// What `String::from_utf8_lossy` makes of bytes.
pub uninterp spec fn lossy(bytes: Seq<u8>) -> Seq<char>;

/// What `serde_json::to_vec` makes of a string.
pub uninterp spec fn json_string_bytes(text: Seq<char>) -> Seq<u8>;

/// What `serde_json::to_vec_pretty` makes of the object with the given fields and one
/// more, whose value is a JSON document, or the text of the error.
pub uninterp spec fn document_rendering(
    fields: Seq<(Seq<char>, FieldModel)>,
    name: Seq<char>,
    document: Seq<u8>,
) -> Result<Seq<u8>, Seq<char>>;

/// The text of the `serde_json::Value` that is the object with the given fields.
pub uninterp spec fn object_rendering(fields: Seq<(Seq<char>, FieldModel)>) -> Seq<char>;

/// `String::from_utf8_lossy`: the text that the bytes encode. Bytes that encode none
/// are replaced; what by is left to the standard library, and is a function of the
/// bytes.
#[verifier::external_body]
fn lossy_text(bytes: &[u8]) -> (text: String)
    ensures
        text@ == lossy(bytes@),
        valid_utf8(bytes@) ==> text@ == decode_utf8(bytes@),
{
    String::from_utf8_lossy(bytes).into_owned()
}

/// `serde_json::to_vec` of a string, which is a function of the string.
#[verifier::external_body]
fn json_string(text: &str) -> (bytes: Vec<u8>)
    ensures
        bytes@ == json_string_bytes(text@),
{
    serde_json::to_vec(text).unwrap_or_default()
}

/// `serde_json::to_vec_pretty` of an object with the given fields and one more, whose
/// value is what `serde_json::from_slice` reads; where a name occurs twice its last
/// value counts. The bytes, or the text of the error, are a function of the arguments.
#[verifier::external_body]
fn object_document(fields: &Vec<Field>, name: &str, document: &[u8]) -> (result: Result<
    Vec<u8>,
    String,
>)
    ensures
        match result {
            Ok(bytes) => document_rendering(field_models(fields@), name@, document@) == Ok::<
                Seq<u8>,
                Seq<char>,
            >(bytes@),
            Err(message) => document_rendering(field_models(fields@), name@, document@) == Err::<
                Seq<u8>,
                Seq<char>,
            >(message@),
        },
{
    let mut object = serde_json::Map::new();
    for field in fields {
        let value = match &field.value {
            FieldValue::Text(text) => serde_json::Value::from(text.as_str()),
            FieldValue::Flag(flag) => serde_json::Value::from(*flag),
            FieldValue::Number(number) => serde_json::Value::from(*number),
            FieldValue::Texts(texts) => serde_json::Value::from(texts.clone()),
        };
        object.insert(field.name.clone(), value);
    }
    let value = serde_json::from_slice(document).map_err(|error| error.to_string())?;
    object.insert(name.to_owned(), value);
    serde_json::to_vec_pretty(&object).map_err(|error| error.to_string())
}

/// The text of a `serde_json::Value` that is an object with the given fields; where a
/// name occurs twice its last value counts. The text is a function of the fields.
#[verifier::external_body]
fn object_text(fields: &Vec<Field>) -> (text: String)
    ensures
        text@ == object_rendering(field_models(fields@)),
{
    let mut object = serde_json::Map::new();
    for field in fields {
        let value = match &field.value {
            FieldValue::Text(text) => serde_json::Value::from(text.as_str()),
            FieldValue::Flag(flag) => serde_json::Value::from(*flag),
            FieldValue::Number(number) => serde_json::Value::from(*number),
            FieldValue::Texts(texts) => serde_json::Value::from(texts.clone()),
        };
        object.insert(field.name.clone(), value);
    }
    serde_json::Value::Object(object).to_string()
}

// ---------------------------------------------------------------------------
// Messages
// ---------------------------------------------------------------------------

/// A payload as JSON: itself if it is a document, and otherwise the string of its
/// text.
pub open spec fn payload_json(payload: Seq<u8>) -> Seq<u8> {
    if document_complaint(payload) is None {
        payload
    } else {
        json_string_bytes(lossy(payload))
    }
}

/// The fields of a message beside its payload.
pub open spec fn message_fields(stream: Text, sequence: u64, subject: Text) -> Seq<
    (Text, FieldModel),
> {
    seq![
        ("stream"@, FieldValue::Text(stream)),
        ("sequence"@, FieldValue::Number(sequence)),
        ("subject"@, FieldValue::Text(subject)),
    ]
}

/// The object with a message's stream, sequence number and subject, and with its
/// payload as JSON.
pub open spec fn message_rendering(
    stream: Text,
    sequence: u64,
    subject: Text,
    payload: Seq<u8>,
) -> Result<Seq<u8>, Text> {
    document_rendering(message_fields(stream, sequence, subject), "payload"@, payload)
}

/// The file of a message: its stream, sequence number, subject and payload.
pub fn render_message(stream: &str, sequence: u64, subject: &str, payload: &[u8]) -> (result: Result<
    Vec<u8>,
    String,
>)
    ensures
        match result {
            Ok(bytes) => message_rendering(stream@, sequence, subject@, payload_json(payload@))
                == Ok::<Seq<u8>, Seq<char>>(bytes@),
            Err(message) => message_rendering(stream@, sequence, subject@, payload_json(payload@))
                == Err::<Seq<u8>, Seq<char>>(message@),
        },
{
    let fields = vec![
        text_field("stream", stream),
        number_field("sequence", sequence),
        text_field("subject", subject),
    ];
    assert(field_models(fields@) =~= message_fields(stream@, sequence, subject@));
    if document_error(payload).is_none() {
        object_document(&fields, "payload", payload)
    } else {
        let text = lossy_text(payload);
        let json = json_string(text.as_str());
        object_document(&fields, "payload", json.as_slice())
    }
}

// ---------------------------------------------------------------------------
// The mount's own files
// ---------------------------------------------------------------------------

/// What the mount's own files report.
pub struct MountStatus {
    pub mount_name: String,
    pub writes_blocked: bool,
    pub queue_pending: u64,
    pub path_entries: u64,
    pub cached_files: u64,
    pub cache_generation: u64,
    /// The writeback queue as a JSON document.
    pub queue_document: String,
    pub recent_errors: Vec<String>,
}

/// The fields of `status.json`.
pub open spec fn status_fields(status: MountStatus) -> Seq<(Text, FieldModel)> {
    seq![
        ("mount_name"@, FieldValue::Text(status.mount_name@)),
        (
            "state"@,
            FieldValue::Text(
                if status.writes_blocked {
                    "read_only"@
                } else {
                    "mounted"@
                },
            ),
        ),
        ("writes_blocked"@, FieldValue::Flag(status.writes_blocked)),
        ("queue_pending"@, FieldValue::Number(status.queue_pending)),
    ]
}

/// The fields of `cache.json`.
pub open spec fn cache_fields(status: MountStatus) -> Seq<(Text, FieldModel)> {
    seq![
        ("path_entries"@, FieldValue::Number(status.path_entries)),
        ("entries"@, FieldValue::Number(status.cached_files)),
        ("generation"@, FieldValue::Number(status.cache_generation)),
    ]
}

/// The fields of `capabilities.json`.
pub open spec fn capability_fields() -> Seq<(Text, FieldModel)> {
    seq![
        (
            "roots"@,
            FieldValue::Texts(ROOT_DIRECTORIES@.map_values(|name: &'static str| name@)),
        ),
        ("kv_history"@, FieldValue::Flag(true)),
        ("stream_messages_read_only"@, FieldValue::Flag(true)),
        ("jsonl_publish"@, FieldValue::Flag(true)),
        ("object_store"@, FieldValue::Flag(true)),
        ("writeback_queue"@, FieldValue::Flag(true)),
    ]
}

/// The lines of `errors.jsonl`.
pub open spec fn error_lines(errors: Seq<Text>) -> Seq<Text> {
    errors.map_values(
        |error: Text| object_rendering(seq![("error"@, FieldValue::Text(error))]),
    )
}

/// The content of one of the mount's own files, with the errors that are kept by now.
pub open spec fn metadata_document(
    status: MountStatus,
    errors: Seq<Text>,
    file: MetadataFile,
) -> Seq<u8> {
    encode_utf8(
        match file {
            MetadataFile::Status => object_rendering(status_fields(status)),
            MetadataFile::Cache => object_rendering(cache_fields(status)),
            MetadataFile::Queue => status.queue_document@,
            MetadataFile::Capabilities => object_rendering(capability_fields()),
            MetadataFile::Errors => join(error_lines(errors), '\n'),
        },
    )
}

fn text_field(name: &str, value: &str) -> (field: Field)
    ensures
        (field.name@, field.value@) == (name@, FieldValue::<Text, Seq<Text>>::Text(value@)),
{
    Field { name: name.to_owned(), value: FieldValue::Text(value.to_owned()) }
}

fn flag_field(name: &str, value: bool) -> (field: Field)
    ensures
        (field.name@, field.value@) == (name@, FieldValue::<Text, Seq<Text>>::Flag(value)),
{
    Field { name: name.to_owned(), value: FieldValue::Flag(value) }
}

fn number_field(name: &str, value: u64) -> (field: Field)
    ensures
        (field.name@, field.value@) == (name@, FieldValue::<Text, Seq<Text>>::Number(value)),
{
    Field { name: name.to_owned(), value: FieldValue::Number(value) }
}

fn root_names() -> (names: Vec<String>)
    ensures
        string_texts(names@) == ROOT_DIRECTORIES@.map_values(|name: &'static str| name@),
{
    let roots = ROOT_DIRECTORIES;
    let mut names: Vec<String> = Vec::new();
    let mut i: usize = 0;
    while i < roots.len()
        invariant
            i <= roots.len(),
            roots == ROOT_DIRECTORIES,
            names.len() == i,
            forall|k: int| 0 <= k < i ==> (#[trigger] names[k])@ == roots@[k]@,
        decreases roots.len() - i,
    {
        names.push(roots[i].to_owned());
        i += 1;
    }
    assert(string_texts(names@) =~= ROOT_DIRECTORIES@.map_values(|name: &'static str| name@));
    names
}

fn error_document(errors: &Vec<String>) -> (text: String)
    ensures
        text@ == join(error_lines(string_texts(errors@)), '\n'),
{
    let mut lines: Vec<String> = Vec::new();
    let mut i: usize = 0;
    while i < errors.len()
        invariant
            i <= errors.len(),
            lines.len() == i,
            forall|k: int|
                0 <= k < i ==> (#[trigger] lines[k])@ == error_lines(string_texts(errors@))[k],
        decreases errors.len() - i,
    {
        let fields = vec![text_field("error", errors[i].as_str())];
        assert(field_models(fields@) =~= seq![("error"@, FieldValue::Text(errors@[i as int]@))]);
        assert(string_texts(errors@)[i as int] == errors@[i as int]@);
        lines.push(object_text(&fields));
        i += 1;
    }
    let mut parts: Vec<&str> = Vec::new();
    let mut k: usize = 0;
    while k < lines.len()
        invariant
            k <= lines.len(),
            parts.len() == k,
            forall|n: int| 0 <= n < k ==> (#[trigger] parts[n])@ == lines[n]@,
        decreases lines.len() - k,
    {
        parts.push(lines[k].as_str());
        k += 1;
    }
    assert(texts(parts@) =~= error_lines(string_texts(errors@)));
    join_text(parts.as_slice(), '\n')
}

/// The content of one of the mount's own files.
pub fn metadata_bytes(status: &MountStatus, file: MetadataFile) -> (bytes: Vec<u8>)
    ensures
        bytes@ == metadata_document(*status, string_texts(status.recent_errors@), file),
{
    document_bytes(status, &status.recent_errors, file)
}

/// The content of one of the mount's own files, in the middle of an operation that has
/// something to complain about.
pub fn metadata_bytes_during(
    status: &MountStatus,
    complaints: &Vec<String>,
    file: MetadataFile,
) -> (bytes: Vec<u8>)
    ensures
        bytes@ == metadata_document(
            *status,
            errors_with(string_texts(status.recent_errors@), string_texts(complaints@)),
            file,
        ),
{
    let errors = with_errors(&status.recent_errors, complaints);
    document_bytes(status, &errors, file)
}

fn document_bytes(status: &MountStatus, errors: &Vec<String>, file: MetadataFile) -> (bytes: Vec<
    u8,
>)
    ensures
        bytes@ == metadata_document(*status, string_texts(errors@), file),
{
    let text = match file {
        MetadataFile::Status => {
            let state = if status.writes_blocked {
                "read_only"
            } else {
                "mounted"
            };
            let fields = vec![
                text_field("mount_name", status.mount_name.as_str()),
                text_field("state", state),
                flag_field("writes_blocked", status.writes_blocked),
                number_field("queue_pending", status.queue_pending),
            ];
            assert(field_models(fields@) =~= status_fields(*status));
            object_text(&fields)
        },
        MetadataFile::Cache => {
            let fields = vec![
                number_field("path_entries", status.path_entries),
                number_field("entries", status.cached_files),
                number_field("generation", status.cache_generation),
            ];
            assert(field_models(fields@) =~= cache_fields(*status));
            object_text(&fields)
        },
        MetadataFile::Queue => status.queue_document.clone(),
        MetadataFile::Capabilities => {
            let roots = Field { name: "roots".to_owned(), value: FieldValue::Texts(root_names()) };
            let fields = vec![
                roots,
                flag_field("kv_history", true),
                flag_field("stream_messages_read_only", true),
                flag_field("jsonl_publish", true),
                flag_field("object_store", true),
                flag_field("writeback_queue", true),
            ];
            assert(field_models(fields@) =~= capability_fields());
            object_text(&fields)
        },
        MetadataFile::Errors => error_document(errors),
    };
    copy_bytes(text.as_str().as_bytes())
}

} // verus!
