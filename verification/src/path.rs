//! The mount's path grammar: which paths exist, what each of them stands for, and
//! why the others are refused.

use vstd::prelude::*;
use vstd::slice::slice_subrange;

use crate::chars::{
    ascii_alphanumeric, control, is_ascii_alphanumeric, is_control, is_white_space, white_space,
};
use crate::encoding::{quote, quoted};
use crate::errors::{outcome, reports, EventFsError};
use crate::file_names::{parse_stream_subject_file_name, subject_of_file_name};
use crate::numbers::{decimal, decimal_text, parse_number, read_number};
use crate::text::{
    begins_with, chars_of, concat2, concat3, finishes_with, has_char, has_double_dot,
    holds_double_dot, join, join_text, same_text, split, split_text, strip_prefix, strip_suffix,
    texts, trim_both, trim_end, trim_start, without_prefix, without_suffix, Text,
};

verus! {

/// The directories at the root of the mount.
pub const ROOT_DIRECTORIES: [&'static str; 8] = [
    "kv",
    "streams",
    "objects",
    "events",
    "tasks",
    "agents",
    "semantic",
    ".eventfs",
];

/// What the keys of the writeback queue's own markers begin with.
pub const KV_WRITEBACK_MARKER_KEY_PREFIX: &'static str = "__eventfs_writeback";

/// What the keys of the markers of applied writes begin with.
pub const KV_APPLIED_MARKER_KEY_PREFIX: &'static str = "__eventfs_applied";

/// What a path of the mount stands for. `S` is `String` in executable code and
/// [`Text`] in contracts.
#[derive(Clone, Debug, PartialEq, Eq)]
pub enum JetStreamPath<S = String> {
    Root,
    KvRoot,
    KvBucket { bucket: S },
    KvKey { bucket: S, key: S },
    KvHistoryRoot { bucket: S },
    KvHistoryKey { bucket: S, key: S },
    KvRevision { bucket: S, key: S, revision: u64 },
    StreamsRoot,
    StreamRoot { stream: S },
    StreamMessages { stream: S },
    StreamMessage { stream: S, sequence: u64 },
    StreamSubjects { stream: S },
    StreamSubject { stream: S, subject: StreamSubject<S> },
    ObjectsRoot,
    ObjectBucket { bucket: S },
    Object { bucket: S, object: S },
    EventsRoot,
    EventLog { stream: S },
    TasksRoot,
    TaskNamespace { namespace: S },
    Task { namespace: S, task: S },
    AgentsRoot,
    AgentRoot { agent: S },
    AgentMailbox { agent: S, area: AgentArea },
    AgentDirectory { agent: S, area: AgentArea },
    AgentRecord { agent: S, area: AgentArea, path: S },
    SemanticRoot,
    SemanticArea { area: SemanticArea },
    SemanticRecord { area: SemanticArea, path: S },
    MetadataRoot,
    MetadataFile(MetadataFile),
}

impl View for JetStreamPath<String> {
    type V = JetStreamPath<Text>;

    open spec fn view(&self) -> JetStreamPath<Text> {
        match *self {
            JetStreamPath::Root => JetStreamPath::Root,
            JetStreamPath::KvRoot => JetStreamPath::KvRoot,
            JetStreamPath::KvBucket { bucket } => JetStreamPath::KvBucket { bucket: bucket@ },
            JetStreamPath::KvKey { bucket, key } => JetStreamPath::KvKey {
                bucket: bucket@,
                key: key@,
            },
            JetStreamPath::KvHistoryRoot { bucket } => JetStreamPath::KvHistoryRoot {
                bucket: bucket@,
            },
            JetStreamPath::KvHistoryKey { bucket, key } => JetStreamPath::KvHistoryKey {
                bucket: bucket@,
                key: key@,
            },
            JetStreamPath::KvRevision { bucket, key, revision } => JetStreamPath::KvRevision {
                bucket: bucket@,
                key: key@,
                revision,
            },
            JetStreamPath::StreamsRoot => JetStreamPath::StreamsRoot,
            JetStreamPath::StreamRoot { stream } => JetStreamPath::StreamRoot { stream: stream@ },
            JetStreamPath::StreamMessages { stream } => JetStreamPath::StreamMessages {
                stream: stream@,
            },
            JetStreamPath::StreamMessage { stream, sequence } => JetStreamPath::StreamMessage {
                stream: stream@,
                sequence,
            },
            JetStreamPath::StreamSubjects { stream } => JetStreamPath::StreamSubjects {
                stream: stream@,
            },
            JetStreamPath::StreamSubject { stream, subject } => JetStreamPath::StreamSubject {
                stream: stream@,
                subject: subject@,
            },
            JetStreamPath::ObjectsRoot => JetStreamPath::ObjectsRoot,
            JetStreamPath::ObjectBucket { bucket } => JetStreamPath::ObjectBucket {
                bucket: bucket@,
            },
            JetStreamPath::Object { bucket, object } => JetStreamPath::Object {
                bucket: bucket@,
                object: object@,
            },
            JetStreamPath::EventsRoot => JetStreamPath::EventsRoot,
            JetStreamPath::EventLog { stream } => JetStreamPath::EventLog { stream: stream@ },
            JetStreamPath::TasksRoot => JetStreamPath::TasksRoot,
            JetStreamPath::TaskNamespace { namespace } => JetStreamPath::TaskNamespace {
                namespace: namespace@,
            },
            JetStreamPath::Task { namespace, task } => JetStreamPath::Task {
                namespace: namespace@,
                task: task@,
            },
            JetStreamPath::AgentsRoot => JetStreamPath::AgentsRoot,
            JetStreamPath::AgentRoot { agent } => JetStreamPath::AgentRoot { agent: agent@ },
            JetStreamPath::AgentMailbox { agent, area } => JetStreamPath::AgentMailbox {
                agent: agent@,
                area,
            },
            JetStreamPath::AgentDirectory { agent, area } => JetStreamPath::AgentDirectory {
                agent: agent@,
                area,
            },
            JetStreamPath::AgentRecord { agent, area, path } => JetStreamPath::AgentRecord {
                agent: agent@,
                area,
                path: path@,
            },
            JetStreamPath::SemanticRoot => JetStreamPath::SemanticRoot,
            JetStreamPath::SemanticArea { area } => JetStreamPath::SemanticArea { area },
            JetStreamPath::SemanticRecord { area, path } => JetStreamPath::SemanticRecord {
                area,
                path: path@,
            },
            JetStreamPath::MetadataRoot => JetStreamPath::MetadataRoot,
            JetStreamPath::MetadataFile(file) => JetStreamPath::MetadataFile(file),
        }
    }
}

/// The subject of a stream's messages.
#[derive(Clone, Debug, PartialEq, Eq)]
pub struct StreamSubject<S = String>(pub S);

impl View for StreamSubject<String> {
    type V = StreamSubject<Text>;

    open spec fn view(&self) -> StreamSubject<Text> {
        StreamSubject(self.0@)
    }
}

impl StreamSubject<Text> {
    /// The subject that a file name stands for.
    pub open spec fn of_file_name(name: Text) -> Result<Self, EventFsError<Text>> {
        match subject_of_file_name(name) {
            Ok(subject) => guarded(subject_problem(subject), StreamSubject(subject)),
            Err(error) => Err(error),
        }
    }
}

impl StreamSubject {
    /// The subject that a file name stands for.
    pub fn parse_file_name(name: &str) -> (subject: Result<Self, EventFsError>)
        ensures
            outcome(subject) == StreamSubject::of_file_name(name@),
    {
        let subject = parse_stream_subject_file_name(name)?;
        validate_subject(subject.as_str())?;
        Ok(StreamSubject(subject))
    }

    /// The subject as text.
    pub fn as_str(&self) -> (text: &str)
        ensures
            text@ == self@.0,
    {
        self.0.as_str()
    }
}

/// One of the four places under an agent.
#[derive(Clone, Copy, Debug, PartialEq, Eq, Structural)]
pub enum AgentArea {
    Inbox,
    Outbox,
    Tasks,
    Memory,
}

impl AgentArea {
    /// The name that stands for it in a path.
    pub open spec fn name(self) -> Text {
        match self {
            AgentArea::Inbox => "inbox"@,
            AgentArea::Outbox => "outbox"@,
            AgentArea::Tasks => "tasks"@,
            AgentArea::Memory => "memory"@,
        }
    }

    /// The name of its variant, as diagnostics write it.
    pub open spec fn variant_name(self) -> Text {
        match self {
            AgentArea::Inbox => "Inbox"@,
            AgentArea::Outbox => "Outbox"@,
            AgentArea::Tasks => "Tasks"@,
            AgentArea::Memory => "Memory"@,
        }
    }

    /// The area with the given name, if there is one.
    pub open spec fn named(value: Text) -> Option<Self> {
        if value == "inbox"@ {
            Some(AgentArea::Inbox)
        } else if value == "outbox"@ {
            Some(AgentArea::Outbox)
        } else if value == "tasks"@ {
            Some(AgentArea::Tasks)
        } else if value == "memory"@ {
            Some(AgentArea::Memory)
        } else {
            None
        }
    }

    /// The area with the given name, if there is one.
    pub fn parse(value: &str) -> (parsed: Option<Self>)
        ensures
            parsed == Self::named(value@),
    {
        if same_text(value, "inbox") {
            Some(AgentArea::Inbox)
        } else if same_text(value, "outbox") {
            Some(AgentArea::Outbox)
        } else if same_text(value, "tasks") {
            Some(AgentArea::Tasks)
        } else if same_text(value, "memory") {
            Some(AgentArea::Memory)
        } else {
            None
        }
    }

    /// The name that stands for it in a path.
    pub fn as_str(self) -> (name: &'static str)
        ensures
            name@ == self.name(),
    {
        match self {
            AgentArea::Inbox => "inbox",
            AgentArea::Outbox => "outbox",
            AgentArea::Tasks => "tasks",
            AgentArea::Memory => "memory",
        }
    }

    /// The name of its variant.
    fn variant(self) -> (name: &'static str)
        ensures
            name@ == self.variant_name(),
    {
        match self {
            AgentArea::Inbox => "Inbox",
            AgentArea::Outbox => "Outbox",
            AgentArea::Tasks => "Tasks",
            AgentArea::Memory => "Memory",
        }
    }

    /// The name of a variant is read back as that variant, and no other name is.
    pub proof fn law_name_round_trip(self)
        ensures
            Self::named(self.name()) == Some(self),
            forall|value: Text| #[trigger] Self::named(value) == Some(self) ==> value == self.name(),
    {
        reveal_strlit("inbox");
        reveal_strlit("outbox");
        reveal_strlit("tasks");
        reveal_strlit("memory");
        assert("inbox"@.len() != "outbox"@.len());
        assert("inbox"@[0] != "tasks"@[0]);
        assert("inbox"@.len() != "memory"@.len());
        assert("outbox"@.len() != "tasks"@.len());
        assert("outbox"@[0] != "memory"@[0]);
        assert("tasks"@.len() != "memory"@.len());
    }

    /// Whether the area is a mailbox: a log that is appended to.
    pub open spec fn mailbox(self) -> bool {
        self == AgentArea::Inbox || self == AgentArea::Outbox
    }

    /// Whether the area is a mailbox.
    pub fn is_mailbox(self) -> (yes: bool)
        ensures
            yes == self.mailbox(),
    {
        matches!(self, AgentArea::Inbox | AgentArea::Outbox)
    }
}

/// One of the five kinds of derived knowledge.
#[derive(Clone, Copy, Debug, PartialEq, Eq, Structural)]
pub enum SemanticArea {
    Summaries,
    Tags,
    Relations,
    Timelines,
    Embeddings,
}

impl SemanticArea {
    /// The name that stands for it in a path.
    pub open spec fn name(self) -> Text {
        match self {
            SemanticArea::Summaries => "summaries"@,
            SemanticArea::Tags => "tags"@,
            SemanticArea::Relations => "relations"@,
            SemanticArea::Timelines => "timelines"@,
            SemanticArea::Embeddings => "embeddings"@,
        }
    }

    /// The name of its variant, as diagnostics write it.
    pub open spec fn variant_name(self) -> Text {
        match self {
            SemanticArea::Summaries => "Summaries"@,
            SemanticArea::Tags => "Tags"@,
            SemanticArea::Relations => "Relations"@,
            SemanticArea::Timelines => "Timelines"@,
            SemanticArea::Embeddings => "Embeddings"@,
        }
    }

    /// The area with the given name, if there is one.
    pub open spec fn named(value: Text) -> Option<Self> {
        if value == "summaries"@ {
            Some(SemanticArea::Summaries)
        } else if value == "tags"@ {
            Some(SemanticArea::Tags)
        } else if value == "relations"@ {
            Some(SemanticArea::Relations)
        } else if value == "timelines"@ {
            Some(SemanticArea::Timelines)
        } else if value == "embeddings"@ {
            Some(SemanticArea::Embeddings)
        } else {
            None
        }
    }

    /// The area with the given name, if there is one.
    pub fn parse(value: &str) -> (parsed: Option<Self>)
        ensures
            parsed == Self::named(value@),
    {
        if same_text(value, "summaries") {
            Some(SemanticArea::Summaries)
        } else if same_text(value, "tags") {
            Some(SemanticArea::Tags)
        } else if same_text(value, "relations") {
            Some(SemanticArea::Relations)
        } else if same_text(value, "timelines") {
            Some(SemanticArea::Timelines)
        } else if same_text(value, "embeddings") {
            Some(SemanticArea::Embeddings)
        } else {
            None
        }
    }

    /// The name that stands for it in a path.
    pub fn as_str(self) -> (name: &'static str)
        ensures
            name@ == self.name(),
    {
        match self {
            SemanticArea::Summaries => "summaries",
            SemanticArea::Tags => "tags",
            SemanticArea::Relations => "relations",
            SemanticArea::Timelines => "timelines",
            SemanticArea::Embeddings => "embeddings",
        }
    }

    /// The name of its variant.
    fn variant(self) -> (name: &'static str)
        ensures
            name@ == self.variant_name(),
    {
        match self {
            SemanticArea::Summaries => "Summaries",
            SemanticArea::Tags => "Tags",
            SemanticArea::Relations => "Relations",
            SemanticArea::Timelines => "Timelines",
            SemanticArea::Embeddings => "Embeddings",
        }
    }

    /// The name of a variant is read back as that variant, and no other name is.
    pub proof fn law_name_round_trip(self)
        ensures
            Self::named(self.name()) == Some(self),
            forall|value: Text| #[trigger] Self::named(value) == Some(self) ==> value == self.name(),
    {
        reveal_strlit("summaries");
        reveal_strlit("tags");
        reveal_strlit("relations");
        reveal_strlit("timelines");
        reveal_strlit("embeddings");
        assert("summaries"@.len() != "tags"@.len());
        assert("summaries"@[0] != "relations"@[0]);
        assert("summaries"@[0] != "timelines"@[0]);
        assert("summaries"@.len() != "embeddings"@.len());
        assert("tags"@.len() != "relations"@.len());
        assert("tags"@.len() != "timelines"@.len());
        assert("tags"@.len() != "embeddings"@.len());
        assert("relations"@[0] != "timelines"@[0]);
        assert("relations"@.len() != "embeddings"@.len());
        assert("timelines"@.len() != "embeddings"@.len());
    }
}

/// One of the files that describe the mount itself.
#[derive(Clone, Copy, Debug, PartialEq, Eq, Structural)]
pub enum MetadataFile {
    Status,
    Cache,
    Queue,
    Capabilities,
    Errors,
}

impl MetadataFile {
    /// The name that stands for it in a path.
    pub open spec fn name(self) -> Text {
        match self {
            MetadataFile::Status => "status.json"@,
            MetadataFile::Cache => "cache.json"@,
            MetadataFile::Queue => "queue.json"@,
            MetadataFile::Capabilities => "capabilities.json"@,
            MetadataFile::Errors => "errors.jsonl"@,
        }
    }

    /// The name of its variant, as diagnostics write it.
    pub open spec fn variant_name(self) -> Text {
        match self {
            MetadataFile::Status => "Status"@,
            MetadataFile::Cache => "Cache"@,
            MetadataFile::Queue => "Queue"@,
            MetadataFile::Capabilities => "Capabilities"@,
            MetadataFile::Errors => "Errors"@,
        }
    }

    /// The metadata file with the given name, if there is one.
    pub open spec fn named(value: Text) -> Option<Self> {
        if value == "status.json"@ {
            Some(MetadataFile::Status)
        } else if value == "cache.json"@ {
            Some(MetadataFile::Cache)
        } else if value == "queue.json"@ {
            Some(MetadataFile::Queue)
        } else if value == "capabilities.json"@ {
            Some(MetadataFile::Capabilities)
        } else if value == "errors.jsonl"@ {
            Some(MetadataFile::Errors)
        } else {
            None
        }
    }

    /// The metadata file with the given name, if there is one.
    pub fn parse(value: &str) -> (parsed: Option<Self>)
        ensures
            parsed == Self::named(value@),
    {
        if same_text(value, "status.json") {
            Some(MetadataFile::Status)
        } else if same_text(value, "cache.json") {
            Some(MetadataFile::Cache)
        } else if same_text(value, "queue.json") {
            Some(MetadataFile::Queue)
        } else if same_text(value, "capabilities.json") {
            Some(MetadataFile::Capabilities)
        } else if same_text(value, "errors.jsonl") {
            Some(MetadataFile::Errors)
        } else {
            None
        }
    }

    /// The name that stands for it in a path.
    pub fn file_name(self) -> (name: &'static str)
        ensures
            name@ == self.name(),
    {
        match self {
            MetadataFile::Status => "status.json",
            MetadataFile::Cache => "cache.json",
            MetadataFile::Queue => "queue.json",
            MetadataFile::Capabilities => "capabilities.json",
            MetadataFile::Errors => "errors.jsonl",
        }
    }

    /// The name of its variant.
    fn variant(self) -> (name: &'static str)
        ensures
            name@ == self.variant_name(),
    {
        match self {
            MetadataFile::Status => "Status",
            MetadataFile::Cache => "Cache",
            MetadataFile::Queue => "Queue",
            MetadataFile::Capabilities => "Capabilities",
            MetadataFile::Errors => "Errors",
        }
    }

    /// The name of a variant is read back as that variant, and no other name is.
    pub proof fn law_name_round_trip(self)
        ensures
            Self::named(self.name()) == Some(self),
            forall|value: Text| #[trigger] Self::named(value) == Some(self) ==> value == self.name(),
    {
        reveal_strlit("status.json");
        reveal_strlit("cache.json");
        reveal_strlit("queue.json");
        reveal_strlit("capabilities.json");
        reveal_strlit("errors.jsonl");
        assert("status.json"@.len() != "cache.json"@.len());
        assert("status.json"@.len() != "queue.json"@.len());
        assert("status.json"@.len() != "capabilities.json"@.len());
        assert("status.json"@.len() != "errors.jsonl"@.len());
        assert("cache.json"@[0] != "queue.json"@[0]);
        assert("cache.json"@.len() != "capabilities.json"@.len());
        assert("cache.json"@.len() != "errors.jsonl"@.len());
        assert("queue.json"@.len() != "capabilities.json"@.len());
        assert("queue.json"@.len() != "errors.jsonl"@.len());
        assert("capabilities.json"@.len() != "errors.jsonl"@.len());
    }
}

// ---------------------------------------------------------------------------
// The grammar
// ---------------------------------------------------------------------------

/// The value, unless there is a problem with it.
pub open spec fn guarded<T>(problem: Option<Text>, value: T) -> Result<T, EventFsError<Text>> {
    match problem {
        Some(message) => Err(EventFsError::bad_path(message)),
        None => Ok(value),
    }
}

/// The first of two problems.
pub open spec fn either(first: Option<Text>, second: Option<Text>) -> Option<Text> {
    if first is Some {
        first
    } else {
        second
    }
}

/// A character of a token.
pub open spec fn token_char(ch: char) -> bool {
    ascii_alphanumeric(ch) || ch == '_' || ch == '-'
}

/// A character of a key of a bucket.
pub open spec fn key_char(ch: char) -> bool {
    ascii_alphanumeric(ch) || ch == '-' || ch == '_' || ch == '=' || ch == '.' || ch == '/'
}

/// A character that a subject must not hold.
pub open spec fn forbidden_in_subject(ch: char) -> bool {
    control(ch) || white_space(ch) || ch == '*' || ch == '>'
}

/// What is wrong with a bucket, stream, agent or namespace name.
pub open spec fn token_problem(value: Text, label: Text) -> Option<Text> {
    if value.len() == 0 {
        Some("missing "@ + label)
    } else if forall|i: int| 0 <= i < value.len() ==> token_char(#[trigger] value[i]) {
        None
    } else {
        Some("invalid "@ + label)
    }
}

/// Whether a key is a marker's own key or lies under it.
pub open spec fn under_prefix(key: Text, prefix: Text) -> bool {
    prefix.is_prefix_of(key) && (key.len() == prefix.len() || key[prefix.len() as int] == '.'
        || key[prefix.len() as int] == '/')
}

/// Whether a key belongs to the mount's own bookkeeping.
pub open spec fn reserved_key(key: Text) -> bool {
    under_prefix(key, KV_WRITEBACK_MARKER_KEY_PREFIX@) || under_prefix(
        key,
        KV_APPLIED_MARKER_KEY_PREFIX@,
    )
}

/// What is wrong with the name of an agent or of a task namespace.
pub open spec fn root_name_problem(value: Text, label: Text) -> Option<Text> {
    either(
        token_problem(value, label),
        if reserved_key(value) {
            Some(label + " uses a reserved internal KV prefix"@)
        } else {
            None
        },
    )
}

/// What is wrong with a subject.
pub open spec fn subject_problem(value: Text) -> Option<Text> {
    if value.len() == 0 || value[0] == '.' || value.last() == '.' || has_double_dot(value) || (
    exists|i: int| 0 <= i < value.len() && forbidden_in_subject(#[trigger] value[i])) {
        Some("invalid subject"@)
    } else {
        None
    }
}

/// Whether a name cannot be one component of a key or of an object's name.
pub open spec fn bad_name(part: Text) -> bool {
    part.len() == 0 || part[0] == '.' || part.contains('\0')
}

/// What is wrong with one component of a key or of an object's name.
pub open spec fn component_problem(part: Text) -> Option<Text> {
    if bad_name(part) {
        Some("invalid path component"@)
    } else {
        None
    }
}

/// What is wrong with a key as a whole.
pub open spec fn kv_key_problem(value: Text) -> Option<Text> {
    if value.len() == 0 || value[0] == '.' || value.last() == '.' {
        Some("invalid kv key"@)
    } else if reserved_key(value) {
        Some("kv key uses a reserved internal prefix"@)
    } else if forall|i: int| 0 <= i < value.len() ==> key_char(#[trigger] value[i]) {
        None
    } else {
        Some("invalid kv key"@)
    }
}

/// What is wrong with the components of an object's name.
pub open spec fn name_problem(parts: Seq<Text>) -> Option<Text> {
    if parts.len() == 0 {
        Some("missing path"@)
    } else if exists|i: int| 0 <= i < parts.len() && bad_name(#[trigger] parts[i]) {
        Some("invalid path component"@)
    } else {
        None
    }
}

/// What is wrong with the components of a key.
pub open spec fn key_problem(parts: Seq<Text>) -> Option<Text> {
    either(name_problem(parts), kv_key_problem(join(parts, '/')))
}

/// Whether a text can be a key.
pub open spec fn valid_key(key: Text) -> bool {
    key_problem(split(key, '/')) is None
}

/// What is wrong with the name of a JSON file.
pub open spec fn json_file_problem(value: Text, label: Text) -> Option<Text> {
    if ".json"@.is_suffix_of(value) {
        either(component_problem(value), kv_key_problem(value))
    } else {
        Some(label + " must end in .json"@)
    }
}

/// Whether a piece of a path between slashes cannot be a component.
pub open spec fn bad_component(part: Text) -> bool {
    part.len() == 0 || part == "."@ || part == ".."@
}

/// The components of a path: its pieces between slashes, where slashes at the ends
/// do not count.
pub open spec fn components_of(path: Text) -> Result<Seq<Text>, EventFsError<Text>> {
    let trimmed = trim_end(trim_start(path, '/'), '/');
    let parts = split(trimmed, '/');
    if path.contains('\0') {
        Err(EventFsError::bad_path("path contains NUL"@))
    } else if trimmed.len() == 0 {
        Ok(Seq::empty())
    } else if exists|i: int| 0 <= i < parts.len() && bad_component(#[trigger] parts[i]) {
        Err(EventFsError::bad_path("invalid path component"@))
    } else {
        Ok(parts)
    }
}

/// The revision that a history component marks: none where it is no marker.
pub open spec fn revision_marker(value: Text) -> Result<Option<u64>, EventFsError<Text>> {
    match strip_prefix(value, "@"@) {
        None => Ok(None),
        Some(revision) => if revision.len() == 0 {
            Err(EventFsError::bad_path("kv history revision marker must include a revision"@))
        } else {
            match parse_number(revision) {
                Some(revision) => Ok(Some(revision)),
                None => Err(EventFsError::bad_path("kv history revision must be numeric"@)),
            }
        },
    }
}

/// The sequence number that a message file's name gives.
pub open spec fn sequence_of_file(value: Text) -> Result<u64, EventFsError<Text>> {
    match strip_suffix(value, ".json"@) {
        None => Err(EventFsError::bad_path("stream message files must end in .json"@)),
        Some(stem) => match parse_number(stem) {
            Some(sequence) => Ok(sequence),
            None => Err(EventFsError::bad_path("stream message sequence must be numeric"@)),
        },
    }
}

/// The stream whose event log a file name gives.
pub open spec fn stream_of_event_file(value: Text) -> Result<Text, EventFsError<Text>> {
    match strip_suffix(value, ".jsonl"@) {
        None => Err(EventFsError::bad_path("event files"@ + " must end in .jsonl"@)),
        Some(stem) => guarded(token_problem(stem, "stream"@), stem),
    }
}

/// The refusal of a path that no rule covers.
pub open spec fn no_such_path() -> Result<JetStreamPath<Text>, EventFsError<Text>> {
    Err(EventFsError::bad_path("unsupported mount path"@))
}

/// What components below `kv/<bucket>/.history` stand for.
pub open spec fn history_path(bucket: Text, rest: Seq<Text>) -> Result<
    JetStreamPath<Text>,
    EventFsError<Text>,
> {
    if token_problem(bucket, "bucket"@) is Some || rest.len() == 0 {
        guarded(token_problem(bucket, "bucket"@), JetStreamPath::KvHistoryRoot { bucket })
    } else {
        match revision_marker(rest.last()) {
            Err(error) => Err(error),
            Ok(Some(revision)) => if rest.len() == 1 {
                Err(EventFsError::bad_path("kv history revision paths require a key"@))
            } else {
                guarded(
                    key_problem(rest.drop_last()),
                    JetStreamPath::KvRevision { bucket, key: join(rest.drop_last(), '/'), revision },
                )
            },
            Ok(None) => guarded(
                key_problem(rest),
                JetStreamPath::KvHistoryKey { bucket, key: join(rest, '/') },
            ),
        }
    }
}

/// What components that begin with `kv` stand for.
pub open spec fn kv_path(c: Seq<Text>) -> Result<JetStreamPath<Text>, EventFsError<Text>> {
    if c.len() == 1 {
        Ok(JetStreamPath::KvRoot)
    } else if c.len() == 2 {
        guarded(token_problem(c[1], "bucket"@), JetStreamPath::KvBucket { bucket: c[1] })
    } else if c[2] == ".history"@ {
        history_path(c[1], c.skip(3))
    } else {
        guarded(
            either(token_problem(c[1], "bucket"@), key_problem(c.skip(2))),
            JetStreamPath::KvKey { bucket: c[1], key: join(c.skip(2), '/') },
        )
    }
}

/// What components that begin with `streams` stand for.
pub open spec fn streams_path(c: Seq<Text>) -> Result<JetStreamPath<Text>, EventFsError<Text>> {
    let stream = c[1];
    let problem = token_problem(stream, "stream"@);
    if c.len() == 1 {
        Ok(JetStreamPath::StreamsRoot)
    } else if c.len() == 2 {
        guarded(problem, JetStreamPath::StreamRoot { stream })
    } else if c.len() == 3 && c[2] == "messages"@ {
        guarded(problem, JetStreamPath::StreamMessages { stream })
    } else if c.len() == 4 && c[2] == "messages"@ {
        match (problem, sequence_of_file(c[3])) {
            (Some(message), _) => Err(EventFsError::bad_path(message)),
            (None, Err(error)) => Err(error),
            (None, Ok(sequence)) => Ok(JetStreamPath::StreamMessage { stream, sequence }),
        }
    } else if c.len() == 3 && c[2] == "subjects"@ {
        guarded(problem, JetStreamPath::StreamSubjects { stream })
    } else if c.len() == 4 && c[2] == "subjects"@ {
        match (problem, StreamSubject::of_file_name(c[3])) {
            (Some(message), _) => Err(EventFsError::bad_path(message)),
            (None, Err(error)) => Err(error),
            (None, Ok(subject)) => Ok(JetStreamPath::StreamSubject { stream, subject }),
        }
    } else {
        no_such_path()
    }
}

/// What components that begin with `objects` stand for.
pub open spec fn objects_path(c: Seq<Text>) -> Result<JetStreamPath<Text>, EventFsError<Text>> {
    if c.len() == 1 {
        Ok(JetStreamPath::ObjectsRoot)
    } else if c.len() == 2 {
        guarded(token_problem(c[1], "bucket"@), JetStreamPath::ObjectBucket { bucket: c[1] })
    } else {
        guarded(
            either(token_problem(c[1], "bucket"@), name_problem(c.skip(2))),
            JetStreamPath::Object { bucket: c[1], object: join(c.skip(2), '/') },
        )
    }
}

/// What components that begin with `events` stand for.
pub open spec fn events_path(c: Seq<Text>) -> Result<JetStreamPath<Text>, EventFsError<Text>> {
    if c.len() == 1 {
        Ok(JetStreamPath::EventsRoot)
    } else if c.len() == 2 {
        match stream_of_event_file(c[1]) {
            Ok(stream) => Ok(JetStreamPath::EventLog { stream }),
            Err(error) => Err(error),
        }
    } else {
        no_such_path()
    }
}

/// What components that begin with `tasks` stand for.
pub open spec fn tasks_path(c: Seq<Text>) -> Result<JetStreamPath<Text>, EventFsError<Text>> {
    let problem = root_name_problem(c[1], "task namespace"@);
    if c.len() == 1 {
        Ok(JetStreamPath::TasksRoot)
    } else if c.len() == 2 {
        guarded(problem, JetStreamPath::TaskNamespace { namespace: c[1] })
    } else if c.len() == 3 {
        guarded(
            either(problem, json_file_problem(c[2], "task files"@)),
            JetStreamPath::Task { namespace: c[1], task: c[2] },
        )
    } else {
        no_such_path()
    }
}

/// What components below an agent's area stand for.
pub open spec fn agent_area_path(agent: Text, area: Text, rest: Seq<Text>) -> Result<
    JetStreamPath<Text>,
    EventFsError<Text>,
> {
    match (root_name_problem(agent, "agent"@), AgentArea::named(area)) {
        (Some(message), _) => Err(EventFsError::bad_path(message)),
        (None, None) => Err(EventFsError::bad_path("unknown agent area"@)),
        (None, Some(area)) => if area.mailbox() && rest.len() == 0 {
            Ok(JetStreamPath::AgentMailbox { agent, area })
        } else if area.mailbox() {
            Err(EventFsError::bad_path("agent mailbox paths are JSONL files, not directories"@))
        } else if rest.len() == 0 {
            Ok(JetStreamPath::AgentDirectory { agent, area })
        } else {
            guarded(
                key_problem(rest),
                JetStreamPath::AgentRecord { agent, area, path: join(rest, '/') },
            )
        },
    }
}

/// What components that begin with `agents` stand for.
pub open spec fn agents_path(c: Seq<Text>) -> Result<JetStreamPath<Text>, EventFsError<Text>> {
    if c.len() == 1 {
        Ok(JetStreamPath::AgentsRoot)
    } else if c.len() == 2 {
        guarded(root_name_problem(c[1], "agent"@), JetStreamPath::AgentRoot { agent: c[1] })
    } else {
        agent_area_path(c[1], c[2], c.skip(3))
    }
}

/// What components that begin with `semantic` stand for.
pub open spec fn semantic_path(c: Seq<Text>) -> Result<JetStreamPath<Text>, EventFsError<Text>> {
    if c.len() == 1 {
        Ok(JetStreamPath::SemanticRoot)
    } else {
        match SemanticArea::named(c[1]) {
            None => Err(EventFsError::bad_path("unknown semantic area"@)),
            Some(area) => if c.len() == 2 {
                Ok(JetStreamPath::SemanticArea { area })
            } else {
                guarded(
                    key_problem(c.skip(2)),
                    JetStreamPath::SemanticRecord { area, path: join(c.skip(2), '/') },
                )
            },
        }
    }
}

/// What components that begin with `.eventfs` stand for.
pub open spec fn metadata_path(c: Seq<Text>) -> Result<JetStreamPath<Text>, EventFsError<Text>> {
    if c.len() == 1 {
        Ok(JetStreamPath::MetadataRoot)
    } else if c.len() == 2 {
        match MetadataFile::named(c[1]) {
            Some(file) => Ok(JetStreamPath::MetadataFile(file)),
            None => Err(EventFsError::bad_path("unknown metadata file"@)),
        }
    } else {
        no_such_path()
    }
}

/// What the components of a path stand for.
pub open spec fn path_of_components(c: Seq<Text>) -> Result<
    JetStreamPath<Text>, EventFsError<Text>,
> {
    if c.len() == 0 {
        Ok(JetStreamPath::Root)
    } else if c[0] == "kv"@ {
        kv_path(c)
    } else if c[0] == "streams"@ {
        streams_path(c)
    } else if c[0] == "objects"@ {
        objects_path(c)
    } else if c[0] == "events"@ {
        events_path(c)
    } else if c[0] == "tasks"@ {
        tasks_path(c)
    } else if c[0] == "agents"@ {
        agents_path(c)
    } else if c[0] == "semantic"@ {
        semantic_path(c)
    } else if c[0] == ".eventfs"@ {
        metadata_path(c)
    } else {
        no_such_path()
    }
}

/// `Name { field: value }`.
pub open spec fn record1(name: Text, first: (Text, Text)) -> Text {
    name + " { "@ + first.0 + ": "@ + first.1 + " }"@
}

/// `Name { field: value, field: value }`.
pub open spec fn record2(name: Text, first: (Text, Text), second: (Text, Text)) -> Text {
    name + " { "@ + first.0 + ": "@ + first.1 + ", "@ + second.0 + ": "@ + second.1 + " }"@
}

/// `Name { field: value, field: value, field: value }`.
pub open spec fn record3(
    name: Text,
    first: (Text, Text),
    second: (Text, Text),
    third: (Text, Text),
) -> Text {
    name + " { "@ + first.0 + ": "@ + first.1 + ", "@ + second.0 + ": "@ + second.1 + ", "@
        + third.0 + ": "@ + third.1 + " }"@
}

impl JetStreamPath<Text> {
    /// What the text of a path stands for.
    pub open spec fn parsed(path: Text) -> Result<Self, EventFsError<Text>> {
        match components_of(path) {
            Ok(components) => path_of_components(components),
            Err(error) => Err(error),
        }
    }

    /// Whether the path is a directory whatever the storage holds.
    pub open spec fn directory(self) -> bool {
        match self {
            JetStreamPath::Root | JetStreamPath::KvRoot | JetStreamPath::KvBucket {
                ..
            } | JetStreamPath::KvHistoryRoot { .. } | JetStreamPath::KvHistoryKey {
                ..
            } | JetStreamPath::StreamsRoot | JetStreamPath::StreamRoot {
                ..
            } | JetStreamPath::StreamMessages { .. } | JetStreamPath::StreamSubjects {
                ..
            } | JetStreamPath::ObjectsRoot | JetStreamPath::ObjectBucket {
                ..
            } | JetStreamPath::EventsRoot | JetStreamPath::TasksRoot | JetStreamPath::TaskNamespace {
                ..
            } | JetStreamPath::AgentsRoot | JetStreamPath::AgentRoot {
                ..
            } | JetStreamPath::AgentDirectory { .. } | JetStreamPath::SemanticRoot
            | JetStreamPath::SemanticArea { .. } | JetStreamPath::MetadataRoot => true,
            _ => false,
        }
    }

    /// Whether every name in the path is one that the grammar accepts in its place.
    pub open spec fn valid(self) -> bool {
        match self {
            JetStreamPath::KvBucket { bucket } => token_problem(bucket, "bucket"@) is None,
            JetStreamPath::KvKey { bucket, key } => token_problem(bucket, "bucket"@) is None
                && valid_key(key),
            JetStreamPath::KvHistoryRoot { bucket } => token_problem(bucket, "bucket"@) is None,
            JetStreamPath::KvHistoryKey { bucket, key } => token_problem(bucket, "bucket"@) is None
                && valid_key(key),
            JetStreamPath::KvRevision { bucket, key, .. } => token_problem(
                bucket,
                "bucket"@,
            ) is None && valid_key(key),
            JetStreamPath::StreamRoot { stream } => token_problem(stream, "stream"@) is None,
            JetStreamPath::StreamMessages { stream } => token_problem(stream, "stream"@) is None,
            JetStreamPath::StreamMessage { stream, .. } => token_problem(stream, "stream"@) is None,
            JetStreamPath::StreamSubjects { stream } => token_problem(stream, "stream"@) is None,
            JetStreamPath::StreamSubject { stream, subject } => token_problem(
                stream,
                "stream"@,
            ) is None && subject_problem(subject.0) is None,
            JetStreamPath::ObjectBucket { bucket } => token_problem(bucket, "bucket"@) is None,
            JetStreamPath::Object { bucket, object } => token_problem(bucket, "bucket"@) is None
                && name_problem(split(object, '/')) is None,
            JetStreamPath::EventLog { stream } => token_problem(stream, "stream"@) is None,
            JetStreamPath::TaskNamespace { namespace } => root_name_problem(
                namespace,
                "task namespace"@,
            ) is None,
            JetStreamPath::Task { namespace, task } => root_name_problem(
                namespace,
                "task namespace"@,
            ) is None && json_file_problem(task, "task files"@) is None && !task.contains('/'),
            JetStreamPath::AgentRoot { agent } => root_name_problem(agent, "agent"@) is None,
            JetStreamPath::AgentMailbox { agent, area } => root_name_problem(
                agent,
                "agent"@,
            ) is None && area.mailbox(),
            JetStreamPath::AgentDirectory { agent, area } => root_name_problem(
                agent,
                "agent"@,
            ) is None && !area.mailbox(),
            JetStreamPath::AgentRecord { agent, area, path } => root_name_problem(
                agent,
                "agent"@,
            ) is None && !area.mailbox() && valid_key(path),
            JetStreamPath::SemanticRecord { path, .. } => valid_key(path),
            _ => true,
        }
    }

    /// The path as diagnostics write it.
    pub open spec fn description(self) -> Text {
        match self {
            JetStreamPath::Root => "Root"@,
            JetStreamPath::KvRoot => "KvRoot"@,
            JetStreamPath::KvBucket { bucket } => record1(
                "KvBucket"@,
                ("bucket"@, quoted(bucket)),
            ),
            JetStreamPath::KvKey { bucket, key } => record2(
                "KvKey"@,
                ("bucket"@, quoted(bucket)),
                ("key"@, quoted(key)),
            ),
            JetStreamPath::KvHistoryRoot { bucket } => record1(
                "KvHistoryRoot"@,
                ("bucket"@, quoted(bucket)),
            ),
            JetStreamPath::KvHistoryKey { bucket, key } => record2(
                "KvHistoryKey"@,
                ("bucket"@, quoted(bucket)),
                ("key"@, quoted(key)),
            ),
            JetStreamPath::KvRevision { bucket, key, revision } => record3(
                "KvRevision"@,
                ("bucket"@, quoted(bucket)),
                ("key"@, quoted(key)),
                ("revision"@, decimal(revision as nat)),
            ),
            JetStreamPath::StreamsRoot => "StreamsRoot"@,
            JetStreamPath::StreamRoot { stream } => record1(
                "StreamRoot"@,
                ("stream"@, quoted(stream)),
            ),
            JetStreamPath::StreamMessages { stream } => record1(
                "StreamMessages"@,
                ("stream"@, quoted(stream)),
            ),
            JetStreamPath::StreamMessage { stream, sequence } => record2(
                "StreamMessage"@,
                ("stream"@, quoted(stream)),
                ("sequence"@, decimal(sequence as nat)),
            ),
            JetStreamPath::StreamSubjects { stream } => record1(
                "StreamSubjects"@,
                ("stream"@, quoted(stream)),
            ),
            JetStreamPath::StreamSubject { stream, subject } => record2(
                "StreamSubject"@,
                ("stream"@, quoted(stream)),
                ("subject"@, "StreamSubject("@ + quoted(subject.0) + ")"@),
            ),
            JetStreamPath::ObjectsRoot => "ObjectsRoot"@,
            JetStreamPath::ObjectBucket { bucket } => record1(
                "ObjectBucket"@,
                ("bucket"@, quoted(bucket)),
            ),
            JetStreamPath::Object { bucket, object } => record2(
                "Object"@,
                ("bucket"@, quoted(bucket)),
                ("object"@, quoted(object)),
            ),
            JetStreamPath::EventsRoot => "EventsRoot"@,
            JetStreamPath::EventLog { stream } => record1(
                "EventLog"@,
                ("stream"@, quoted(stream)),
            ),
            JetStreamPath::TasksRoot => "TasksRoot"@,
            JetStreamPath::TaskNamespace { namespace } => record1(
                "TaskNamespace"@,
                ("namespace"@, quoted(namespace)),
            ),
            JetStreamPath::Task { namespace, task } => record2(
                "Task"@,
                ("namespace"@, quoted(namespace)),
                ("task"@, quoted(task)),
            ),
            JetStreamPath::AgentsRoot => "AgentsRoot"@,
            JetStreamPath::AgentRoot { agent } => record1(
                "AgentRoot"@,
                ("agent"@, quoted(agent)),
            ),
            JetStreamPath::AgentMailbox { agent, area } => record2(
                "AgentMailbox"@,
                ("agent"@, quoted(agent)),
                ("area"@, area.variant_name()),
            ),
            JetStreamPath::AgentDirectory { agent, area } => record2(
                "AgentDirectory"@,
                ("agent"@, quoted(agent)),
                ("area"@, area.variant_name()),
            ),
            JetStreamPath::AgentRecord { agent, area, path } => record3(
                "AgentRecord"@,
                ("agent"@, quoted(agent)),
                ("area"@, area.variant_name()),
                ("path"@, quoted(path)),
            ),
            JetStreamPath::SemanticRoot => "SemanticRoot"@,
            JetStreamPath::SemanticArea { area } => record1(
                "SemanticArea"@,
                ("area"@, area.variant_name()),
            ),
            JetStreamPath::SemanticRecord { area, path } => record2(
                "SemanticRecord"@,
                ("area"@, area.variant_name()),
                ("path"@, quoted(path)),
            ),
            JetStreamPath::MetadataRoot => "MetadataRoot"@,
            JetStreamPath::MetadataFile(file) => "MetadataFile("@ + file.variant_name() + ")"@,
        }
    }
}

impl JetStreamPath {
    /// What the text of a path stands for.
    pub fn parse(path: &str) -> (parsed: Result<Self, EventFsError>)
        ensures
            outcome(parsed) == JetStreamPath::parsed(path@),
    {
        let components = components(path)?;
        let c = components.as_slice();
        assert(texts(c@).len() == c@.len());
        if c.len() == 0 {
            return Ok(JetStreamPath::Root);
        }
        let root = c[0];
        assert(root@ == texts(c@)[0]);
        if same_text(root, "kv") {
            parse_kv(c)
        } else if same_text(root, "streams") {
            parse_streams(c)
        } else if same_text(root, "objects") {
            parse_objects(c)
        } else if same_text(root, "events") {
            parse_events(c)
        } else if same_text(root, "tasks") {
            parse_tasks(c)
        } else if same_text(root, "agents") {
            parse_agents(c)
        } else if same_text(root, "semantic") {
            parse_semantic(c)
        } else if same_text(root, ".eventfs") {
            parse_metadata(c)
        } else {
            Err(EventFsError::invalid_path("unsupported mount path"))
        }
    }

    /// Whether the path is a directory whatever the storage holds.
    pub fn is_directory(&self) -> (yes: bool)
        ensures
            yes == self@.directory(),
    {
        match self {
            JetStreamPath::Root => true,
            JetStreamPath::KvRoot => true,
            JetStreamPath::KvBucket { .. } => true,
            JetStreamPath::KvHistoryRoot { .. } => true,
            JetStreamPath::KvHistoryKey { .. } => true,
            JetStreamPath::StreamsRoot => true,
            JetStreamPath::StreamRoot { .. } => true,
            JetStreamPath::StreamMessages { .. } => true,
            JetStreamPath::StreamSubjects { .. } => true,
            JetStreamPath::ObjectsRoot => true,
            JetStreamPath::ObjectBucket { .. } => true,
            JetStreamPath::EventsRoot => true,
            JetStreamPath::TasksRoot => true,
            JetStreamPath::TaskNamespace { .. } => true,
            JetStreamPath::AgentsRoot => true,
            JetStreamPath::AgentRoot { .. } => true,
            JetStreamPath::AgentDirectory { .. } => true,
            JetStreamPath::SemanticRoot => true,
            JetStreamPath::SemanticArea { .. } => true,
            JetStreamPath::MetadataRoot => true,
            _ => false,
        }
    }

    /// The path as diagnostics write it.
    pub fn to_string(&self) -> (text: String)
        ensures
            text@ == self@.description(),
    {
        match self {
            JetStreamPath::Root => "Root".to_owned(),
            JetStreamPath::KvRoot => "KvRoot".to_owned(),
            JetStreamPath::KvBucket { bucket } => record_text1(
                "KvBucket",
                ("bucket", quote(bucket.as_str())),
            ),
            JetStreamPath::KvKey { bucket, key } => record_text2(
                "KvKey",
                ("bucket", quote(bucket.as_str())),
                ("key", quote(key.as_str())),
            ),
            JetStreamPath::KvHistoryRoot { bucket } => record_text1(
                "KvHistoryRoot",
                ("bucket", quote(bucket.as_str())),
            ),
            JetStreamPath::KvHistoryKey { bucket, key } => record_text2(
                "KvHistoryKey",
                ("bucket", quote(bucket.as_str())),
                ("key", quote(key.as_str())),
            ),
            JetStreamPath::KvRevision { bucket, key, revision } => record_text3(
                "KvRevision",
                ("bucket", quote(bucket.as_str())),
                ("key", quote(key.as_str())),
                ("revision", decimal_text(*revision as u128)),
            ),
            JetStreamPath::StreamsRoot => "StreamsRoot".to_owned(),
            JetStreamPath::StreamRoot { stream } => record_text1(
                "StreamRoot",
                ("stream", quote(stream.as_str())),
            ),
            JetStreamPath::StreamMessages { stream } => record_text1(
                "StreamMessages",
                ("stream", quote(stream.as_str())),
            ),
            JetStreamPath::StreamMessage { stream, sequence } => record_text2(
                "StreamMessage",
                ("stream", quote(stream.as_str())),
                ("sequence", decimal_text(*sequence as u128)),
            ),
            JetStreamPath::StreamSubjects { stream } => record_text1(
                "StreamSubjects",
                ("stream", quote(stream.as_str())),
            ),
            JetStreamPath::StreamSubject { stream, subject } => record_text2(
                "StreamSubject",
                ("stream", quote(stream.as_str())),
                ("subject", concat3("StreamSubject(", quote(subject.as_str()).as_str(), ")")),
            ),
            JetStreamPath::ObjectsRoot => "ObjectsRoot".to_owned(),
            JetStreamPath::ObjectBucket { bucket } => record_text1(
                "ObjectBucket",
                ("bucket", quote(bucket.as_str())),
            ),
            JetStreamPath::Object { bucket, object } => record_text2(
                "Object",
                ("bucket", quote(bucket.as_str())),
                ("object", quote(object.as_str())),
            ),
            JetStreamPath::EventsRoot => "EventsRoot".to_owned(),
            JetStreamPath::EventLog { stream } => record_text1(
                "EventLog",
                ("stream", quote(stream.as_str())),
            ),
            JetStreamPath::TasksRoot => "TasksRoot".to_owned(),
            JetStreamPath::TaskNamespace { namespace } => record_text1(
                "TaskNamespace",
                ("namespace", quote(namespace.as_str())),
            ),
            JetStreamPath::Task { namespace, task } => record_text2(
                "Task",
                ("namespace", quote(namespace.as_str())),
                ("task", quote(task.as_str())),
            ),
            JetStreamPath::AgentsRoot => "AgentsRoot".to_owned(),
            JetStreamPath::AgentRoot { agent } => record_text1(
                "AgentRoot",
                ("agent", quote(agent.as_str())),
            ),
            JetStreamPath::AgentMailbox { agent, area } => record_text2(
                "AgentMailbox",
                ("agent", quote(agent.as_str())),
                ("area", area.variant().to_owned()),
            ),
            JetStreamPath::AgentDirectory { agent, area } => record_text2(
                "AgentDirectory",
                ("agent", quote(agent.as_str())),
                ("area", area.variant().to_owned()),
            ),
            JetStreamPath::AgentRecord { agent, area, path } => record_text3(
                "AgentRecord",
                ("agent", quote(agent.as_str())),
                ("area", area.variant().to_owned()),
                ("path", quote(path.as_str())),
            ),
            JetStreamPath::SemanticRoot => "SemanticRoot".to_owned(),
            JetStreamPath::SemanticArea { area } => record_text1(
                "SemanticArea",
                ("area", area.variant().to_owned()),
            ),
            JetStreamPath::SemanticRecord { area, path } => record_text2(
                "SemanticRecord",
                ("area", area.variant().to_owned()),
                ("path", quote(path.as_str())),
            ),
            JetStreamPath::MetadataRoot => "MetadataRoot".to_owned(),
            JetStreamPath::MetadataFile(file) => concat3("MetadataFile(", file.variant(), ")"),
        }
    }
}

// ---------------------------------------------------------------------------
// Parsing
// ---------------------------------------------------------------------------

fn parse_kv(c: &[&str]) -> (path: Result<JetStreamPath, EventFsError>)
    requires
        c.len() >= 1,
    ensures
        outcome(path) == kv_path(texts(c@)),
{
    if c.len() == 1 {
        return Ok(JetStreamPath::KvRoot);
    }
    let bucket = c[1];
    assert(bucket@ == texts(c@)[1]);
    if c.len() == 2 {
        validate_bucket(bucket)?;
        return Ok(JetStreamPath::KvBucket { bucket: bucket.to_owned() });
    }
    assert(c@[2]@ == texts(c@)[2]);
    if same_text(c[2], ".history") {
        let rest = slice_subrange(c, 3, c.len());
        assert(texts(rest@) =~= texts(c@).skip(3));
        return parse_kv_history(bucket, rest);
    }
    let rest = slice_subrange(c, 2, c.len());
    assert(texts(rest@) =~= texts(c@).skip(2));
    validate_bucket(bucket)?;
    let key = join_kv_key(rest)?;
    Ok(JetStreamPath::KvKey { bucket: bucket.to_owned(), key })
}

fn parse_kv_history(bucket: &str, rest: &[&str]) -> (path: Result<JetStreamPath, EventFsError>)
    ensures
        outcome(path) == history_path(bucket@, texts(rest@)),
{
    validate_bucket(bucket)?;
    if rest.len() == 0 {
        return Ok(JetStreamPath::KvHistoryRoot { bucket: bucket.to_owned() });
    }
    assert(texts(rest@).last() == rest@.last()@);
    let marker = parse_kv_revision_marker(rest[rest.len() - 1])?;
    if let Some(revision) = marker {
        if rest.len() == 1 {
            return Err(EventFsError::invalid_path("kv history revision paths require a key"));
        }
        let parts = slice_subrange(rest, 0, rest.len() - 1);
        assert(texts(parts@) =~= texts(rest@).drop_last());
        let key = join_kv_key(parts)?;
        return Ok(JetStreamPath::KvRevision { bucket: bucket.to_owned(), key, revision });
    }
    let key = join_kv_key(rest)?;
    Ok(JetStreamPath::KvHistoryKey { bucket: bucket.to_owned(), key })
}

fn parse_kv_revision_marker(value: &str) -> (revision: Result<Option<u64>, EventFsError>)
    ensures
        match revision {
            Ok(revision) => revision_marker(value@) == Ok::<Option<u64>, EventFsError<Text>>(
                revision,
            ),
            Err(error) => revision_marker(value@) == Err::<Option<u64>, EventFsError<Text>>(
                error@,
            ),
        },
{
    let revision = match without_prefix(value, "@") {
        Some(revision) => revision,
        None => {
            return Ok(None);
        },
    };
    if revision.is_empty() {
        return Err(
            EventFsError::invalid_path("kv history revision marker must include a revision"),
        );
    }
    match read_number(revision) {
        Some(revision) => Ok(Some(revision)),
        None => Err(EventFsError::invalid_path("kv history revision must be numeric")),
    }
}

fn parse_streams(c: &[&str]) -> (path: Result<JetStreamPath, EventFsError>)
    requires
        c.len() >= 1,
    ensures
        outcome(path) == streams_path(texts(c@)),
{
    if c.len() == 1 {
        return Ok(JetStreamPath::StreamsRoot);
    }
    let stream = c[1];
    assert(stream@ == texts(c@)[1]);
    if c.len() == 2 {
        validate_stream(stream)?;
        return Ok(JetStreamPath::StreamRoot { stream: stream.to_owned() });
    }
    assert(c@[2]@ == texts(c@)[2]);
    let messages = same_text(c[2], "messages");
    let subjects = same_text(c[2], "subjects");
    proof {
        reveal_strlit("messages");
        reveal_strlit("subjects");
        assert("messages"@[0] != "subjects"@[0]);
    }
    if c.len() == 3 {
        if messages {
            validate_stream(stream)?;
            return Ok(JetStreamPath::StreamMessages { stream: stream.to_owned() });
        }
        if subjects {
            validate_stream(stream)?;
            return Ok(JetStreamPath::StreamSubjects { stream: stream.to_owned() });
        }
    } else if c.len() == 4 {
        assert(c@[3]@ == texts(c@)[3]);
        if messages {
            validate_stream(stream)?;
            let sequence = parse_sequence_file(c[3])?;
            return Ok(JetStreamPath::StreamMessage { stream: stream.to_owned(), sequence });
        }
        if subjects {
            validate_stream(stream)?;
            let subject = StreamSubject::parse_file_name(c[3])?;
            return Ok(JetStreamPath::StreamSubject { stream: stream.to_owned(), subject });
        }
    }
    Err(EventFsError::invalid_path("unsupported mount path"))
}

fn parse_objects(c: &[&str]) -> (path: Result<JetStreamPath, EventFsError>)
    requires
        c.len() >= 1,
    ensures
        outcome(path) == objects_path(texts(c@)),
{
    if c.len() == 1 {
        return Ok(JetStreamPath::ObjectsRoot);
    }
    let bucket = c[1];
    assert(bucket@ == texts(c@)[1]);
    validate_bucket(bucket)?;
    if c.len() == 2 {
        return Ok(JetStreamPath::ObjectBucket { bucket: bucket.to_owned() });
    }
    let rest = slice_subrange(c, 2, c.len());
    assert(texts(rest@) =~= texts(c@).skip(2));
    let object = join_path(rest)?;
    Ok(JetStreamPath::Object { bucket: bucket.to_owned(), object })
}

fn parse_events(c: &[&str]) -> (path: Result<JetStreamPath, EventFsError>)
    requires
        c.len() >= 1,
    ensures
        outcome(path) == events_path(texts(c@)),
{
    if c.len() == 1 {
        return Ok(JetStreamPath::EventsRoot);
    }
    if c.len() == 2 {
        assert(c@[1]@ == texts(c@)[1]);
        let stream = parse_event_file(c[1])?;
        return Ok(JetStreamPath::EventLog { stream });
    }
    Err(EventFsError::invalid_path("unsupported mount path"))
}

fn parse_tasks(c: &[&str]) -> (path: Result<JetStreamPath, EventFsError>)
    requires
        c.len() >= 1,
    ensures
        outcome(path) == tasks_path(texts(c@)),
{
    if c.len() == 1 {
        return Ok(JetStreamPath::TasksRoot);
    }
    let namespace = c[1];
    assert(namespace@ == texts(c@)[1]);
    if c.len() == 2 {
        validate_materialized_root_name(namespace, "task namespace")?;
        return Ok(JetStreamPath::TaskNamespace { namespace: namespace.to_owned() });
    }
    if c.len() == 3 {
        let task = c[2];
        assert(task@ == texts(c@)[2]);
        validate_materialized_root_name(namespace, "task namespace")?;
        validate_json_file(task, "task files")?;
        return Ok(JetStreamPath::Task { namespace: namespace.to_owned(), task: task.to_owned() });
    }
    Err(EventFsError::invalid_path("unsupported mount path"))
}

fn parse_agents(c: &[&str]) -> (path: Result<JetStreamPath, EventFsError>)
    requires
        c.len() >= 1,
    ensures
        outcome(path) == agents_path(texts(c@)),
{
    if c.len() == 1 {
        return Ok(JetStreamPath::AgentsRoot);
    }
    let agent = c[1];
    assert(agent@ == texts(c@)[1]);
    if c.len() == 2 {
        validate_materialized_root_name(agent, "agent")?;
        return Ok(JetStreamPath::AgentRoot { agent: agent.to_owned() });
    }
    assert(c@[2]@ == texts(c@)[2]);
    let rest = slice_subrange(c, 3, c.len());
    assert(texts(rest@) =~= texts(c@).skip(3));
    parse_agent_area(agent, c[2], rest)
}

fn parse_agent_area(agent: &str, area: &str, rest: &[&str]) -> (path: Result<
    JetStreamPath,
    EventFsError,
>)
    ensures
        outcome(path) == agent_area_path(agent@, area@, texts(rest@)),
{
    validate_materialized_root_name(agent, "agent")?;
    let area = match AgentArea::parse(area) {
        Some(area) => area,
        None => {
            return Err(EventFsError::invalid_path("unknown agent area"));
        },
    };
    if area.is_mailbox() {
        if rest.len() == 0 {
            Ok(JetStreamPath::AgentMailbox { agent: agent.to_owned(), area })
        } else {
            Err(EventFsError::invalid_path("agent mailbox paths are JSONL files, not directories"))
        }
    } else if rest.len() == 0 {
        Ok(JetStreamPath::AgentDirectory { agent: agent.to_owned(), area })
    } else {
        let path = join_kv_key(rest)?;
        Ok(JetStreamPath::AgentRecord { agent: agent.to_owned(), area, path })
    }
}

fn parse_semantic(c: &[&str]) -> (path: Result<JetStreamPath, EventFsError>)
    requires
        c.len() >= 1,
    ensures
        outcome(path) == semantic_path(texts(c@)),
{
    if c.len() == 1 {
        return Ok(JetStreamPath::SemanticRoot);
    }
    assert(c@[1]@ == texts(c@)[1]);
    let area = match SemanticArea::parse(c[1]) {
        Some(area) => area,
        None => {
            return Err(EventFsError::invalid_path("unknown semantic area"));
        },
    };
    if c.len() == 2 {
        return Ok(JetStreamPath::SemanticArea { area });
    }
    let rest = slice_subrange(c, 2, c.len());
    assert(texts(rest@) =~= texts(c@).skip(2));
    let path = join_kv_key(rest)?;
    Ok(JetStreamPath::SemanticRecord { area, path })
}

fn parse_metadata(c: &[&str]) -> (path: Result<JetStreamPath, EventFsError>)
    requires
        c.len() >= 1,
    ensures
        outcome(path) == metadata_path(texts(c@)),
{
    if c.len() == 1 {
        return Ok(JetStreamPath::MetadataRoot);
    }
    if c.len() == 2 {
        assert(c@[1]@ == texts(c@)[1]);
        return match MetadataFile::parse(c[1]) {
            Some(file) => Ok(JetStreamPath::MetadataFile(file)),
            None => Err(EventFsError::invalid_path("unknown metadata file")),
        };
    }
    Err(EventFsError::invalid_path("unsupported mount path"))
}

fn components<'a>(path: &'a str) -> (parts: Result<Vec<&'a str>, EventFsError>)
    ensures
        match parts {
            Ok(parts) => components_of(path@) == Ok::<Seq<Text>, EventFsError<Text>>(texts(parts@)),
            Err(error) => components_of(path@) == Err::<Seq<Text>, EventFsError<Text>>(error@),
        },
{
    if has_char(path, '\0') {
        return Err(EventFsError::invalid_path("path contains NUL"));
    }
    let trimmed = trim_both(path, '/');
    if trimmed.is_empty() {
        let parts: Vec<&'a str> = Vec::new();
        assert(texts(parts@) =~= Seq::empty());
        return Ok(parts);
    }
    let parts = split_text(trimmed, '/');
    let ghost pieces = split(trimmed@, '/');
    let mut i: usize = 0;
    while i < parts.len()
        invariant
            i <= parts.len(),
            texts(parts@) == pieces,
            pieces == split(trim_end(trim_start(path@, '/'), '/'), '/'),
            trim_end(trim_start(path@, '/'), '/').len() > 0,
            !path@.contains('\0'),
            forall|k: int| 0 <= k < i ==> !bad_component(#[trigger] pieces[k]),
        decreases parts.len() - i,
    {
        let part = parts[i];
        assert(part@ == texts(parts@)[i as int]);
        if part.is_empty() || same_text(part, ".") || same_text(part, "..") {
            assert(bad_component(pieces[i as int]));
            return Err(EventFsError::invalid_path("invalid path component"));
        }
        i += 1;
    }
    Ok(parts)
}

fn join_path(parts: &[&str]) -> (text: Result<String, EventFsError>)
    ensures
        outcome(text) == guarded(name_problem(texts(parts@)), join(texts(parts@), '/')),
{
    if parts.len() == 0 {
        return Err(EventFsError::invalid_path("missing path"));
    }
    let mut i: usize = 0;
    while i < parts.len()
        invariant
            i <= parts.len(),
            forall|k: int| 0 <= k < i ==> !bad_name(#[trigger] texts(parts@)[k]),
        decreases parts.len() - i,
    {
        assert(parts@[i as int]@ == texts(parts@)[i as int]);
        validate_component(parts[i])?;
        i += 1;
    }
    Ok(join_text(parts, '/'))
}

fn join_kv_key(parts: &[&str]) -> (key: Result<String, EventFsError>)
    ensures
        outcome(key) == guarded(key_problem(texts(parts@)), join(texts(parts@), '/')),
{
    let key = join_path(parts)?;
    validate_kv_key(key.as_str())?;
    Ok(key)
}

fn parse_sequence_file(value: &str) -> (sequence: Result<u64, EventFsError>)
    ensures
        match sequence {
            Ok(sequence) => sequence_of_file(value@) == Ok::<u64, EventFsError<Text>>(sequence),
            Err(error) => sequence_of_file(value@) == Err::<u64, EventFsError<Text>>(error@),
        },
{
    let stem = match without_suffix(value, ".json") {
        Some(stem) => stem,
        None => {
            return Err(EventFsError::invalid_path("stream message files must end in .json"));
        },
    };
    match read_number(stem) {
        Some(sequence) => Ok(sequence),
        None => Err(EventFsError::invalid_path("stream message sequence must be numeric")),
    }
}

fn parse_event_file(value: &str) -> (stream: Result<String, EventFsError>)
    ensures
        outcome(stream) == stream_of_event_file(value@),
{
    let stem = match without_suffix(value, ".jsonl") {
        Some(stem) => stem,
        None => {
            let message = concat2("event files", " must end in .jsonl");
            return Err(EventFsError::invalid_path(message.as_str()));
        },
    };
    validate_stream(stem)?;
    Ok(stem.to_owned())
}

fn validate_json_file(value: &str, label: &str) -> (result: Result<(), EventFsError>)
    ensures
        reports(result, json_file_problem(value@, label@)),
{
    if without_suffix(value, ".json").is_some() {
        validate_component(value)?;
        validate_kv_key(value)
    } else {
        let message = concat2(label, " must end in .json");
        Err(EventFsError::invalid_path(message.as_str()))
    }
}

fn validate_bucket(value: &str) -> (result: Result<(), EventFsError>)
    ensures
        reports(result, token_problem(value@, "bucket"@)),
{
    validate_token(value, "bucket")
}

fn validate_stream(value: &str) -> (result: Result<(), EventFsError>)
    ensures
        reports(result, token_problem(value@, "stream"@)),
{
    validate_token(value, "stream")
}

fn validate_materialized_root_name(value: &str, label: &str) -> (result: Result<(), EventFsError>)
    ensures
        reports(result, root_name_problem(value@, label@)),
{
    validate_token(value, label)?;
    if is_reserved_kv_key(value) {
        let message = concat2(label, " uses a reserved internal KV prefix");
        Err(EventFsError::invalid_path(message.as_str()))
    } else {
        Ok(())
    }
}

fn validate_subject(value: &str) -> (result: Result<(), EventFsError>)
    ensures
        reports(result, subject_problem(value@)),
{
    if value.is_empty() || begins_with(value, '.') || finishes_with(value, '.')
        || holds_double_dot(value) {
        return Err(EventFsError::invalid_path("invalid subject"));
    }
    let chars = chars_of(value);
    let mut i: usize = 0;
    while i < chars.len()
        invariant
            i <= chars.len(),
            chars@ == value@,
            forall|k: int| 0 <= k < i ==> !forbidden_in_subject(#[trigger] value@[k]),
        decreases chars.len() - i,
    {
        let ch = chars[i];
        if is_control(ch) || is_white_space(ch) || ch == '*' || ch == '>' {
            assert(forbidden_in_subject(value@[i as int]));
            return Err(EventFsError::invalid_path("invalid subject"));
        }
        i += 1;
    }
    Ok(())
}

fn validate_token(value: &str, label: &str) -> (result: Result<(), EventFsError>)
    ensures
        reports(result, token_problem(value@, label@)),
{
    if value.is_empty() {
        let message = concat2("missing ", label);
        return Err(EventFsError::invalid_path(message.as_str()));
    }
    let chars = chars_of(value);
    let mut i: usize = 0;
    while i < chars.len()
        invariant
            i <= chars.len(),
            chars@ == value@,
            value@.len() > 0,
            forall|k: int| 0 <= k < i ==> token_char(#[trigger] value@[k]),
        decreases chars.len() - i,
    {
        let ch = chars[i];
        if !(is_ascii_alphanumeric(ch) || ch == '_' || ch == '-') {
            assert(!token_char(value@[i as int]));
            let message = concat2("invalid ", label);
            return Err(EventFsError::invalid_path(message.as_str()));
        }
        i += 1;
    }
    Ok(())
}

fn validate_component(value: &str) -> (result: Result<(), EventFsError>)
    ensures
        reports(result, component_problem(value@)),
{
    if value.is_empty() || begins_with(value, '.') || has_char(value, '\0') {
        return Err(EventFsError::invalid_path("invalid path component"));
    }
    Ok(())
}

fn validate_kv_key(value: &str) -> (result: Result<(), EventFsError>)
    ensures
        reports(result, kv_key_problem(value@)),
{
    if value.is_empty() || begins_with(value, '.') || finishes_with(value, '.') {
        return Err(EventFsError::invalid_path("invalid kv key"));
    }
    if is_reserved_kv_key(value) {
        return Err(EventFsError::invalid_path("kv key uses a reserved internal prefix"));
    }
    let chars = chars_of(value);
    let mut i: usize = 0;
    while i < chars.len()
        invariant
            i <= chars.len(),
            chars@ == value@,
            value@.len() > 0,
            value@[0] != '.',
            value@.last() != '.',
            !reserved_key(value@),
            forall|k: int| 0 <= k < i ==> key_char(#[trigger] value@[k]),
        decreases chars.len() - i,
    {
        let ch = chars[i];
        if !(is_ascii_alphanumeric(ch) || ch == '-' || ch == '_' || ch == '=' || ch == '.' || ch
            == '/') {
            assert(!key_char(value@[i as int]));
            return Err(EventFsError::invalid_path("invalid kv key"));
        }
        i += 1;
    }
    Ok(())
}

/// Whether a key belongs to the mount's own bookkeeping.
pub fn is_reserved_kv_key(key: &str) -> (reserved: bool)
    ensures
        reserved == reserved_key(key@),
{
    key_has_reserved_prefix(key, KV_WRITEBACK_MARKER_KEY_PREFIX) || key_has_reserved_prefix(
        key,
        KV_APPLIED_MARKER_KEY_PREFIX,
    )
}

fn key_has_reserved_prefix(key: &str, prefix: &str) -> (reserved: bool)
    ensures
        reserved == under_prefix(key@, prefix@),
{
    match without_prefix(key, prefix) {
        Some(rest) => {
            assert(rest@ == key@.skip(prefix@.len() as int));
            rest.is_empty() || begins_with(rest, '.') || begins_with(rest, '/')
        },
        None => false,
    }
}

fn record_text1(name: &str, first: (&str, String)) -> (text: String)
    ensures
        text@ == record1(name@, (first.0@, first.1@)),
{
    let mut text = name.to_owned();
    text.append(" { ");
    text.append(first.0);
    text.append(": ");
    text.append(first.1.as_str());
    text.append(" }");
    text
}

fn record_text2(name: &str, first: (&str, String), second: (&str, String)) -> (text: String)
    ensures
        text@ == record2(name@, (first.0@, first.1@), (second.0@, second.1@)),
{
    let mut text = name.to_owned();
    text.append(" { ");
    text.append(first.0);
    text.append(": ");
    text.append(first.1.as_str());
    text.append(", ");
    text.append(second.0);
    text.append(": ");
    text.append(second.1.as_str());
    text.append(" }");
    text
}

fn record_text3(
    name: &str,
    first: (&str, String),
    second: (&str, String),
    third: (&str, String),
) -> (text: String)
    ensures
        text@ == record3(name@, (first.0@, first.1@), (second.0@, second.1@), (third.0@, third.1@)),
{
    let mut text = name.to_owned();
    text.append(" { ");
    text.append(first.0);
    text.append(": ");
    text.append(first.1.as_str());
    text.append(", ");
    text.append(second.0);
    text.append(": ");
    text.append(second.1.as_str());
    text.append(", ");
    text.append(third.0);
    text.append(": ");
    text.append(third.1.as_str());
    text.append(" }");
    text
}

} // verus!
