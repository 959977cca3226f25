//! What the storage itself holds: the kinds of its paths, the entries of its
//! directories and the content of its logs.

use vstd::prelude::*;

use crate::entries::{
    directories_of, event_logs_of, lists_name, listing, message_sequence, names_as_dirs,
    names_as_event_files, sequence_of, DirectoryEntry, Entry, EntryKind,
};
use crate::errno;
use crate::file_names::{stream_subject_file_name_from_str, subject_file_name};
use crate::inquiry::{
    plain_outcome, revision_models, step_outcome, Inquiry, ObjectMetadata, Pause, Request,
    Revision, Step, Stop, StorageFailure, StorageRequest, Talk,
};
use crate::jsonl::{append_json_line, copy_bytes, line_bytes};
use crate::numbers::{decimal, decimal_text};
use crate::overlay::{FileSnapshot, Snapshot};
use crate::path::JetStreamPath;
use crate::plan::{
    entry_models, plan_operation, readdir_plan, FileIntent, JetStreamAction,
    StaticDirectoryEntry, StaticEntryKind,
};
use crate::subjects::{MaterializedTarget, AGENTS_BUCKET, SEMANTIC_BUCKET, TASKS_BUCKET};
use crate::text::{
    concat2, law_text_order_is_strict_and_total, precedes, same_text, string_texts, text_less, Text,
};
use crate::versions::{later_time, max_system_time, Time, VersionStamp};

verus! {

/// Whether a path of the storage is a file, a directory or nothing.
#[derive(Clone, Copy, Debug, PartialEq, Eq, Structural)]
pub enum DynamicPathKind {
    Missing,
    File,
    Directory,
}

// ---------------------------------------------------------------------------
// What the storage is asked
// ---------------------------------------------------------------------------

/// The kind of a key's path: a file if the key has a value, and otherwise a directory
/// if other keys lie below it.
pub open spec fn kv_kind(talk: Talk, bucket: Text, key: Text) -> Step<DynamicPathKind> {
    let (value, talk) = talk.value(StorageRequest::KvGet { bucket, key });
    match value {
        Err(stop) => (Err(stop), talk),
        Ok(Some(_)) => (Ok(DynamicPathKind::File), talk),
        Ok(None) => {
            let (below, talk) = talk.entries(StorageRequest::ListKvPrefix { bucket, prefix: key });
            match below {
                Err(stop) => (Err(stop), talk),
                Ok(below) => (
                    Ok(
                        if below.len() == 0 {
                            DynamicPathKind::Missing
                        } else {
                            DynamicPathKind::Directory
                        },
                    ),
                    talk,
                ),
            }
        },
    }
}

/// The kind of an object's path: a file if there is such an object, and otherwise a
/// directory if other objects lie below it.
pub open spec fn object_kind(talk: Talk, bucket: Text, object: Text) -> Step<DynamicPathKind> {
    let (info, talk) = talk.object_info(StorageRequest::ObjectMetadata { bucket, object });
    match info {
        Err(stop) => (Err(stop), talk),
        Ok(Some(_)) => (Ok(DynamicPathKind::File), talk),
        Ok(None) => {
            let (below, talk) = talk.entries(
                StorageRequest::ListObjectPrefix { bucket, prefix: object },
            );
            match below {
                Err(stop) => (Err(stop), talk),
                Ok(below) => (
                    Ok(
                        if below.len() == 0 {
                            DynamicPathKind::Missing
                        } else {
                            DynamicPathKind::Directory
                        },
                    ),
                    talk,
                ),
            }
        },
    }
}

/// That a name is among those that the storage lists; `ENOENT` where it is not.
pub open spec fn required(step: Step<Seq<Text>>, name: Text) -> Step<()> {
    match step.0 {
        Err(stop) => (Err(stop), step.1),
        Ok(names) => if names.contains(name) {
            (Ok(()), step.1)
        } else {
            (Err(Pause::Fail(errno::ENOENT)), step.1)
        },
    }
}

/// The messages of a stream. A stream that is not there has none, if that is allowed.
pub open spec fn stream_messages(talk: Talk, stream: Text, allow_missing: bool) -> Step<
    Seq<Entry>,
> {
    let (answer, talk) = talk.try_entries(StorageRequest::ListStreamMessages { stream });
    match answer {
        Err(stop) => (Err(stop), talk),
        Ok(Err(StorageFailure::NotFound)) if allow_missing => (Ok(Seq::empty()), talk),
        Ok(answer) => talk.settle(answer),
    }
}

/// Whether a stream has messages of a subject.
pub open spec fn subject_known(talk: Talk, stream: Text, subject: Text) -> Step<bool> {
    let (entries, talk) = talk.entries(StorageRequest::ListStreamSubjects { stream });
    match entries {
        Err(stop) => (Err(stop), talk),
        Ok(entries) => (Ok(lists_name(entries, subject_file_name(subject))), talk),
    }
}

/// The lines of a subject and the time of the latest of them, from the messages of
/// its stream one after another.
pub open spec fn collected(
    talk: Talk,
    stream: Text,
    subject: Text,
    entries: Seq<Entry>,
    bytes: Seq<u8>,
    newest: Option<Time>,
) -> Step<(Seq<u8>, Option<Time>)>
    decreases entries.len(),
{
    if entries.len() == 0 {
        (Ok((bytes, newest)), talk)
    } else {
        match sequence_of(entries[0]) {
            None => collected(talk, stream, subject, entries.drop_first(), bytes, newest),
            Some(sequence) => {
                let (message, talk) = talk.message(
                    StorageRequest::StreamMessage { stream, sequence },
                );
                match message {
                    Err(stop) => (Err(stop), talk),
                    Ok(message) => if message.subject == subject {
                        collected(
                            talk,
                            stream,
                            subject,
                            entries.drop_first(),
                            bytes + line_bytes(message.payload),
                            Some(later_time(newest, message.published)),
                        )
                    } else {
                        collected(talk, stream, subject, entries.drop_first(), bytes, newest)
                    },
                }
            },
        }
    }
}

/// The log of a subject. It dates from its latest line, or from the mount if it has
/// none.
pub open spec fn subject_log(
    talk: Talk,
    stream: Text,
    subject: Text,
    allow_missing: bool,
    mounted_at: Time,
) -> Step<Snapshot> {
    let (entries, talk) = stream_messages(talk, stream, allow_missing);
    match entries {
        Err(stop) => (Err(stop), talk),
        Ok(entries) => {
            let (log, talk) = collected(talk, stream, subject, entries, Seq::empty(), None);
            match log {
                Err(stop) => (Err(stop), talk),
                Ok((bytes, newest)) => (
                    Ok(
                        FileSnapshot {
                            bytes,
                            version: VersionStamp::of(
                                match newest {
                                    Some(newest) => newest,
                                    None => mounted_at,
                                },
                            ),
                        },
                    ),
                    talk,
                ),
            }
        },
    }
}

/// The content of a materialized file.
pub open spec fn materialized(
    talk: Talk,
    target: MaterializedTarget<Text>,
    mounted_at: Time,
) -> Step<Snapshot> {
    match target {
        MaterializedTarget::Kv { bucket, key } => {
            let (value, talk) = talk.value(StorageRequest::KvGet { bucket, key });
            match value {
                Err(stop) => (Err(stop), talk),
                Ok(None) => (Err(Pause::Fail(errno::ENOENT)), talk),
                Ok(Some(entry)) => (
                    Ok(FileSnapshot { bytes: entry.bytes, version: VersionStamp::of(entry.created) }),
                    talk,
                ),
            }
        },
        MaterializedTarget::Stream { stream, subject } => subject_log(
            talk,
            stream,
            subject,
            true,
            mounted_at,
        ),
    }
}

/// The files of revisions.
pub open spec fn revision_files(revisions: Seq<Revision>) -> Seq<Entry> {
    revisions.map_values(
        |revision: Revision| DirectoryEntry {
            name: "@"@ + decimal(revision.revision as nat),
            kind: EntryKind::File,
        },
    )
}

/// The list with more entries, each unless its name is there already.
pub open spec fn with_new_entries(entries: Seq<Entry>, more: Seq<Entry>) -> Seq<Entry>
    decreases more.len(),
{
    if more.len() == 0 {
        entries
    } else {
        let before = with_new_entries(entries, more.drop_last());
        if lists_name(before, more.last().name) {
            before
        } else {
            before.push(more.last())
        }
    }
}

/// The entries of a key's history: its revisions, and the keys below it.
pub open spec fn history_entries(talk: Talk, bucket: Text, key: Text) -> Step<Seq<Entry>> {
    let (revisions, talk) = talk.revisions(StorageRequest::KvHistory { bucket, key });
    match revisions {
        Err(stop) => (Err(stop), talk),
        Ok(revisions) => {
            let (below, talk) = talk.entries(
                StorageRequest::ListKvHistoryPrefix { bucket, prefix: key },
            );
            match below {
                Err(stop) => (Err(stop), talk),
                Ok(below) => (Ok(with_new_entries(revision_files(revisions), below)), talk),
            }
        },
    }
}

/// The first place whose name comes after the given one.
pub open spec fn name_place(names: Seq<Text>, name: Text) -> int
    decreases names.len(),
{
    if names.len() == 0 || text_less(name, names[0]) {
        0
    } else {
        1 + name_place(names.drop_first(), name)
    }
}

/// The names in order with one more, unless it is there already.
pub open spec fn with_name(names: Seq<Text>, name: Text) -> Seq<Text> {
    if names.contains(name) {
        names
    } else {
        names.insert(name_place(names, name), name)
    }
}

/// The names in order with more names.
pub open spec fn with_names(names: Seq<Text>, more: Seq<Text>) -> Seq<Text>
    decreases more.len(),
{
    if more.len() == 0 {
        names
    } else {
        with_name(with_names(names, more.drop_last()), more.last())
    }
}

/// Whether names are in order, each once.
pub open spec fn names_in_order(names: Seq<Text>) -> bool {
    forall|i: int, j: int| 0 <= i < j < names.len() ==> text_less(#[trigger] names[i], #[trigger] names[j])
}

proof fn lemma_name_place(names: Seq<Text>, name: Text)
    ensures
        0 <= name_place(names, name) <= names.len(),
        forall|i: int|
            0 <= i < name_place(names, name) ==> !text_less(name, #[trigger] names[i]),
        name_place(names, name) < names.len() ==> text_less(name, names[name_place(names, name)]),
    decreases names.len(),
{
    if names.len() > 0 && !text_less(name, names[0]) {
        let rest = names.drop_first();
        lemma_name_place(rest, name);
        assert forall|i: int| 0 <= i < name_place(names, name) implies !text_less(
            name,
            #[trigger] names[i],
        ) by {
            if i > 0 {
                assert(names[i] == rest[i - 1]);
            }
        }
    }
}

proof fn lemma_with_name(names: Seq<Text>, name: Text, other: Text)
    requires
        names_in_order(names),
    ensures
        names_in_order(with_name(names, name)),
        with_name(names, name).contains(other) == (names.contains(other) || other == name),
{
    if !names.contains(name) {
        let at = name_place(names, name);
        let after = names.insert(at, name);
        lemma_name_place(names, name);
        assert forall|i: int, j: int| 0 <= i < j < after.len() implies text_less(
            #[trigger] after[i],
            #[trigger] after[j],
        ) by {
            if j < at {
            } else if j == at {
                assert(names[i] != name);
                law_text_order_is_strict_and_total(names[i], name, name);
            } else if i == at {
                if j > at + 1 {
                    law_text_order_is_strict_and_total(name, names[at], names[j - 1]);
                }
            }
        }
        if names.contains(other) {
            let k = choose|k: int| 0 <= k < names.len() && names[k] == other;
            assert(after[if k < at {
                k
            } else {
                k + 1
            }] == other);
        }
        assert(after[at] == name);
        if after.contains(other) && other != name {
            let k = choose|k: int| 0 <= k < after.len() && after[k] == other;
            assert(names[if k < at {
                k
            } else {
                k - 1
            }] == other);
        }
    }
}

/// Names that are gathered are listed in order, each once, and none is lost or made up.
pub proof fn law_gathered_names_are_listed_once_in_order(
    names: Seq<Text>,
    more: Seq<Text>,
    name: Text,
)
    requires
        names_in_order(names),
    ensures
        names_in_order(with_names(names, more)),
        with_names(names, more).contains(name) == (names.contains(name) || more.contains(name)),
    decreases more.len(),
{
    if more.len() > 0 {
        let front = more.drop_last();
        law_gathered_names_are_listed_once_in_order(names, front, name);
        lemma_with_name(with_names(names, front), more.last(), name);
        assert(more =~= front.push(more.last()));
        if front.contains(name) {
            let k = choose|k: int| 0 <= k < front.len() && front[k] == name;
            assert(more[k] == name);
        }
        assert(more[more.len() - 1] == more.last());
        if more.contains(name) && name != more.last() {
            let k = choose|k: int| 0 <= k < more.len() && more[k] == name;
            assert(front[k] == name);
        }
    }
}

/// The names of entries.
pub open spec fn names_of(entries: Seq<Entry>) -> Seq<Text> {
    entries.map_values(|entry: Entry| entry.name)
}

/// An answer in which nothing found is nothing there.
pub open spec fn or_nothing<T>(talk: Talk, answer: Result<Seq<T>, StorageFailure<Text>>) -> Step<
    Seq<T>,
> {
    match answer {
        Err(StorageFailure::NotFound) => (Ok(Seq::empty()), talk),
        _ => talk.settle(answer),
    }
}

/// The agents: those with stored files and those with mailboxes, by name.
pub open spec fn agents_root(talk: Talk) -> Step<Seq<Entry>> {
    let (stored, talk) = talk.try_entries(
        StorageRequest::ListKvPrefix { bucket: AGENTS_BUCKET@, prefix: Seq::empty() },
    );
    match stored {
        Err(stop) => (Err(stop), talk),
        Ok(stored) => {
            let (stored, talk) = or_nothing(talk, stored);
            match stored {
                Err(stop) => (Err(stop), talk),
                Ok(stored) => {
                    let (mailboxes, talk) = talk.try_names(StorageRequest::ListAgentNames);
                    match mailboxes {
                        Err(stop) => (Err(stop), talk),
                        Ok(mailboxes) => {
                            let (mailboxes, talk) = or_nothing(talk, mailboxes);
                            match mailboxes {
                                Err(stop) => (Err(stop), talk),
                                Ok(mailboxes) => (
                                    Ok(
                                        directories_of(
                                            with_names(
                                                with_names(Seq::empty(), names_of(stored)),
                                                mailboxes,
                                            ),
                                        ),
                                    ),
                                    talk,
                                ),
                            }
                        },
                    }
                },
            }
        },
    }
}

/// Whether a directory of materialized files is merely empty where its bucket is not
/// there.
pub open spec fn bucket_may_be_missing(path: JetStreamPath<Text>, bucket: Text) -> bool {
    match path {
        JetStreamPath::TasksRoot => bucket == TASKS_BUCKET@,
        JetStreamPath::TaskNamespace { .. } => bucket == TASKS_BUCKET@,
        JetStreamPath::AgentsRoot => bucket == AGENTS_BUCKET@,
        JetStreamPath::AgentDirectory { .. } => bucket == AGENTS_BUCKET@,
        JetStreamPath::SemanticArea { .. } => bucket == SEMANTIC_BUCKET@,
        _ => false,
    }
}

/// The keys below a prefix.
pub open spec fn kv_entries(
    talk: Talk,
    bucket: Text,
    prefix: Text,
    path: JetStreamPath<Text>,
) -> Step<Seq<Entry>> {
    let (answer, talk) = talk.try_entries(StorageRequest::ListKvPrefix { bucket, prefix });
    match answer {
        Err(stop) => (Err(stop), talk),
        Ok(answer) => if bucket_may_be_missing(path, bucket) {
            or_nothing(talk, answer)
        } else {
            talk.settle(answer)
        },
    }
}

/// The entries of a directory that is the same in every mount.
pub open spec fn static_listing(entries: Seq<StaticDirectoryEntry<Text>>) -> Seq<Entry> {
    entries.map_values(
        |entry: StaticDirectoryEntry<Text>| DirectoryEntry {
            name: entry.name,
            kind: match entry.kind {
                StaticEntryKind::Directory => EntryKind::Directory,
                StaticEntryKind::File => EntryKind::File,
            },
        },
    )
}

/// A list of names as entries.
pub open spec fn named_directories(step: Step<Seq<Text>>) -> Step<Seq<Entry>> {
    match step.0 {
        Ok(names) => (Ok(directories_of(names)), step.1),
        Err(stop) => (Err(stop), step.1),
    }
}

/// A list of streams as event logs.
pub open spec fn named_event_logs(step: Step<Seq<Text>>) -> Step<Seq<Entry>> {
    match step.0 {
        Ok(names) => (Ok(event_logs_of(names)), step.1),
        Err(stop) => (Err(stop), step.1),
    }
}

/// The entries of a directory as the storage has them.
pub open spec fn durable_entries(talk: Talk, path: JetStreamPath<Text>) -> Step<Seq<Entry>> {
    match readdir_plan(path) {
        Err(error) => (Err(Pause::Fail(error.number().0)), talk),
        Ok(JetStreamAction::StaticDirectory { entries }) => (Ok(static_listing(entries)), talk),
        Ok(JetStreamAction::ListKvBuckets) => named_directories(
            talk.names(StorageRequest::ListKvBuckets),
        ),
        Ok(JetStreamAction::ListKvPrefix { bucket, prefix }) => kv_entries(
            talk,
            bucket,
            prefix,
            path,
        ),
        Ok(JetStreamAction::KvHistory { bucket, key }) => history_entries(talk, bucket, key),
        Ok(JetStreamAction::ListKvHistoryPrefix { bucket, prefix }) => talk.entries(
            StorageRequest::ListKvHistoryPrefix { bucket, prefix },
        ),
        Ok(JetStreamAction::ListStreams) => named_directories(
            talk.names(StorageRequest::ListStreams),
        ),
        Ok(JetStreamAction::ListEventLogs) => named_event_logs(
            talk.names(StorageRequest::ListStreams),
        ),
        Ok(JetStreamAction::ListAgents) => agents_root(talk),
        Ok(JetStreamAction::ListStreamMessages { stream }) => stream_messages(talk, stream, false),
        Ok(JetStreamAction::ListStreamSubjects { stream }) => talk.entries(
            StorageRequest::ListStreamSubjects { stream },
        ),
        Ok(JetStreamAction::ListObjectBuckets) => named_directories(
            talk.names(StorageRequest::ListObjectBuckets),
        ),
        Ok(JetStreamAction::ListObjectPrefix { bucket, prefix }) => talk.entries(
            StorageRequest::ListObjectPrefix { bucket, prefix },
        ),
        Ok(JetStreamAction::NoopDirectory) => (Ok(Seq::empty()), talk),
        Ok(_) => (Err(Pause::Fail(errno::ENOTDIR)), talk),
    }
}

/// Whether the storage has a value under exactly this path.
pub open spec fn exact_file(talk: Talk, path: JetStreamPath<Text>) -> Step<bool> {
    match path {
        JetStreamPath::KvKey { bucket, key } => has_value(talk, bucket, key),
        JetStreamPath::Object { bucket, object } => {
            let (info, talk) = talk.object_info(StorageRequest::ObjectMetadata { bucket, object });
            match info {
                Err(stop) => (Err(stop), talk),
                Ok(info) => (Ok(info is Some), talk),
            }
        },
        JetStreamPath::AgentRecord { .. } | JetStreamPath::SemanticRecord {
            ..
        } => match MaterializedTarget::of(path) {
            Some(MaterializedTarget::Kv { bucket, key }) => has_value(talk, bucket, key),
            _ => (Ok(false), talk),
        },
        _ => (Ok(false), talk),
    }
}

/// Whether a key has a value.
pub open spec fn has_value(talk: Talk, bucket: Text, key: Text) -> Step<bool> {
    let (value, talk) = talk.value(StorageRequest::KvGet { bucket, key });
    match value {
        Err(stop) => (Err(stop), talk),
        Ok(value) => (Ok(value is Some), talk),
    }
}

/// The stream and subject behind a log.
pub open spec fn log_target(path: JetStreamPath<Text>) -> Option<(Text, Text)> {
    match path {
        JetStreamPath::StreamSubject { stream, subject } => Some((stream, subject.0)),
        _ => match MaterializedTarget::of(path) {
            Some(MaterializedTarget::Stream { stream, subject }) => Some((stream, subject)),
            _ => None,
        },
    }
}

// ---------------------------------------------------------------------------
// Asking
// ---------------------------------------------------------------------------

/// The request for a key's value.
pub open spec fn value_request(bucket: Text, key: Text) -> Request {
    StorageRequest::KvGet { bucket, key }
}

fn text_request(bucket: &str, key: &str) -> (request: StorageRequest)
    ensures
        request@ == value_request(bucket@, key@),
{
    StorageRequest::KvGet { bucket: bucket.to_owned(), key: key.to_owned() }
}

/// The kind of a key's path.
pub fn classify_kv_dynamic_path(inquiry: &mut Inquiry, bucket: &str, key: &str) -> (result: Result<
    DynamicPathKind,
    Pause,
>)
    ensures
        (plain_outcome(result), final(inquiry)@) == kv_kind(old(inquiry)@, bucket@, key@),
{
    if inquiry.value(text_request(bucket, key))?.is_some() {
        return Ok(DynamicPathKind::File);
    }
    let below = inquiry.entries(
        StorageRequest::ListKvPrefix { bucket: bucket.to_owned(), prefix: key.to_owned() },
    )?;
    assert(listing(below@).len() == below@.len());
    if below.len() == 0 {
        Ok(DynamicPathKind::Missing)
    } else {
        Ok(DynamicPathKind::Directory)
    }
}

/// The kind of an object's path.
pub fn classify_object_dynamic_path(inquiry: &mut Inquiry, bucket: &str, object: &str) -> (result:
    Result<DynamicPathKind, Pause>)
    ensures
        (plain_outcome(result), final(inquiry)@) == object_kind(old(inquiry)@, bucket@, object@),
{
    if object_metadata(inquiry, bucket, object)?.is_some() {
        return Ok(DynamicPathKind::File);
    }
    let below = inquiry.entries(
        StorageRequest::ListObjectPrefix { bucket: bucket.to_owned(), prefix: object.to_owned() },
    )?;
    assert(listing(below@).len() == below@.len());
    if below.len() == 0 {
        Ok(DynamicPathKind::Missing)
    } else {
        Ok(DynamicPathKind::Directory)
    }
}

/// What is known of an object.
pub fn object_metadata(inquiry: &mut Inquiry, bucket: &str, object: &str) -> (result: Result<
    Option<ObjectMetadata>,
    Pause,
>)
    ensures
        (plain_outcome(result), final(inquiry)@) == old(inquiry)@.object_info(
            StorageRequest::ObjectMetadata { bucket: bucket@, object: object@ },
        ),
{
    inquiry.object_info(
        StorageRequest::ObjectMetadata { bucket: bucket.to_owned(), object: object.to_owned() },
    )
}

fn require_name(names: &Vec<String>, name: &str) -> (result: Result<(), Pause>)
    ensures
        plain_outcome(result) == (if string_texts(names@).contains(name@) {
            Ok::<(), Stop>(())
        } else {
            Err(Pause::Fail(errno::ENOENT))
        }),
{
    if contains_name(names, name) {
        Ok(())
    } else {
        Err(Pause::Fail(errno::enoent()))
    }
}

fn contains_name(names: &Vec<String>, name: &str) -> (found: bool)
    ensures
        found == string_texts(names@).contains(name@),
{
    let ghost models = string_texts(names@);
    let mut i: usize = 0;
    while i < names.len()
        invariant
            i <= names.len(),
            models == string_texts(names@),
            forall|k: int| 0 <= k < i ==> models[k] != name@,
        decreases names.len() - i,
    {
        assert(models[i as int] == names@[i as int]@);
        if same_text(names[i].as_str(), name) {
            assert(models[i as int] == name@);
            return true;
        }
        i += 1;
    }
    false
}

/// That there is such a bucket; `ENOENT` where there is none.
pub fn require_kv_bucket(inquiry: &mut Inquiry, bucket: &str) -> (result: Result<(), Pause>)
    ensures
        (plain_outcome(result), final(inquiry)@) == required(
            old(inquiry)@.names(StorageRequest::ListKvBuckets),
            bucket@,
        ),
{
    let buckets = inquiry.names(StorageRequest::ListKvBuckets)?;
    require_name(buckets, bucket)
}

/// That there is such a stream; `ENOENT` where there is none.
pub fn require_stream(inquiry: &mut Inquiry, stream: &str) -> (result: Result<(), Pause>)
    ensures
        (plain_outcome(result), final(inquiry)@) == required(
            old(inquiry)@.names(StorageRequest::ListStreams),
            stream@,
        ),
{
    let streams = inquiry.names(StorageRequest::ListStreams)?;
    require_name(streams, stream)
}

/// That there is such an object bucket; `ENOENT` where there is none.
pub fn require_object_bucket(inquiry: &mut Inquiry, bucket: &str) -> (result: Result<(), Pause>)
    ensures
        (plain_outcome(result), final(inquiry)@) == required(
            old(inquiry)@.names(StorageRequest::ListObjectBuckets),
            bucket@,
        ),
{
    let buckets = inquiry.names(StorageRequest::ListObjectBuckets)?;
    require_name(buckets, bucket)
}

/// What a step that lists entries returned.
pub open spec fn entries_outcome(result: Result<Vec<DirectoryEntry>, Pause>) -> Result<
    Seq<Entry>,
    Stop,
> {
    match result {
        Ok(entries) => Ok(listing(entries@)),
        Err(pause) => Err(pause@),
    }
}

fn copy_entries(entries: &Vec<DirectoryEntry>) -> (copy: Vec<DirectoryEntry>)
    ensures
        listing(copy@) == listing(entries@),
{
    let mut copy: Vec<DirectoryEntry> = Vec::new();
    let mut i: usize = 0;
    while i < entries.len()
        invariant
            i <= entries.len(),
            copy.len() == i,
            forall|k: int| 0 <= k < i ==> (#[trigger] copy[k])@ == entries[k]@,
        decreases entries.len() - i,
    {
        copy.push(entries[i].clone());
        i += 1;
    }
    assert(listing(copy@) =~= listing(entries@));
    copy
}

fn no_entries() -> (entries: Vec<DirectoryEntry>)
    ensures
        listing(entries@) == Seq::<Entry>::empty(),
{
    let entries: Vec<DirectoryEntry> = Vec::new();
    assert(listing(entries@) =~= Seq::empty());
    entries
}

fn listed(inquiry: &mut Inquiry, request: StorageRequest) -> (result: Result<
    Vec<DirectoryEntry>,
    Pause,
>)
    ensures
        (entries_outcome(result), final(inquiry)@) == old(inquiry)@.entries(request@),
{
    let entries = inquiry.entries(request)?;
    Ok(copy_entries(entries))
}

/// The messages of a stream.
pub fn list_stream_messages(inquiry: &mut Inquiry, stream: &str, allow_missing_empty: bool) -> (result:
    Result<Vec<DirectoryEntry>, Pause>)
    ensures
        (entries_outcome(result), final(inquiry)@) == stream_messages(
            old(inquiry)@,
            stream@,
            allow_missing_empty,
        ),
{
    match inquiry.try_entries(StorageRequest::ListStreamMessages { stream: stream.to_owned() })? {
        Ok(entries) => Ok(copy_entries(entries)),
        Err(failure) => {
            if allow_missing_empty {
                if let StorageFailure::NotFound = failure {
                    return Ok(no_entries());
                }
            }
            Err(inquiry.fail(failure))
        },
    }
}

/// Whether a stream has messages of a subject.
pub fn stream_subject_exists(inquiry: &mut Inquiry, stream: &str, subject: &str) -> (result: Result<
    bool,
    Pause,
>)
    ensures
        (plain_outcome(result), final(inquiry)@) == subject_known(
            old(inquiry)@,
            stream@,
            subject@,
        ),
{
    let file = stream_subject_file_name_from_str(subject);
    let entries = inquiry.entries(
        StorageRequest::ListStreamSubjects { stream: stream.to_owned() },
    )?;
    Ok(has_entry(entries, file.as_str()))
}

fn has_entry(entries: &Vec<DirectoryEntry>, name: &str) -> (found: bool)
    ensures
        found == lists_name(listing(entries@), name@),
{
    let ghost models = listing(entries@);
    let mut i: usize = 0;
    while i < entries.len()
        invariant
            i <= entries.len(),
            models == listing(entries@),
            forall|k: int| 0 <= k < i ==> (#[trigger] models[k]).name != name@,
        decreases entries.len() - i,
    {
        assert(models[i as int] == entries@[i as int]@);
        if same_text(entries[i].name.as_str(), name) {
            return true;
        }
        i += 1;
    }
    false
}

/// The log of a subject.
pub fn read_stream_subject(
    inquiry: &mut Inquiry,
    stream: &str,
    subject: &str,
    allow_missing: bool,
    mounted_at: Time,
) -> (result: Result<FileSnapshot, Pause>)
    ensures
        (step_outcome(result), final(inquiry)@) == subject_log(
            old(inquiry)@,
            stream@,
            subject@,
            allow_missing,
            mounted_at,
        ),
{
    let entries = list_stream_messages(inquiry, stream, allow_missing)?;
    collect_stream_subject_snapshot(inquiry, stream, subject, &entries, mounted_at)
}

/// The log of a subject, from the messages of its stream.
pub fn collect_stream_subject_snapshot(
    inquiry: &mut Inquiry,
    stream: &str,
    subject: &str,
    entries: &Vec<DirectoryEntry>,
    mounted_at: Time,
) -> (result: Result<FileSnapshot, Pause>)
    ensures
        ({
            let (log, talk) = collected(
                old(inquiry)@,
                stream@,
                subject@,
                listing(entries@),
                Seq::empty(),
                None,
            );
            &&& final(inquiry)@ == talk
            &&& match (step_outcome(result), log) {
                (Ok(snapshot), Ok((bytes, newest))) => snapshot == (FileSnapshot {
                    bytes,
                    version: VersionStamp::of(
                        match newest {
                            Some(newest) => newest,
                            None => mounted_at,
                        },
                    ),
                }),
                (Err(stop), Err(expected)) => stop == expected,
                _ => false,
            }
        }),
{
    let ghost models = listing(entries@);
    let ghost start = inquiry@;
    let mut bytes: Vec<u8> = Vec::new();
    let mut newest: Option<Time> = None;
    let mut i: usize = 0;
    assert(models.skip(0) =~= models);
    while i < entries.len()
        invariant
            i <= entries.len(),
            models == listing(entries@),
            start == old(inquiry)@,
            collected(start, stream@, subject@, models, Seq::empty(), None) == collected(
                inquiry@,
                stream@,
                subject@,
                models.skip(i as int),
                bytes@,
                newest,
            ),
        decreases entries.len() - i,
    {
        assert(models.skip(i as int)[0] == entries@[i as int]@);
        assert(models.skip(i as int).drop_first() =~= models.skip(i + 1));
        if let Some(sequence) = message_sequence(&entries[i]) {
            let message = inquiry.message(
                StorageRequest::StreamMessage { stream: stream.to_owned(), sequence },
            )?;
            if same_text(message.subject.as_str(), subject) {
                append_json_line(&mut bytes, message.payload.as_slice());
                newest = Some(max_system_time(newest, message.published));
            }
        }
        i += 1;
    }
    let time = match newest {
        Some(newest) => newest,
        None => mounted_at,
    };
    Ok(FileSnapshot { bytes, version: VersionStamp::at(time) })
}

/// The content of a materialized file.
pub fn read_materialized(
    inquiry: &mut Inquiry,
    target: &MaterializedTarget,
    mounted_at: Time,
) -> (result: Result<FileSnapshot, Pause>)
    ensures
        (step_outcome(result), final(inquiry)@) == materialized(
            old(inquiry)@,
            target@,
            mounted_at,
        ),
{
    match target {
        MaterializedTarget::Kv { bucket, key } => {
            match inquiry.value(text_request(bucket.as_str(), key.as_str()))? {
                Some(entry) => Ok(
                    FileSnapshot {
                        bytes: copy_bytes(entry.bytes.as_slice()),
                        version: VersionStamp::at(entry.created),
                    },
                ),
                None => Err(Pause::Fail(errno::enoent())),
            }
        },
        MaterializedTarget::Stream { stream, subject } => read_stream_subject(
            inquiry,
            stream.as_str(),
            subject.as_str(),
            true,
            mounted_at,
        ),
    }
}

/// The entries of a key's history.
pub fn kv_history_directory_entries(inquiry: &mut Inquiry, bucket: &str, key: &str) -> (result:
    Result<Vec<DirectoryEntry>, Pause>)
    ensures
        (entries_outcome(result), final(inquiry)@) == history_entries(
            old(inquiry)@,
            bucket@,
            key@,
        ),
{
    let revisions = inquiry.revisions(
        StorageRequest::KvHistory { bucket: bucket.to_owned(), key: key.to_owned() },
    )?;
    let mut entries: Vec<DirectoryEntry> = Vec::new();
    let mut i: usize = 0;
    while i < revisions.len()
        invariant
            i <= revisions.len(),
            entries.len() == i,
            forall|k: int|
                0 <= k < i ==> (#[trigger] entries[k])@ == (DirectoryEntry {
                    name: "@"@ + decimal(revisions[k].revision as nat),
                    kind: EntryKind::File,
                }),
        decreases revisions.len() - i,
    {
        let number = decimal_text(revisions[i].revision as u128);
        entries.push(
            DirectoryEntry { name: concat2("@", number.as_str()), kind: EntryKind::File },
        );
        i += 1;
    }
    assert(listing(entries@) =~= revision_files(revision_models(revisions@)));
    let below = inquiry.entries(
        StorageRequest::ListKvHistoryPrefix { bucket: bucket.to_owned(), prefix: key.to_owned() },
    )?;
    let ghost files = listing(entries@);
    let ghost models = listing(below@);
    let mut k: usize = 0;
    assert(models.take(0) =~= Seq::empty());
    while k < below.len()
        invariant
            k <= below.len(),
            models == listing(below@),
            listing(entries@) == with_new_entries(files, models.take(k as int)),
        decreases below.len() - k,
    {
        let ghost upto = models.take(k + 1);
        assert(upto.drop_last() =~= models.take(k as int));
        assert(upto.last() == below@[k as int]@);
        if !has_entry(&entries, below[k].name.as_str()) {
            let ghost before = entries@;
            entries.push(below[k].clone());
            assert(listing(entries@) =~= listing(before).push(below@[k as int]@));
        }
        k += 1;
    }
    assert(models.take(models.len() as int) =~= models);
    Ok(entries)
}

fn insert_name(names: &mut Vec<String>, name: &str)
    ensures
        string_texts(final(names)@) == with_name(string_texts(old(names)@), name@),
{
    if contains_name(names, name) {
        return;
    }
    let ghost models = string_texts(names@);
    let ghost before = names@;
    let mut at: usize = 0;
    assert(models.skip(0) =~= models);
    while at < names.len() && !precedes(name, names[at].as_str())
        invariant
            at <= names.len(),
            names@ == before,
            models == string_texts(names@),
            name_place(models, name@) == at + name_place(models.skip(at as int), name@),
        decreases names.len() - at,
    {
        assert(models.skip(at as int)[0] == names@[at as int]@);
        assert(models.skip(at as int).drop_first() =~= models.skip(at + 1));
        at += 1;
    }
    if at < names.len() {
        assert(models.skip(at as int)[0] == names@[at as int]@);
    }
    let owned = name.to_owned();
    names.insert(at, owned);
    assert(string_texts(names@) =~= models.insert(at as int, name@));
}

/// The agents, by name.
pub fn list_agents_root(inquiry: &mut Inquiry) -> (result: Result<Vec<DirectoryEntry>, Pause>)
    ensures
        (entries_outcome(result), final(inquiry)@) == agents_root(old(inquiry)@),
{
    let mut names: Vec<String> = Vec::new();
    assert(string_texts(names@) =~= Seq::empty());
    match inquiry.try_entries(
        StorageRequest::ListKvPrefix { bucket: AGENTS_BUCKET.to_owned(), prefix: String::new() },
    )? {
        Ok(entries) => {
            let ghost models = names_of(listing(entries@));
            let mut i: usize = 0;
            assert(models.take(0) =~= Seq::empty());
            while i < entries.len()
                invariant
                    i <= entries.len(),
                    models == names_of(listing(entries@)),
                    string_texts(names@) == with_names(Seq::empty(), models.take(i as int)),
                decreases entries.len() - i,
            {
                let ghost upto = models.take(i + 1);
                assert(upto.drop_last() =~= models.take(i as int));
                assert(upto.last() == entries@[i as int]@.name);
                insert_name(&mut names, entries[i].name.as_str());
                i += 1;
            }
            assert(models.take(models.len() as int) =~= models);
        },
        Err(StorageFailure::NotFound) => {
            assert(names_of(Seq::empty()) =~= Seq::<Text>::empty());
        },
        Err(failure) => {
            return Err(inquiry.fail(failure));
        },
    }
    let ghost stored = string_texts(names@);
    match inquiry.try_names(StorageRequest::ListAgentNames)? {
        Ok(mailboxes) => {
            let ghost models = string_texts(mailboxes@);
            let mut i: usize = 0;
            assert(models.take(0) =~= Seq::empty());
            while i < mailboxes.len()
                invariant
                    i <= mailboxes.len(),
                    models == string_texts(mailboxes@),
                    string_texts(names@) == with_names(stored, models.take(i as int)),
                decreases mailboxes.len() - i,
            {
                let ghost upto = models.take(i + 1);
                assert(upto.drop_last() =~= models.take(i as int));
                assert(upto.last() == mailboxes@[i as int]@);
                insert_name(&mut names, mailboxes[i].as_str());
                i += 1;
            }
            assert(models.take(models.len() as int) =~= models);
        },
        Err(StorageFailure::NotFound) => {},
        Err(failure) => {
            return Err(inquiry.fail(failure));
        },
    }
    Ok(names_as_dirs(names))
}

/// Whether a directory of materialized files is merely empty where its bucket is not
/// there.
pub fn projection_allows_missing_materialized_kv_bucket(parsed: &JetStreamPath, bucket: &str) -> (yes:
    bool)
    ensures
        yes == bucket_may_be_missing(parsed@, bucket@),
{
    match parsed {
        JetStreamPath::TasksRoot => same_text(bucket, TASKS_BUCKET),
        JetStreamPath::TaskNamespace { .. } => same_text(bucket, TASKS_BUCKET),
        JetStreamPath::AgentsRoot => same_text(bucket, AGENTS_BUCKET),
        JetStreamPath::AgentDirectory { .. } => same_text(bucket, AGENTS_BUCKET),
        JetStreamPath::SemanticArea { .. } => same_text(bucket, SEMANTIC_BUCKET),
        _ => false,
    }
}

fn list_kv_prefix(
    inquiry: &mut Inquiry,
    bucket: &str,
    prefix: &str,
    parsed: &JetStreamPath,
) -> (result: Result<Vec<DirectoryEntry>, Pause>)
    ensures
        (entries_outcome(result), final(inquiry)@) == kv_entries(
            old(inquiry)@,
            bucket@,
            prefix@,
            parsed@,
        ),
{
    match inquiry.try_entries(
        StorageRequest::ListKvPrefix { bucket: bucket.to_owned(), prefix: prefix.to_owned() },
    )? {
        Ok(entries) => Ok(copy_entries(entries)),
        Err(failure) => {
            if projection_allows_missing_materialized_kv_bucket(parsed, bucket) {
                if let StorageFailure::NotFound = failure {
                    return Ok(no_entries());
                }
            }
            Err(inquiry.fail(failure))
        },
    }
}

fn static_entries(entries: &Vec<StaticDirectoryEntry>) -> (list: Vec<DirectoryEntry>)
    ensures
        listing(list@) == static_listing(entry_models(entries@)),
{
    let mut list: Vec<DirectoryEntry> = Vec::new();
    let mut i: usize = 0;
    while i < entries.len()
        invariant
            i <= entries.len(),
            list.len() == i,
            forall|k: int|
                0 <= k < i ==> (#[trigger] list[k])@ == static_listing(entry_models(entries@))[k],
        decreases entries.len() - i,
    {
        let kind = match entries[i].kind {
            StaticEntryKind::Directory => EntryKind::Directory,
            StaticEntryKind::File => EntryKind::File,
        };
        let entry = DirectoryEntry { name: entries[i].name.clone(), kind };
        assert(entry_models(entries@)[i as int] == entries@[i as int]@);
        list.push(entry);
        i += 1;
    }
    assert(listing(list@) =~= static_listing(entry_models(entries@)));
    list
}

fn copy_names(names: &Vec<String>) -> (copy: Vec<String>)
    ensures
        string_texts(copy@) == string_texts(names@),
{
    let mut copy: Vec<String> = Vec::new();
    let mut i: usize = 0;
    while i < names.len()
        invariant
            i <= names.len(),
            copy.len() == i,
            forall|k: int| 0 <= k < i ==> (#[trigger] copy[k])@ == names[k]@,
        decreases names.len() - i,
    {
        copy.push(names[i].clone());
        i += 1;
    }
    assert(string_texts(copy@) =~= string_texts(names@));
    copy
}

/// The entries of a directory as the storage has them.
pub fn durable_directory_entries(inquiry: &mut Inquiry, parsed: &JetStreamPath) -> (result: Result<
    Vec<DirectoryEntry>,
    Pause,
>)
    ensures
        (entries_outcome(result), final(inquiry)@) == durable_entries(old(inquiry)@, parsed@),
{
    let action = match plan_operation(FileIntent::ReadDir, parsed) {
        Ok(action) => action,
        Err(error) => {
            return Err(Pause::Fail(error.errno().get()));
        },
    };
    match action {
        JetStreamAction::StaticDirectory { entries } => Ok(static_entries(&entries)),
        JetStreamAction::ListKvBuckets => {
            let names = inquiry.names(StorageRequest::ListKvBuckets)?;
            Ok(names_as_dirs(copy_names(names)))
        },
        JetStreamAction::ListKvPrefix { bucket, prefix } => list_kv_prefix(
            inquiry,
            bucket.as_str(),
            prefix.as_str(),
            parsed,
        ),
        JetStreamAction::KvHistory { bucket, key } => kv_history_directory_entries(
            inquiry,
            bucket.as_str(),
            key.as_str(),
        ),
        JetStreamAction::ListKvHistoryPrefix { bucket, prefix } => listed(
            inquiry,
            StorageRequest::ListKvHistoryPrefix { bucket, prefix },
        ),
        JetStreamAction::ListStreams => {
            let names = inquiry.names(StorageRequest::ListStreams)?;
            Ok(names_as_dirs(copy_names(names)))
        },
        JetStreamAction::ListEventLogs => {
            let names = inquiry.names(StorageRequest::ListStreams)?;
            Ok(names_as_event_files(copy_names(names)))
        },
        JetStreamAction::ListAgents => list_agents_root(inquiry),
        JetStreamAction::ListStreamMessages { stream } => list_stream_messages(
            inquiry,
            stream.as_str(),
            false,
        ),
        JetStreamAction::ListStreamSubjects { stream } => listed(
            inquiry,
            StorageRequest::ListStreamSubjects { stream },
        ),
        JetStreamAction::ListObjectBuckets => {
            let names = inquiry.names(StorageRequest::ListObjectBuckets)?;
            Ok(names_as_dirs(copy_names(names)))
        },
        JetStreamAction::ListObjectPrefix { bucket, prefix } => listed(
            inquiry,
            StorageRequest::ListObjectPrefix { bucket, prefix },
        ),
        JetStreamAction::NoopDirectory => Ok(no_entries()),
        _ => Err(Pause::Fail(errno::enotdir())),
    }
}

fn key_has_value(inquiry: &mut Inquiry, bucket: &str, key: &str) -> (result: Result<bool, Pause>)
    ensures
        (plain_outcome(result), final(inquiry)@) == has_value(old(inquiry)@, bucket@, key@),
{
    let value = inquiry.value(text_request(bucket, key))?;
    Ok(value.is_some())
}

/// Whether the storage has a value under exactly this path.
pub fn exact_dynamic_file_exists(inquiry: &mut Inquiry, parsed: &JetStreamPath) -> (result: Result<
    bool,
    Pause,
>)
    ensures
        (plain_outcome(result), final(inquiry)@) == exact_file(old(inquiry)@, parsed@),
{
    match parsed {
        JetStreamPath::KvKey { bucket, key } => key_has_value(
            inquiry,
            bucket.as_str(),
            key.as_str(),
        ),
        JetStreamPath::Object { bucket, object } => {
            let info = object_metadata(inquiry, bucket.as_str(), object.as_str())?;
            Ok(info.is_some())
        },
        JetStreamPath::AgentRecord { .. } | JetStreamPath::SemanticRecord { .. } => {
            match MaterializedTarget::from_path(parsed) {
                Some(MaterializedTarget::Kv { bucket, key }) => key_has_value(
                    inquiry,
                    bucket.as_str(),
                    key.as_str(),
                ),
                _ => Ok(false),
            }
        },
        _ => Ok(false),
    }
}

/// The stream and subject behind a log.
pub fn jsonl_target_for_path(parsed: &JetStreamPath) -> (target: Option<(String, String)>)
    ensures
        match target {
            Some((stream, subject)) => log_target(parsed@) == Some((stream@, subject@)),
            None => log_target(parsed@) is None,
        },
{
    match parsed {
        JetStreamPath::StreamSubject { stream, subject } => Some(
            (stream.clone(), subject.as_str().to_owned()),
        ),
        _ => match MaterializedTarget::from_path(parsed) {
            Some(MaterializedTarget::Stream { stream, subject }) => Some((stream, subject)),
            _ => None,
        },
    }
}

} // verus!
